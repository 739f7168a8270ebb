//! Optimal decision policies for finite Markov decision processes.
//!
//! An environment implements the [`StateSpace`] capability; the [`MDP`]
//! engine binds one such environment to a discount factor and a default
//! action and solves it by value iteration or policy iteration, sequentially
//! or as a data-parallel fan-out over independent state sweeps. All
//! quantities are exact fixed-point numbers (see [`fixed`]), so every solver
//! is a deterministic function of the environment's model, and the sequential
//! and parallel variants provably return identical policies.

pub mod bounds;
pub mod engine;
pub mod fixed;
pub mod laws;
pub mod markov_decision_process;
pub mod model;
pub mod par;
pub mod solver;
pub mod table;
pub mod tram;

pub use engine::{Action, Policy, State, StateSpace, MDP};
pub use fixed::{REWARD_LIMIT, SCALE, SWEEP_LIMIT, VALUE_CEIL};
pub use model::MdpError;
pub use table::{TableSpace, Transition};
pub use tram::{Actions, TramSpace};
