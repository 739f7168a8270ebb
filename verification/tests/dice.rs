//! Scenario tests on a dice-stopping game with six faces, three of them
//! bad: quitting banks nothing more, rolling busts with probability 1/2
//! (forfeiting the bankroll) or earns a good face's value. From an empty
//! bankroll the expected value of one optimal roll is
//! (4 + 5 + 6) / 6 = 2.5.

use markov_decision::markov_decision_process::{MDPSolver, MarkovDecisionProcess, StateSpace};
use markov_decision::{TableSpace, Transition, SCALE};

const QUIT: usize = 1;
const ROLL: usize = 2;

/// One fixed-point unit of 0.01.
const EPS: i64 = 10_000;

const CAP: usize = 1_000;

/// States: 0 is the empty bankroll; 1, 2, 3 are bankrolls of 4, 5 and 6
/// after one good roll, where stopping is the only move; 4 is terminal.
/// The three good faces get fixed-point probabilities summing with the
/// bust to one.
fn dice_table() -> TableSpace {
    let terminal = vec![false, false, false, false, true];
    let acts = vec![vec![QUIT, ROLL], vec![QUIT], vec![QUIT], vec![QUIT], vec![]];
    let quit_row = vec![Transition { next: 4, prob: SCALE, reward: 0 }];
    let trans = vec![
        vec![
            quit_row.clone(),
            vec![
                Transition { next: 4, prob: 500_000, reward: 0 },
                Transition { next: 1, prob: 166_666, reward: 4 * SCALE },
                Transition { next: 2, prob: 166_667, reward: 5 * SCALE },
                Transition { next: 3, prob: 166_667, reward: 6 * SCALE },
            ],
        ],
        vec![quit_row.clone()],
        vec![quit_row.clone()],
        vec![quit_row.clone()],
        vec![],
    ];
    TableSpace::new(terminal, acts, trans)
}

#[test]
fn dice_expected_value_matches_direct_computation() {
    let mut mdp = MarkovDecisionProcess::new(dice_table(), 0, SCALE).unwrap();
    let policy = mdp.solve(MDPSolver::VALUE_ITER, EPS, CAP).unwrap();
    assert_eq!(policy, vec![ROLL, QUIT, QUIT, QUIT, 0]);
    let values = mdp.get_learned_values();
    // Exact fixed-point arithmetic: 0.166666 * 4 + 0.166667 * 5
    // + 0.166667 * 6 units.
    assert_eq!(values[0], 2_500_001);
    // Which is the direct probability computation, (4 + 5 + 6) / 6 = 2.5,
    // up to the fixed-point encoding of 1/6.
    let got = values[0] as f64 / SCALE as f64;
    assert!((got - 2.5).abs() < 1e-5, "start-state value was {got}");
    // Banked bankrolls gain nothing more; the terminal state stays zero.
    assert_eq!(&values[1..], &[0, 0, 0, 0]);
}

#[test]
fn dice_value_and_policy_iteration_agree() {
    let mut mdp = MarkovDecisionProcess::new(dice_table(), 0, SCALE).unwrap();
    let by_value = mdp.value_iteration(EPS, CAP).unwrap();
    let values_by_value = mdp.get_learned_values();
    let by_policy = mdp.policy_iteration(EPS, CAP).unwrap();
    let values_by_policy = mdp.get_learned_values();
    assert_eq!(by_value, by_policy);
    assert_eq!(values_by_value.len(), values_by_policy.len());
    for (a, b) in values_by_value.iter().zip(values_by_policy.iter()) {
        assert!((a - b).abs() <= EPS, "value functions differ: {a} vs {b}");
    }
}

#[test]
fn dice_solve_dispatches_on_method() {
    let mut mdp = MarkovDecisionProcess::new(dice_table(), 0, SCALE).unwrap();
    let by_value = mdp.solve(MDPSolver::VALUE_ITER, EPS, CAP).unwrap();
    let by_policy = mdp.solve(MDPSolver::POLICY_ITER, EPS, CAP).unwrap();
    assert_eq!(by_value, by_policy);
}

#[test]
fn dice_update_value_reports_sup_norm_change() {
    let mut mdp = MarkovDecisionProcess::new(dice_table(), 0, SCALE).unwrap();
    // First sweep moves the start state from 0 to its one-roll value.
    let first = mdp.update_value();
    assert_eq!(first, 2_500_001);
    // The game is over after one decision: the second sweep changes
    // nothing.
    let second = mdp.update_value();
    assert_eq!(second, 0);
    assert_eq!(mdp.get_learned_values()[0], 2_500_001);
}

#[test]
fn dice_reset_values_zeroes_the_buffer() {
    let mut mdp = MarkovDecisionProcess::new(dice_table(), 0, SCALE).unwrap();
    mdp.update_value();
    mdp.reset_values();
    assert_eq!(mdp.get_learned_values(), vec![0, 0, 0, 0, 0]);
}

#[test]
fn dice_terminal_state_takes_default_action_and_zero_value() {
    let mut mdp = MarkovDecisionProcess::new(dice_table(), 9, SCALE).unwrap();
    let by_value = mdp.value_iteration(EPS, CAP).unwrap();
    assert_eq!(by_value[4], 9);
    assert_eq!(mdp.get_learned_values()[4], 0);
    let by_policy = mdp.policy_iteration(EPS, CAP).unwrap();
    assert_eq!(by_policy[4], 9);
    assert_eq!(mdp.get_learned_values()[4], 0);
}

#[test]
fn dice_state_space_accessor_returns_the_environment() {
    let mdp = MarkovDecisionProcess::new(dice_table(), 0, SCALE).unwrap();
    assert_eq!(mdp.get_state_space().len(), 5);
}

#[test]
fn dice_parallel_engine_agrees_on_the_table_space() {
    // A table space also serves the engine with the parallel solvers,
    // naming states by their indices.
    let engine = markov_decision::MDP::new(dice_table(), 0, SCALE).unwrap();
    let expected = vec![ROLL, QUIT, QUIT, QUIT, 0];
    assert_eq!(engine.value_iteration(EPS, CAP).unwrap(), expected);
    assert_eq!(engine.par_value_iteration(EPS, CAP).unwrap(), expected);
    assert_eq!(engine.policy_iteration(EPS, CAP).unwrap(), expected);
    assert_eq!(engine.par_policy_iteration(EPS, CAP).unwrap(), expected);
}

#[test]
fn solver_selector_default_is_policy_iteration() {
    assert_eq!(MDPSolver::default(), MDPSolver::POLICY_ITER);
}

#[test]
fn solver_selector_parses_names() {
    assert_eq!(MDPSolver::from("policy_iteration"), MDPSolver::POLICY_ITER);
    assert_eq!(MDPSolver::from("policy"), MDPSolver::POLICY_ITER);
    assert_eq!(MDPSolver::from("value_iteration"), MDPSolver::VALUE_ITER);
    assert_eq!(MDPSolver::from("value"), MDPSolver::VALUE_ITER);
    assert_eq!(MDPSolver::from("anything else"), MDPSolver::POLICY_ITER);
}
