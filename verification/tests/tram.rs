//! Scenario tests on the tram shortest-path environment: ten stops, the
//! tenth terminal, walking advances one stop at cost 1, the tram doubles
//! the stop with probability 0.9 at cost 2, undiscounted.

use markov_decision::markov_decision_process::MarkovDecisionProcess;
use markov_decision::{StateSpace, TableSpace, TramSpace, Transition, MDP, SCALE};

fn tram_space() -> TramSpace {
    TramSpace::new(vec![1, 2, 3, 4, 5, 6, 7, 8, 9, 10], 1, 10)
}

/// One fixed-point unit of 0.01.
const EPS: i64 = 10_000;

const CAP: usize = 1_000;

/// The optimal tram policy: ride the tram at stop 5 (it reaches the goal
/// directly), walk everywhere else; the terminal stop takes the default
/// action 0.
const BEST: [usize; 10] = [1, 1, 1, 1, 2, 1, 1, 1, 1, 0];

#[test]
fn tram_value_iteration_policy() {
    let mdp = MDP::new(tram_space(), 0, SCALE).unwrap();
    let policy = mdp.value_iteration(EPS, CAP).unwrap();
    assert_eq!(policy, BEST.to_vec());
}

#[test]
fn tram_policy_iteration_policy() {
    let mdp = MDP::new(tram_space(), 0, SCALE).unwrap();
    let policy = mdp.policy_iteration(EPS, CAP).unwrap();
    assert_eq!(policy, BEST.to_vec());
}

#[test]
fn tram_parallel_value_iteration_matches_sequential() {
    let mdp = MDP::new(tram_space(), 0, SCALE).unwrap();
    let seq = mdp.value_iteration(EPS, CAP).unwrap();
    let par = mdp.par_value_iteration(EPS, CAP).unwrap();
    assert_eq!(seq, par);
}

#[test]
fn tram_parallel_policy_iteration_matches_sequential() {
    let mdp = MDP::new(tram_space(), 0, SCALE).unwrap();
    let seq = mdp.policy_iteration(EPS, CAP).unwrap();
    let par = mdp.par_policy_iteration(EPS, CAP).unwrap();
    assert_eq!(seq, par);
}

#[test]
fn tram_solving_twice_changes_no_policy_entry() {
    let mdp = MDP::new(tram_space(), 0, SCALE).unwrap();
    let first = mdp.value_iteration(EPS, CAP).unwrap();
    let second = mdp.value_iteration(EPS, CAP).unwrap();
    assert_eq!(first, second);
    let first_pi = mdp.policy_iteration(EPS, CAP).unwrap();
    let second_pi = mdp.policy_iteration(EPS, CAP).unwrap();
    assert_eq!(first_pi, second_pi);
}

#[test]
fn tram_terminal_state_takes_default_action() {
    let mdp = MDP::new(tram_space(), 7, SCALE).unwrap();
    for policy in [
        mdp.value_iteration(EPS, CAP).unwrap(),
        mdp.par_value_iteration(EPS, CAP).unwrap(),
        mdp.policy_iteration(EPS, CAP).unwrap(),
        mdp.par_policy_iteration(EPS, CAP).unwrap(),
    ] {
        assert_eq!(policy[9], 7);
    }
}

/// The tram tables with stops renamed to their 0-based indices, for the
/// engine that exposes its learned values.
fn tram_table() -> TableSpace {
    let n = 10usize;
    let mut terminal = Vec::new();
    let mut acts: Vec<Vec<usize>> = Vec::new();
    let mut trans: Vec<Vec<Vec<Transition>>> = Vec::new();
    for i in 0..n {
        let stop = i + 1;
        terminal.push(stop == 10);
        let mut row_acts = Vec::new();
        let mut rows = Vec::new();
        if stop + 1 <= 10 {
            row_acts.push(1);
            rows.push(vec![Transition { next: i + 1, prob: SCALE, reward: -SCALE }]);
        }
        if stop * 2 <= 10 {
            row_acts.push(2);
            rows.push(vec![
                Transition { next: 2 * stop - 1, prob: 900_000, reward: -2 * SCALE },
                Transition { next: i, prob: 100_000, reward: -2 * SCALE },
            ]);
        }
        acts.push(row_acts);
        trans.push(rows);
    }
    TableSpace::new(terminal, acts, trans)
}

#[test]
fn tram_minimal_expected_cost_from_first_stop() {
    let mut mdp = MarkovDecisionProcess::new(tram_table(), 0, SCALE).unwrap();
    let policy = mdp.value_iteration(EPS, CAP).unwrap();
    assert_eq!(policy, BEST.to_vec());
    let values = mdp.get_learned_values();
    // Minimal expected total cost from stop 1 is 56/9 = 6.2222..; rewards
    // are negated costs.
    let expected = -(56.0 / 9.0);
    let got = values[0] as f64 / SCALE as f64;
    assert!((got - expected).abs() < 0.05, "value at stop 1 was {got}");
    // Stop 5 rides the tram: expected cost 2/0.9 = 2.2222..
    let got5 = values[4] as f64 / SCALE as f64;
    assert!((got5 - (-2.0 / 0.9)).abs() < 0.05, "value at stop 5 was {got5}");
    // The terminal stop keeps value zero.
    assert_eq!(values[9], 0);
}

#[test]
fn tram_converges_within_a_small_sweep_bound() {
    // The sup-norm change contracts by the stay-put probability 0.1 per
    // sweep, so a few dozen sweeps reach any fixed-point-representable
    // tolerance.
    let mdp = MDP::new(tram_space(), 0, SCALE).unwrap();
    assert!(mdp.value_iteration(EPS, 60).is_ok());
    assert_eq!(mdp.value_iteration(EPS, 60).unwrap(), mdp.value_iteration(EPS, CAP).unwrap());
    // A tighter tolerance still converges, only later.
    assert!(mdp.value_iteration(10, 60).is_ok());
}

#[test]
fn tram_space_adjusts_end_at_or_below_start() {
    // end <= start forces end = start + 10.
    let sp = TramSpace::new(vec![5, 6, 7, 8, 9, 10, 11, 12, 13, 14, 15], 5, 3);
    assert!(sp.is_terminal_state(15));
    assert!(!sp.is_terminal_state(14));
    assert_eq!(sp.get_state_count(), 11);
}

#[test]
fn tram_space_index_mapping() {
    let sp = tram_space();
    assert_eq!(sp.get_idx_from_state(1), 0);
    assert_eq!(sp.get_idx_from_state(7), 6);
    assert_eq!(sp.get_state_from_idx(6), 7);
    assert_eq!(sp.get_state_count(), 10);
    assert_eq!(sp.get_all_states(), vec![1, 2, 3, 4, 5, 6, 7, 8, 9, 10]);
}

#[test]
fn tram_space_actions() {
    let sp = tram_space();
    assert_eq!(sp.get_actions_at_state(1), vec![1, 2]);
    assert_eq!(sp.get_actions_at_state(5), vec![1, 2]);
    assert_eq!(sp.get_actions_at_state(6), vec![1]);
    assert_eq!(sp.get_actions_at_state(9), vec![1]);
    assert_eq!(sp.get_actions_at_state(10), Vec::<usize>::new());
    assert!(sp.is_terminal_state(10));
}

#[test]
fn tram_space_outcome_distributions() {
    let sp = tram_space();
    let walk = sp.get_prob_reward(3, 1);
    assert_eq!(walk.len(), 1);
    assert_eq!(walk[0].next, 4);
    assert_eq!(walk[0].prob, SCALE);
    assert_eq!(walk[0].reward, -SCALE);
    let ride = sp.get_prob_reward(3, 2);
    assert_eq!(ride.len(), 2);
    assert_eq!(ride[0].next, 6);
    assert_eq!(ride[0].prob, 900_000);
    assert_eq!(ride[0].reward, -2 * SCALE);
    assert_eq!(ride[1].next, 3);
    assert_eq!(ride[1].prob, 100_000);
    assert_eq!(ride[1].reward, -2 * SCALE);
    // An unknown action has no outcomes.
    assert_eq!(sp.get_prob_reward(3, 0).len(), 0);
}
