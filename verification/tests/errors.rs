//! Construction-time validation and the sweep-budget failure.

use markov_decision::markov_decision_process::MarkovDecisionProcess;
use markov_decision::{MdpError, TableSpace, TramSpace, Transition, MDP, REWARD_LIMIT, SCALE};

fn two_state_table(trans0: Vec<Transition>) -> TableSpace {
    TableSpace::new(
        vec![false, true],
        vec![vec![1], vec![]],
        vec![vec![trans0], vec![]],
    )
}

fn good_row() -> Vec<Transition> {
    vec![Transition { next: 1, prob: SCALE, reward: 0 }]
}

#[test]
fn discount_factor_above_one_is_rejected() {
    let r = MarkovDecisionProcess::new(two_state_table(good_row()), 0, SCALE + 1);
    assert_eq!(r.err(), Some(MdpError::InvalidDiscountFactor));
}

#[test]
fn negative_discount_factor_is_rejected() {
    let r = MarkovDecisionProcess::new(two_state_table(good_row()), 0, -1);
    assert_eq!(r.err(), Some(MdpError::InvalidDiscountFactor));
    let tram = TramSpace::new(vec![1, 2, 3, 4, 5, 6, 7, 8, 9, 10], 1, 10);
    assert_eq!(MDP::new(tram, 0, -1).err(), Some(MdpError::InvalidDiscountFactor));
}

#[test]
fn discount_factor_takes_precedence_over_other_issues() {
    // A non-terminal state without actions, under a bad discount factor.
    let space = TableSpace::new(vec![false], vec![vec![]], vec![vec![]]);
    let r = MarkovDecisionProcess::new(space, 0, -1);
    assert_eq!(r.err(), Some(MdpError::InvalidDiscountFactor));
}

#[test]
fn non_terminal_state_without_actions_is_rejected() {
    let space = TableSpace::new(vec![false, true], vec![vec![], vec![]], vec![vec![], vec![]]);
    let r = MarkovDecisionProcess::new(space, 0, SCALE);
    assert_eq!(r.err(), Some(MdpError::EmptyActionSet));
}

#[test]
fn probabilities_not_summing_to_one_are_rejected() {
    let row = vec![Transition { next: 1, prob: SCALE - 1, reward: 0 }];
    let r = MarkovDecisionProcess::new(two_state_table(row), 0, SCALE);
    assert_eq!(r.err(), Some(MdpError::MalformedTransitionDistribution));
}

#[test]
fn negative_probability_is_rejected() {
    let row = vec![
        Transition { next: 1, prob: -1, reward: 0 },
        Transition { next: 1, prob: SCALE + 1, reward: 0 },
    ];
    let r = MarkovDecisionProcess::new(two_state_table(row), 0, SCALE);
    assert_eq!(r.err(), Some(MdpError::MalformedTransitionDistribution));
}

#[test]
fn successor_out_of_range_is_rejected() {
    let row = vec![Transition { next: 2, prob: SCALE, reward: 0 }];
    let r = MarkovDecisionProcess::new(two_state_table(row), 0, SCALE);
    assert_eq!(r.err(), Some(MdpError::MalformedTransitionDistribution));
}

#[test]
fn oversized_reward_is_rejected() {
    let row = vec![Transition { next: 1, prob: SCALE, reward: REWARD_LIMIT + 1 }];
    let r = MarkovDecisionProcess::new(two_state_table(row), 0, SCALE);
    assert_eq!(r.err(), Some(MdpError::MalformedTransitionDistribution));
}

#[test]
fn valid_two_state_game_is_accepted() {
    assert!(MarkovDecisionProcess::new(two_state_table(good_row()), 0, SCALE).is_ok());
}

#[test]
fn discounted_self_loop_converges_to_the_geometric_series() {
    // One state, one action, reward 1 per step, stay put, discount 0.9:
    // the expected return is 1 / (1 - 0.9) = 10, and the contraction
    // reaches a fixed point of the truncating arithmetic even at a
    // tolerance of one fixed-point unit.
    let space = TableSpace::new(
        vec![false],
        vec![vec![1]],
        vec![vec![vec![Transition { next: 0, prob: SCALE, reward: SCALE }]]],
    );
    let mut mdp = MarkovDecisionProcess::new(space, 0, 900_000).unwrap();
    let policy = mdp.value_iteration(1, 1_000).unwrap();
    assert_eq!(policy, vec![1]);
    let v = mdp.get_learned_values()[0];
    let got = v as f64 / SCALE as f64;
    assert!((got - 10.0).abs() < 1e-4, "discounted return was {got}");
}

#[test]
fn impossible_tolerance_fails_with_did_not_converge() {
    // No sweep's change is ever below zero, so the budget runs out.
    let mut mdp = MarkovDecisionProcess::new(two_state_table(good_row()), 0, SCALE).unwrap();
    assert_eq!(mdp.value_iteration(0, 50).err(), Some(MdpError::DidNotConverge));
    assert_eq!(mdp.policy_iteration(0, 50).err(), Some(MdpError::DidNotConverge));
    // A failed policy iteration leaves the buffer reset.
    assert_eq!(mdp.get_learned_values(), vec![0, 0]);

    let tram = TramSpace::new(vec![1, 2, 3, 4, 5, 6, 7, 8, 9, 10], 1, 10);
    let engine = MDP::new(tram, 0, SCALE).unwrap();
    assert_eq!(engine.value_iteration(0, 50).err(), Some(MdpError::DidNotConverge));
    assert_eq!(engine.par_value_iteration(0, 50).err(), Some(MdpError::DidNotConverge));
    assert_eq!(engine.policy_iteration(0, 50).err(), Some(MdpError::DidNotConverge));
    assert_eq!(engine.par_policy_iteration(0, 50).err(), Some(MdpError::DidNotConverge));
}
