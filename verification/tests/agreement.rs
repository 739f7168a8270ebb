//! Sequential/parallel agreement on a larger synthetic process: sixty
//! states, a sure step forward and a risky jump, discounted at 0.95.

use markov_decision::markov_decision_process::MarkovDecisionProcess;
use markov_decision::{TableSpace, Transition, MDP, SCALE};

const STEP: usize = 1;
const JUMP: usize = 2;
const N: usize = 60;

fn chain_table() -> TableSpace {
    let mut terminal = Vec::new();
    let mut acts: Vec<Vec<usize>> = Vec::new();
    let mut trans: Vec<Vec<Vec<Transition>>> = Vec::new();
    for i in 0..N {
        terminal.push(i == N - 1);
        let mut row_acts = Vec::new();
        let mut rows = Vec::new();
        if i < N - 1 {
            row_acts.push(STEP);
            rows.push(vec![Transition { next: i + 1, prob: SCALE, reward: -SCALE }]);
            row_acts.push(JUMP);
            let target = if 2 * i + 1 < N { 2 * i + 1 } else { N - 1 };
            rows.push(vec![
                Transition { next: target, prob: 700_000, reward: -3 * SCALE / 2 },
                Transition { next: i, prob: 300_000, reward: -3 * SCALE / 2 },
            ]);
        }
        acts.push(row_acts);
        trans.push(rows);
    }
    TableSpace::new(terminal, acts, trans)
}

const EPS: i64 = 1_000;
const CAP: usize = 5_000;
const GAMMA: i64 = 950_000;

#[test]
fn chain_parallel_solvers_agree_with_sequential() {
    let engine = MDP::new(chain_table(), 0, GAMMA).unwrap();
    let vi = engine.value_iteration(EPS, CAP).unwrap();
    let pvi = engine.par_value_iteration(EPS, CAP).unwrap();
    assert_eq!(vi, pvi);
    let pi = engine.policy_iteration(EPS, CAP).unwrap();
    let ppi = engine.par_policy_iteration(EPS, CAP).unwrap();
    assert_eq!(pi, ppi);
    // Every policy covers all states and keeps the terminal default.
    assert_eq!(vi.len(), N);
    assert_eq!(pi.len(), N);
    assert_eq!(vi[N - 1], 0);
    assert_eq!(pi[N - 1], 0);
}

#[test]
fn chain_value_and_policy_iteration_values_agree_within_tolerance() {
    let mut mdp = MarkovDecisionProcess::new(chain_table(), 0, GAMMA).unwrap();
    mdp.value_iteration(EPS, CAP).unwrap();
    let by_value = mdp.get_learned_values();
    mdp.policy_iteration(EPS, CAP).unwrap();
    let by_policy = mdp.get_learned_values();
    // Both buffers approximate the same optimal values; the tolerance
    // accounts for the contraction residual eps / (1 - gamma).
    for (a, b) in by_value.iter().zip(by_policy.iter()) {
        assert!((a - b).abs() <= 50_000, "value functions differ: {a} vs {b}");
    }
}
