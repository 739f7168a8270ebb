//! Laws of the solving engines, stated over the iteration schedules that
//! every solver's contract references.
//!
//! Each solver returns an exact function of the compiled model, the
//! discount factor, the tolerance, the default action and the sweep
//! budget; the laws below spell out what follows: the sequential and
//! parallel variants agree, solving is idempotent, terminal states are
//! pinned, and a returned policy is certified by the convergence
//! criterion.

use crate::bounds::lemma_ev_first_char;
use crate::model::{
    backup_at, best_act, best_q, ev_first, ev_iter, eval_at, greedy, pi_outcome, pi_run, q_val,
    sup_diff, vi_conv_at, vi_first, vi_iter, vi_outcome, MdpModel,
};
use vstd::prelude::*;

verus! {

/// Sequential and parallel value iteration agree: policies returned for
/// the same model, discount factor, tolerance, default action and budget
/// are equal entry for entry — both compute the same Jacobi recurrence
/// against a snapshot of the previous sweep, so they share one schedule.
pub proof fn lemma_parallel_value_iteration_agrees(
    m: MdpModel,
    g: int,
    eps: int,
    d: usize,
    cap: nat,
    p1: Seq<usize>,
    p2: Seq<usize>,
)
    requires
        vi_outcome(m, g, eps, d, cap) == Some(p1),
        vi_outcome(m, g, eps, d, cap) == Some(p2),
    ensures
        p1 == p2,
{
}

/// Sequential and parallel policy iteration agree, for the same reason:
/// one schedule of evaluation sweeps and improvement passes.
pub proof fn lemma_parallel_policy_iteration_agrees(
    m: MdpModel,
    g: int,
    eps: int,
    d: usize,
    cap: nat,
    p1: Seq<usize>,
    p2: Seq<usize>,
    v1: Seq<int>,
    v2: Seq<int>,
)
    requires
        pi_outcome(m, g, eps, d, cap) == Some((p1, v1)),
        pi_outcome(m, g, eps, d, cap) == Some((p2, v2)),
    ensures
        p1 == p2,
        v1 == v2,
{
}

/// Solving is idempotent: every solve call starts from the zero buffer, so
/// a second call with the same tolerance and budget returns a policy equal
/// entry for entry — invoking a solver again on a converged engine changes
/// nothing.
pub proof fn lemma_solve_idempotent(
    m: MdpModel,
    g: int,
    eps: int,
    d: usize,
    cap: nat,
    first: Seq<usize>,
    second: Seq<usize>,
)
    requires
        vi_outcome(m, g, eps, d, cap) == Some(first),
        vi_outcome(m, g, eps, d, cap) == Some(second),
    ensures
        first == second,
{
}

/// Terminal states keep value zero through every Bellman sweep.
pub proof fn lemma_vi_terminal_value(m: MdpModel, g: int, k: nat)
    ensures
        forall|i: int|
            0 <= i < m.n() && m.terminal[i] ==> #[trigger] vi_iter(m, g, k)[i] == 0,
    decreases k,
{
    if k > 0 {
        lemma_vi_terminal_value(m, g, (k - 1) as nat);
        assert forall|i: int| 0 <= i < m.n() && m.terminal[i] implies #[trigger] vi_iter(
            m,
            g,
            k,
        )[i] == 0 by {
            assert(backup_at(m, g, vi_iter(m, g, (k - 1) as nat), i) == 0);
        }
    }
}

/// Terminal states keep value zero through every evaluation sweep, from
/// any buffer that pins them at zero.
pub proof fn lemma_ev_terminal_value(m: MdpModel, g: int, pi: Seq<usize>, v0: Seq<int>, k: nat)
    requires
        forall|i: int| 0 <= i < m.n() && m.terminal[i] ==> #[trigger] v0[i] == 0,
    ensures
        forall|i: int|
            0 <= i < m.n() && m.terminal[i] ==> #[trigger] ev_iter(m, g, pi, v0, k)[i] == 0,
    decreases k,
{
    if k > 0 {
        lemma_ev_terminal_value(m, g, pi, v0, (k - 1) as nat);
        assert forall|i: int| 0 <= i < m.n() && m.terminal[i] implies #[trigger] ev_iter(
            m,
            g,
            pi,
            v0,
            k,
        )[i] == 0 by {
            assert(eval_at(m, g, pi, ev_iter(m, g, pi, v0, (k - 1) as nat), i) == 0);
        }
    }
}

/// The greedy pass assigns every terminal state the default action.
pub proof fn lemma_greedy_terminal(m: MdpModel, g: int, d: usize, v: Seq<int>)
    ensures
        forall|i: int|
            0 <= i < m.n() && m.terminal[i] ==> #[trigger] greedy(m, g, d, v)[i] == d,
{
}

/// Terminal states under value iteration: whenever a policy is returned,
/// it maps every terminal state to the default action, and the converged
/// buffer holds zero there.
pub proof fn lemma_value_iteration_terminal(m: MdpModel, g: int, eps: int, d: usize, cap: nat)
    ensures
        match vi_outcome(m, g, eps, d, cap) {
            Some(p) => forall|i: int| 0 <= i < m.n() && m.terminal[i] ==> #[trigger] p[i] == d,
            None => true,
        },
        forall|k: nat, i: int|
            0 <= i < m.n() && m.terminal[i] ==> #[trigger] vi_iter(m, g, k)[i] == 0,
{
    assert forall|k: nat, i: int| 0 <= i < m.n() && m.terminal[i] implies #[trigger] vi_iter(
        m,
        g,
        k,
    )[i] == 0 by {
        lemma_vi_terminal_value(m, g, k);
    }
    match vi_outcome(m, g, eps, d, cap) {
        Some(p) => {
            let t = vi_first(m, g, eps, cap)->Some_0;
            lemma_greedy_terminal(m, g, d, vi_iter(m, g, (t + 1) as nat));
        },
        None => {},
    }
}

/// Terminal states under policy iteration: whenever a policy is returned,
/// it maps every terminal state to the default action, and the evaluated
/// buffer holds zero there.
pub proof fn lemma_policy_iteration_terminal(m: MdpModel, g: int, eps: int, d: usize, cap: nat)
    ensures
        match pi_outcome(m, g, eps, d, cap) {
            Some(pv) => forall|i: int|
                0 <= i < m.n() && m.terminal[i] ==> #[trigger] pv.0[i] == d && pv.1[i] == 0,
            None => true,
        },
{
    let pi0 = crate::model::default_policy(m.terminal.len(), d);
    let v0 = crate::model::zeros(m.terminal.len());
    lemma_pi_run_terminal(m, g, eps, d, pi0, v0, cap);
    assert(pi_outcome(m, g, eps, d, cap) == pi_run(m, g, eps, d, pi0, v0, cap));
    if pi_outcome(m, g, eps, d, cap) is Some {
        let pv = pi_outcome(m, g, eps, d, cap)->Some_0;
        assert(pi_run(m, g, eps, d, pi0, v0, cap) == Some(pv));
        assert forall|i: int| 0 <= i < m.n() && m.terminal[i] implies #[trigger] pv.0[i] == d
            && pv.1[i] == 0 by {
            assert(pv == pi_run(m, g, eps, d, pi0, v0, cap)->Some_0);
        }
    }
}

/// Along a policy-iteration run from a terminal-zero buffer, a returned
/// stable policy is greedy against a terminal-zero buffer.
proof fn lemma_pi_run_terminal(
    m: MdpModel,
    g: int,
    eps: int,
    d: usize,
    pi: Seq<usize>,
    v0: Seq<int>,
    cap: nat,
)
    requires
        forall|i: int| 0 <= i < m.n() && m.terminal[i] ==> #[trigger] v0[i] == 0,
    ensures
        match pi_run(m, g, eps, d, pi, v0, cap) {
            Some(pv) => forall|i: int|
                0 <= i < m.n() && m.terminal[i] ==> #[trigger] pv.0[i] == d && pv.1[i] == 0,
            None => true,
        },
    decreases cap,
{
    lemma_ev_first_char(m, g, eps, pi, v0, cap);
    match ev_first(m, g, eps, pi, v0, cap) {
        None => {},
        Some(t) => {
            let v2 = ev_iter(m, g, pi, v0, (t + 1) as nat);
            lemma_ev_terminal_value(m, g, pi, v0, (t + 1) as nat);
            let pi2 = greedy(m, g, d, v2);
            lemma_greedy_terminal(m, g, d, v2);
            if pi2 == pi {
            } else if t + 1 <= cap {
                lemma_pi_run_terminal(m, g, eps, d, pi2, v2, (cap - t - 1) as nat);
            }
        },
    }
}

/// The best Q-value over the first `k` listed actions dominates each of
/// them.
pub proof fn lemma_best_q_dominates(m: MdpModel, g: int, v: Seq<int>, s: int, k: int)
    requires
        1 <= k <= m.acts[s].len(),
    ensures
        forall|j: int|
            0 <= j < k ==> q_val(m, g, v, s, #[trigger] m.acts[s][j]) <= best_q(m, g, v, s, k),
    decreases k,
{
    if k > 1 {
        lemma_best_q_dominates(m, g, v, s, k - 1);
    }
}

/// Ties resolve to the first action in enumeration order: the action the
/// greedy pass picks for a non-terminal state achieves the best Q-value,
/// and every action listed before it has a strictly smaller one.
pub proof fn lemma_greedy_picks_first_argmax(m: MdpModel, g: int, d: usize, v: Seq<int>, i: int)
    requires
        0 <= i < m.n(),
        !m.terminal[i],
        m.acts[i].len() >= 1,
    ensures
        ({
            let pick = greedy(m, g, d, v)[i];
            let top = best_q(m, g, v, i, m.acts[i].len() as int);
            exists|j: int|
                {
                    &&& 0 <= j < m.acts[i].len()
                    &&& #[trigger] m.acts[i][j] == pick
                    &&& q_val(m, g, v, i, pick) == top
                    &&& forall|jj: int| 0 <= jj < j ==> q_val(m, g, v, i, #[trigger] m.acts[i][jj]) < top
                }
        }),
        forall|j: int|
            0 <= j < m.acts[i].len() ==> q_val(m, g, v, i, #[trigger] m.acts[i][j]) <= best_q(
                m,
                g,
                v,
                i,
                m.acts[i].len() as int,
            ),
{
    lemma_best_q_dominates(m, g, v, i, m.acts[i].len() as int);
    lemma_best_act_first(m, g, v, i, m.acts[i].len() as int);
}

/// The position [`best_act`](crate::model::best_act) selects among the
/// first `k` actions: the first position attaining [`best_q`].
proof fn lemma_best_act_first(m: MdpModel, g: int, v: Seq<int>, s: int, k: int)
    requires
        1 <= k <= m.acts[s].len(),
    ensures
        exists|j: int|
            {
                &&& 0 <= j < k
                &&& #[trigger] m.acts[s][j] == best_act(m, g, v, s, k)
                &&& q_val(m, g, v, s, best_act(m, g, v, s, k)) == best_q(m, g, v, s, k)
                &&& forall|jj: int|
                    0 <= jj < j ==> q_val(m, g, v, s, #[trigger] m.acts[s][jj]) < best_q(
                        m,
                        g,
                        v,
                        s,
                        k,
                    )
            },
    decreases k,
{
    if k <= 1 {
        let j = 0int;
        assert(m.acts[s][j] == best_act(m, g, v, s, k) && q_val(m, g, v, s, best_act(m, g, v, s, k))
            == best_q(m, g, v, s, k) && forall|jj: int|
            0 <= jj < j ==> q_val(m, g, v, s, #[trigger] m.acts[s][jj]) < best_q(m, g, v, s, k));
    } else {
        lemma_best_act_first(m, g, v, s, k - 1);
        lemma_best_q_dominates(m, g, v, s, k - 1);
        let prev = best_q(m, g, v, s, k - 1);
        let qk = q_val(m, g, v, s, m.acts[s][k - 1]);
        if qk > prev {
            let j = k - 1;
            assert(m.acts[s][j] == best_act(m, g, v, s, k) && q_val(
                m,
                g,
                v,
                s,
                best_act(m, g, v, s, k),
            ) == best_q(m, g, v, s, k) && forall|jj: int|
                0 <= jj < j ==> q_val(m, g, v, s, #[trigger] m.acts[s][jj]) < best_q(m, g, v, s, k));
        } else {
            let j = choose|j: int|
                {
                    &&& 0 <= j < k - 1
                    &&& #[trigger] m.acts[s][j] == best_act(m, g, v, s, k - 1)
                    &&& q_val(m, g, v, s, best_act(m, g, v, s, k - 1)) == best_q(m, g, v, s, k - 1)
                    &&& forall|jj: int|
                        0 <= jj < j ==> q_val(m, g, v, s, #[trigger] m.acts[s][jj]) < best_q(
                            m,
                            g,
                            v,
                            s,
                            k - 1,
                        )
                };
            assert(m.acts[s][j] == best_act(m, g, v, s, k) && q_val(
                m,
                g,
                v,
                s,
                best_act(m, g, v, s, k),
            ) == best_q(m, g, v, s, k) && forall|jj: int|
                0 <= jj < j ==> q_val(m, g, v, s, #[trigger] m.acts[s][jj]) < best_q(m, g, v, s, k));
        }
    }
}

/// What a returned value-iteration policy certifies: the first `t` sweeps
/// all moved some state by at least `eps`, and sweep `t + 1` moved every
/// state by less than `eps` — the sup-norm difference sequence has dropped
/// below the tolerance for the first time at the sweep whose buffer the
/// policy is greedy against.
pub proof fn lemma_convergence_certificate(m: MdpModel, g: int, eps: int, cap: nat)
    ensures
        match vi_first(m, g, eps, cap) {
            Some(t) => {
                &&& t < cap
                &&& sup_diff(vi_iter(m, g, (t + 1) as nat), vi_iter(m, g, t)) < eps
                &&& forall|u: nat|
                    u < t ==> sup_diff(#[trigger] vi_iter(m, g, ((u + 1) as nat)), vi_iter(m, g, u))
                        >= eps
            },
            None => forall|u: nat|
                u < cap ==> sup_diff(#[trigger] vi_iter(m, g, ((u + 1) as nat)), vi_iter(m, g, u))
                    >= eps,
        },
{
    crate::bounds::lemma_vi_first_char(m, g, eps, cap);
    match vi_first(m, g, eps, cap) {
        Some(t) => {
            assert forall|u: nat| u < t implies sup_diff(
                #[trigger] vi_iter(m, g, ((u + 1) as nat)),
                vi_iter(m, g, u),
            ) >= eps by {
                assert(!vi_conv_at(m, g, eps, u));
            }
        },
        None => {
            assert forall|u: nat| u < cap implies sup_diff(
                #[trigger] vi_iter(m, g, ((u + 1) as nat)),
                vi_iter(m, g, u),
            ) >= eps by {
                assert(!vi_conv_at(m, g, eps, u));
            }
        },
    }
}

} // verus!
