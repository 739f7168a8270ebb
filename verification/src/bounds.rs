//! Magnitude bounds on the recurrences of [`crate::model`], and how the
//! first-convergence indices behave as the sweep budget grows.
//!
//! The solvers run on `i64` buffers; these lemmas show that every value a
//! sweep produces grows by at most [`REWARD_LIMIT`] per sweep, so that a
//! solve call within the sweep budget never leaves [`VALUE_CEIL`].

use crate::fixed::{abs_i, fdiv, lemma_fdiv_mag, lemma_scale_abs, REWARD_LIMIT, SCALE};
use crate::model::{
    backup, best_q, ev_conv_at, ev_first, ev_iter, evalstep, find_act, first_issue,
    lemma_find_from, model_wf, psum, q_val, qsum, row_wf, state_issue, term_val, trans_wf,
    val_bounded, vi_conv_at, vi_first, vi_iter, MdpError, MdpModel, TransSpec,
};
use vstd::arithmetic::mul::lemma_mul_inequality;
use vstd::prelude::*;

verus! {

/// Cancel a common positive factor `SCALE` on both sides.
proof fn lemma_cancel_scale(x: int, y: int)
    requires
        (SCALE as int) * x <= (SCALE as int) * y,
    ensures
        x <= y,
{
    assert(x <= y) by (nonlinear_arith)
        requires
            (SCALE as int) * x <= (SCALE as int) * y && SCALE as int > 0,
    ;
}

/// Probability prefix sums are nonnegative and monotone in the prefix.
pub proof fn lemma_psum_mono(ts: Seq<TransSpec>, k: int, n: int)
    requires
        0 <= k <= ts.len(),
        forall|t: int| 0 <= t < ts.len() ==> trans_wf(#[trigger] ts[t], n),
    ensures
        0 <= psum(ts, k),
        psum(ts, k) <= psum(ts, ts.len() as int),
    decreases k,
{
    if k > 0 {
        lemma_psum_mono(ts, k - 1, n);
    }
    lemma_psum_all_nonneg(ts, k, n);
}

/// Extending a prefix by well-formed outcomes never lowers its sum.
proof fn lemma_psum_all_nonneg(ts: Seq<TransSpec>, k: int, n: int)
    requires
        0 <= k <= ts.len(),
        forall|t: int| 0 <= t < ts.len() ==> trans_wf(#[trigger] ts[t], n),
    ensures
        psum(ts, k) <= psum(ts, ts.len() as int),
    decreases ts.len() - k,
{
    if k < ts.len() {
        lemma_psum_all_nonneg(ts, k + 1, n);
    }
}

/// The magnitude of one outcome's contribution, rescaled by `SCALE`, is at
/// most its probability times `REWARD_LIMIT + b`.
pub proof fn lemma_term_bound(t: TransSpec, g: int, v: Seq<int>, b: int, n: int)
    requires
        trans_wf(t, n),
        v.len() == n,
        val_bounded(v, b),
        0 <= g <= SCALE as int,
        0 <= b,
    ensures
        (SCALE as int) * abs_i(term_val(t, g, v)) <= t.prob * (REWARD_LIMIT as int + b),
{
    let s = SCALE as int;
    let vn = v[t.next];
    lemma_scale_abs(g, vn, b);
    lemma_fdiv_mag(g * vn);
    lemma_mul_inequality(g, s, b);
    lemma_cancel_scale(abs_i(fdiv(g * vn)), b);
    let x = t.reward + fdiv(g * vn);
    assert(abs_i(x) <= REWARD_LIMIT as int + b);
    lemma_scale_abs(t.prob, x, REWARD_LIMIT as int + b);
    lemma_fdiv_mag(t.prob * x);
    assert(s * abs_i(term_val(t, g, v)) == abs_i(term_val(t, g, v)) * s) by (nonlinear_arith);
}

/// The magnitude of a Q-value prefix sum, rescaled by `SCALE`, is at most
/// the probability prefix sum times `REWARD_LIMIT + b`.
pub proof fn lemma_qsum_bound(ts: Seq<TransSpec>, g: int, v: Seq<int>, k: int, b: int, n: int)
    requires
        0 <= k <= ts.len(),
        forall|t: int| 0 <= t < ts.len() ==> trans_wf(#[trigger] ts[t], n),
        v.len() == n,
        val_bounded(v, b),
        0 <= g <= SCALE as int,
        0 <= b,
    ensures
        (SCALE as int) * abs_i(qsum(ts, g, v, k)) <= psum(ts, k) * (REWARD_LIMIT as int + b),
        abs_i(qsum(ts, g, v, k)) <= REWARD_LIMIT as int + b || psum(ts, ts.len() as int) != SCALE
            as int,
    decreases k,
{
    let s = SCALE as int;
    let c = REWARD_LIMIT as int + b;
    if k == 0 {
        assert(psum(ts, 0) * c == 0) by (nonlinear_arith);
    } else {
        lemma_qsum_bound(ts, g, v, k - 1, b, n);
        lemma_term_bound(ts[k - 1], g, v, b, n);
        let q0 = abs_i(qsum(ts, g, v, k - 1));
        let t0 = abs_i(term_val(ts[k - 1], g, v));
        assert(abs_i(qsum(ts, g, v, k)) <= q0 + t0);
        assert(s * (q0 + t0) == s * q0 + s * t0) by (nonlinear_arith);
        assert(s * abs_i(qsum(ts, g, v, k)) <= s * q0 + s * t0) by (nonlinear_arith)
            requires
                abs_i(qsum(ts, g, v, k)) <= q0 + t0 && s * (q0 + t0) == s * q0 + s * t0 && s > 0,
        ;
        assert((psum(ts, k - 1) + ts[k - 1].prob) * c == psum(ts, k - 1) * c + ts[k - 1].prob * c)
            by (nonlinear_arith);
    }
    if psum(ts, ts.len() as int) == s {
        lemma_psum_mono(ts, k, n);
        lemma_mul_inequality(psum(ts, k), s, c);
        assert(s * c == c * s) by (nonlinear_arith);
        lemma_cancel_scale(abs_i(qsum(ts, g, v, k)), c);
    }
}

/// A Q-value against a buffer bounded by `b` is bounded by
/// `REWARD_LIMIT + b`, for every action identifier.
pub proof fn lemma_q_bound(m: MdpModel, g: int, v: Seq<int>, s: int, a: usize, b: int)
    requires
        model_wf(m),
        0 <= s < m.n(),
        v.len() == m.n(),
        val_bounded(v, b),
        0 <= g <= SCALE as int,
        0 <= b,
    ensures
        abs_i(q_val(m, g, v, s, a)) <= REWARD_LIMIT as int + b,
{
    let j = find_act(m.acts[s], a);
    lemma_find_from(m.acts[s], a, 0);
    if j >= 0 {
        let ts = m.trans[s][j];
        lemma_qsum_bound(ts, g, v, ts.len() as int, b, m.n());
    }
}

/// The best Q-value over a prefix of the action list is bounded like each
/// of its candidates.
pub proof fn lemma_best_q_bound(m: MdpModel, g: int, v: Seq<int>, s: int, k: int, b: int)
    requires
        model_wf(m),
        0 <= s < m.n(),
        1 <= k <= m.acts[s].len(),
        v.len() == m.n(),
        val_bounded(v, b),
        0 <= g <= SCALE as int,
        0 <= b,
    ensures
        abs_i(best_q(m, g, v, s, k)) <= REWARD_LIMIT as int + b,
    decreases k,
{
    lemma_q_bound(m, g, v, s, m.acts[s][k - 1], b);
    if k > 1 {
        lemma_best_q_bound(m, g, v, s, k - 1, b);
    } else {
        lemma_q_bound(m, g, v, s, m.acts[s][0], b);
    }
}

/// A Bellman sweep of a buffer bounded by `b` is bounded by
/// `REWARD_LIMIT + b`.
pub proof fn lemma_backup_bound(m: MdpModel, g: int, v: Seq<int>, b: int)
    requires
        model_wf(m),
        v.len() == m.n(),
        val_bounded(v, b),
        0 <= g <= SCALE as int,
        0 <= b,
    ensures
        backup(m, g, v).len() == m.n(),
        val_bounded(backup(m, g, v), REWARD_LIMIT as int + b),
{
    assert forall|i: int| 0 <= i < m.n() implies abs_i(#[trigger] backup(m, g, v)[i])
        <= REWARD_LIMIT as int + b by {
        if !m.terminal[i] {
            lemma_best_q_bound(m, g, v, i, m.acts[i].len() as int, b);
        }
    }
}

/// An evaluation sweep of a buffer bounded by `b` is bounded by
/// `REWARD_LIMIT + b`, whatever the policy assigns.
pub proof fn lemma_evalstep_bound(m: MdpModel, g: int, pi: Seq<usize>, v: Seq<int>, b: int)
    requires
        model_wf(m),
        v.len() == m.n(),
        val_bounded(v, b),
        0 <= g <= SCALE as int,
        0 <= b,
    ensures
        evalstep(m, g, pi, v).len() == m.n(),
        val_bounded(evalstep(m, g, pi, v), REWARD_LIMIT as int + b),
{
    assert forall|i: int| 0 <= i < m.n() implies abs_i(#[trigger] evalstep(m, g, pi, v)[i])
        <= REWARD_LIMIT as int + b by {
        if !m.terminal[i] {
            lemma_q_bound(m, g, v, i, pi[i], b);
        }
    }
}

/// After `k` Bellman sweeps from zero every value has magnitude at most
/// `REWARD_LIMIT * k`.
pub proof fn lemma_vi_iter_bound(m: MdpModel, g: int, k: nat)
    requires
        model_wf(m),
        0 <= g <= SCALE as int,
    ensures
        vi_iter(m, g, k).len() == m.n(),
        val_bounded(vi_iter(m, g, k), REWARD_LIMIT as int * k),
    decreases k,
{
    if k == 0 {
        assert(REWARD_LIMIT as int * 0 == 0) by (nonlinear_arith);
    } else {
        let j = (k - 1) as nat;
        lemma_vi_iter_bound(m, g, j);
        assert(REWARD_LIMIT as int * j >= 0) by (nonlinear_arith);
        lemma_backup_bound(m, g, vi_iter(m, g, j), REWARD_LIMIT as int * j);
        assert(REWARD_LIMIT as int + REWARD_LIMIT as int * j == REWARD_LIMIT as int * (j + 1))
            by (nonlinear_arith);
        assert(k == j + 1);
    }
}

/// After `k` evaluation sweeps from a buffer bounded by `b0` every value has
/// magnitude at most `b0 + REWARD_LIMIT * k`.
pub proof fn lemma_ev_iter_bound(m: MdpModel, g: int, pi: Seq<usize>, v0: Seq<int>, k: nat, b0: int)
    requires
        model_wf(m),
        v0.len() == m.n(),
        val_bounded(v0, b0),
        0 <= g <= SCALE as int,
        0 <= b0,
    ensures
        ev_iter(m, g, pi, v0, k).len() == m.n(),
        val_bounded(ev_iter(m, g, pi, v0, k), b0 + REWARD_LIMIT as int * k),
    decreases k,
{
    if k == 0 {
        assert(REWARD_LIMIT as int * 0 == 0) by (nonlinear_arith);
    } else {
        let j = (k - 1) as nat;
        lemma_ev_iter_bound(m, g, pi, v0, j, b0);
        assert(REWARD_LIMIT as int * j >= 0) by (nonlinear_arith);
        lemma_evalstep_bound(m, g, pi, ev_iter(m, g, pi, v0, j), b0 + REWARD_LIMIT as int * j);
        assert(REWARD_LIMIT as int + (b0 + REWARD_LIMIT as int * j) == b0 + REWARD_LIMIT as int * (
        j + 1)) by (nonlinear_arith);
        assert(k == j + 1);
    }
}

/// What [`vi_first`] returns: the least converging sweep index below the
/// budget, or a report that none converges.
pub proof fn lemma_vi_first_char(m: MdpModel, g: int, eps: int, cap: nat)
    ensures
        match vi_first(m, g, eps, cap) {
            Some(t) => t < cap && vi_conv_at(m, g, eps, t) && forall|u: nat|
                u < t ==> !vi_conv_at(m, g, eps, u),
            None => forall|u: nat| u < cap ==> !vi_conv_at(m, g, eps, u),
        },
    decreases cap,
{
    if cap > 0 {
        lemma_vi_first_char(m, g, eps, (cap - 1) as nat);
    }
}

/// A first converging sweep stays the first under any larger budget.
pub proof fn lemma_vi_first_mono(m: MdpModel, g: int, eps: int, c1: nat, c2: nat)
    requires
        c1 <= c2,
        vi_first(m, g, eps, c1) is Some,
    ensures
        vi_first(m, g, eps, c2) == vi_first(m, g, eps, c1),
    decreases c2,
{
    if c1 < c2 {
        lemma_vi_first_mono(m, g, eps, c1, (c2 - 1) as nat);
    }
}

/// What [`ev_first`] returns, as [`lemma_vi_first_char`].
pub proof fn lemma_ev_first_char(
    m: MdpModel,
    g: int,
    eps: int,
    pi: Seq<usize>,
    v0: Seq<int>,
    cap: nat,
)
    ensures
        match ev_first(m, g, eps, pi, v0, cap) {
            Some(t) => t < cap && ev_conv_at(m, g, eps, pi, v0, t) && forall|u: nat|
                u < t ==> !ev_conv_at(m, g, eps, pi, v0, u),
            None => forall|u: nat| u < cap ==> !ev_conv_at(m, g, eps, pi, v0, u),
        },
    decreases cap,
{
    if cap > 0 {
        lemma_ev_first_char(m, g, eps, pi, v0, (cap - 1) as nat);
    }
}

/// A found issue stays the verdict under any longer scan.
pub proof fn lemma_first_issue_mono(m: MdpModel, k1: int, k2: int)
    requires
        0 <= k1 <= k2,
        first_issue(m, k1) is Some,
    ensures
        first_issue(m, k2) == first_issue(m, k1),
    decreases k2,
{
    if k1 < k2 {
        lemma_first_issue_mono(m, k1, k2 - 1);
    }
}

/// A clean scan means every scanned state is clean.
pub proof fn lemma_first_issue_none(m: MdpModel, k: int)
    requires
        first_issue(m, k) == None::<MdpError>,
    ensures
        forall|s: int| 0 <= s < k ==> state_issue(m, s) == None::<MdpError>,
    decreases k,
{
    if k > 0 {
        lemma_first_issue_none(m, k - 1);
    }
}

/// A dimensioned model with no per-state issue is well formed.
pub proof fn lemma_clean_model_wf(m: MdpModel)
    requires
        m.dims_ok(),
        forall|s: int| 0 <= s < m.n() ==> state_issue(m, s) == None::<MdpError>,
    ensures
        model_wf(m),
{
    assert forall|s: int, j: int|
        0 <= s < m.n() && 0 <= j < m.acts[s].len() implies row_wf(
        #[trigger] m.trans[s][j],
        m.n(),
    ) by {
        assert(state_issue(m, s) == None::<MdpError>);
    }
    assert forall|s: int| 0 <= s < m.n() && !m.terminal[s] implies (#[trigger] m.acts[s]).len()
        > 0 by {
        assert(state_issue(m, s) == None::<MdpError>);
    }
}

/// A first converging evaluation sweep stays the first under any larger
/// budget.
pub proof fn lemma_ev_first_mono(
    m: MdpModel,
    g: int,
    eps: int,
    pi: Seq<usize>,
    v0: Seq<int>,
    c1: nat,
    c2: nat,
)
    requires
        c1 <= c2,
        ev_first(m, g, eps, pi, v0, c1) is Some,
    ensures
        ev_first(m, g, eps, pi, v0, c2) == ev_first(m, g, eps, pi, v0, c1),
    decreases c2,
{
    if c1 < c2 {
        lemma_ev_first_mono(m, g, eps, pi, v0, c1, (c2 - 1) as nat);
    }
}

} // verus!
