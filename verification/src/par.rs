//! Data-parallel sweeps: rayon fan-out over independent per-state
//! computations, with an order-preserving collect and a max reduction.
//!
//! Each wrapper distributes one verified per-state function of
//! [`crate::table`] over all state indices against a read-only buffer, so a
//! parallel sweep computes exactly the sequential sweep's values: every
//! closure handed to rayon only calls a verified function of this crate.

use crate::fixed::{abs_diff64, max64, SCALE, VALUE_CEIL};
use crate::model::{backup, evalstep, greedy, ints, model_wf, sup_diff, val_bounded};
use crate::table::{backup_state, eval_state, greedy_state, TableSpace};
use rayon::iter::{IndexedParallelIterator, IntoParallelIterator, ParallelIterator};
use vstd::prelude::*;

verus! {

/// One parallel Jacobi sweep of Bellman backups.
///
/// Relies on rayon's `into_par_iter().map(..).collect_into_vec(..)`: the map
/// runs `backup_state` once per state index against the shared read-only
/// buffer, and the collect stores the results in index order.
#[verifier::external_body]
pub(crate) fn par_backup_sweep(t: &TableSpace, g: i64, v: &Vec<i64>) -> (r: Vec<i64>)
    requires
        model_wf(t@),
        0 <= g <= SCALE,
        v@.len() == t@.n(),
        val_bounded(ints(v@), VALUE_CEIL as int),
    ensures
        ints(r@) == backup(t@, g as int, ints(v@)),
        r@.len() == t@.n(),
{
    let n = t.state_count();
    let mut out: Vec<i64> = Vec::with_capacity(n);
    (0..n).into_par_iter().map(|i: usize| backup_state(t, g, v, i)).collect_into_vec(&mut out);
    out
}

/// One parallel Jacobi sweep of policy evaluation.
///
/// Relies on rayon's `into_par_iter().map(..).collect_into_vec(..)`: the map
/// runs `eval_state` once per state index with that state's assigned action,
/// and the collect stores the results in index order.
#[verifier::external_body]
pub(crate) fn par_eval_sweep(t: &TableSpace, g: i64, pi: &Vec<usize>, v: &Vec<i64>) -> (r: Vec<
    i64,
>)
    requires
        model_wf(t@),
        0 <= g <= SCALE,
        pi@.len() == t@.n(),
        v@.len() == t@.n(),
        val_bounded(ints(v@), VALUE_CEIL as int),
    ensures
        ints(r@) == evalstep(t@, g as int, pi@, ints(v@)),
        r@.len() == t@.n(),
{
    let n = t.state_count();
    let mut out: Vec<i64> = Vec::with_capacity(n);
    (0..n).into_par_iter().map(|i: usize| eval_state(t, g, v, i, pi[i])).collect_into_vec(&mut out);
    out
}

/// The greedy policy against `v`, extracted in parallel.
///
/// Relies on rayon's `into_par_iter().map(..).collect_into_vec(..)`: the map
/// runs `greedy_state` once per state index, and the collect stores the
/// results in index order.
#[verifier::external_body]
pub(crate) fn par_greedy_pass(t: &TableSpace, g: i64, d: usize, v: &Vec<i64>) -> (r: Vec<usize>)
    requires
        model_wf(t@),
        0 <= g <= SCALE,
        v@.len() == t@.n(),
        val_bounded(ints(v@), VALUE_CEIL as int),
    ensures
        r@ == greedy(t@, g as int, d, ints(v@)),
        r@.len() == t@.n(),
{
    let n = t.state_count();
    let mut out: Vec<usize> = Vec::with_capacity(n);
    (0..n).into_par_iter().map(|i: usize| greedy_state(t, g, d, v, i)).collect_into_vec(&mut out);
    out
}

/// Sup-norm distance between two buffers, as a parallel max reduction.
///
/// Relies on rayon's `into_par_iter().map(..).reduce(..)`: the map runs
/// `abs_diff64` once per index, and the reduction combines with `max64`,
/// which is associative and commutative with identity `0` over these
/// nonnegative distances, so any combination order yields the maximum.
#[verifier::external_body]
pub(crate) fn par_supdiff(a: &Vec<i64>, b: &Vec<i64>) -> (r: i64)
    requires
        a@.len() == b@.len(),
        val_bounded(ints(a@), VALUE_CEIL as int),
        val_bounded(ints(b@), VALUE_CEIL as int),
    ensures
        r as int == sup_diff(ints(a@), ints(b@)),
{
    (0..a.len()).into_par_iter().map(|i: usize| abs_diff64(a[i], b[i])).reduce(
        || 0i64,
        |x: i64, y: i64| max64(x, y),
    )
}

} // verus!
