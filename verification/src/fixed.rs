//! Fixed-point arithmetic for the solver.
//!
//! Probabilities, rewards, discount factors and state values are all held as
//! `i64` multiples of [`SCALE`]: one whole unit is `SCALE` fixed-point units.
//! Every product of two scaled quantities is brought back to scale with a
//! truncating division ([`fdiv`], rounds toward zero), so every value the
//! solver computes is an exact, fully specified integer.

use vstd::arithmetic::div_mod::{lemma_div_pos_is_pos, lemma_fundamental_div_mod, lemma_mod_bound};
use vstd::arithmetic::mul::lemma_mul_inequality;
use vstd::prelude::*;

verus! {

/// Number of fixed-point units in one whole unit.
pub const SCALE: i64 = 1_000_000;

/// Largest reward magnitude (in fixed-point units) a transition may carry.
pub const REWARD_LIMIT: i64 = 1_000_000_000_000;

/// Largest sweep budget a solve call may be given.
pub const SWEEP_LIMIT: usize = 1_000_000;

/// Largest magnitude a state value can reach within a solve call:
/// `REWARD_LIMIT` per sweep for at most `SWEEP_LIMIT` sweeps.
pub const VALUE_CEIL: i64 = 1_000_000_000_000_000_000;

/// Magnitude of an integer.
pub open spec fn abs_i(x: int) -> int {
    if x >= 0 {
        x
    } else {
        -x
    }
}

/// Larger of two integers.
pub open spec fn max_i(x: int, y: int) -> int {
    if x >= y {
        x
    } else {
        y
    }
}

/// Division by `SCALE` rounding toward zero: the rounding applied to every
/// fixed-point product.
pub open spec fn fdiv(x: int) -> int {
    if x >= 0 {
        x / (SCALE as int)
    } else {
        -((-x) / (SCALE as int))
    }
}

/// Truncation never grows a magnitude: `SCALE * |x / SCALE| <= |x|`,
/// and the quotient keeps the sign of `x`.
pub proof fn lemma_fdiv_mag(x: int)
    ensures
        abs_i(fdiv(x)) * (SCALE as int) <= abs_i(x),
        abs_i(fdiv(x)) <= abs_i(x),
        x >= 0 ==> fdiv(x) >= 0,
        x < 0 ==> fdiv(x) <= 0,
{
    let s = SCALE as int;
    let a = abs_i(x);
    lemma_div_pos_is_pos(a, s);
    lemma_fundamental_div_mod(a, s);
    lemma_mod_bound(a, s);
    assert((a / s) * s == s * (a / s)) by (nonlinear_arith);
    assert(a / s <= (a / s) * s) by {
        lemma_mul_inequality(1, s, a / s);
        assert((a / s) * 1 == a / s) by (nonlinear_arith);
        assert((a / s) * s == s * (a / s)) by (nonlinear_arith);
        assert((a / s) * 1 == 1 * (a / s)) by (nonlinear_arith);
    }
    if x >= 0 {
        assert(abs_i(fdiv(x)) == a / s);
    } else {
        assert(abs_i(fdiv(x)) == a / s);
    }
}

/// If `0 <= p` and `|y| <= c`, then `|p * y| <= p * c`.
pub proof fn lemma_scale_abs(p: int, y: int, c: int)
    requires
        0 <= p,
        abs_i(y) <= c,
    ensures
        abs_i(p * y) <= p * c,
{
    if y >= 0 {
        lemma_mul_inequality(y, c, p);
        assert(y * p == p * y) by (nonlinear_arith);
        assert(c * p == p * c) by (nonlinear_arith);
        assert(p * y >= 0) by (nonlinear_arith)
            requires
                p >= 0 && y >= 0,
        ;
    } else {
        lemma_mul_inequality(-y, c, p);
        assert((-y) * p == -(p * y)) by (nonlinear_arith);
        assert(c * p == p * c) by (nonlinear_arith);
        assert(p * y <= 0) by (nonlinear_arith)
            requires
                p >= 0 && y < 0,
        ;
    }
}

/// Exec form of [`fdiv`] on a wide intermediate.
pub(crate) fn fdiv_exec(x: i128) -> (r: i128)
    requires
        x != i128::MIN,
    ensures
        r as int == fdiv(x as int),
{
    proof {
        lemma_fdiv_mag(x as int);
    }
    if x >= 0 {
        let q: u128 = (x as u128) / (SCALE as u128);
        q as i128
    } else {
        let m: u128 = (-x) as u128;
        let q: u128 = m / (SCALE as u128);
        -(q as i128)
    }
}

/// Larger of two fixed-point values.
pub(crate) fn max64(x: i64, y: i64) -> (r: i64)
    ensures
        r as int == max_i(x as int, y as int),
{
    if x >= y {
        x
    } else {
        y
    }
}

/// `|x - y|`, defined whenever both operands are within the value ceiling.
pub(crate) fn abs_diff64(x: i64, y: i64) -> (r: i64)
    requires
        abs_i(x as int) <= VALUE_CEIL as int,
        abs_i(y as int) <= VALUE_CEIL as int,
    ensures
        r as int == abs_i(x as int - y as int),
{
    if x >= y {
        x - y
    } else {
        y - x
    }
}

} // verus!
