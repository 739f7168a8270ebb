//! Sequential solver cores: value iteration and policy iteration over a
//! compiled [`TableSpace`], shared by every engine.
//!
//! Each solver is proved to return exactly what the spec-level iteration
//! schedule prescribes: value iteration follows [`vi_first`], policy
//! iteration follows [`pi_outcome`]. A call converges or exhausts its sweep
//! budget; budgets never exceed [`SWEEP_LIMIT`], which keeps every value
//! within [`VALUE_CEIL`].

use crate::bounds::{
    lemma_ev_first_char, lemma_ev_first_mono, lemma_evalstep_bound, lemma_vi_first_mono,
    lemma_vi_iter_bound,
};
use crate::fixed::{REWARD_LIMIT, SCALE, SWEEP_LIMIT, VALUE_CEIL};
use crate::model::{
    default_policy, ev_conv_at, ev_first, ev_iter, greedy, ints, model_wf, pi_outcome, pi_run,
    val_bounded, vi_conv_at, vi_first, vi_iter, zeros, MdpError,
};
use crate::par::{par_backup_sweep, par_eval_sweep, par_greedy_pass, par_supdiff};
use crate::table::{
    backup_sweep, default_vec, eval_sweep, greedy_pass, supdiff_exec, vec_eq_usize, zero_vec,
    TableSpace,
};
use vstd::arithmetic::mul::lemma_mul_inequality;
use vstd::prelude::*;

verus! {

/// `REWARD_LIMIT * k` budgets stay within `VALUE_CEIL` for `k` up to
/// `SWEEP_LIMIT`, and split additively.
proof fn lemma_budget(used: int, cap: int)
    requires
        0 <= used <= cap <= SWEEP_LIMIT as int,
    ensures
        REWARD_LIMIT as int * used + REWARD_LIMIT as int * (cap - used) == REWARD_LIMIT as int
            * cap,
        0 <= REWARD_LIMIT as int * used <= VALUE_CEIL as int,
        0 <= REWARD_LIMIT as int * cap <= VALUE_CEIL as int,
{
    let rl = REWARD_LIMIT as int;
    assert(rl * used + rl * (cap - used) == rl * cap) by (nonlinear_arith);
    assert(rl * used >= 0 && rl * cap >= 0) by (nonlinear_arith)
        requires
            rl > 0 && used >= 0 && cap >= 0,
    ;
    lemma_mul_inequality(used, SWEEP_LIMIT as int, rl);
    lemma_mul_inequality(cap, SWEEP_LIMIT as int, rl);
    assert(1_000_000int * 1_000_000_000_000int == 1_000_000_000_000_000_000int)
        by (nonlinear_arith);
    assert(SWEEP_LIMIT as int * rl == VALUE_CEIL as int);
    assert(used * rl == rl * used && cap * rl == rl * cap) by (nonlinear_arith);
}

/// Value iteration: Bellman sweeps from the zero buffer until the sup-norm
/// change of a sweep falls below `eps`, then one greedy pass; fails with
/// `DidNotConverge` when `cap` sweeps do not reach the criterion. Returns
/// the final buffer and the result. With `parallel` the sweeps, distance
/// reductions and greedy pass fan out over rayon workers; the result is the
/// same either way, as the one contract shows.
pub(crate) fn vi_solve(t: &TableSpace, g: i64, d: usize, eps: i64, cap: usize, parallel: bool) -> (res: (
    Vec<i64>,
    Result<Vec<usize>, MdpError>,
))
    requires
        model_wf(t@),
        0 <= g <= SCALE,
        cap <= SWEEP_LIMIT,
    ensures
        ({
            let m = t@;
            let gi = g as int;
            let ei = eps as int;
            match vi_first(m, gi, ei, cap as nat) {
                Some(tt) => {
                    &&& res.1 is Ok
                    &&& res.1->Ok_0@ == greedy(m, gi, d, vi_iter(m, gi, (tt + 1) as nat))
                    &&& ints(res.0@) == vi_iter(m, gi, (tt + 1) as nat)
                },
                None => {
                    &&& res.1 == Err::<Vec<usize>, MdpError>(MdpError::DidNotConverge)
                    &&& ints(res.0@) == vi_iter(m, gi, cap as nat)
                },
            }
        }),
{
    let ghost m = t@;
    let ghost gi = g as int;
    let ghost ei = eps as int;
    let n = t.state_count();
    let mut v = zero_vec(n);
    let mut used: usize = 0;
    proof {
        assert(ints(v@) == vi_iter(m, gi, 0));
    }
    while used < cap
        invariant
            model_wf(m),
            t@ == m,
            0 <= g <= SCALE,
            gi == g as int,
            ei == eps as int,
            n as int == m.n(),
            used <= cap <= SWEEP_LIMIT,
            v@.len() == n,
            ints(v@) == vi_iter(m, gi, used as nat),
            val_bounded(ints(v@), REWARD_LIMIT as int * used),
            vi_first(m, gi, ei, used as nat) is None,
        decreases cap - used,
    {
        proof {
            lemma_budget(used as int, cap as int);
        }
        let w = if parallel {
            par_backup_sweep(t, g, &v)
        } else {
            backup_sweep(t, g, &v)
        };
        proof {
            lemma_vi_iter_bound(m, gi, (used + 1) as nat);
            lemma_budget(used as int + 1, cap as int);
            assert(ints(w@) == vi_iter(m, gi, (used + 1) as nat));
        }
        let dm = if parallel {
            par_supdiff(&w, &v)
        } else {
            supdiff_exec(&w, &v)
        };
        v = w;
        used += 1;
        if dm < eps {
            proof {
                assert(vi_conv_at(m, gi, ei, (used - 1) as nat));
                assert(vi_first(m, gi, ei, used as nat) == Some((used - 1) as nat));
                lemma_vi_first_mono(m, gi, ei, used as nat, cap as nat);
            }
            let p = if parallel {
                par_greedy_pass(t, g, d, &v)
            } else {
                greedy_pass(t, g, d, &v)
            };
            return (v, Ok(p));
        }
        proof {
            assert(!vi_conv_at(m, gi, ei, (used - 1) as nat));
            assert(vi_first(m, gi, ei, used as nat) is None);
        }
    }
    (v, Err(MdpError::DidNotConverge))
}

/// Policy evaluation phase: Jacobi sweeps of the fixed policy `pi` from
/// `v0`, until the sup-norm change falls below `eps` or `budget` sweeps are
/// spent. Returns the final buffer, the sweeps consumed, and whether the
/// criterion was met.
fn eval_phase(
    t: &TableSpace,
    g: i64,
    eps: i64,
    pi: &Vec<usize>,
    v0: &Vec<i64>,
    budget: usize,
    parallel: bool,
    Ghost(b0): Ghost<int>,
) -> (res: (Vec<i64>, usize, bool))
    requires
        model_wf(t@),
        0 <= g <= SCALE,
        pi@.len() == t@.n(),
        v0@.len() == t@.n(),
        val_bounded(ints(v0@), b0),
        0 <= b0,
        b0 + REWARD_LIMIT as int * budget <= VALUE_CEIL as int,
    ensures
        ({
            let m = t@;
            let gi = g as int;
            let ei = eps as int;
            let vs0 = ints(v0@);
            match ev_first(m, gi, ei, pi@, vs0, budget as nat) {
                Some(tt) => {
                    &&& res.2
                    &&& res.1 == tt + 1
                    &&& ints(res.0@) == ev_iter(m, gi, pi@, vs0, (tt + 1) as nat)
                },
                None => {
                    &&& !res.2
                    &&& res.1 == budget
                    &&& ints(res.0@) == ev_iter(m, gi, pi@, vs0, budget as nat)
                },
            }
        }),
        res.0@.len() == t@.n(),
        res.1 <= budget,
        val_bounded(ints(res.0@), b0 + REWARD_LIMIT as int * res.1),
{
    let ghost m = t@;
    let ghost gi = g as int;
    let ghost ei = eps as int;
    let ghost vs0 = ints(v0@);
    let mut v = copy_vec64(v0);
    let mut spent: usize = 0;
    while spent < budget
        invariant
            model_wf(m),
            t@ == m,
            0 <= g <= SCALE,
            gi == g as int,
            ei == eps as int,
            pi@.len() == m.n(),
            vs0 == ints(v0@),
            vs0.len() == m.n(),
            val_bounded(vs0, b0),
            0 <= b0,
            b0 + REWARD_LIMIT as int * budget <= VALUE_CEIL as int,
            spent <= budget,
            v@.len() == m.n(),
            ints(v@) == ev_iter(m, gi, pi@, vs0, spent as nat),
            val_bounded(ints(v@), b0 + REWARD_LIMIT as int * spent),
            ev_first(m, gi, ei, pi@, vs0, spent as nat) is None,
        decreases budget - spent,
    {
        proof {
            lemma_step_budget(b0, spent as int, budget as int);
        }
        let w = if parallel {
            par_eval_sweep(t, g, pi, &v)
        } else {
            eval_sweep(t, g, pi, &v)
        };
        proof {
            lemma_evalstep_bound(m, gi, pi@, ints(v@), b0 + REWARD_LIMIT as int * spent);
            lemma_step_budget(b0, spent as int + 1, budget as int);
            assert(ints(w@) == ev_iter(m, gi, pi@, vs0, (spent + 1) as nat));
        }
        let dm = if parallel {
            par_supdiff(&w, &v)
        } else {
            supdiff_exec(&w, &v)
        };
        v = w;
        spent += 1;
        if dm < eps {
            proof {
                assert(ev_conv_at(m, gi, ei, pi@, vs0, (spent - 1) as nat));
                assert(ev_first(m, gi, ei, pi@, vs0, spent as nat) == Some((spent - 1) as nat));
                lemma_ev_first_mono(m, gi, ei, pi@, vs0, spent as nat, budget as nat);
            }
            return (v, spent, true);
        }
        proof {
            assert(!ev_conv_at(m, gi, ei, pi@, vs0, (spent - 1) as nat));
            assert(ev_first(m, gi, ei, pi@, vs0, spent as nat) is None);
        }
    }
    (v, budget, false)
}

/// Budget arithmetic for the evaluation phase: a partial spend stays within
/// the ceiling and is nonnegative.
proof fn lemma_step_budget(b0: int, spent: int, budget: int)
    requires
        0 <= b0,
        0 <= spent <= budget,
        b0 + REWARD_LIMIT as int * budget <= VALUE_CEIL as int,
    ensures
        0 <= b0 + REWARD_LIMIT as int * spent,
        b0 + REWARD_LIMIT as int * spent <= VALUE_CEIL as int,
        REWARD_LIMIT as int + (b0 + REWARD_LIMIT as int * (spent - 1)) == b0 + REWARD_LIMIT as int
            * spent,
{
    let rl = REWARD_LIMIT as int;
    assert(rl * spent >= 0) by (nonlinear_arith)
        requires
            rl > 0 && spent >= 0,
    ;
    lemma_mul_inequality(spent, budget, rl);
    assert(spent * rl == rl * spent && budget * rl == rl * budget) by (nonlinear_arith);
    assert(rl + rl * (spent - 1) == rl * spent) by (nonlinear_arith);
}

/// An exact copy of a value buffer.
fn copy_vec64(v: &Vec<i64>) -> (r: Vec<i64>)
    ensures
        r@ == v@,
{
    let mut out: Vec<i64> = Vec::new();
    let mut i: usize = 0;
    while i < v.len()
        invariant
            i <= v@.len(),
            out@.len() == i,
            forall|k: int| 0 <= k < i ==> out@[k] == v@[k],
        decreases v@.len() - i,
    {
        out.push(v[i]);
        i += 1;
    }
    proof {
        assert(out@ =~= v@);
    }
    out
}

/// Policy iteration: alternate policy evaluation (to convergence within the
/// remaining budget) and greedy improvement, until an improvement pass
/// changes no action; fails with `DidNotConverge` when the budget of `cap`
/// evaluation sweeps runs out. Returns the final buffer and the result.
/// With `parallel` the sweeps and improvement passes fan out over rayon
/// workers; the result is the same either way, as the one contract shows.
pub(crate) fn pi_solve(t: &TableSpace, g: i64, d: usize, eps: i64, cap: usize, parallel: bool) -> (res: (
    Vec<i64>,
    Result<Vec<usize>, MdpError>,
))
    requires
        model_wf(t@),
        0 <= g <= SCALE,
        cap <= SWEEP_LIMIT,
    ensures
        ({
            let m = t@;
            let gi = g as int;
            let ei = eps as int;
            match pi_outcome(m, gi, ei, d, cap as nat) {
                Some(pv) => {
                    &&& res.1 is Ok
                    &&& res.1->Ok_0@ == pv.0
                    &&& ints(res.0@) == pv.1
                },
                None => res.1 == Err::<Vec<usize>, MdpError>(MdpError::DidNotConverge),
            }
        }),
{
    let ghost m = t@;
    let ghost gi = g as int;
    let ghost ei = eps as int;
    let n = t.state_count();
    let mut v = zero_vec(n);
    let mut pi = default_vec(n, d);
    let mut used: usize = 0;
    proof {
        assert(ints(v@) == zeros(m.terminal.len()));
        assert(pi@ == default_policy(m.terminal.len(), d));
    }
    loop
        invariant
            model_wf(m),
            t@ == m,
            0 <= g <= SCALE,
            gi == g as int,
            ei == eps as int,
            n as int == m.n(),
            used <= cap <= SWEEP_LIMIT,
            v@.len() == n,
            pi@.len() == n,
            val_bounded(ints(v@), REWARD_LIMIT as int * used),
            pi_outcome(m, gi, ei, d, cap as nat) == pi_run(
                m,
                gi,
                ei,
                d,
                pi@,
                ints(v@),
                (cap - used) as nat,
            ),
        decreases cap - used,
    {
        let left = cap - used;
        proof {
            lemma_budget(used as int, cap as int);
            assert(REWARD_LIMIT as int * used + REWARD_LIMIT as int * left == REWARD_LIMIT as int
                * cap);
        }
        let ghost piold = pi@;
        let ghost vsold = ints(v@);
        let (v2, spent, conv) = eval_phase(
            t,
            g,
            eps,
            &pi,
            &v,
            left,
            parallel,
            Ghost(REWARD_LIMIT as int * used),
        );
        if !conv {
            proof {
                assert(ev_first(m, gi, ei, piold, vsold, left as nat) is None);
                assert(pi_run(m, gi, ei, d, piold, vsold, left as nat) is None);
            }
            return (v2, Err(MdpError::DidNotConverge));
        }
        v = v2;
        used += spent;
        proof {
            lemma_ev_first_char(m, gi, ei, piold, vsold, left as nat);
            lemma_budget(used as int, cap as int);
            assert(val_bounded(ints(v@), REWARD_LIMIT as int * used)) by {
                assert(REWARD_LIMIT as int * (used - spent) + REWARD_LIMIT as int * spent
                    == REWARD_LIMIT as int * used) by (nonlinear_arith);
            }
        }
        let newpi = if parallel {
            par_greedy_pass(t, g, d, &v)
        } else {
            greedy_pass(t, g, d, &v)
        };
        let same = vec_eq_usize(&newpi, &pi);
        proof {
            let tt = ev_first(m, gi, ei, piold, vsold, left as nat)->Some_0;
            assert(spent == tt + 1);
            assert(ints(v@) == ev_iter(m, gi, piold, vsold, (tt + 1) as nat));
            assert(newpi@ == greedy(m, gi, d, ints(v@)));
            if same {
                assert(pi_run(m, gi, ei, d, piold, vsold, left as nat) == Some(
                    (newpi@, ints(v@)),
                ));
            } else {
                assert(pi_run(m, gi, ei, d, piold, vsold, left as nat) == pi_run(
                    m,
                    gi,
                    ei,
                    d,
                    newpi@,
                    ints(v@),
                    (left - spent) as nat,
                ));
            }
        }
        if same {
            return (v, Ok(newpi));
        }
        pi = newpi;
    }
}

} // verus!
