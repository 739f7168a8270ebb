//! Dense tabular form of a decision process, and the per-state computations
//! every solver is built from.
//!
//! The engines compile the environment they are given into a [`TableSpace`]
//! once, at construction; every sweep then runs against these tables alone.
//! Each executable function here is proved to return exactly the value of
//! its spec-level counterpart in [`crate::model`].

use crate::bounds::{
    lemma_clean_model_wf, lemma_first_issue_mono, lemma_first_issue_none, lemma_psum_mono,
    lemma_term_bound,
};
use crate::fixed::{abs_diff64, abs_i, fdiv_exec, max64, REWARD_LIMIT, SCALE, VALUE_CEIL};
use crate::model::{
    backup, backup_at, best_act, best_q, eval_at, evalstep, find_act, first_issue, greedy,
    greedy_at, ints, lemma_find_from, model_wf, psum, q_val, qsum, row_wf, state_issue, sup_diff,
    supd, term_val, trans_wf, val_bounded, zeros, MdpError, MdpModel, TransSpec,
};
use vstd::prelude::*;

verus! {

/// One outcome of taking an action, as the solver stores it: successor state
/// index, probability and reward, in fixed-point units.
#[derive(Clone, Copy, Debug)]
pub struct Transition {
    pub next: usize,
    pub prob: i64,
    pub reward: i64,
}

impl View for Transition {
    type V = TransSpec;

    open spec fn view(&self) -> TransSpec {
        TransSpec { next: self.next as int, prob: self.prob as int, reward: self.reward as int }
    }
}

impl DeepView for Transition {
    type V = TransSpec;

    open spec fn deep_view(&self) -> TransSpec {
        self.view()
    }
}

/// A decision process laid out as dense, index-addressed tables: row `j` of
/// `trans[s]` is the outcome distribution of action `acts[s][j]`. The
/// engines compile every environment into this form at construction; it also
/// serves as a data-driven environment of its own.
pub struct TableSpace {
    terminal: Vec<bool>,
    acts: Vec<Vec<usize>>,
    trans: Vec<Vec<Vec<Transition>>>,
}

impl View for TableSpace {
    type V = MdpModel;

    closed spec fn view(&self) -> MdpModel {
        MdpModel {
            terminal: self.terminal.view(),
            acts: self.acts.deep_view(),
            trans: self.trans.deep_view(),
        }
    }
}

impl TableSpace {
    /// Builds a table space from its three tables, which must agree on the
    /// state count and pair one outcome distribution with each action.
    pub fn new(
        terminal: Vec<bool>,
        acts: Vec<Vec<usize>>,
        trans: Vec<Vec<Vec<Transition>>>,
    ) -> (r: TableSpace)
        requires
            acts.deep_view().len() == terminal@.len(),
            trans.deep_view().len() == terminal@.len(),
            forall|s: int|
                0 <= s < terminal@.len() ==> (#[trigger] trans.deep_view()[s]).len()
                    == acts.deep_view()[s].len(),
        ensures
            r@ == (MdpModel {
                terminal: terminal@,
                acts: acts.deep_view(),
                trans: trans.deep_view(),
            }),
            r@.dims_ok(),
    {
        TableSpace { terminal, acts, trans }
    }

    /// Number of states.
    pub fn state_count(&self) -> (r: usize)
        requires
            self@.dims_ok(),
        ensures
            r as int == self@.n(),
    {
        self.terminal.len()
    }
}

impl crate::markov_decision_process::StateSpace for TableSpace {
    /// The three tables agree on the state count.
    open spec fn inv(&self) -> bool {
        self@.dims_ok()
    }

    open spec fn model(&self) -> MdpModel {
        self@
    }

    fn get_actions_at_state(&self, s: &usize) -> (r: Vec<usize>)
    {
        proof {
            assert(self.acts@[*s as int].deep_view() == self@.acts[*s as int]);
            assert(self.acts@[*s as int]@ =~= self@.acts[*s as int]);
        }
        copy_vec_usize(&self.acts[*s])
    }

    fn get_future_rewards(&self, s: &usize, a: &usize) -> (r: Vec<Transition>)
    {
        proof {
            assert(self.acts@[*s as int].deep_view() == self@.acts[*s as int]);
            assert(self.acts@[*s as int]@ =~= self@.acts[*s as int]);
        }
        let found = find_act_exec(&self.acts[*s], *a);
        match found {
            Some(j) => {
                proof {
                    assert(self.trans@[*s as int].deep_view() == self@.trans[*s as int]);
                    assert(self.trans@[*s as int]@[j as int].deep_view() == self@.trans[*s as int][j as int]);
                }
                copy_row(&self.trans[*s][j])
            },
            None => Vec::new(),
        }
    }

    fn get_all_states(&self) -> (r: Vec<usize>)
    {
        let n = self.terminal.len();
        let mut out: Vec<usize> = Vec::new();
        let mut i: usize = 0;
        while i < n
            invariant
                i <= n,
                out@.len() == i,
                forall|k: int| 0 <= k < i ==> out@[k] == k,
            decreases n - i,
        {
            out.push(i);
            i += 1;
        }
        proof {
            assert(out@ =~= Seq::new(self@.terminal.len(), |i: int| i as usize));
        }
        out
    }

    fn len(&self) -> (r: usize)
    {
        self.terminal.len()
    }

    fn is_terminal_state(&self, s: &usize) -> (r: bool)
    {
        self.terminal[*s]
    }
}

impl crate::engine::StateSpace for TableSpace {
    /// The three tables agree on the state count.
    open spec fn inv(&self) -> bool {
        self@.dims_ok()
    }

    /// State labels are the indices themselves.
    open spec fn sm(&self) -> crate::model::SpaceModel {
        crate::model::SpaceModel {
            ids: Seq::new(self@.terminal.len(), |i: int| i as usize),
            terminal: self@.terminal,
            acts: self@.acts,
            trans: self@.trans,
        }
    }

    fn get_actions_at_state(&self, s: usize) -> (r: Vec<usize>)
    {
        proof {
            assert(self.terminal.len() == self@.terminal.len());
            lemma_identity_label(self.sm(), s);
            assert(self.acts@[s as int].deep_view() == self@.acts[s as int]);
            assert(self.acts@[s as int]@ =~= self@.acts[s as int]);
        }
        copy_vec_usize(&self.acts[s])
    }

    fn get_prob_reward(&self, s: usize, a: usize) -> (r: Vec<Transition>)
    {
        proof {
            assert(self.terminal.len() == self@.terminal.len());
            lemma_identity_label(self.sm(), s);
            assert(self.acts@[s as int].deep_view() == self@.acts[s as int]);
            assert(self.acts@[s as int]@ =~= self@.acts[s as int]);
        }
        let found = find_act_exec(&self.acts[s], a);
        match found {
            Some(j) => {
                proof {
                    assert(self.trans@[s as int].deep_view() == self@.trans[s as int]);
                    assert(self.trans@[s as int]@[j as int].deep_view() == self@.trans[s as int][j as int]);
                }
                copy_row(&self.trans[s][j])
            },
            None => Vec::new(),
        }
    }

    fn get_all_states(&self) -> (r: Vec<usize>)
    {
        let n = self.terminal.len();
        let mut out: Vec<usize> = Vec::new();
        let mut i: usize = 0;
        while i < n
            invariant
                i <= n,
                out@.len() == i,
                forall|k: int| 0 <= k < i ==> out@[k] == k,
            decreases n - i,
        {
            out.push(i);
            i += 1;
        }
        proof {
            assert(out@ =~= Seq::new(self@.terminal.len(), |i: int| i as usize));
        }
        out
    }

    fn get_state_count(&self) -> (r: usize)
    {
        self.terminal.len()
    }

    fn get_idx_from_state(&self, s: usize) -> (r: usize)
    {
        proof {
            assert(self.terminal.len() == self@.terminal.len());
            lemma_identity_label(self.sm(), s);
        }
        s
    }

    fn get_state_from_idx(&self, i: usize) -> (r: usize)
    {
        i
    }

    fn is_terminal_state(&self, s: usize) -> (r: bool)
    {
        proof {
            assert(self.terminal.len() == self@.terminal.len());
            lemma_identity_label(self.sm(), s);
        }
        self.terminal[s]
    }
}

/// In a space whose labels are the indices, a valid label is an in-range
/// index and carries only itself.
proof fn lemma_identity_label(sm: crate::model::SpaceModel, s: usize)
    requires
        sm.ids == Seq::new(sm.terminal.len(), |i: int| i as usize),
        sm.ids.len() == sm.terminal.len(),
        sm.n() <= usize::MAX as int,
        sm.valid_state(s),
    ensures
        (s as int) < sm.n(),
        forall|i: int| 0 <= i < sm.n() && (#[trigger] sm.ids[i]) == s ==> i == s as int,
{
    let wi = choose|i: int| 0 <= i < sm.n() && sm.ids[i] == s;
    assert(sm.ids[wi] == wi as usize);
    assert forall|i: int| 0 <= i < sm.n() && (#[trigger] sm.ids[i]) == s implies i == s as int by {
        assert(sm.ids[i] == i as usize);
    }
}

/// An exact copy of an action list.
pub(crate) fn copy_vec_usize(v: &Vec<usize>) -> (r: Vec<usize>)
    ensures
        r@ == v@,
{
    let mut out: Vec<usize> = Vec::new();
    let mut i: usize = 0;
    while i < v.len()
        invariant
            i <= v@.len(),
            out@.len() == i,
            forall|k: int| 0 <= k < i ==> out@[k] == v@[k],
        decreases v@.len() - i,
    {
        out.push(v[i]);
        i += 1;
    }
    proof {
        assert(out@ =~= v@);
    }
    out
}

/// An exact copy of an outcome distribution.
pub(crate) fn copy_row(v: &Vec<Transition>) -> (r: Vec<Transition>)
    ensures
        r.deep_view() == v.deep_view(),
{
    let mut out: Vec<Transition> = Vec::new();
    let mut i: usize = 0;
    while i < v.len()
        invariant
            i <= v@.len(),
            out@.len() == i,
            forall|k: int| 0 <= k < i ==> out@[k] == v@[k],
        decreases v@.len() - i,
    {
        out.push(v[i]);
        i += 1;
    }
    proof {
        assert(out.deep_view() =~= v.deep_view());
    }
    out
}

/// Position of the first occurrence of `a` in `row`, if any.
pub(crate) fn find_act_exec(row: &Vec<usize>, a: usize) -> (r: Option<usize>)
    ensures
        match r {
            Some(j) => find_act(row@, a) == j as int && (j as int) < row@.len() && row@[j as int]
                == a,
            None => find_act(row@, a) == -1,
        },
{
    let mut j: usize = 0;
    while j < row.len()
        invariant
            j <= row@.len(),
            forall|k: int| 0 <= k < j ==> row@[k] != a,
        decreases row@.len() - j,
    {
        if row[j] == a {
            proof {
                lemma_find_from(row@, a, 0);
            }
            return Some(j);
        }
        j += 1;
    }
    proof {
        lemma_find_from(row@, a, 0);
    }
    None
}

/// Q-value of action `a` in state `s` against the buffer `v`: the
/// probability-weighted, discounted sum over the action's outcomes, or zero
/// when `s` does not offer `a`.
pub(crate) fn q_exec(t: &TableSpace, g: i64, v: &Vec<i64>, s: usize, a: usize) -> (r: i64)
    requires
        model_wf(t@),
        0 <= g <= SCALE,
        (s as int) < t@.n(),
        v@.len() == t@.n(),
        val_bounded(ints(v@), VALUE_CEIL as int),
    ensures
        r as int == q_val(t@, g as int, ints(v@), s as int, a),
        abs_i(r as int) <= REWARD_LIMIT as int + VALUE_CEIL as int,
{
    let ghost m = t@;
    let ghost gi = g as int;
    let ghost vs = ints(v@);
    let ghost b = VALUE_CEIL as int;
    let row: &Vec<usize> = &t.acts[s];
    proof {
        assert(row@ == m.acts[s as int]);
    }
    let found = find_act_exec(row, a);
    match found {
        None => {
            proof {
                assert(q_val(m, gi, vs, s as int, a) == 0);
            }
            0
        },
        Some(j) => {
            proof {
                assert(t.trans@.len() == m.trans.len());
                assert(t.trans@[s as int].deep_view() == m.trans[s as int]);
                assert(t.trans@[s as int]@.len() == m.trans[s as int].len());
                assert(m.trans[s as int].len() == m.acts[s as int].len());
            }
            let ts: &Vec<Transition> = &t.trans[s][j];
            proof {
                assert(ts.deep_view() == m.trans[s as int][j as int]);
                assert(tss_wf_trigger(m, s as int, j as int)) by {
                    assert(row_wf(m.trans[s as int][j as int], m.n()));
                }
            }
            let ghost tss = ts.deep_view();
            let mut acc: i128 = 0;
            let mut k: usize = 0;
            while k < ts.len()
                invariant
                    model_wf(m),
                    t@ == m,
                    0 <= g <= SCALE,
                    gi == g as int,
                    vs == ints(v@),
                    v@.len() == m.n(),
                    val_bounded(vs, b),
                    b == VALUE_CEIL as int,
                    tss == ts.deep_view(),
                    row_wf(tss, m.n()),
                    k <= ts@.len(),
                    ts@.len() == tss.len(),
                    acc as int == qsum(tss, gi, vs, k as int),
                    (SCALE as int) * abs_i(acc as int) <= psum(tss, k as int) * (REWARD_LIMIT
                        as int + VALUE_CEIL as int),
                decreases ts@.len() - k,
            {
                let tr = ts[k];
                proof {
                    assert(tr@ == tss[k as int]);
                    assert(trans_wf(tss[k as int], m.n()));
                    assert(abs_i(vs[tr.next as int]) <= b);
                    lemma_scale_mul_bounds(g as int, vs[tr.next as int], b);
                }
                let gv: i128 = (g as i128) * (v[tr.next] as i128);
                let inner: i128 = fdiv_exec(gv);
                proof {
                    crate::fixed::lemma_fdiv_mag(gv as int);
                    lemma_cancel_pos(abs_i(inner as int), b, gi, vs[tr.next as int]);
                    assert(trans_prob_le_scale(tss, k as int, m.n())) by {
                        lemma_psum_mono(tss, k as int + 1, m.n());
                        lemma_psum_mono(tss, k as int, m.n());
                    }
                    lemma_scale_mul_prob(tr.prob as int, (tr.reward as int) + (inner as int), b);
                }
                let x: i128 = (tr.reward as i128) + inner;
                let pr: i128 = (tr.prob as i128) * x;
                let term: i128 = fdiv_exec(pr);
                proof {
                    assert(term as int == term_val(tss[k as int], gi, vs));
                    lemma_term_bound(tss[k as int], gi, vs, b, m.n());
                    lemma_acc_step(tss, gi, vs, k as int, acc as int, term as int, b, m.n());
                }
                acc = acc + term;
                k += 1;
            }
            proof {
                lemma_psum_mono(tss, tss.len() as int, m.n());
                lemma_final_q_bound(acc as int, tss);
                assert(q_val(m, gi, vs, s as int, a) == qsum(tss, gi, vs, tss.len() as int));
            }
            acc as i64
        },
    }
}

/// Best Q-value over all of state `s`'s actions, paired with the first
/// action achieving it. `s` must offer at least one action.
pub(crate) fn best_pair(t: &TableSpace, g: i64, v: &Vec<i64>, s: usize) -> (r: (i64, usize))
    requires
        model_wf(t@),
        0 <= g <= SCALE,
        (s as int) < t@.n(),
        !t@.terminal[s as int],
        v@.len() == t@.n(),
        val_bounded(ints(v@), VALUE_CEIL as int),
    ensures
        r.0 as int == best_q(t@, g as int, ints(v@), s as int, t@.acts[s as int].len() as int),
        r.1 == best_act(t@, g as int, ints(v@), s as int, t@.acts[s as int].len() as int),
        abs_i(r.0 as int) <= REWARD_LIMIT as int + VALUE_CEIL as int,
{
    let ghost m = t@;
    let ghost gi = g as int;
    let ghost vs = ints(v@);
    let row: &Vec<usize> = &t.acts[s];
    proof {
        assert(row@ == m.acts[s as int]);
    }
    let mut best: i64 = q_exec(t, g, v, s, row[0]);
    let mut bact: usize = row[0];
    let mut j: usize = 1;
    while j < row.len()
        invariant
            model_wf(m),
            t@ == m,
            0 <= g <= SCALE,
            gi == g as int,
            vs == ints(v@),
            (s as int) < m.n(),
            !m.terminal[s as int],
            v@.len() == m.n(),
            val_bounded(vs, VALUE_CEIL as int),
            row@ == m.acts[s as int],
            1 <= j <= row@.len(),
            best as int == best_q(m, gi, vs, s as int, j as int),
            bact == best_act(m, gi, vs, s as int, j as int),
            abs_i(best as int) <= REWARD_LIMIT as int + VALUE_CEIL as int,
        decreases row@.len() - j,
    {
        let q = q_exec(t, g, v, s, row[j]);
        if q > best {
            best = q;
            bact = row[j];
        }
        j += 1;
    }
    (best, bact)
}

/// One state's Bellman backup: zero for a terminal state, the best Q-value
/// otherwise.
pub(crate) fn backup_state(t: &TableSpace, g: i64, v: &Vec<i64>, i: usize) -> (r: i64)
    requires
        model_wf(t@),
        0 <= g <= SCALE,
        (i as int) < t@.n(),
        v@.len() == t@.n(),
        val_bounded(ints(v@), VALUE_CEIL as int),
    ensures
        r as int == backup_at(t@, g as int, ints(v@), i as int),
        abs_i(r as int) <= REWARD_LIMIT as int + VALUE_CEIL as int,
{
    if t.terminal[i] {
        0
    } else {
        best_pair(t, g, v, i).0
    }
}

/// One state's greedy action: the default for a terminal state, the first
/// maximal action otherwise.
pub(crate) fn greedy_state(t: &TableSpace, g: i64, d: usize, v: &Vec<i64>, i: usize) -> (r: usize)
    requires
        model_wf(t@),
        0 <= g <= SCALE,
        (i as int) < t@.n(),
        v@.len() == t@.n(),
        val_bounded(ints(v@), VALUE_CEIL as int),
    ensures
        r == greedy_at(t@, g as int, d, ints(v@), i as int),
{
    if t.terminal[i] {
        d
    } else {
        best_pair(t, g, v, i).1
    }
}

/// One state's value under an assigned action: zero for a terminal state,
/// the action's Q-value otherwise.
pub(crate) fn eval_state(t: &TableSpace, g: i64, v: &Vec<i64>, i: usize, a: usize) -> (r: i64)
    requires
        model_wf(t@),
        0 <= g <= SCALE,
        (i as int) < t@.n(),
        v@.len() == t@.n(),
        val_bounded(ints(v@), VALUE_CEIL as int),
    ensures
        r as int == (if t@.terminal[i as int] {
            0
        } else {
            q_val(t@, g as int, ints(v@), i as int, a)
        }),
        abs_i(r as int) <= REWARD_LIMIT as int + VALUE_CEIL as int,
{
    if t.terminal[i] {
        0
    } else {
        q_exec(t, g, v, i, a)
    }
}

/// One Jacobi sweep of Bellman backups, reading only `v`.
pub(crate) fn backup_sweep(t: &TableSpace, g: i64, v: &Vec<i64>) -> (r: Vec<i64>)
    requires
        model_wf(t@),
        0 <= g <= SCALE,
        v@.len() == t@.n(),
        val_bounded(ints(v@), VALUE_CEIL as int),
    ensures
        ints(r@) == backup(t@, g as int, ints(v@)),
        r@.len() == t@.n(),
{
    let ghost m = t@;
    let ghost gi = g as int;
    let ghost vs = ints(v@);
    let n = t.state_count();
    let mut out: Vec<i64> = Vec::new();
    let mut i: usize = 0;
    while i < n
        invariant
            model_wf(m),
            t@ == m,
            0 <= g <= SCALE,
            gi == g as int,
            vs == ints(v@),
            v@.len() == m.n(),
            val_bounded(vs, VALUE_CEIL as int),
            n as int == m.n(),
            i <= n,
            out@.len() == i,
            forall|k: int| 0 <= k < i ==> out@[k] as int == backup_at(m, gi, vs, k),
        decreases n - i,
    {
        let x = backup_state(t, g, v, i);
        out.push(x);
        i += 1;
    }
    proof {
        assert(ints(out@) =~= backup(m, gi, vs));
    }
    out
}

/// One Jacobi sweep of policy evaluation: state `i` takes the Q-value of
/// `pi[i]`, reading only `v`.
pub(crate) fn eval_sweep(t: &TableSpace, g: i64, pi: &Vec<usize>, v: &Vec<i64>) -> (r: Vec<i64>)
    requires
        model_wf(t@),
        0 <= g <= SCALE,
        pi@.len() == t@.n(),
        v@.len() == t@.n(),
        val_bounded(ints(v@), VALUE_CEIL as int),
    ensures
        ints(r@) == evalstep(t@, g as int, pi@, ints(v@)),
        r@.len() == t@.n(),
{
    let ghost m = t@;
    let ghost gi = g as int;
    let ghost vs = ints(v@);
    let n = t.state_count();
    let mut out: Vec<i64> = Vec::new();
    let mut i: usize = 0;
    while i < n
        invariant
            model_wf(m),
            t@ == m,
            0 <= g <= SCALE,
            gi == g as int,
            vs == ints(v@),
            pi@.len() == m.n(),
            v@.len() == m.n(),
            val_bounded(vs, VALUE_CEIL as int),
            n as int == m.n(),
            i <= n,
            out@.len() == i,
            forall|k: int| 0 <= k < i ==> out@[k] as int == eval_at(m, gi, pi@, vs, k),
        decreases n - i,
    {
        let x = eval_state(t, g, v, i, pi[i]);
        out.push(x);
        i += 1;
    }
    proof {
        assert(ints(out@) =~= evalstep(m, gi, pi@, vs));
    }
    out
}

/// The greedy policy against `v`: terminal states take the default action.
pub(crate) fn greedy_pass(t: &TableSpace, g: i64, d: usize, v: &Vec<i64>) -> (r: Vec<usize>)
    requires
        model_wf(t@),
        0 <= g <= SCALE,
        v@.len() == t@.n(),
        val_bounded(ints(v@), VALUE_CEIL as int),
    ensures
        r@ == greedy(t@, g as int, d, ints(v@)),
        r@.len() == t@.n(),
{
    let ghost m = t@;
    let ghost gi = g as int;
    let ghost vs = ints(v@);
    let n = t.state_count();
    let mut out: Vec<usize> = Vec::new();
    let mut i: usize = 0;
    while i < n
        invariant
            model_wf(m),
            t@ == m,
            0 <= g <= SCALE,
            gi == g as int,
            vs == ints(v@),
            v@.len() == m.n(),
            val_bounded(vs, VALUE_CEIL as int),
            n as int == m.n(),
            i <= n,
            out@.len() == i,
            forall|k: int| 0 <= k < i ==> out@[k] == greedy_at(m, gi, d, vs, k),
        decreases n - i,
    {
        let x = greedy_state(t, g, d, v, i);
        out.push(x);
        i += 1;
    }
    proof {
        assert(out@ =~= greedy(m, gi, d, vs));
    }
    out
}

/// Sup-norm distance between two buffers of equal length.
pub(crate) fn supdiff_exec(a: &Vec<i64>, b: &Vec<i64>) -> (r: i64)
    requires
        a@.len() == b@.len(),
        val_bounded(ints(a@), VALUE_CEIL as int),
        val_bounded(ints(b@), VALUE_CEIL as int),
    ensures
        r as int == sup_diff(ints(a@), ints(b@)),
{
    let mut cur: i64 = 0;
    let mut i: usize = 0;
    while i < a.len()
        invariant
            a@.len() == b@.len(),
            val_bounded(ints(a@), VALUE_CEIL as int),
            val_bounded(ints(b@), VALUE_CEIL as int),
            i <= a@.len(),
            cur as int == supd(ints(a@), ints(b@), i as int),
            0 <= cur,
        decreases a@.len() - i,
    {
        proof {
            assert(ints(a@)[i as int] == a@[i as int] as int);
            assert(ints(b@)[i as int] == b@[i as int] as int);
        }
        let d = abs_diff64(a[i], b[i]);
        cur = max64(cur, d);
        i += 1;
    }
    cur
}

/// Whether two policies assign the same action everywhere.
pub(crate) fn vec_eq_usize(a: &Vec<usize>, b: &Vec<usize>) -> (r: bool)
    ensures
        r == (a@ == b@),
{
    if a.len() != b.len() {
        return false;
    }
    let mut i: usize = 0;
    while i < a.len()
        invariant
            a@.len() == b@.len(),
            i <= a@.len(),
            forall|k: int| 0 <= k < i ==> a@[k] == b@[k],
        decreases a@.len() - i,
    {
        if a[i] != b[i] {
            return false;
        }
        i += 1;
    }
    proof {
        assert(a@ =~= b@);
    }
    true
}

/// The all-zero value buffer of a given length.
pub(crate) fn zero_vec(n: usize) -> (r: Vec<i64>)
    ensures
        r@.len() == n,
        ints(r@) == zeros(n as nat),
        val_bounded(ints(r@), 0),
{
    let mut out: Vec<i64> = Vec::new();
    let mut i: usize = 0;
    while i < n
        invariant
            i <= n,
            out@.len() == i,
            forall|k: int| 0 <= k < i ==> out@[k] == 0i64,
        decreases n - i,
    {
        out.push(0);
        i += 1;
    }
    proof {
        assert(ints(out@) =~= zeros(n as nat));
    }
    out
}

/// The starting policy: the default action everywhere.
pub(crate) fn default_vec(n: usize, d: usize) -> (r: Vec<usize>)
    ensures
        r@.len() == n,
        r@ == crate::model::default_policy(n as nat, d),
{
    let mut out: Vec<usize> = Vec::new();
    let mut i: usize = 0;
    while i < n
        invariant
            i <= n,
            out@.len() == i,
            forall|k: int| 0 <= k < i ==> out@[k] == d,
        decreases n - i,
    {
        out.push(d);
        i += 1;
    }
    proof {
        assert(out@ =~= crate::model::default_policy(n as nat, d));
    }
    out
}

/// Whether one outcome distribution is well formed for an `n`-state
/// process: successors in range, probabilities nonnegative and summing to
/// one, rewards within the representable magnitude.
pub(crate) fn check_row(row: &Vec<Transition>, n: usize) -> (r: bool)
    ensures
        r == row_wf(row.deep_view(), n as int),
{
    let ghost ts = row.deep_view();
    let mut sum: i128 = 0;
    let mut k: usize = 0;
    while k < row.len()
        invariant
            ts == row.deep_view(),
            k <= row@.len(),
            ts.len() == row@.len(),
            forall|t: int| 0 <= t < k ==> trans_wf(#[trigger] ts[t], n as int),
            sum as int == psum(ts, k as int),
            0 <= sum <= SCALE,
        decreases row@.len() - k,
    {
        let tr = row[k];
        proof {
            assert(tr@ == ts[k as int]);
        }
        if tr.next >= n || tr.prob < 0 || tr.reward > REWARD_LIMIT || tr.reward < -REWARD_LIMIT {
            proof {
                assert(!trans_wf(ts[k as int], n as int));
            }
            return false;
        }
        sum = sum + (tr.prob as i128);
        if sum > (SCALE as i128) {
            proof {
                if row_wf(ts, n as int) {
                    lemma_psum_mono(ts, k as int + 1, n as int);
                }
            }
            return false;
        }
        k += 1;
    }
    sum == (SCALE as i128)
}

/// First issue of a dimensioned table, scanning states in index order:
/// a non-terminal state without actions, or an ill-formed outcome
/// distribution. `None` means the table is a well-formed process.
pub(crate) fn check_table(t: &TableSpace) -> (r: Option<MdpError>)
    requires
        t@.dims_ok(),
    ensures
        r == first_issue(t@, t@.n()),
        r is None ==> model_wf(t@),
{
    let ghost m = t@;
    let n = t.state_count();
    let mut s: usize = 0;
    while s < n
        invariant
            m == t@,
            m.dims_ok(),
            n as int == m.n(),
            s <= n,
            first_issue(m, s as int) == None::<MdpError>,
        decreases n - s,
    {
        proof {
            assert(t.acts@.len() == m.acts.len());
            assert(t.trans@.len() == m.trans.len());
            assert(t.acts@[s as int].deep_view() == m.acts[s as int]);
        }
        if !t.terminal[s] && t.acts[s].len() == 0 {
            proof {
                assert(state_issue(m, s as int) == Some(MdpError::EmptyActionSet));
                assert(first_issue(m, s as int + 1) == Some(MdpError::EmptyActionSet));
                lemma_first_issue_mono(m, s as int + 1, m.n());
            }
            return Some(MdpError::EmptyActionSet);
        }
        let rows: &Vec<Vec<Transition>> = &t.trans[s];
        proof {
            assert(rows.deep_view() == m.trans[s as int]);
        }
        let mut j: usize = 0;
        while j < rows.len()
            invariant
                m == t@,
                m.dims_ok(),
                n as int == m.n(),
                s < n,
                rows.deep_view() == m.trans[s as int],
                j <= rows@.len(),
                rows@.len() == m.trans[s as int].len(),
                m.trans[s as int].len() == m.acts[s as int].len(),
                forall|jj: int| 0 <= jj < j ==> row_wf(#[trigger] m.trans[s as int][jj], m.n()),
                !(!m.terminal[s as int] && m.acts[s as int].len() == 0),
                first_issue(m, s as int) == None::<MdpError>,
            decreases rows@.len() - j,
        {
            proof {
                assert(rows@[j as int].deep_view() == m.trans[s as int][j as int]);
            }
            let ok = check_row(&rows[j], n);
            if !ok {
                proof {
                    assert(!row_wf(m.trans[s as int][j as int], m.n()));
                    assert(state_issue(m, s as int) == Some(
                        MdpError::MalformedTransitionDistribution,
                    ));
                    assert(first_issue(m, s as int + 1) == Some(
                        MdpError::MalformedTransitionDistribution,
                    ));
                    lemma_first_issue_mono(m, s as int + 1, m.n());
                }
                return Some(MdpError::MalformedTransitionDistribution);
            }
            j += 1;
        }
        proof {
            assert(state_issue(m, s as int) == None::<MdpError>);
        }
        s += 1;
    }
    proof {
        lemma_first_issue_none(m, n as int);
        lemma_clean_model_wf(m);
    }
    None
}

/// Trigger helper: the row of action index `j` in state `s` is well formed.
spec fn tss_wf_trigger(m: MdpModel, s: int, j: int) -> bool {
    row_wf(m.trans[s][j], m.n())
}

/// Each probability of a well-formed row is at most `SCALE`.
spec fn trans_prob_le_scale(ts: Seq<TransSpec>, k: int, n: int) -> bool {
    0 <= k < ts.len() ==> ts[k].prob <= SCALE as int
}

/// `|g * y| <= SCALE * b` when `0 <= g <= SCALE` and `|y| <= b`.
proof fn lemma_scale_mul_bounds(g: int, y: int, b: int)
    requires
        0 <= g <= SCALE as int,
        abs_i(y) <= b,
    ensures
        abs_i(g * y) <= (SCALE as int) * b,
{
    crate::fixed::lemma_scale_abs(g, y, b);
    vstd::arithmetic::mul::lemma_mul_inequality(g, SCALE as int, b);
    assert((SCALE as int) * b == b * (SCALE as int)) by (nonlinear_arith);
    assert(g * b == b * g) by (nonlinear_arith);
}

/// From `SCALE * q <= |g * y|` and `|g * y| <= SCALE * b` conclude `q <= b`.
proof fn lemma_cancel_pos(q: int, b: int, g: int, y: int)
    requires
        q * (SCALE as int) <= abs_i(g * y),
        abs_i(g * y) <= (SCALE as int) * b,
    ensures
        q <= b,
{
    assert(q <= b) by (nonlinear_arith)
        requires
            q * (SCALE as int) <= (SCALE as int) * b && SCALE as int > 0,
    ;
}

/// `|p * x| <= SCALE * (REWARD_LIMIT + 2 * b)`-style wide bound used only to
/// rule out overflow of the wide intermediate product.
proof fn lemma_scale_mul_prob(p: int, x: int, b: int)
    requires
        0 <= p <= SCALE as int,
        abs_i(x) <= REWARD_LIMIT as int + b,
        0 <= b <= VALUE_CEIL as int,
    ensures
        abs_i(p * x) <= (SCALE as int) * (REWARD_LIMIT as int + VALUE_CEIL as int),
{
    crate::fixed::lemma_scale_abs(p, x, REWARD_LIMIT as int + b);
    vstd::arithmetic::mul::lemma_mul_inequality(p, SCALE as int, REWARD_LIMIT as int + b);
    assert(p * (REWARD_LIMIT as int + b) == (REWARD_LIMIT as int + b) * p) by (nonlinear_arith);
    assert((SCALE as int) * (REWARD_LIMIT as int + b) <= (SCALE as int) * (REWARD_LIMIT as int
        + VALUE_CEIL as int)) by (nonlinear_arith)
        requires
            b <= VALUE_CEIL as int && SCALE as int > 0,
    ;
    assert((REWARD_LIMIT as int + b) * (SCALE as int) == (SCALE as int) * (REWARD_LIMIT as int + b))
        by (nonlinear_arith);
}

/// One accumulation step keeps the scaled invariant.
proof fn lemma_acc_step(
    ts: Seq<TransSpec>,
    g: int,
    v: Seq<int>,
    k: int,
    acc: int,
    term: int,
    b: int,
    n: int,
)
    requires
        0 <= k < ts.len(),
        acc == qsum(ts, g, v, k),
        term == term_val(ts[k], g, v),
        (SCALE as int) * abs_i(acc) <= psum(ts, k) * (REWARD_LIMIT as int + b),
        (SCALE as int) * abs_i(term) <= ts[k].prob * (REWARD_LIMIT as int + b),
        b == VALUE_CEIL as int,
        forall|t: int| 0 <= t < ts.len() ==> trans_wf(#[trigger] ts[t], n),
        psum(ts, ts.len() as int) == SCALE as int,
    ensures
        acc + term == qsum(ts, g, v, k + 1),
        (SCALE as int) * abs_i(acc + term) <= psum(ts, k + 1) * (REWARD_LIMIT as int + b),
        abs_i(acc + term) <= REWARD_LIMIT as int + b,
{
    let s = SCALE as int;
    let c = REWARD_LIMIT as int + VALUE_CEIL as int;
    assert(abs_i(acc + term) <= abs_i(acc) + abs_i(term));
    assert(s * abs_i(acc + term) <= s * abs_i(acc) + s * abs_i(term)) by (nonlinear_arith)
        requires
            abs_i(acc + term) <= abs_i(acc) + abs_i(term) && s > 0,
    ;
    assert(ts[k].prob * (REWARD_LIMIT as int + b) == ts[k].prob * c);
    assert((psum(ts, k) + ts[k].prob) * c == psum(ts, k) * c + ts[k].prob * c) by (nonlinear_arith);
    lemma_psum_mono(ts, k + 1, n);
    lemma_psum_mono(ts, ts.len() as int, n);
    vstd::arithmetic::mul::lemma_mul_inequality(psum(ts, k + 1), psum(ts, ts.len() as int), c);
    assert(psum(ts, k + 1) * c <= psum(ts, ts.len() as int) * c);
    lemma_abs_from_scaled(acc + term, psum(ts, ts.len() as int), c);
}

/// From the scaled bound and a total probability mass of at most `SCALE`,
/// conclude the plain bound `|x| <= c`.
proof fn lemma_abs_from_scaled(x: int, total: int, c: int)
    requires
        (SCALE as int) * abs_i(x) <= total * c,
        0 <= c,
    ensures
        total <= SCALE as int ==> abs_i(x) <= c,
{
    let s = SCALE as int;
    if total <= s {
        assert(abs_i(x) <= c) by (nonlinear_arith)
            requires
                s * abs_i(x) <= total * c && total <= s && s > 0 && c >= 0,
        ;
    }
}

/// Conclude the final Q-value bound from the loop invariant.
proof fn lemma_final_q_bound(acc: int, ts: Seq<TransSpec>)
    requires
        (SCALE as int) * abs_i(acc) <= psum(ts, ts.len() as int) * (REWARD_LIMIT as int
            + VALUE_CEIL as int),
        psum(ts, ts.len() as int) == SCALE as int,
    ensures
        abs_i(acc) <= REWARD_LIMIT as int + VALUE_CEIL as int,
{
    lemma_abs_from_scaled(acc, psum(ts, ts.len() as int), REWARD_LIMIT as int + VALUE_CEIL as int);
}

} // verus!
