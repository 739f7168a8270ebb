//! Mathematical model of a finite Markov decision process and of the
//! dynamic-programming recurrences the solvers implement.
//!
//! [`MdpModel`] describes an environment whose states are dense 0-based
//! indices; [`SpaceModel`] additionally carries a state label for each index,
//! for environments whose identifiers are not the indices themselves. All
//! solver contracts are stated over the recurrences defined here: the Bellman
//! backup [`backup`], the fixed-policy sweep [`evalstep`], the greedy policy
//! [`greedy`], the sup-norm distance [`sup_diff`], and the iteration
//! schedules [`vi_first`] (value iteration) and [`pi_run`] (policy
//! iteration).

use crate::fixed::{abs_i, fdiv, max_i, REWARD_LIMIT, SCALE};
use vstd::prelude::*;

verus! {

/// Why an engine could not be built or a solve call could not finish.
#[derive(Clone, Copy, Debug, PartialEq, Eq, Structural)]
pub enum MdpError {
    /// The discount factor lies outside `[0, SCALE]`.
    InvalidDiscountFactor,
    /// A non-terminal state offers no action.
    EmptyActionSet,
    /// A transition list points outside the state space, carries a negative
    /// or oversized entry, or its probabilities do not sum to one.
    MalformedTransitionDistribution,
    /// The sweep budget ran out before the convergence criterion was met.
    DidNotConverge,
}

/// One outcome of taking an action: successor state, probability and reward,
/// in fixed-point units. In an [`MdpModel`] the successor is a state index;
/// in a [`SpaceModel`] it is a state label.
pub ghost struct TransSpec {
    pub next: int,
    pub prob: int,
    pub reward: int,
}

/// A finite decision process over dense 0-based state indices. Row `j` of
/// `trans[s]` is the outcome distribution of action `acts[s][j]`.
pub ghost struct MdpModel {
    pub terminal: Seq<bool>,
    pub acts: Seq<Seq<usize>>,
    pub trans: Seq<Seq<Seq<TransSpec>>>,
}

/// An environment as a [`StateSpace`](crate::StateSpace) presents it: state
/// `i` carries the label `ids[i]`, and transitions name successors by label.
pub ghost struct SpaceModel {
    pub ids: Seq<usize>,
    pub terminal: Seq<bool>,
    pub acts: Seq<Seq<usize>>,
    pub trans: Seq<Seq<Seq<TransSpec>>>,
}

impl MdpModel {
    /// Number of states.
    pub open spec fn n(self) -> int {
        self.terminal.len() as int
    }

    /// The three tables agree on the state count, and each state has one
    /// transition list per action.
    pub open spec fn dims_ok(self) -> bool {
        &&& self.acts.len() == self.terminal.len()
        &&& self.trans.len() == self.terminal.len()
        &&& forall|s: int|
            0 <= s < self.n() ==> (#[trigger] self.trans[s]).len() == self.acts[s].len()
    }
}

impl SpaceModel {
    /// Number of states.
    pub open spec fn n(self) -> int {
        self.ids.len() as int
    }

    /// The four tables agree on the state count, and each state has one
    /// transition list per action.
    pub open spec fn dims_ok(self) -> bool {
        &&& self.terminal.len() == self.ids.len()
        &&& self.acts.len() == self.ids.len()
        &&& self.trans.len() == self.ids.len()
        &&& forall|s: int|
            0 <= s < self.n() ==> (#[trigger] self.trans[s]).len() == self.acts[s].len()
    }

    /// Some index carries the label `s`.
    pub open spec fn valid_state(self, s: usize) -> bool {
        exists|i: int| 0 <= i < self.n() && self.ids[i] == s
    }
}

/// First position of `a` in `row` at or after `k`, or `-1`.
pub open spec fn find_from(row: Seq<usize>, a: usize, k: int) -> int
    decreases row.len() - k,
{
    if k < 0 || k >= row.len() {
        -1
    } else if row[k] == a {
        k
    } else {
        find_from(row, a, k + 1)
    }
}

/// First position of `a` in `row`, or `-1`: ties among equal action
/// identifiers resolve to the first listed.
pub open spec fn find_act(row: Seq<usize>, a: usize) -> int {
    find_from(row, a, 0)
}

/// What [`find_from`] returns: the first hit at or after `k`, or `-1` when
/// there is none.
pub proof fn lemma_find_from(row: Seq<usize>, a: usize, k: int)
    requires
        0 <= k <= row.len(),
    ensures
        ({
            let r = find_from(row, a, k);
            ||| (r == -1 && forall|j: int| k <= j < row.len() ==> row[j] != a)
            ||| (k <= r < row.len() && row[r] == a && forall|j: int| k <= j < r ==> row[j] != a)
        }),
    decreases row.len() - k,
{
    if k < row.len() && row[k] != a {
        lemma_find_from(row, a, k + 1);
    }
}

/// Outcome distribution of action `a` in state `s`: the row of the first
/// matching action identifier, or no outcomes when `a` is not offered there.
pub open spec fn tr_of(m: MdpModel, s: int, a: usize) -> Seq<TransSpec> {
    let j = find_act(m.acts[s], a);
    if j >= 0 {
        m.trans[s][j]
    } else {
        Seq::empty()
    }
}

/// Sum of the probabilities of the first `k` outcomes.
pub open spec fn psum(ts: Seq<TransSpec>, k: int) -> int
    decreases k,
{
    if k <= 0 {
        0
    } else {
        psum(ts, k - 1) + ts[k - 1].prob
    }
}

/// One outcome is well formed for an `n`-state process.
pub open spec fn trans_wf(t: TransSpec, n: int) -> bool {
    &&& 0 <= t.next < n
    &&& 0 <= t.prob
    &&& abs_i(t.reward) <= REWARD_LIMIT as int
}

/// A full outcome distribution is well formed: every outcome is, and the
/// probabilities sum to one (`SCALE` fixed-point units).
pub open spec fn row_wf(ts: Seq<TransSpec>, n: int) -> bool {
    &&& forall|t: int| 0 <= t < ts.len() ==> trans_wf(#[trigger] ts[t], n)
    &&& psum(ts, ts.len() as int) == SCALE as int
}

/// A well-formed process: consistent dimensions, an action for every
/// non-terminal state, and well-formed outcome distributions throughout.
pub open spec fn model_wf(m: MdpModel) -> bool {
    &&& m.dims_ok()
    &&& forall|s: int| 0 <= s < m.n() ==> (!m.terminal[s] ==> (#[trigger] m.acts[s]).len() > 0)
    &&& forall|s: int, j: int|
        0 <= s < m.n() && 0 <= j < m.acts[s].len() ==> row_wf(#[trigger] m.trans[s][j], m.n())
}

/// A value buffer as a sequence of unbounded integers.
pub open spec fn ints(v: Seq<i64>) -> Seq<int> {
    v.map_values(|x: i64| x as int)
}

/// Every entry has magnitude at most `b`.
pub open spec fn val_bounded(v: Seq<int>, b: int) -> bool {
    forall|i: int| 0 <= i < v.len() ==> abs_i(#[trigger] v[i]) <= b
}

/// Contribution of one outcome to a Q-value:
/// `prob * (reward + gamma * value(next))`, each product rescaled by a
/// truncating division.
pub open spec fn term_val(t: TransSpec, g: int, v: Seq<int>) -> int {
    fdiv(t.prob * (t.reward + fdiv(g * v[t.next])))
}

/// Sum of the contributions of the first `k` outcomes.
pub open spec fn qsum(ts: Seq<TransSpec>, g: int, v: Seq<int>, k: int) -> int
    decreases k,
{
    if k <= 0 {
        0
    } else {
        qsum(ts, g, v, k - 1) + term_val(ts[k - 1], g, v)
    }
}

/// Q-value: expected discounted return of taking `a` in `s` and earning `v`
/// thereafter. An action with no outcomes has Q-value zero.
pub open spec fn q_val(m: MdpModel, g: int, v: Seq<int>, s: int, a: usize) -> int {
    let ts = tr_of(m, s, a);
    qsum(ts, g, v, ts.len() as int)
}

/// Best Q-value among the first `k` listed actions of `s` (`k >= 1`).
pub open spec fn best_q(m: MdpModel, g: int, v: Seq<int>, s: int, k: int) -> int
    decreases k,
{
    if k <= 1 {
        q_val(m, g, v, s, m.acts[s][0])
    } else {
        let prev = best_q(m, g, v, s, k - 1);
        let qk = q_val(m, g, v, s, m.acts[s][k - 1]);
        if qk > prev {
            qk
        } else {
            prev
        }
    }
}

/// Action achieving [`best_q`] among the first `k` listed actions of `s`;
/// ties resolve to the first maximal action in enumeration order.
pub open spec fn best_act(m: MdpModel, g: int, v: Seq<int>, s: int, k: int) -> usize
    decreases k,
{
    if k <= 1 {
        m.acts[s][0]
    } else {
        let prev = best_q(m, g, v, s, k - 1);
        let qk = q_val(m, g, v, s, m.acts[s][k - 1]);
        if qk > prev {
            m.acts[s][k - 1]
        } else {
            best_act(m, g, v, s, k - 1)
        }
    }
}

/// One state's Bellman backup: the best Q-value over its actions, or zero
/// for a terminal state.
pub open spec fn backup_at(m: MdpModel, g: int, v: Seq<int>, i: int) -> int {
    if m.terminal[i] {
        0
    } else {
        best_q(m, g, v, i, m.acts[i].len() as int)
    }
}

/// One Jacobi sweep of Bellman backups: every entry reads only `v`.
pub open spec fn backup(m: MdpModel, g: int, v: Seq<int>) -> Seq<int> {
    Seq::new(m.terminal.len(), |i: int| backup_at(m, g, v, i))
}

/// One state's value under the fixed policy `pi`: the Q-value of its
/// assigned action, or zero for a terminal state.
pub open spec fn eval_at(m: MdpModel, g: int, pi: Seq<usize>, v: Seq<int>, i: int) -> int {
    if m.terminal[i] {
        0
    } else {
        q_val(m, g, v, i, pi[i])
    }
}

/// One Jacobi sweep of policy evaluation.
pub open spec fn evalstep(m: MdpModel, g: int, pi: Seq<usize>, v: Seq<int>) -> Seq<int> {
    Seq::new(m.terminal.len(), |i: int| eval_at(m, g, pi, v, i))
}

/// One state's greedy action against `v`; terminal states take the default.
pub open spec fn greedy_at(m: MdpModel, g: int, d: usize, v: Seq<int>, i: int) -> usize {
    if m.terminal[i] {
        d
    } else {
        best_act(m, g, v, i, m.acts[i].len() as int)
    }
}

/// The greedy policy against `v`.
pub open spec fn greedy(m: MdpModel, g: int, d: usize, v: Seq<int>) -> Seq<usize> {
    Seq::new(m.terminal.len(), |i: int| greedy_at(m, g, d, v, i))
}

/// Largest absolute difference among the first `k` entries.
pub open spec fn supd(a: Seq<int>, b: Seq<int>, k: int) -> int
    decreases k,
{
    if k <= 0 {
        0
    } else {
        max_i(supd(a, b, k - 1), abs_i(a[k - 1] - b[k - 1]))
    }
}

/// Sup-norm (L-infinity) distance between two value buffers.
pub open spec fn sup_diff(a: Seq<int>, b: Seq<int>) -> int {
    supd(a, b, a.len() as int)
}

/// The all-zero value buffer every solve call starts from.
pub open spec fn zeros(len: nat) -> Seq<int> {
    Seq::new(len, |i: int| 0)
}

/// Value buffer after `k` Bellman sweeps from zero.
pub open spec fn vi_iter(m: MdpModel, g: int, k: nat) -> Seq<int>
    decreases k,
{
    if k == 0 {
        zeros(m.terminal.len())
    } else {
        backup(m, g, vi_iter(m, g, (k - 1) as nat))
    }
}

/// Sweep `k` of value iteration met the convergence criterion.
pub open spec fn vi_conv_at(m: MdpModel, g: int, eps: int, k: nat) -> bool {
    sup_diff(vi_iter(m, g, k + 1), vi_iter(m, g, k)) < eps
}

/// Index of the first converging Bellman sweep, if one of the first `cap`
/// sweeps converges. `Some(t)` means sweep `t + 1` produced the converged
/// buffer `vi_iter(t + 1)`.
pub open spec fn vi_first(m: MdpModel, g: int, eps: int, cap: nat) -> Option<nat>
    decreases cap,
{
    if cap == 0 {
        None
    } else {
        match vi_first(m, g, eps, (cap - 1) as nat) {
            Some(t) => Some(t),
            None => if vi_conv_at(m, g, eps, (cap - 1) as nat) {
                Some((cap - 1) as nat)
            } else {
                None
            },
        }
    }
}

/// Value buffer after `k` sweeps of evaluating the fixed policy `pi`,
/// starting from `v0`.
pub open spec fn ev_iter(m: MdpModel, g: int, pi: Seq<usize>, v0: Seq<int>, k: nat) -> Seq<int>
    decreases k,
{
    if k == 0 {
        v0
    } else {
        evalstep(m, g, pi, ev_iter(m, g, pi, v0, (k - 1) as nat))
    }
}

/// Evaluation sweep `k` met the convergence criterion.
pub open spec fn ev_conv_at(
    m: MdpModel,
    g: int,
    eps: int,
    pi: Seq<usize>,
    v0: Seq<int>,
    k: nat,
) -> bool {
    sup_diff(ev_iter(m, g, pi, v0, k + 1), ev_iter(m, g, pi, v0, k)) < eps
}

/// Index of the first converging evaluation sweep within `cap`, as
/// [`vi_first`] but for a fixed policy.
pub open spec fn ev_first(
    m: MdpModel,
    g: int,
    eps: int,
    pi: Seq<usize>,
    v0: Seq<int>,
    cap: nat,
) -> Option<nat>
    decreases cap,
{
    if cap == 0 {
        None
    } else {
        match ev_first(m, g, eps, pi, v0, (cap - 1) as nat) {
            Some(t) => Some(t),
            None => if ev_conv_at(m, g, eps, pi, v0, (cap - 1) as nat) {
                Some((cap - 1) as nat)
            } else {
                None
            },
        }
    }
}

/// Policy iteration from policy `pi` and buffer `v0` with `cap` evaluation
/// sweeps of budget left: evaluate `pi` to convergence, improve greedily,
/// and stop when the policy is stable. `None` means the budget ran out.
pub open spec fn pi_run(
    m: MdpModel,
    g: int,
    eps: int,
    d: usize,
    pi: Seq<usize>,
    v0: Seq<int>,
    cap: nat,
) -> Option<(Seq<usize>, Seq<int>)>
    decreases cap,
{
    match ev_first(m, g, eps, pi, v0, cap) {
        None => None,
        Some(t) => {
            let v2 = ev_iter(m, g, pi, v0, (t + 1) as nat);
            let pi2 = greedy(m, g, d, v2);
            if pi2 == pi {
                Some((pi2, v2))
            } else if t + 1 <= cap {
                pi_run(m, g, eps, d, pi2, v2, (cap - t - 1) as nat)
            } else {
                None
            }
        },
    }
}

/// What is wrong with one state of a model, if anything: a non-terminal
/// state without actions, or an ill-formed outcome distribution.
pub open spec fn state_issue(m: MdpModel, s: int) -> Option<MdpError> {
    if !m.terminal[s] && m.acts[s].len() == 0 {
        Some(MdpError::EmptyActionSet)
    } else if exists|j: int| 0 <= j < m.acts[s].len() && !row_wf(#[trigger] m.trans[s][j], m.n()) {
        Some(MdpError::MalformedTransitionDistribution)
    } else {
        None
    }
}

/// First issue among states `0 .. k`, scanning in index order.
pub open spec fn first_issue(m: MdpModel, k: int) -> Option<MdpError>
    decreases k,
{
    if k <= 0 {
        None
    } else {
        match first_issue(m, k - 1) {
            Some(e) => Some(e),
            None => state_issue(m, k - 1),
        }
    }
}

/// What engine construction rejects, in order of precedence: a discount
/// factor outside `[0, 1]`, then the first per-state issue.
pub open spec fn validate_model(m: MdpModel, g: int) -> Option<MdpError> {
    if !(0 <= g <= SCALE as int) {
        Some(MdpError::InvalidDiscountFactor)
    } else {
        first_issue(m, m.n())
    }
}

/// The outcome distribution the engine reads for action slot `j` of state
/// `s`: the row of the first occurrence of that slot's action identifier,
/// since an environment answers queries by action, not by slot.
pub open spec fn used_row(sm: SpaceModel, s: int, j: int) -> Seq<TransSpec> {
    sm.trans[s][find_act(sm.acts[s], sm.acts[s][j])]
}

/// Every successor label the engine would read is carried by some index.
pub open spec fn labels_ok(sm: SpaceModel) -> bool {
    forall|s: int, j: int, t: int|
        0 <= s < sm.n() && 0 <= j < sm.acts[s].len() && 0 <= t < used_row(sm, s, j).len()
            ==> find_act(sm.ids, (#[trigger] used_row(sm, s, j)[t]).next as usize) >= 0
}

/// One outcome with its successor label replaced by the first index
/// carrying that label.
pub open spec fn relabel_trans(ids: Seq<usize>, t: TransSpec) -> TransSpec {
    TransSpec { next: find_act(ids, t.next as usize), prob: t.prob, reward: t.reward }
}

/// A space's model with all successor labels replaced by state indices:
/// the model the engine compiles and solves. Every table is cut to the
/// state enumeration's length.
pub open spec fn relabel(sm: SpaceModel) -> MdpModel {
    MdpModel {
        terminal: Seq::new(sm.ids.len(), |i: int| sm.terminal[i]),
        acts: Seq::new(sm.ids.len(), |i: int| sm.acts[i]),
        trans: Seq::new(
            sm.ids.len(),
            |s: int|
                Seq::new(
                    sm.acts[s].len(),
                    |j: int|
                        Seq::new(
                            used_row(sm, s, j).len(),
                            |t: int| relabel_trans(sm.ids, used_row(sm, s, j)[t]),
                        ),
                ),
        ),
    }
}

/// An index-addressed model as an engine compiles it: tables cut to the
/// state count, and each action slot paired with the outcome distribution
/// of its action's first occurrence, since environments answer queries by
/// action rather than by slot. A model with consistent dimensions and
/// distinct action identifiers is its own normal form.
pub open spec fn normalize(m: MdpModel) -> MdpModel {
    MdpModel {
        terminal: m.terminal,
        acts: Seq::new(m.terminal.len(), |i: int| m.acts[i]),
        trans: Seq::new(
            m.terminal.len(),
            |s: int|
                Seq::new(
                    m.acts[s].len(),
                    |j: int| m.trans[s][find_act(m.acts[s], m.acts[s][j])],
                ),
        ),
    }
}

/// What engine construction rejects for a labelled space, in order of
/// precedence: a discount factor outside `[0, 1]`, then a successor label no
/// index carries, then the first per-state issue of the compiled model.
pub open spec fn validate_space(sm: SpaceModel, g: int) -> Option<MdpError> {
    if !(0 <= g <= SCALE as int) {
        Some(MdpError::InvalidDiscountFactor)
    } else if !labels_ok(sm) {
        Some(MdpError::MalformedTransitionDistribution)
    } else {
        first_issue(relabel(sm), sm.n())
    }
}

/// The policy every policy-iteration call starts from: the default action
/// everywhere.
pub open spec fn default_policy(n: nat, d: usize) -> Seq<usize> {
    Seq::new(n, |i: int| d)
}

/// Full value-iteration schedule: the greedy policy against the first
/// converged buffer, or `None` when no sweep within the budget converges.
pub open spec fn vi_outcome(m: MdpModel, g: int, eps: int, d: usize, cap: nat) -> Option<
    Seq<usize>,
> {
    match vi_first(m, g, eps, cap) {
        Some(t) => Some(greedy(m, g, d, vi_iter(m, g, (t + 1) as nat))),
        None => None,
    }
}

/// Full policy-iteration schedule from the engine's fixed starting point.
pub open spec fn pi_outcome(
    m: MdpModel,
    g: int,
    eps: int,
    d: usize,
    cap: nat,
) -> Option<(Seq<usize>, Seq<int>)> {
    pi_run(m, g, eps, d, default_policy(m.terminal.len(), d), zeros(m.terminal.len()), cap)
}

} // verus!
