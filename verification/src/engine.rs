//! The decision-process engine: the [`StateSpace`] capability contract and
//! the [`MDP`] solver bound to one environment.
//!
//! States are addressed by dense 0-based indices; an environment may name
//! its states with arbitrary labels, which the engine translates through
//! the environment's own enumeration when it compiles the environment into
//! tables at construction. Every solve call is an exact function of that
//! compiled model: the contracts below pin each policy to the iteration
//! schedules of [`crate::model`].

use crate::fixed::{SCALE, SWEEP_LIMIT};
use crate::model::{
    find_act, greedy, labels_ok, lemma_find_from, model_wf, pi_outcome, relabel, relabel_trans,
    used_row, validate_space, vi_outcome, MdpError, MdpModel, SpaceModel,
};
use crate::solver::{pi_solve, vi_solve};
use crate::table::{find_act_exec, TableSpace, Transition};
use vstd::prelude::*;

verus! {

/// A state identifier: a label an environment gives one of its states.
pub type State = usize;

/// An action identifier, meaningful only relative to a given state.
pub type Action = usize;

/// One policy entry: the action assigned to a state.
pub type Policy = usize;

/// The capability every environment implements; the engine depends on
/// nothing else. `sm()` is the environment's model: state `i` of the
/// enumeration carries the label `ids[i]`, and all queries are answered by
/// label. `inv()` is whatever internal condition the implementation needs
/// to meet its contracts; constructors of implementations establish it.
pub trait StateSpace {
    /// Internal consistency condition of this environment value.
    spec fn inv(&self) -> bool;

    /// The environment's model.
    spec fn sm(&self) -> SpaceModel;

    /// Legal actions at the state labelled `s`; an empty list signals a
    /// terminal state.
    fn get_actions_at_state(&self, s: State) -> (r: Vec<Action>)
        requires
            self.inv(),
            self.sm().valid_state(s),
        ensures
            forall|i: int|
                0 <= i < self.sm().n() && (#[trigger] self.sm().ids[i]) == s ==> r@
                    == self.sm().acts[i],
    ;

    /// The outcome distribution of taking `a` at the state labelled `s`:
    /// triples of successor label, probability and reward.
    fn get_prob_reward(&self, s: State, a: Action) -> (r: Vec<Transition>)
        requires
            self.inv(),
            self.sm().valid_state(s),
        ensures
            forall|i: int|
                0 <= i < self.sm().n() && (#[trigger] self.sm().ids[i]) == s && find_act(
                    self.sm().acts[i],
                    a,
                ) >= 0 ==> r.deep_view() == self.sm().trans[i][find_act(self.sm().acts[i], a)],
    ;

    /// All state labels, in the order that defines the index mapping;
    /// stable across calls.
    fn get_all_states(&self) -> (r: Vec<State>)
        requires
            self.inv(),
        ensures
            r@ == self.sm().ids,
    ;

    /// Number of states.
    fn get_state_count(&self) -> (r: usize)
        requires
            self.inv(),
        ensures
            r as int == self.sm().n(),
    ;

    /// An index carrying the label `s`.
    fn get_idx_from_state(&self, s: State) -> (r: usize)
        requires
            self.inv(),
            self.sm().valid_state(s),
        ensures
            (r as int) < self.sm().n(),
            self.sm().ids[r as int] == s,
    ;

    /// The label of index `i`.
    fn get_state_from_idx(&self, i: usize) -> (r: State)
        requires
            self.inv(),
            (i as int) < self.sm().n(),
        ensures
            r == self.sm().ids[i as int],
    ;

    /// Whether the state labelled `s` is terminal.
    fn is_terminal_state(&self, s: State) -> (r: bool)
        requires
            self.inv(),
            self.sm().valid_state(s),
        ensures
            forall|i: int|
                0 <= i < self.sm().n() && (#[trigger] self.sm().ids[i]) == s ==> r
                    == self.sm().terminal[i],
    ;
}

/// The engine: one environment, a default action for terminal states, and
/// a discount factor in `[0, SCALE]` fixed-point units. Construction
/// compiles and validates the environment; solve calls are pure functions
/// of the compiled model.
pub struct MDP<SP: StateSpace + Sync> {
    state_space: SP,
    default_action: Action,
    gamma: i64,
    table: TableSpace,
}

impl<SP: StateSpace + Sync> MDP<SP> {
    /// The compiled model this engine solves.
    pub closed spec fn model(&self) -> MdpModel {
        self.table@
    }

    /// The discount factor, in fixed-point units.
    pub closed spec fn gamma_spec(&self) -> int {
        self.gamma as int
    }

    /// The default action assigned to terminal states.
    pub closed spec fn default_spec(&self) -> Action {
        self.default_action
    }

    /// What construction establishes: the compiled model is the
    /// environment's relabelled model, well formed, under a discount factor
    /// in range.
    pub closed spec fn wf(&self) -> bool {
        &&& model_wf(self.table@)
        &&& self.table@ == relabel(self.state_space.sm())
        &&& 0 <= self.gamma <= SCALE
    }

    /// Builds an engine from an environment, a default action and a
    /// discount factor, compiling the environment into index-addressed
    /// tables and validating it: `InvalidDiscountFactor` if `gamma` lies
    /// outside `[0, SCALE]`; `MalformedTransitionDistribution` if a
    /// successor label is not a state, a probability is negative, a
    /// distribution does not sum to one, or a reward magnitude exceeds
    /// `REWARD_LIMIT`; `EmptyActionSet` if a non-terminal state offers no
    /// action.
    #[verifier::loop_isolation(false)]
    pub fn new(state_space: SP, default: Action, gamma: i64) -> (r: Result<MDP<SP>, MdpError>)
        requires
            state_space.inv(),
        ensures
            match r {
                Ok(e) => {
                    &&& validate_space(state_space.sm(), gamma as int) is None
                    &&& e.wf()
                    &&& e.model() == relabel(state_space.sm())
                    &&& e.gamma_spec() == gamma as int
                    &&& e.default_spec() == default
                },
                Err(err) => validate_space(state_space.sm(), gamma as int) == Some(err),
            },
    {
        let ghost sm = state_space.sm();
        if gamma < 0 || gamma > SCALE {
            return Err(MdpError::InvalidDiscountFactor);
        }
        let states = state_space.get_all_states();
        let n = states.len();
        let mut terminal: Vec<bool> = Vec::new();
        let mut acts: Vec<Vec<usize>> = Vec::new();
        let mut trans: Vec<Vec<Vec<Transition>>> = Vec::new();
        let mut i: usize = 0;
        while i < n
            invariant
                state_space.inv(),
                sm == state_space.sm(),
                states@ == sm.ids,
                n as int == sm.n(),
                0 <= gamma <= SCALE,
                i <= n,
                terminal@.len() == i,
                acts@.len() == i,
                trans@.len() == i,
                forall|k: int| 0 <= k < i ==> terminal@[k] == sm.terminal[k],
                forall|k: int| 0 <= k < i ==> acts.deep_view()[k] == sm.acts[k],
                forall|k: int| 0 <= k < i ==> trans.deep_view()[k] == relabel(sm).trans[k],
                forall|k: int, jj: int, tt: int|
                    0 <= k < i && 0 <= jj < sm.acts[k].len() && 0 <= tt < used_row(
                        sm,
                        k,
                        jj,
                    ).len() ==> find_act(
                        sm.ids,
                        (#[trigger] used_row(sm, k, jj)[tt]).next as usize,
                    ) >= 0,
            decreases n - i,
        {
            let s = states[i];
            proof {
                assert(sm.valid_state(s));
            }
            let term = state_space.is_terminal_state(s);
            let acts_i = state_space.get_actions_at_state(s);
            proof {
                assert(acts_i@ == sm.acts[i as int]);
            }
            let mut rows: Vec<Vec<Transition>> = Vec::new();
            let mut j: usize = 0;
            while j < acts_i.len()
                invariant
                    state_space.inv(),
                    sm == state_space.sm(),
                    states@ == sm.ids,
                    n as int == sm.n(),
                    (i as int) < sm.n(),
                    sm.ids[i as int] == s,
                    sm.valid_state(s),
                    acts_i@ == sm.acts[i as int],
                    j <= acts_i@.len(),
                    rows@.len() == j,
                    forall|jj: int|
                        0 <= jj < j ==> rows.deep_view()[jj] == relabel(sm).trans[i as int][jj],
                    forall|jj: int, tt: int|
                        0 <= jj < j && 0 <= tt < used_row(sm, i as int, jj).len() ==> find_act(
                            sm.ids,
                            (#[trigger] used_row(sm, i as int, jj)[tt]).next as usize,
                        ) >= 0,
                decreases acts_i@.len() - j,
            {
                let a = acts_i[j];
                proof {
                    lemma_find_from(sm.acts[i as int], a, 0);
                    assert(sm.acts[i as int][j as int] == a);
                    assert(find_act(sm.acts[i as int], a) >= 0);
                }
                let raw = state_space.get_prob_reward(s, a);
                proof {
                    assert(raw.deep_view() == used_row(sm, i as int, j as int));
                }
                let mut row: Vec<Transition> = Vec::new();
                let mut t: usize = 0;
                while t < raw.len()
                    invariant
                        states@ == sm.ids,
                        n as int == sm.n(),
                        (i as int) < sm.n(),
                        0 <= (j as int) < sm.acts[i as int].len(),
                        raw.deep_view() == used_row(sm, i as int, j as int),
                        t <= raw@.len(),
                        row@.len() == t,
                        forall|tt: int|
                            0 <= tt < t ==> row.deep_view()[tt] == relabel_trans(
                                sm.ids,
                                used_row(sm, i as int, j as int)[tt],
                            ),
                        forall|tt: int|
                            0 <= tt < t ==> find_act(
                                sm.ids,
                                (#[trigger] used_row(sm, i as int, j as int)[tt]).next as usize,
                            ) >= 0,
                    decreases raw@.len() - t,
                {
                    let ghost ur = used_row(sm, i as int, j as int);
                    let tr = raw[t];
                    proof {
                        assert(raw.deep_view()[t as int] == raw@[t as int].deep_view());
                        assert(tr@ == ur[t as int]);
                        assert(ur[t as int].next as usize == tr.next);
                    }
                    let found = find_act_exec(&states, tr.next);
                    match found {
                        None => {
                            proof {
                                assert(find_act(sm.ids, ur[t as int].next as usize) == -1);
                                assert(!labels_ok(sm));
                            }
                            return Err(MdpError::MalformedTransitionDistribution);
                        },
                        Some(idx) => {
                            let ghost prerow = row@;
                            let ghost predeep = row.deep_view();
                            row.push(Transition { next: idx, prob: tr.prob, reward: tr.reward });
                            proof {
                                assert forall|tt: int| 0 <= tt < t + 1 implies row.deep_view()[tt]
                                    == relabel_trans(sm.ids, ur[tt]) by {
                                    assert(row.deep_view()[tt] == row@[tt].deep_view());
                                    if tt == t as int {
                                        assert(row@[tt]@.next == find_act(
                                            sm.ids,
                                            ur[tt].next as usize,
                                        ));
                                        assert(row@[tt].deep_view() == relabel_trans(
                                            sm.ids,
                                            ur[tt],
                                        ));
                                    } else {
                                        assert(row@[tt] == prerow[tt]);
                                        assert(predeep[tt] == prerow[tt].deep_view());
                                        assert(predeep[tt] == relabel_trans(sm.ids, ur[tt]));
                                    }
                                }
                            }
                        },
                    }
                    t += 1;
                }
                let ghost rdv = row.deep_view();
                let ghost prerows = rows@;
                let ghost predeep = rows.deep_view();
                proof {
                    assert(rdv =~= relabel(sm).trans[i as int][j as int]);
                }
                rows.push(row);
                proof {
                    assert forall|jj: int| 0 <= jj < j + 1 implies rows.deep_view()[jj] == relabel(
                        sm,
                    ).trans[i as int][jj] by {
                        if jj == j as int {
                            assert(rows@[jj].deep_view() == rdv);
                            assert(rows.deep_view()[jj] == rows@[jj].deep_view());
                        } else {
                            assert(rows@[jj] == prerows[jj]);
                            assert(rows.deep_view()[jj] == rows@[jj].deep_view());
                            assert(predeep[jj] == prerows[jj].deep_view());
                            assert(predeep[jj] == relabel(sm).trans[i as int][jj]);
                        }
                    }
                }
                j += 1;
            }
            let ghost rsdv = rows.deep_view();
            let ghost adv = acts_i@;
            let ghost pretrans = trans@;
            let ghost pretdeep = trans.deep_view();
            let ghost preacts = acts@;
            let ghost preadeep = acts.deep_view();
            proof {
                assert(rsdv =~= relabel(sm).trans[i as int]);
            }
            terminal.push(term);
            acts.push(acts_i);
            trans.push(rows);
            proof {
                assert forall|k: int| 0 <= k < i + 1 implies trans.deep_view()[k] == relabel(
                    sm,
                ).trans[k] by {
                    assert(trans.deep_view()[k] == trans@[k].deep_view());
                    if k == i as int {
                        assert(trans@[k].deep_view() == rsdv);
                    } else {
                        assert(trans@[k] == pretrans[k]);
                        assert(pretdeep[k] == pretrans[k].deep_view());
                        assert(pretdeep[k] == relabel(sm).trans[k]);
                    }
                }
                assert forall|k: int| 0 <= k < i + 1 implies acts.deep_view()[k] == sm.acts[k] by {
                    assert(acts.deep_view()[k] == acts@[k].deep_view());
                    if k == i as int {
                        assert(acts@[k].deep_view() == adv);
                        assert(adv =~= sm.acts[i as int]);
                    } else {
                        assert(acts@[k] == preacts[k]);
                        assert(preadeep[k] == preacts[k].deep_view());
                        assert(preadeep[k] == sm.acts[k]);
                    }
                }
            }
            i += 1;
        }
        proof {
            assert(terminal@ =~= relabel(sm).terminal);
            assert(acts.deep_view() =~= relabel(sm).acts);
            assert(trans.deep_view() =~= relabel(sm).trans);
            assert(labels_ok(sm));
        }
        let table = TableSpace::new(terminal, acts, trans);
        proof {
            assert(table@ == relabel(sm));
        }
        let issue = crate::table::check_table(&table);
        match issue {
            Some(e) => Err(e),
            None => Ok(MDP { state_space, default_action: default, gamma, table }),
        }
    }

    /// Value iteration, sequentially: Jacobi sweeps of Bellman backups from
    /// the zero buffer until the sup-norm change falls below `epsilon`,
    /// then one greedy pass. Fails with `DidNotConverge` if and only if no
    /// sweep within `max_sweeps` meets the criterion.
    pub fn value_iteration(&self, epsilon: i64, max_sweeps: usize) -> (r: Result<
        Vec<Policy>,
        MdpError,
    >)
        requires
            self.wf(),
            max_sweeps <= SWEEP_LIMIT,
        ensures
            match vi_outcome(
                self.model(),
                self.gamma_spec(),
                epsilon as int,
                self.default_spec(),
                max_sweeps as nat,
            ) {
                Some(p) => r is Ok && r->Ok_0@ == p,
                None => r == Err::<Vec<Policy>, MdpError>(MdpError::DidNotConverge),
            },
    {
        let (v, res) = vi_solve(
            &self.table,
            self.gamma,
            self.default_action,
            epsilon,
            max_sweeps,
            false,
        );
        res
    }

    /// Value iteration with the per-state backups, the sup-norm reduction
    /// and the greedy pass fanned out over rayon workers. Returns exactly
    /// what [`Self::value_iteration`] returns: both follow the same Jacobi
    /// recurrence against a read-only snapshot of the previous sweep.
    pub fn par_value_iteration(&self, epsilon: i64, max_sweeps: usize) -> (r: Result<
        Vec<Policy>,
        MdpError,
    >)
        requires
            self.wf(),
            max_sweeps <= SWEEP_LIMIT,
        ensures
            match vi_outcome(
                self.model(),
                self.gamma_spec(),
                epsilon as int,
                self.default_spec(),
                max_sweeps as nat,
            ) {
                Some(p) => r is Ok && r->Ok_0@ == p,
                None => r == Err::<Vec<Policy>, MdpError>(MdpError::DidNotConverge),
            },
    {
        let (v, res) = vi_solve(
            &self.table,
            self.gamma,
            self.default_action,
            epsilon,
            max_sweeps,
            true,
        );
        res
    }

    /// Policy iteration, sequentially: from the all-default policy,
    /// alternate Jacobi policy evaluation (to convergence under `epsilon`)
    /// and greedy improvement until an improvement pass changes no action.
    /// Fails with `DidNotConverge` if and only if the total budget of
    /// `max_sweeps` evaluation sweeps runs out first.
    pub fn policy_iteration(&self, epsilon: i64, max_sweeps: usize) -> (r: Result<
        Vec<Policy>,
        MdpError,
    >)
        requires
            self.wf(),
            max_sweeps <= SWEEP_LIMIT,
        ensures
            match pi_outcome(
                self.model(),
                self.gamma_spec(),
                epsilon as int,
                self.default_spec(),
                max_sweeps as nat,
            ) {
                Some(pv) => r is Ok && r->Ok_0@ == pv.0,
                None => r == Err::<Vec<Policy>, MdpError>(MdpError::DidNotConverge),
            },
    {
        let (v, res) = pi_solve(
            &self.table,
            self.gamma,
            self.default_action,
            epsilon,
            max_sweeps,
            false,
        );
        res
    }

    /// Policy iteration with the evaluation sweeps and improvement passes
    /// fanned out over rayon workers. Returns exactly what
    /// [`Self::policy_iteration`] returns; stability is decided by
    /// comparing the whole previous policy vector against the new one.
    pub fn par_policy_iteration(&self, epsilon: i64, max_sweeps: usize) -> (r: Result<
        Vec<Policy>,
        MdpError,
    >)
        requires
            self.wf(),
            max_sweeps <= SWEEP_LIMIT,
        ensures
            match pi_outcome(
                self.model(),
                self.gamma_spec(),
                epsilon as int,
                self.default_spec(),
                max_sweeps as nat,
            ) {
                Some(pv) => r is Ok && r->Ok_0@ == pv.0,
                None => r == Err::<Vec<Policy>, MdpError>(MdpError::DidNotConverge),
            },
    {
        let (v, res) = pi_solve(
            &self.table,
            self.gamma,
            self.default_action,
            epsilon,
            max_sweeps,
            true,
        );
        res
    }
}

} // verus!
