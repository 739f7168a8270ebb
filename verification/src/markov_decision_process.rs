//! A stateful engine that owns its value buffer between calls: the
//! [`MarkovDecisionProcess`] binds an index-addressed [`StateSpace`], keeps
//! the learned values of the latest solve, and dispatches on an
//! [`MDPSolver`] method selector.
//!
//! Unlike [`crate::MDP`], the environments of this engine address states
//! directly by dense 0-based index, so no label translation is involved.

use crate::bounds::lemma_vi_iter_bound;
use crate::fixed::{REWARD_LIMIT, SCALE, SWEEP_LIMIT, VALUE_CEIL};
use crate::model::{
    backup, find_act, ints, lemma_find_from, model_wf, normalize, pi_outcome, sup_diff,
    val_bounded, validate_model, vi_first, vi_iter, vi_outcome, zeros, MdpError, MdpModel,
};
use crate::solver::{pi_solve, vi_solve};
use crate::table::{backup_sweep, supdiff_exec, zero_vec, TableSpace, Transition};
use vstd::prelude::*;
use vstd::string::StrSliceExecFns;

verus! {

/// An action identifier.
pub type Action = usize;

/// A state identifier, which doubles as its index.
pub type State = usize;

/// A policy: one action per state, in state order.
pub type Policy = Vec<Action>;

/// Which solving method [`MarkovDecisionProcess::solve`] runs.
#[allow(non_camel_case_types)]
#[derive(Clone, Copy, Debug, PartialEq, Eq, Structural)]
pub enum MDPSolver {
    VALUE_ITER,
    POLICY_ITER,
}

impl Default for MDPSolver {
    /// Policy iteration is the default method.
    fn default() -> (r: MDPSolver)
        ensures
            r == MDPSolver::POLICY_ITER,
    {
        MDPSolver::POLICY_ITER
    }
}

/// The method a selector name denotes: `"value_iteration"` or `"value"`
/// select value iteration, `"policy_iteration"` or `"policy"` select policy
/// iteration, and anything else falls back to the default method.
pub open spec fn solver_of_name(s: Seq<char>) -> MDPSolver {
    if s == "policy_iteration"@ || s == "policy"@ {
        MDPSolver::POLICY_ITER
    } else if s == "value_iteration"@ || s == "value"@ {
        MDPSolver::VALUE_ITER
    } else {
        MDPSolver::POLICY_ITER
    }
}

impl vstd::std_specs::convert::FromSpecImpl<&str> for MDPSolver {
    open spec fn obeys_from_spec() -> bool {
        true
    }

    open spec fn from_spec(v: &str) -> MDPSolver {
        solver_of_name(v@)
    }
}

impl From<&str> for MDPSolver {
    /// Parses a method selector name, as [`solver_of_name`] describes.
    fn from(value: &str) -> (r: MDPSolver) {
        if str_eq(value, "policy_iteration") || str_eq(value, "policy") {
            MDPSolver::POLICY_ITER
        } else if str_eq(value, "value_iteration") || str_eq(value, "value") {
            MDPSolver::VALUE_ITER
        } else {
            MDPSolver::default()
        }
    }
}

/// Whether two string slices hold the same characters.
fn str_eq(a: &str, b: &str) -> (r: bool)
    ensures
        r == (a@ == b@),
{
    let la = a.unicode_len();
    let lb = b.unicode_len();
    if la != lb {
        return false;
    }
    let mut i: usize = 0;
    while i < la
        invariant
            la == a@.len(),
            lb == b@.len(),
            la == lb,
            i <= la,
            forall|k: int| 0 <= k < i ==> a@[k] == b@[k],
        decreases la - i,
    {
        if a.get_char(i) != b.get_char(i) {
            return false;
        }
        i += 1;
    }
    proof {
        assert(a@ =~= b@);
    }
    true
}

/// The capability this engine consumes: an environment whose states are
/// dense 0-based indices. `model()` is the environment's model; `inv()` is
/// whatever internal condition the implementation needs to meet its
/// contracts.
pub trait StateSpace {
    /// Internal consistency condition of this environment value.
    spec fn inv(&self) -> bool;

    /// The environment's model.
    spec fn model(&self) -> MdpModel;

    /// Legal actions at state `s`; an empty list signals a terminal state.
    fn get_actions_at_state(&self, s: &State) -> (r: Vec<Action>)
        requires
            self.inv(),
            (*s as int) < self.model().n(),
        ensures
            r@ == self.model().acts[*s as int],
    ;

    /// The outcome distribution of taking `a` in state `s`: triples of
    /// successor state, probability and reward.
    fn get_future_rewards(&self, s: &State, a: &Action) -> (r: Vec<Transition>)
        requires
            self.inv(),
            (*s as int) < self.model().n(),
        ensures
            find_act(self.model().acts[*s as int], *a) >= 0 ==> r.deep_view()
                == self.model().trans[*s as int][find_act(self.model().acts[*s as int], *a)],
    ;

    /// All states in index order: state `i` is at position `i`.
    fn get_all_states(&self) -> (r: Vec<State>)
        requires
            self.inv(),
        ensures
            r@ == Seq::new(self.model().terminal.len(), |i: int| i as usize),
    ;

    /// Number of states.
    fn len(&self) -> (r: usize)
        requires
            self.inv(),
        ensures
            r as int == self.model().n(),
    ;

    /// Whether state `s` is terminal.
    fn is_terminal_state(&self, s: &State) -> (r: bool)
        requires
            self.inv(),
            (*s as int) < self.model().n(),
        ensures
            r == self.model().terminal[*s as int],
    ;
}

/// The engine: one environment, a default action for terminal states, a
/// discount factor in `[0, SCALE]` fixed-point units, and the learned
/// value buffer of the latest solve. Construction compiles and validates
/// the environment; each solve call resets the buffer to zero and leaves
/// the converged values in it.
pub struct MarkovDecisionProcess<S: StateSpace + Sync> {
    state_space: S,
    default_action: Action,
    gamma: i64,
    table: TableSpace,
    learned_values: Vec<i64>,
    sweeps: usize,
}

impl<S: StateSpace + Sync> MarkovDecisionProcess<S> {
    /// The compiled model this engine solves.
    pub closed spec fn model(&self) -> MdpModel {
        self.table@
    }

    /// The discount factor, in fixed-point units.
    pub closed spec fn gamma_spec(&self) -> int {
        self.gamma as int
    }

    /// The default action assigned to terminal states.
    pub closed spec fn default_spec(&self) -> Action {
        self.default_action
    }

    /// The learned value buffer, as unbounded integers.
    pub closed spec fn learned_spec(&self) -> Seq<int> {
        ints(self.learned_values@)
    }

    /// The environment this engine was built from.
    pub closed spec fn space_spec(&self) -> S {
        self.state_space
    }

    /// How many Bellman sweeps the current buffer has absorbed since its
    /// last reset; the budget accounting that keeps values representable.
    pub closed spec fn sweeps_spec(&self) -> int {
        self.sweeps as int
    }

    /// What construction establishes and every method preserves: the
    /// compiled model is the environment's normalized model, well formed,
    /// the discount factor is in range, and the buffer holds one value per
    /// state, within the budgeted magnitude.
    pub closed spec fn wf(&self) -> bool {
        &&& model_wf(self.table@)
        &&& self.table@ == normalize(self.state_space.model())
        &&& 0 <= self.gamma <= SCALE
        &&& self.learned_values@.len() == self.table@.n()
        &&& self.sweeps <= SWEEP_LIMIT
        &&& val_bounded(ints(self.learned_values@), REWARD_LIMIT as int * self.sweeps)
    }

    /// Builds an engine from an environment, a default action and a
    /// discount factor, compiling the environment into tables and
    /// validating it: `InvalidDiscountFactor` if `gamma` lies outside
    /// `[0, SCALE]`; `EmptyActionSet` if a non-terminal state offers no
    /// action; `MalformedTransitionDistribution` if a successor index is
    /// out of range, a probability is negative, a distribution does not
    /// sum to one, or a reward magnitude exceeds `REWARD_LIMIT`. The
    /// buffer starts at zero.
    #[verifier::loop_isolation(false)]
    pub fn new(state_space: S, default: Action, gamma: i64) -> (r: Result<
        MarkovDecisionProcess<S>,
        MdpError,
    >)
        requires
            state_space.inv(),
        ensures
            match r {
                Ok(e) => {
                    &&& validate_model(normalize(state_space.model()), gamma as int) is None
                    &&& e.wf()
                    &&& e.model() == normalize(state_space.model())
                    &&& e.gamma_spec() == gamma as int
                    &&& e.default_spec() == default
                    &&& e.learned_spec() == zeros(normalize(state_space.model()).terminal.len())
                    &&& e.space_spec() == state_space
                },
                Err(err) => validate_model(normalize(state_space.model()), gamma as int) == Some(
                    err,
                ),
            },
    {
        let ghost m0 = state_space.model();
        if gamma < 0 || gamma > SCALE {
            return Err(MdpError::InvalidDiscountFactor);
        }
        let n = state_space.len();
        let mut terminal: Vec<bool> = Vec::new();
        let mut acts: Vec<Vec<usize>> = Vec::new();
        let mut trans: Vec<Vec<Vec<Transition>>> = Vec::new();
        let mut i: usize = 0;
        while i < n
            invariant
                i <= n,
                terminal@.len() == i,
                acts@.len() == i,
                trans@.len() == i,
                forall|k: int| 0 <= k < i ==> terminal@[k] == m0.terminal[k],
                forall|k: int| 0 <= k < i ==> acts.deep_view()[k] == normalize(m0).acts[k],
                forall|k: int| 0 <= k < i ==> trans.deep_view()[k] == normalize(m0).trans[k],
            decreases n - i,
        {
            let term = state_space.is_terminal_state(&i);
            let acts_i = state_space.get_actions_at_state(&i);
            let mut rows: Vec<Vec<Transition>> = Vec::new();
            let mut j: usize = 0;
            while j < acts_i.len()
                invariant
                    (i as int) < m0.n(),
                    acts_i@ == m0.acts[i as int],
                    j <= acts_i@.len(),
                    rows@.len() == j,
                    forall|jj: int|
                        0 <= jj < j ==> rows.deep_view()[jj] == normalize(m0).trans[i as int][jj],
                decreases acts_i@.len() - j,
            {
                let a = acts_i[j];
                proof {
                    lemma_find_from(m0.acts[i as int], a, 0);
                    assert(m0.acts[i as int][j as int] == a);
                    assert(find_act(m0.acts[i as int], a) >= 0);
                }
                let row = state_space.get_future_rewards(&i, &a);
                let ghost rdv = row.deep_view();
                proof {
                    assert(rdv == normalize(m0).trans[i as int][j as int]);
                }
                let ghost prerows = rows@;
                let ghost predeep = rows.deep_view();
                rows.push(row);
                proof {
                    assert forall|jj: int| 0 <= jj < j + 1 implies rows.deep_view()[jj]
                        == normalize(m0).trans[i as int][jj] by {
                        assert(rows.deep_view()[jj] == rows@[jj].deep_view());
                        if jj == j as int {
                            assert(rows@[jj].deep_view() == rdv);
                        } else {
                            assert(rows@[jj] == prerows[jj]);
                            assert(predeep[jj] == prerows[jj].deep_view());
                            assert(predeep[jj] == normalize(m0).trans[i as int][jj]);
                        }
                    }
                }
                j += 1;
            }
            let ghost rsdv = rows.deep_view();
            let ghost adv = acts_i@;
            proof {
                assert(rsdv =~= normalize(m0).trans[i as int]);
            }
            let ghost pretrans = trans@;
            let ghost pretdeep = trans.deep_view();
            let ghost preacts = acts@;
            let ghost preadeep = acts.deep_view();
            terminal.push(term);
            acts.push(acts_i);
            trans.push(rows);
            proof {
                assert forall|k: int| 0 <= k < i + 1 implies trans.deep_view()[k] == normalize(
                    m0,
                ).trans[k] by {
                    assert(trans.deep_view()[k] == trans@[k].deep_view());
                    if k == i as int {
                        assert(trans@[k].deep_view() == rsdv);
                    } else {
                        assert(trans@[k] == pretrans[k]);
                        assert(pretdeep[k] == pretrans[k].deep_view());
                        assert(pretdeep[k] == normalize(m0).trans[k]);
                    }
                }
                assert forall|k: int| 0 <= k < i + 1 implies acts.deep_view()[k] == normalize(
                    m0,
                ).acts[k] by {
                    assert(acts.deep_view()[k] == acts@[k].deep_view());
                    if k == i as int {
                        assert(acts@[k].deep_view() == adv);
                        assert(adv =~= normalize(m0).acts[i as int]);
                    } else {
                        assert(acts@[k] == preacts[k]);
                        assert(preadeep[k] == preacts[k].deep_view());
                        assert(preadeep[k] == normalize(m0).acts[k]);
                    }
                }
            }
            i += 1;
        }
        proof {
            assert(terminal@ =~= normalize(m0).terminal);
            assert(acts.deep_view() =~= normalize(m0).acts);
            assert(trans.deep_view() =~= normalize(m0).trans);
        }
        let table = TableSpace::new(terminal, acts, trans);
        proof {
            assert(table@ == normalize(m0));
        }
        let issue = crate::table::check_table(&table);
        match issue {
            Some(e) => Err(e),
            None => {
                let values = zero_vec(n);
                Ok(
                    MarkovDecisionProcess {
                        state_space,
                        default_action: default,
                        gamma,
                        table,
                        learned_values: values,
                        sweeps: 0,
                    },
                )
            },
        }
    }

    /// Reinitializes the value buffer to zero.
    pub fn reset_values(&mut self)
        requires
            old(self).wf(),
        ensures
            final(self).wf(),
            final(self).learned_spec() == zeros(final(self).model().terminal.len()),
            final(self).model() == old(self).model(),
            final(self).gamma_spec() == old(self).gamma_spec(),
            final(self).default_spec() == old(self).default_spec(),
            final(self).space_spec() == old(self).space_spec(),
    {
        let n = self.table.state_count();
        self.learned_values = zero_vec(n);
        self.sweeps = 0;
    }

    /// One Jacobi sweep of Bellman backups over the whole buffer: every
    /// state's value becomes its best Q-value against the previous buffer
    /// (zero for terminal states). Returns the sup-norm difference between
    /// the new and the previous buffer.
    pub fn update_value(&mut self) -> (r: i64)
        requires
            old(self).wf(),
            old(self).sweeps_spec() < SWEEP_LIMIT as int,
        ensures
            final(self).wf(),
            final(self).learned_spec() == backup(
                old(self).model(),
                old(self).gamma_spec(),
                old(self).learned_spec(),
            ),
            r as int == sup_diff(final(self).learned_spec(), old(self).learned_spec()),
            final(self).model() == old(self).model(),
            final(self).gamma_spec() == old(self).gamma_spec(),
            final(self).default_spec() == old(self).default_spec(),
            final(self).space_spec() == old(self).space_spec(),
            final(self).sweeps_spec() == old(self).sweeps_spec() + 1,
    {
        proof {
            lemma_sweep_budget(self.sweeps as int);
            crate::bounds::lemma_backup_bound(
                self.table@,
                self.gamma as int,
                ints(self.learned_values@),
                REWARD_LIMIT as int * self.sweeps,
            );
            lemma_sweep_budget(self.sweeps as int + 1);
        }
        let w = backup_sweep(&self.table, self.gamma, &self.learned_values);
        let dm = supdiff_exec(&w, &self.learned_values);
        self.learned_values = w;
        self.sweeps = self.sweeps + 1;
        dm
    }

    /// Value iteration: resets the buffer, runs Jacobi Bellman sweeps until
    /// the sup-norm change falls below `epsilon`, and extracts the greedy
    /// policy; the converged values stay in the buffer. Fails with
    /// `DidNotConverge` if and only if no sweep within `max_sweeps` meets
    /// the criterion, leaving the buffer after `max_sweeps` sweeps.
    pub fn value_iteration(&mut self, epsilon: i64, max_sweeps: usize) -> (r: Result<
        Policy,
        MdpError,
    >)
        requires
            old(self).wf(),
            max_sweeps <= SWEEP_LIMIT,
        ensures
            final(self).wf(),
            match vi_first(old(self).model(), old(self).gamma_spec(), epsilon as int, max_sweeps as nat) {
                Some(t) => {
                    &&& r is Ok
                    &&& r->Ok_0@ == crate::model::greedy(
                        old(self).model(),
                        old(self).gamma_spec(),
                        old(self).default_spec(),
                        vi_iter(old(self).model(), old(self).gamma_spec(), (t + 1) as nat),
                    )
                    &&& final(self).learned_spec() == vi_iter(
                        old(self).model(),
                        old(self).gamma_spec(),
                        (t + 1) as nat,
                    )
                },
                None => {
                    &&& r == Err::<Policy, MdpError>(MdpError::DidNotConverge)
                    &&& final(self).learned_spec() == vi_iter(
                        old(self).model(),
                        old(self).gamma_spec(),
                        max_sweeps as nat,
                    )
                },
            },
            final(self).model() == old(self).model(),
            final(self).gamma_spec() == old(self).gamma_spec(),
            final(self).default_spec() == old(self).default_spec(),
            final(self).space_spec() == old(self).space_spec(),
    {
        let (v, res) = vi_solve(
            &self.table,
            self.gamma,
            self.default_action,
            epsilon,
            max_sweeps,
            false,
        );
        proof {
            let m = self.table@;
            let gi = self.gamma as int;
            match vi_first(m, gi, epsilon as int, max_sweeps as nat) {
                Some(t) => {
                    lemma_vi_iter_bound(m, gi, (t + 1) as nat);
                    crate::bounds::lemma_vi_first_char(m, gi, epsilon as int, max_sweeps as nat);
                    lemma_sweep_mono(t as int + 1, max_sweeps as int);
                },
                None => {
                    lemma_vi_iter_bound(m, gi, max_sweeps as nat);
                },
            }
        }
        self.learned_values = v;
        self.sweeps = max_sweeps;
        res
    }

    /// Policy iteration: resets the buffer, then alternates Jacobi policy
    /// evaluation (to convergence under `epsilon`) and greedy improvement
    /// until an improvement pass changes no action; the evaluated values of
    /// the stable policy stay in the buffer. Fails with `DidNotConverge` if
    /// and only if the total budget of `max_sweeps` evaluation sweeps runs
    /// out first, resetting the buffer to zero.
    pub fn policy_iteration(&mut self, epsilon: i64, max_sweeps: usize) -> (r: Result<
        Policy,
        MdpError,
    >)
        requires
            old(self).wf(),
            max_sweeps <= SWEEP_LIMIT,
        ensures
            final(self).wf(),
            match pi_outcome(
                old(self).model(),
                old(self).gamma_spec(),
                epsilon as int,
                old(self).default_spec(),
                max_sweeps as nat,
            ) {
                Some(pv) => {
                    &&& r is Ok
                    &&& r->Ok_0@ == pv.0
                    &&& final(self).learned_spec() == pv.1
                },
                None => {
                    &&& r == Err::<Policy, MdpError>(MdpError::DidNotConverge)
                    &&& final(self).learned_spec() == zeros(final(self).model().terminal.len())
                },
            },
            final(self).model() == old(self).model(),
            final(self).gamma_spec() == old(self).gamma_spec(),
            final(self).default_spec() == old(self).default_spec(),
            final(self).space_spec() == old(self).space_spec(),
    {
        let (v, res) = pi_solve(
            &self.table,
            self.gamma,
            self.default_action,
            epsilon,
            max_sweeps,
            false,
        );
        match res {
            Ok(p) => {
                proof {
                    lemma_pi_values_bounded(
                        self.table@,
                        self.gamma as int,
                        epsilon as int,
                        self.default_action,
                        max_sweeps as nat,
                    );
                }
                self.learned_values = v;
                self.sweeps = max_sweeps;
                Ok(p)
            },
            Err(e) => {
                let n = self.table.state_count();
                self.learned_values = zero_vec(n);
                self.sweeps = 0;
                Err(e)
            },
        }
    }

    /// The environment this engine was built from.
    pub fn get_state_space(&self) -> (r: &S)
        ensures
            *r == self.space_spec(),
    {
        &self.state_space
    }

    /// A snapshot of the learned value buffer.
    pub fn get_learned_values(&self) -> (r: Vec<i64>)
        ensures
            ints(r@) == self.learned_spec(),
    {
        let mut out: Vec<i64> = Vec::new();
        let mut i: usize = 0;
        let n = self.learned_values.len();
        while i < n
            invariant
                n == self.learned_values@.len(),
                i <= n,
                out@.len() == i,
                forall|k: int| 0 <= k < i ==> out@[k] == self.learned_values@[k],
            decreases n - i,
        {
            out.push(self.learned_values[i]);
            i += 1;
        }
        proof {
            assert(out@ =~= self.learned_values@);
        }
        out
    }

    /// Resets the buffer and solves with the selected method: value
    /// iteration or policy iteration, each as the method of that name.
    pub fn solve(&mut self, method: MDPSolver, epsilon: i64, max_sweeps: usize) -> (r: Result<
        Policy,
        MdpError,
    >)
        requires
            old(self).wf(),
            max_sweeps <= SWEEP_LIMIT,
        ensures
            final(self).wf(),
            match method {
                MDPSolver::VALUE_ITER => match vi_outcome(
                    old(self).model(),
                    old(self).gamma_spec(),
                    epsilon as int,
                    old(self).default_spec(),
                    max_sweeps as nat,
                ) {
                    Some(p) => r is Ok && r->Ok_0@ == p,
                    None => r == Err::<Policy, MdpError>(MdpError::DidNotConverge),
                },
                MDPSolver::POLICY_ITER => match pi_outcome(
                    old(self).model(),
                    old(self).gamma_spec(),
                    epsilon as int,
                    old(self).default_spec(),
                    max_sweeps as nat,
                ) {
                    Some(pv) => r is Ok && r->Ok_0@ == pv.0,
                    None => r == Err::<Policy, MdpError>(MdpError::DidNotConverge),
                },
            },
            final(self).model() == old(self).model(),
            final(self).gamma_spec() == old(self).gamma_spec(),
            final(self).default_spec() == old(self).default_spec(),
            final(self).space_spec() == old(self).space_spec(),
    {
        self.reset_values();
        match method {
            MDPSolver::POLICY_ITER => self.policy_iteration(epsilon, max_sweeps),
            MDPSolver::VALUE_ITER => self.value_iteration(epsilon, max_sweeps),
        }
    }
}

/// A sweep count within the budget keeps its value bound within the
/// ceiling.
proof fn lemma_sweep_budget(k: int)
    requires
        0 <= k <= SWEEP_LIMIT as int,
    ensures
        0 <= REWARD_LIMIT as int * k <= VALUE_CEIL as int,
        REWARD_LIMIT as int + REWARD_LIMIT as int * (k - 1) == REWARD_LIMIT as int * k,
{
    let rl = REWARD_LIMIT as int;
    assert(rl * k >= 0) by (nonlinear_arith)
        requires
            rl > 0 && k >= 0,
    ;
    vstd::arithmetic::mul::lemma_mul_inequality(k, SWEEP_LIMIT as int, rl);
    assert(1_000_000int * 1_000_000_000_000int == 1_000_000_000_000_000_000int)
        by (nonlinear_arith);
    assert(SWEEP_LIMIT as int * rl == VALUE_CEIL as int);
    assert(k * rl == rl * k) by (nonlinear_arith);
    assert(rl + rl * (k - 1) == rl * k) by (nonlinear_arith);
}

/// A budget bound grows with the sweep count.
proof fn lemma_sweep_mono(k1: int, k2: int)
    requires
        0 <= k1 <= k2,
    ensures
        REWARD_LIMIT as int * k1 <= REWARD_LIMIT as int * k2,
{
    vstd::arithmetic::mul::lemma_mul_inequality(k1, k2, REWARD_LIMIT as int);
    assert(k1 * REWARD_LIMIT as int == REWARD_LIMIT as int * k1) by (nonlinear_arith);
    assert(k2 * REWARD_LIMIT as int == REWARD_LIMIT as int * k2) by (nonlinear_arith);
}

/// The values a successful policy-iteration run leaves behind are bounded
/// by its sweep budget.
proof fn lemma_pi_values_bounded(m: MdpModel, g: int, eps: int, d: usize, cap: nat)
    requires
        model_wf(m),
        0 <= g <= SCALE as int,
        cap <= SWEEP_LIMIT as int,
    ensures
        match pi_outcome(m, g, eps, d, cap) {
            Some(pv) => pv.1.len() == m.n() && val_bounded(
                pv.1,
                REWARD_LIMIT as int * cap,
            ),
            None => true,
        },
{
    lemma_pi_run_bounded(
        m,
        g,
        eps,
        d,
        crate::model::default_policy(m.terminal.len(), d),
        zeros(m.terminal.len()),
        cap,
        0,
    );
    assert(REWARD_LIMIT as int * 0 == 0) by (nonlinear_arith);
}

/// Along a policy-iteration run, the buffer grows by at most
/// `REWARD_LIMIT` per evaluation sweep consumed.
proof fn lemma_pi_run_bounded(
    m: MdpModel,
    g: int,
    eps: int,
    d: usize,
    pi: Seq<usize>,
    v0: Seq<int>,
    cap: nat,
    b0: int,
)
    requires
        model_wf(m),
        0 <= g <= SCALE as int,
        v0.len() == m.n(),
        val_bounded(v0, b0),
        0 <= b0,
    ensures
        match crate::model::pi_run(m, g, eps, d, pi, v0, cap) {
            Some(pv) => pv.1.len() == m.n() && val_bounded(pv.1, b0 + REWARD_LIMIT as int * cap),
            None => true,
        },
    decreases cap,
{
    let rl = REWARD_LIMIT as int;
    crate::bounds::lemma_ev_first_char(m, g, eps, pi, v0, cap);
    match crate::model::ev_first(m, g, eps, pi, v0, cap) {
        None => {},
        Some(t) => {
            let v2 = crate::model::ev_iter(m, g, pi, v0, (t + 1) as nat);
            crate::bounds::lemma_ev_iter_bound(m, g, pi, v0, (t + 1) as nat, b0);
            let pi2 = crate::model::greedy(m, g, d, v2);
            if pi2 == pi {
                assert(rl * (t + 1) <= rl * cap) by (nonlinear_arith)
                    requires
                        rl > 0 && t + 1 <= cap,
                ;
            } else if t + 1 <= cap {
                lemma_pi_run_bounded(m, g, eps, d, pi2, v2, (cap - t - 1) as nat, b0 + rl * (t
                    + 1));
                assert(rl * (t + 1) >= 0) by (nonlinear_arith)
                    requires
                        rl > 0 && t + 1 >= 0,
                ;
                assert(b0 + rl * (t + 1) + rl * ((cap - t - 1) as nat) == b0 + rl * cap)
                    by (nonlinear_arith)
                    requires
                        t + 1 <= cap,
                ;
            }
        },
    }
}

} // verus!
