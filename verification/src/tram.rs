//! The tram problem: a shortest-path environment over stops
//! `start ..= end`.
//!
//! From stop `s`, walking advances to `s + 1` at cost 1; the tram jumps to
//! `2 * s` with probability 0.9 (staying put otherwise) at cost 2. The last
//! stop is terminal. Stop labels run from `start`, so index `i` carries the
//! label `start + i`; rewards are the negated costs, in fixed-point units.

use crate::engine::{Action, State, StateSpace};
use crate::fixed::SCALE;
use crate::model::{find_act, lemma_find_from, SpaceModel, TransSpec};
use crate::table::Transition;
use vstd::prelude::*;

verus! {

/// The moves of the tram problem, numbered as the engine sees them:
/// `NONE` is 0 (the default action), `WALK` is 1, `TRAM` is 2.
#[derive(Debug, PartialEq, Eq, Structural)]
pub enum Actions {
    NONE,
    WALK,
    TRAM,
}

/// Largest stop label the environment accepts: keeps `2 * s` and `s + 1`
/// within `usize` on every platform.
pub const TRAM_LABEL_LIMIT: usize = 0x3fff_ffff;

/// The adjusted final stop: an `end` at or below `start` is pushed to
/// `start + 10`.
pub open spec fn tram_true_end(start: usize, end: usize) -> usize {
    if end <= start {
        (start + 10) as usize
    } else {
        end
    }
}

/// Actions available at stop `s`: walk while the next stop exists, ride
/// while the tram does not overshoot the final stop.
pub open spec fn tram_acts(s: usize, end: usize) -> Seq<usize> {
    if s + 1 <= end && 2 * (s as int) <= end {
        seq![1usize, 2usize]
    } else if s + 1 <= end {
        seq![1usize]
    } else if 2 * (s as int) <= end {
        seq![2usize]
    } else {
        Seq::empty()
    }
}

/// Outcomes of taking action `a` at stop `s`: walking surely advances one
/// stop at cost 1; the tram doubles the stop with probability 0.9 and
/// stays otherwise, at cost 2. Unknown actions have no outcomes.
pub open spec fn tram_row(s: usize, a: usize) -> Seq<TransSpec> {
    if a == 1 {
        seq![TransSpec { next: s + 1, prob: SCALE as int, reward: -(SCALE as int) }]
    } else if a == 2 {
        seq![
            TransSpec {
                next: 2 * (s as int),
                prob: 900_000,
                reward: -2 * (SCALE as int),
            },
            TransSpec { next: s as int, prob: 100_000, reward: -2 * (SCALE as int) },
        ]
    } else {
        Seq::empty()
    }
}

/// The tram environment's model for stops `start ..= end`.
pub open spec fn tram_space_model(start: usize, end: usize) -> SpaceModel {
    let n = (end - start + 1) as nat;
    SpaceModel {
        ids: Seq::new(n, |i: int| (start + i) as usize),
        terminal: Seq::new(n, |i: int| start + i == end),
        acts: Seq::new(n, |i: int| tram_acts((start + i) as usize, end)),
        trans: Seq::new(
            n,
            |i: int|
                Seq::new(
                    tram_acts((start + i) as usize, end).len(),
                    |j: int|
                        tram_row(
                            (start + i) as usize,
                            tram_acts((start + i) as usize, end)[j],
                        ),
                ),
        ),
    }
}

/// The tram environment: the stop enumeration and its first and final
/// stops.
pub struct TramSpace {
    states: Vec<State>,
    start: State,
    end: State,
}

impl TramSpace {
    /// Builds the environment for stops `start ..= end`, pushing an `end`
    /// at or below `start` out to `start + 10`. `all_states` must
    /// enumerate the stop labels in order.
    pub fn new(all_states: Vec<State>, start: State, end: State) -> (r: TramSpace)
        requires
            start < tram_true_end(start, end),
            tram_true_end(start, end) <= TRAM_LABEL_LIMIT,
            all_states@.len() == tram_true_end(start, end) - start + 1,
            forall|i: int| 0 <= i < all_states@.len() ==> all_states@[i] == start + i,
        ensures
            r.inv(),
            r.sm() == tram_space_model(start, tram_true_end(start, end)),
    {
        let true_end: usize = if end <= start {
            start + 10
        } else {
            end
        };
        let r = TramSpace { states: all_states, start, end: true_end };
        proof {
            assert(r.states@ =~= tram_space_model(start, true_end).ids);
        }
        r
    }
}

impl StateSpace for TramSpace {
    /// The stop enumeration is contiguous from `start` to `end`, and the
    /// final stop is small enough that walking and riding never overflow.
    closed spec fn inv(&self) -> bool {
        &&& self.start < self.end <= TRAM_LABEL_LIMIT
        &&& self.states@.len() == self.end - self.start + 1
        &&& forall|i: int| 0 <= i < self.states@.len() ==> self.states@[i] == self.start + i
    }

    closed spec fn sm(&self) -> SpaceModel {
        tram_space_model(self.start, self.end)
    }

    fn get_actions_at_state(&self, s: State) -> (r: Vec<Action>)
    {
        proof {
            lemma_tram_valid_label(*self, s);
        }
        let mut actions: Vec<Action> = Vec::new();
        if s + 1 <= self.end {
            actions.push(1);
        }
        if s * 2 <= self.end {
            actions.push(2);
        }
        proof {
            assert(actions@ =~= tram_acts(s, self.end));
            assert forall|i: int|
                0 <= i < self.sm().n() && (#[trigger] self.sm().ids[i]) == s implies actions@
                == self.sm().acts[i] by {
                assert(self.sm().acts[i] == tram_acts((self.start + i) as usize, self.end));
            }
        }
        actions
    }

    fn get_prob_reward(&self, s: State, a: Action) -> (r: Vec<Transition>)
    {
        proof {
            lemma_tram_valid_label(*self, s);
        }
        let mut output: Vec<Transition> = Vec::new();
        match a {
            1 => output.push(Transition { next: s + 1, prob: SCALE, reward: -SCALE }),
            2 => {
                output.push(Transition { next: s * 2, prob: 900_000, reward: -2 * SCALE });
                output.push(Transition { next: s, prob: 100_000, reward: -2 * SCALE });
            },
            _ => {},
        }
        proof {
            assert(output.deep_view() =~= tram_row(s, a));
            assert forall|i: int|
                0 <= i < self.sm().n() && (#[trigger] self.sm().ids[i]) == s && find_act(
                    self.sm().acts[i],
                    a,
                ) >= 0 implies output.deep_view() == self.sm().trans[i][find_act(
                self.sm().acts[i],
                a,
            )] by {
                let row = self.sm().acts[i];
                let j = find_act(row, a);
                lemma_find_from(row, a, 0);
                assert(row[j] == a);
                assert(self.sm().trans[i][j] == tram_row((self.start + i) as usize, row[j]));
            }
        }
        output
    }

    fn get_all_states(&self) -> (r: Vec<State>)
    {
        let mut out: Vec<State> = Vec::new();
        let mut i: usize = 0;
        let n = self.states.len();
        while i < n
            invariant
                self.inv(),
                n == self.states@.len(),
                i <= n,
                out@.len() == i,
                forall|k: int| 0 <= k < i ==> out@[k] == self.states@[k],
            decreases n - i,
        {
            out.push(self.states[i]);
            i += 1;
        }
        proof {
            assert(out@ =~= self.sm().ids);
        }
        out
    }

    fn get_state_count(&self) -> (r: usize)
    {
        self.states.len()
    }

    fn get_idx_from_state(&self, s: State) -> (r: usize)
    {
        proof {
            lemma_tram_valid_label(*self, s);
        }
        s - self.start
    }

    fn get_state_from_idx(&self, i: usize) -> (r: State)
    {
        self.states[i]
    }

    fn is_terminal_state(&self, s: State) -> (r: bool)
    {
        s == self.end
    }
}

/// A valid label of a tram space lies between its first and final stops.
proof fn lemma_tram_valid_label(sp: TramSpace, s: State)
    requires
        sp.inv(),
        sp.sm().valid_state(s),
    ensures
        sp.start <= s <= sp.end,
{
    let smod = sp.sm();
    let wi = choose|i: int| 0 <= i < smod.n() && smod.ids[i] == s;
    assert(smod.ids[wi] == (sp.start + wi) as usize);
}

} // verus!
