//! The shift-reduce-backtrack driver.
//!
//! [`Prods::analyze`] owns a working stack, an action history, and an input
//! cursor, and drives the Normal/Reverse transitions of the model in
//! [`crate::machine`] one micro-step per loop iteration. Its contract pins
//! the returned outcome to the state that [`crate::machine::run`] reaches, so
//! the answer is a deterministic function of the grammar and the input.
//!
//! A left-recursive or reduction-cyclic rule set can make the search run
//! without bound; that is a documented limitation of the algorithm, not
//! something it detects. The driver therefore works under an explicit step
//! bound and reports [`Outcome::Exhausted`] when the bound runs out before a
//! verdict, keeping that fault distinct from ordinary non-membership.

use vstd::prelude::*;
use vstd::string::StrSliceExecFns;

use crate::grammar::Prods;
use crate::machine::halted;
use crate::machine::matches_at;
use crate::machine::reduces_of;
use crate::machine::rule_right;
use crate::machine::run;
use crate::machine::start_state;
use crate::machine::step;
use crate::machine::Action;
use crate::machine::MachineState;
use crate::machine::Phase;
use crate::matcher::lemma_find_from_spec;

verus! {

/// What an analysis reports.
#[derive(Clone, Debug, PartialEq, Eq)]
pub enum Outcome {
    /// The input belongs to the language; the payload is one valid bottom-up
    /// derivation, as the rule indices in order of application.
    Derivation(Vec<usize>),
    /// The input does not derive from the start symbol under any ordering of
    /// choices.
    NotInLanguage,
    /// The step bound ran out before the search reached a verdict.
    Exhausted,
}

/// The engine snapshot formed by the driver's working values.
spec fn state_of(phase: Phase, stack: Seq<char>, hist: Seq<Action>, cursor: nat) -> MachineState {
    MachineState { phase, stack, hist, cursor }
}

impl Prods {
    /// The model state that `fuel` micro-steps of this grammar's engine reach
    /// on `input`.
    pub open spec fn run_state(self, input: Seq<char>, fuel: nat) -> MachineState {
        run(self.rules_model(), self.init, input, fuel)
    }

    /// Decides membership of `s`, spending at most `fuel` micro-steps of the
    /// engine. The outcome is exactly what the model reaches: a derivation
    /// when it accepts, non-membership when it refuses, and `Exhausted` when
    /// `fuel` micro-steps leave it still searching.
    pub fn analyze_within(&self, s: &str, fuel: usize) -> (outcome: Outcome)
        ensures
            (outcome matches Outcome::Derivation(d) ==> {
                &&& self.run_state(s@, fuel as nat).phase == Phase::Accepted
                &&& d@ == reduces_of(self.run_state(s@, fuel as nat).hist)
            }),
            outcome is NotInLanguage ==> self.run_state(s@, fuel as nat).phase == Phase::Refused,
            outcome is Exhausted ==> !halted(self.run_state(s@, fuel as nat)),
    {
        let ghost rm = self.rules_model();
        let input = chars_of(s);
        let n = input.len();
        let mut phase = Phase::Normal;
        let mut stack: Vec<char> = Vec::new();
        let mut hist: Vec<Action> = Vec::new();
        let mut cursor: usize = 0;
        let mut fuel_left: usize = fuel;

        proof {
            assert(state_of(phase, stack@, hist@, cursor as nat) =~= start_state());
        }

        while fuel_left > 0 && phase != Phase::Accepted && phase != Phase::Refused
            invariant
                fuel_left <= fuel,
                cursor <= n,
                state_of(phase, stack@, hist@, cursor as nat) == self.run_state(
                    s@,
                    (fuel - fuel_left) as nat,
                ),
            decreases fuel_left,
        {
            let ghost pre = state_of(phase, stack@, hist@, cursor as nat);
            let ghost k = (fuel - fuel_left) as nat;
            match phase {
                Phase::Normal => {
                    match self.find_reduction(&stack, 0) {
                        Some(r) => {
                            proof {
                                lemma_find_from_spec(rm, stack@, 0);
                                assert(rm[r as int] == (self.rules@[r as int].0, self.rules@[r as int].1@));
                                assert(matches_at(rm, pre.stack, r as int));
                            }
                            let rhs_len = self.rules[r].1.len();
                            apply_rule(&mut stack, self.rules[r].0, rhs_len);
                            hist.push(Action::Reduce(r));
                        },
                        None => {
                            if cursor < n {
                                stack.push(input[cursor]);
                                hist.push(Action::Shift);
                                cursor += 1;
                            } else if stack.len() == 1 && stack[0] == self.init {
                                proof {
                                    assert(pre.stack =~= seq![self.init]);
                                }
                                phase = Phase::Accepted;
                            } else {
                                proof {
                                    if pre.stack == seq![self.init] {
                                        assert(pre.stack.len() == 1 && pre.stack[0] == self.init);
                                    }
                                }
                                phase = Phase::Reverse;
                            }
                        },
                    }
                },
                Phase::Reverse => {
                    if hist.len() == 0 || stack.len() == 0 {
                        phase = Phase::Refused;
                    } else {
                        let entry = hist[hist.len() - 1];
                        match entry {
                            Action::Shift => {
                                if cursor == 0 {
                                    phase = Phase::Refused;
                                } else {
                                    let _ = hist.pop();
                                    let _ = stack.pop();
                                    cursor -= 1;
                                }
                            },
                            Action::Reduce(r) => {
                                if r >= self.rules.len() {
                                    phase = Phase::Refused;
                                } else {
                                    let _ = hist.pop();
                                    let _ = stack.pop();
                                    proof {
                                        assert(rm[r as int] == (self.rules@[r as int].0, self.rules@[r as int].1@));
                                    }
                                    push_all(&mut stack, &self.rules[r].1);
                                    proof {
                                        assert(stack@ == pre.stack.drop_last() + rule_right(rm, r as int));
                                    }
                                    match self.find_reduction(&stack, r + 1) {
                                        Some(alt) => {
                                            proof {
                                                lemma_find_from_spec(rm, stack@, (r + 1) as int);
                                                assert(rm[alt as int] == (self.rules@[alt as int].0, self.rules@[alt as int].1@));
                                                assert(matches_at(rm, stack@, alt as int));
                                            }
                                            let rhs_len = self.rules[alt].1.len();
                                            apply_rule(&mut stack, self.rules[alt].0, rhs_len);
                                            hist.push(Action::Reduce(alt));
                                            phase = Phase::Normal;
                                        },
                                        None => {
                                            if cursor < n {
                                                stack.push(input[cursor]);
                                                hist.push(Action::Shift);
                                                cursor += 1;
                                                phase = Phase::Normal;
                                            }
                                        },
                                    }
                                }
                            },
                        }
                    }
                },
                Phase::Accepted => {},
                Phase::Refused => {},
            }
            fuel_left -= 1;
            proof {
                assert(run(rm, self.init, s@, k + 1) == step(rm, self.init, s@, pre));
                assert(state_of(phase, stack@, hist@, cursor as nat) =~= step(rm, self.init, s@, pre));
            }
        }

        let ghost taken = (fuel - fuel_left) as nat;
        if phase == Phase::Accepted {
            proof {
                crate::machine::lemma_run_stable(rm, self.init, s@, taken, fuel as nat);
            }
            let derivation = collect_derivation(&hist);
            Outcome::Derivation(derivation)
        } else if phase == Phase::Refused {
            proof {
                crate::machine::lemma_run_stable(rm, self.init, s@, taken, fuel as nat);
            }
            Outcome::NotInLanguage
        } else {
            Outcome::Exhausted
        }
    }

    /// Decides membership of `s` in the language generated from the start
    /// symbol, with the largest representable step bound. On success the
    /// result is one valid bottom-up derivation — which one is fully
    /// determined by the earliest-rule tie-break, so a fixed grammar and
    /// input always yield the identical outcome.
    pub fn analyze(&self, s: &str) -> (outcome: Outcome)
        ensures
            (outcome matches Outcome::Derivation(d) ==> {
                &&& self.run_state(s@, usize::MAX as nat).phase == Phase::Accepted
                &&& d@ == reduces_of(self.run_state(s@, usize::MAX as nat).hist)
            }),
            outcome is NotInLanguage ==> self.run_state(s@, usize::MAX as nat).phase
                == Phase::Refused,
            outcome is Exhausted ==> !halted(self.run_state(s@, usize::MAX as nat)),
    {
        self.analyze_within(s, usize::MAX)
    }
}

/// Replaces the trailing `right_len` symbols of the stack with `left`.
fn apply_rule(stack: &mut Vec<char>, left: char, right_len: usize)
    requires
        right_len <= old(stack)@.len(),
    ensures
        final(stack)@ == old(stack)@.subrange(0, old(stack)@.len() - right_len) + seq![left],
{
    let keep = stack.len() - right_len;
    stack.truncate(keep);
    stack.push(left);
    proof {
        assert(stack@ =~= old(stack)@.subrange(0, old(stack)@.len() - right_len) + seq![left]);
    }
}

/// Appends every symbol of `items` to the stack, in order.
fn push_all(stack: &mut Vec<char>, items: &Vec<char>)
    ensures
        final(stack)@ == old(stack)@ + items@,
{
    let mut i: usize = 0;
    while i < items.len()
        invariant
            0 <= i <= items@.len(),
            stack@ == old(stack)@ + items@.subrange(0, i as int),
        decreases items@.len() - i,
    {
        stack.push(items[i]);
        i += 1;
        proof {
            assert(stack@ =~= old(stack)@ + items@.subrange(0, i as int));
        }
    }
    proof {
        assert(stack@ =~= old(stack)@ + items@);
    }
}

/// Filters the chronological history down to the rule indices of its
/// reductions — the derivation of a successful run.
fn collect_derivation(hist: &Vec<Action>) -> (d: Vec<usize>)
    ensures
        d@ == reduces_of(hist@),
{
    let mut d: Vec<usize> = Vec::new();
    let mut i: usize = 0;
    while i < hist.len()
        invariant
            0 <= i <= hist@.len(),
            d@ == reduces_of(hist@.subrange(0, i as int)),
        decreases hist@.len() - i,
    {
        match hist[i] {
            Action::Reduce(r) => d.push(r),
            Action::Shift => {},
        }
        i += 1;
        proof {
            let prefix = hist@.subrange(0, i as int);
            assert(prefix.drop_last() =~= hist@.subrange(0, i - 1));
            assert(prefix.last() == hist@[i - 1]);
            assert(d@ =~= reduces_of(prefix));
        }
    }
    proof {
        assert(hist@.subrange(0, hist@.len() as int) =~= hist@);
    }
    d
}

/// Collects the characters of `s` into a vector.
fn chars_of(s: &str) -> (v: Vec<char>)
    ensures
        v@ == s@,
{
    let n = s.unicode_len();
    let mut v: Vec<char> = Vec::new();
    let mut i: usize = 0;
    while i < n
        invariant
            0 <= i <= s@.len(),
            n == s@.len(),
            v@ == s@.subrange(0, i as int),
        decreases s@.len() - i,
    {
        v.push(s.get_char(i));
        i += 1;
        proof {
            assert(v@ =~= s@.subrange(0, i as int));
        }
    }
    proof {
        assert(v@ =~= s@);
    }
    v
}

} // verus!
