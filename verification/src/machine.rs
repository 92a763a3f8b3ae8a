//! The shift-reduce-backtrack engine as a deterministic state machine.
//!
//! Every observable behaviour of the executable driver is pinned to this
//! model: one call of [`step`] is one micro-step (a single reduction, shift,
//! undo, or verdict), and [`run`] iterates it from the empty starting state.
//! The driver's contract says that its answer is exactly what `run` reaches.

use vstd::prelude::*;

verus! {

/// A grammar as the model sees it: each production is its left-side symbol
/// together with its right side, in registration order. The order is
/// semantically load-bearing: the lowest-indexed matching rule always wins.
pub type Ruleset = Seq<(char, Seq<char>)>;

/// One recorded stack mutation: a terminal shifted from the input, or a
/// reduction by the rule with the carried index. The chronological log of
/// these drives undo during backtracking and yields the final derivation.
#[derive(Clone, Copy, Debug, PartialEq, Eq, Structural)]
pub enum Action {
    Shift,
    Reduce(usize),
}

/// The engine's control state: working forwards, unwinding a failed path,
/// or done with a verdict.
#[derive(Clone, Copy, Debug, PartialEq, Eq, Structural)]
pub enum Phase {
    /// Reduce greedily, then shift; accept or start unwinding when the input
    /// is exhausted.
    Normal,
    /// Undo the most recent stack mutation, looking for an untried choice.
    Reverse,
    /// The input belongs to the language; the history holds a derivation.
    Accepted,
    /// Every ordering of choices has been exhausted: non-membership.
    Refused,
}

/// A snapshot of the engine between micro-steps: the sentential form built so
/// far, the chronological action log, and the input read position.
#[verifier::ext_equal]
pub struct MachineState {
    pub phase: Phase,
    pub stack: Seq<char>,
    pub hist: Seq<Action>,
    pub cursor: nat,
}

/// Left-side nonterminal of rule `r`.
pub open spec fn rule_left(rules: Ruleset, r: int) -> char {
    rules[r].0
}

/// Right side of rule `r`.
pub open spec fn rule_right(rules: Ruleset, r: int) -> Seq<char> {
    rules[r].1
}

/// Rule `r` is applicable: its right side is a trailing subsequence of the
/// stack.
pub open spec fn matches_at(rules: Ruleset, stack: Seq<char>, r: int) -> bool {
    rule_right(rules, r).is_suffix_of(stack)
}

/// The lowest-indexed rule at or after `from` whose right side is a suffix of
/// `stack`, or `None` when no rule from there on matches. This is the
/// earliest-rule tie-break in its entirety.
pub open spec fn find_from(rules: Ruleset, stack: Seq<char>, from: int) -> Option<int>
    decreases rules.len() - from,
{
    if from < 0 || from >= rules.len() {
        None
    } else if matches_at(rules, stack, from) {
        Some(from)
    } else {
        find_from(rules, stack, from + 1)
    }
}

/// The stack after applying a reduction: the trailing right side is replaced
/// by the rule's left side.
pub open spec fn reduced_stack(stack: Seq<char>, left: char, right: Seq<char>) -> Seq<char> {
    stack.subrange(0, stack.len() - right.len()) + seq![left]
}

/// Where every analysis begins: empty stack, empty history, cursor at the
/// start of the input.
pub open spec fn start_state() -> MachineState {
    MachineState { phase: Phase::Normal, stack: Seq::empty(), hist: Seq::empty(), cursor: 0 }
}

/// The machine has reached a verdict.
pub open spec fn halted(st: MachineState) -> bool {
    st.phase == Phase::Accepted || st.phase == Phase::Refused
}

/// One micro-step of the forward phase: reduce by the lowest-indexed matching
/// rule if any matches; otherwise shift the next input terminal if any
/// remains; otherwise accept exactly when the stack is the start symbol
/// alone, and start unwinding otherwise.
pub open spec fn step_normal(rules: Ruleset, init: char, input: Seq<char>, st: MachineState) -> MachineState {
    match find_from(rules, st.stack, 0) {
        Some(r) => MachineState {
            phase: Phase::Normal,
            stack: reduced_stack(st.stack, rule_left(rules, r), rule_right(rules, r)),
            hist: st.hist.push(Action::Reduce(r as usize)),
            cursor: st.cursor,
        },
        None => {
            if st.cursor < input.len() {
                MachineState {
                    phase: Phase::Normal,
                    stack: st.stack.push(input[st.cursor as int]),
                    hist: st.hist.push(Action::Shift),
                    cursor: st.cursor + 1,
                }
            } else if st.stack == seq![init] {
                MachineState { phase: Phase::Accepted, stack: st.stack, hist: st.hist, cursor: st.cursor }
            } else {
                MachineState { phase: Phase::Reverse, stack: st.stack, hist: st.hist, cursor: st.cursor }
            }
        },
    }
}

/// One micro-step of the unwinding phase: pop the most recent action together
/// with the symbol it produced. An undone shift retreats the cursor and keeps
/// unwinding. An undone reduction restores the rule's right side and tries
/// the next later-indexed alternative; if one matches it is applied and the
/// forward phase resumes, otherwise the engine shifts instead of having
/// reduced at this point — or, with the input exhausted, keeps unwinding.
/// An empty history means every choice has been undone: non-membership.
pub open spec fn step_reverse(rules: Ruleset, input: Seq<char>, st: MachineState) -> MachineState {
    if st.hist.len() == 0 || st.stack.len() == 0 {
        MachineState { phase: Phase::Refused, stack: st.stack, hist: st.hist, cursor: st.cursor }
    } else {
        let popped = st.hist.last();
        let hist0 = st.hist.drop_last();
        let stack0 = st.stack.drop_last();
        match popped {
            Action::Shift => {
                if st.cursor == 0 {
                    MachineState { phase: Phase::Refused, stack: st.stack, hist: st.hist, cursor: st.cursor }
                } else {
                    MachineState {
                        phase: Phase::Reverse,
                        stack: stack0,
                        hist: hist0,
                        cursor: (st.cursor - 1) as nat,
                    }
                }
            },
            Action::Reduce(r) => {
                if r >= rules.len() {
                    MachineState { phase: Phase::Refused, stack: st.stack, hist: st.hist, cursor: st.cursor }
                } else {
                    let restored = stack0 + rule_right(rules, r as int);
                    match find_from(rules, restored, r + 1) {
                        Some(alt) => MachineState {
                            phase: Phase::Normal,
                            stack: reduced_stack(restored, rule_left(rules, alt), rule_right(rules, alt)),
                            hist: hist0.push(Action::Reduce(alt as usize)),
                            cursor: st.cursor,
                        },
                        None => {
                            if st.cursor >= input.len() {
                                MachineState { phase: Phase::Reverse, stack: restored, hist: hist0, cursor: st.cursor }
                            } else {
                                MachineState {
                                    phase: Phase::Normal,
                                    stack: restored.push(input[st.cursor as int]),
                                    hist: hist0.push(Action::Shift),
                                    cursor: st.cursor + 1,
                                }
                            }
                        },
                    }
                }
            },
        }
    }
}

/// One micro-step of the engine. Verdict states are absorbing.
pub open spec fn step(rules: Ruleset, init: char, input: Seq<char>, st: MachineState) -> MachineState {
    match st.phase {
        Phase::Normal => step_normal(rules, init, input, st),
        Phase::Reverse => step_reverse(rules, input, st),
        Phase::Accepted => st,
        Phase::Refused => st,
    }
}

/// The state after `fuel` micro-steps from the starting state.
pub open spec fn run(rules: Ruleset, init: char, input: Seq<char>, fuel: nat) -> MachineState
    decreases fuel,
{
    if fuel == 0 {
        start_state()
    } else {
        step(rules, init, input, run(rules, init, input, (fuel - 1) as nat))
    }
}

/// The rule indices carried by the history's reductions, in chronological
/// order: the derivation reported on success, with shifts dropped.
pub open spec fn reduces_of(hist: Seq<Action>) -> Seq<usize>
    decreases hist.len(),
{
    if hist.len() == 0 {
        Seq::empty()
    } else {
        reduces_of(hist.drop_last()) + match hist.last() {
            Action::Shift => Seq::empty(),
            Action::Reduce(r) => seq![r],
        }
    }
}

/// Once a verdict is reached it never changes: running longer gives the same
/// state.
pub proof fn lemma_run_stable(rules: Ruleset, init: char, input: Seq<char>, m: nat, n: nat)
    requires
        m <= n,
        halted(run(rules, init, input, m)),
    ensures
        run(rules, init, input, n) == run(rules, init, input, m),
    decreases n,
{
    if m < n {
        lemma_run_stable(rules, init, input, m, (n - 1) as nat);
    }
}

} // verus!
