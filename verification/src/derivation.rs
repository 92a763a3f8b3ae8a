//! Replay semantics for recorded histories, and the derivation round trip.
//!
//! A history replays from the empty stack: each shift appends the next input
//! terminal, each reduction replaces a rule's right side at the top of the
//! stack with its left side. [`engine_inv`] states that every state the
//! engine reaches carries a validly replaying history whose stack and cursor
//! are the engine's own, and [`lemma_derivation_round_trip`] draws the
//! conclusion for a successful analysis: its derivation replays over the
//! input to exactly the start symbol.

use vstd::prelude::*;

use crate::machine::find_from;
use crate::machine::matches_at;
use crate::machine::reduced_stack;
use crate::machine::reduces_of;
use crate::machine::rule_left;
use crate::machine::rule_right;
use crate::machine::run;
use crate::machine::start_state;
use crate::machine::step;
use crate::machine::Action;
use crate::machine::MachineState;
use crate::machine::Phase;
use crate::machine::Ruleset;
use crate::matcher::lemma_find_from_spec;

verus! {

/// How many shifts a history holds: the input prefix its replay consumes.
pub open spec fn shift_count(hist: Seq<Action>) -> nat
    decreases hist.len(),
{
    if hist.len() == 0 {
        0
    } else {
        shift_count(hist.drop_last()) + (if hist.last() is Shift {
            1nat
        } else {
            0nat
        })
    }
}

/// The stack that replaying `hist` over `input` builds from the empty stack.
pub open spec fn replay_stack(rules: Ruleset, input: Seq<char>, hist: Seq<Action>) -> Seq<char>
    decreases hist.len(),
{
    if hist.len() == 0 {
        Seq::empty()
    } else {
        let rest = replay_stack(rules, input, hist.drop_last());
        match hist.last() {
            Action::Shift => rest.push(input[shift_count(hist.drop_last()) as int]),
            Action::Reduce(r) => reduced_stack(
                rest,
                rule_left(rules, r as int),
                rule_right(rules, r as int),
            ),
        }
    }
}

/// `hist` is a valid replay over `input`: every shift consumes an input
/// terminal that exists, and every reduction applies a registered rule whose
/// right side is a suffix of the stack built so far.
pub open spec fn replay_ok(rules: Ruleset, input: Seq<char>, hist: Seq<Action>) -> bool
    decreases hist.len(),
{
    if hist.len() == 0 {
        true
    } else {
        let rest = hist.drop_last();
        replay_ok(rules, input, rest) && match hist.last() {
            Action::Shift => shift_count(rest) < input.len(),
            Action::Reduce(r) => r < rules.len() && matches_at(
                rules,
                replay_stack(rules, input, rest),
                r as int,
            ),
        }
    }
}

/// Unfolds the replay of a history extended by one action.
proof fn lemma_replay_push(rules: Ruleset, input: Seq<char>, hist: Seq<Action>, e: Action)
    ensures
        shift_count(hist.push(e)) == shift_count(hist) + (if e is Shift {
            1nat
        } else {
            0nat
        }),
        replay_ok(rules, input, hist.push(e)) == (replay_ok(rules, input, hist) && (match e {
            Action::Shift => shift_count(hist) < input.len(),
            Action::Reduce(r) => r < rules.len() && matches_at(
                rules,
                replay_stack(rules, input, hist),
                r as int,
            ),
        })),
        replay_stack(rules, input, hist.push(e)) == (match e {
            Action::Shift => replay_stack(rules, input, hist).push(input[shift_count(hist) as int]),
            Action::Reduce(r) => reduced_stack(
                replay_stack(rules, input, hist),
                rule_left(rules, r as int),
                rule_right(rules, r as int),
            ),
        }),
{
    assert(hist.push(e).drop_last() =~= hist);
    assert(hist.push(e).last() == e);
}

/// What the engine maintains about every state it reaches: the history is a
/// valid replay whose stack and shift count are the state's own stack and
/// cursor, the cursor never passes the end of the input, acceptance happens
/// only with the input consumed and the stack reduced to exactly the start
/// symbol, and refusal happens only with the entire history undone — no
/// reachable unwinding step ever has its stack, history, or cursor underflow.
pub open spec fn engine_inv(rules: Ruleset, init: char, input: Seq<char>, st: MachineState) -> bool {
    &&& replay_ok(rules, input, st.hist)
    &&& st.stack == replay_stack(rules, input, st.hist)
    &&& st.cursor == shift_count(st.hist)
    &&& st.cursor <= input.len()
    &&& (st.phase == Phase::Accepted ==> st.cursor == input.len() && st.stack == seq![init])
    &&& (st.phase == Phase::Refused ==> st.hist.len() == 0 && st.stack.len() == 0)
}

/// Replaying a non-empty history always leaves at least one symbol: the last
/// action either pushed a terminal or pushed a rule's left side.
proof fn lemma_replay_stack_nonempty(rules: Ruleset, input: Seq<char>, hist: Seq<Action>)
    requires
        hist.len() > 0,
    ensures
        replay_stack(rules, input, hist).len() > 0,
{
}

/// One micro-step preserves the engine invariant.
proof fn lemma_step_preserves_inv(rules: Ruleset, init: char, input: Seq<char>, st: MachineState)
    requires
        rules.len() <= usize::MAX,
        engine_inv(rules, init, input, st),
    ensures
        engine_inv(rules, init, input, step(rules, init, input, st)),
{
    match st.phase {
        Phase::Normal => {
            lemma_find_from_spec(rules, st.stack, 0);
            match find_from(rules, st.stack, 0) {
                Some(r) => {
                    lemma_replay_push(rules, input, st.hist, Action::Reduce(r as usize));
                },
                None => {
                    if st.cursor < input.len() {
                        lemma_replay_push(rules, input, st.hist, Action::Shift);
                    }
                },
            }
        },
        Phase::Reverse => {
            if st.hist.len() == 0 || st.stack.len() == 0 {
                if st.hist.len() > 0 {
                    lemma_replay_stack_nonempty(rules, input, st.hist);
                }
            } else {
                let rest = st.hist.drop_last();
                match st.hist.last() {
                    Action::Shift => {
                        assert(st.cursor == shift_count(rest) + 1);
                        assert(st.stack.drop_last() =~= replay_stack(rules, input, rest));
                    },
                    Action::Reduce(r) => {
                        assert(r < rules.len());
                        {
                            let rs0 = replay_stack(rules, input, rest);
                            let right = rule_right(rules, r as int);
                            assert(right.is_suffix_of(rs0));
                            assert(st.stack.drop_last() =~= rs0.subrange(
                                0,
                                rs0.len() - right.len(),
                            ));
                            let restored = st.stack.drop_last() + right;
                            assert(restored =~= rs0);
                            lemma_find_from_spec(rules, restored, r + 1);
                            match find_from(rules, restored, r + 1) {
                                Some(alt) => {
                                    lemma_replay_push(
                                        rules,
                                        input,
                                        rest,
                                        Action::Reduce(alt as usize),
                                    );
                                },
                                None => {
                                    if st.cursor < input.len() {
                                        lemma_replay_push(rules, input, rest, Action::Shift);
                                    }
                                },
                            }
                        }
                    },
                }
            }
        },
        Phase::Accepted => {},
        Phase::Refused => {},
    }
}

/// Every state the engine reaches satisfies the engine invariant.
pub proof fn lemma_run_inv(rules: Ruleset, init: char, input: Seq<char>, fuel: nat)
    requires
        rules.len() <= usize::MAX,
    ensures
        engine_inv(rules, init, input, run(rules, init, input, fuel)),
    decreases fuel,
{
    if fuel == 0 {
        assert(engine_inv(rules, init, input, start_state()));
    } else {
        lemma_run_inv(rules, init, input, (fuel - 1) as nat);
        lemma_step_preserves_inv(rules, init, input, run(rules, init, input, (fuel - 1) as nat));
    }
}

/// Derivation round trip: when the engine accepts, some valid action history
/// replays over the input from the empty stack, consumes the input in full,
/// ends on exactly the start symbol alone, and carries as its reductions, in
/// chronological order, exactly the reported derivation.
pub proof fn lemma_derivation_round_trip(
    rules: Ruleset,
    init: char,
    input: Seq<char>,
    fuel: nat,
    d: Seq<usize>,
)
    requires
        rules.len() <= usize::MAX,
        run(rules, init, input, fuel).phase == Phase::Accepted,
        d == reduces_of(run(rules, init, input, fuel).hist),
    ensures
        exists|hist: Seq<Action>|
            {
                &&& #[trigger] replay_ok(rules, input, hist)
                &&& shift_count(hist) == input.len()
                &&& replay_stack(rules, input, hist) == seq![init]
                &&& reduces_of(hist) == d
            },
{
    lemma_run_inv(rules, init, input, fuel);
    let witness = run(rules, init, input, fuel).hist;
    assert(replay_ok(rules, input, witness) && shift_count(witness) == input.len()
        && replay_stack(rules, input, witness) == seq![init] && reduces_of(witness) == d);
}

} // verus!
