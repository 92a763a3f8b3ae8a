//! A nondeterministic bottom-up (shift-reduce) parser with backtracking for
//! context-free grammars supplied at runtime.
//!
//! A grammar is an alphabet of terminal and nonterminal symbols, a start
//! symbol, and an ordered list of productions. Given an input sequence of
//! terminals, [`Prods::analyze`] decides membership in the language generated
//! from the start symbol and, on success, reports one valid bottom-up
//! derivation as the ordered sequence of applied rule indices.
//!
//! The engine is specified as a deterministic state machine
//! ([`machine::step`]); the executable driver provably follows that machine
//! step by step, and every reported derivation provably replays, reduction by
//! reduction, from the raw input to exactly the start symbol
//! ([`derivation::lemma_derivation_round_trip`]).

#![verifier::loop_isolation(false)]

pub mod derivation;
pub mod engine;
pub mod grammar;
pub mod machine;
pub mod matcher;

pub use crate::engine::Outcome;
pub use crate::grammar::GrammarError;
pub use crate::grammar::Prods;
pub use crate::machine::Action;
pub use crate::machine::Phase;
