//! The grammar registry: alphabets, start symbol, and the ordered production
//! list.
//!
//! A [`Prods`] value is built once through [`Prods::new`] and
//! [`Prods::add_rule`], then shared read-only across any number of analyses.
//! Registration validates eagerly: a production that references an undeclared
//! symbol, has an empty right side, or a non-nonterminal left side is refused
//! with a [`GrammarError`] instead of failing confusingly during analysis.

use vstd::prelude::*;

use crate::machine::Ruleset;

verus! {

/// Registry of the terminal and nonterminal alphabets, the start symbol, and
/// the productions in registration order.
pub struct Prods {
    /// Terminal alphabet, in declaration order.
    pub terms: Vec<char>,
    /// Nonterminal alphabet, in declaration order.
    pub nonterms: Vec<char>,
    /// Start symbol.
    pub init: char,
    /// Productions in registration order. The order decides which rule wins
    /// when several right sides match the stack: the lower index, always.
    pub rules: Vec<(char, Vec<char>)>,
}

/// Why a production was refused at registration time.
#[derive(Clone, Copy, Debug, PartialEq, Eq, Structural)]
pub enum GrammarError {
    /// The right side is empty.
    EmptyRightSide,
    /// The left side is not a declared nonterminal.
    LeftNotNonterminal,
    /// A right-side symbol is neither a declared terminal nor a declared
    /// nonterminal.
    UnknownRightSymbol,
}

impl Prods {
    /// The registered productions, right sides as sequences.
    pub open spec fn rules_model(self) -> Ruleset {
        self.rules@.map_values(|rule: (char, Vec<char>)| (rule.0, rule.1@))
    }

    /// `c` is a declared symbol, terminal or nonterminal.
    pub open spec fn in_alphabet(self, c: char) -> bool {
        self.terms@.contains(c) || self.nonterms@.contains(c)
    }

    /// An admissible production: non-empty right side, a declared nonterminal
    /// on the left, declared symbols throughout the right side.
    pub open spec fn rule_admissible(self, from: char, to: Seq<char>) -> bool {
        &&& to.len() > 0
        &&& self.nonterms@.contains(from)
        &&& forall|i: int| 0 <= i < to.len() ==> self.in_alphabet(#[trigger] to[i])
    }

    /// Establishes the alphabets and the start symbol, with no productions
    /// registered yet.
    pub fn new(terms: &[char], nonterms: &[char], init: char) -> (g: Prods)
        ensures
            g.terms@ == terms@,
            g.nonterms@ == nonterms@,
            g.init == init,
            g.rules@.len() == 0,
    {
        Prods { terms: copy_symbols(terms), nonterms: copy_symbols(nonterms), init, rules: Vec::new() }
    }

    /// Appends the production `from -> to` to the ordered rule list, or
    /// refuses it with the exact reason. On refusal the registry is
    /// unchanged. All registration is meant to complete before the first
    /// analysis; interleaving the two is unsupported.
    pub fn add_rule(&mut self, from: char, to: &[char]) -> (res: Result<(), GrammarError>)
        ensures
            res is Ok <==> old(self).rule_admissible(from, to@),
            res is Ok ==> final(self).rules_model() == old(self).rules_model().push((from, to@)),
            res is Err ==> final(self).rules@ == old(self).rules@,
            final(self).terms@ == old(self).terms@,
            final(self).nonterms@ == old(self).nonterms@,
            final(self).init == old(self).init,
            res == Err::<(), GrammarError>(GrammarError::EmptyRightSide) <==> to@.len() == 0,
            res == Err::<(), GrammarError>(GrammarError::LeftNotNonterminal)
                <==> to@.len() > 0 && !old(self).nonterms@.contains(from),
    {
        if to.len() == 0 {
            return Err(GrammarError::EmptyRightSide);
        }
        if !contains_symbol(&self.nonterms, from) {
            return Err(GrammarError::LeftNotNonterminal);
        }
        let mut i: usize = 0;
        while i < to.len()
            invariant
                0 <= i <= to@.len(),
                forall|k: int| 0 <= k < i ==> self.in_alphabet(#[trigger] to@[k]),
            decreases to@.len() - i,
        {
            let c = to[i];
            if !(contains_symbol(&self.terms, c) || contains_symbol(&self.nonterms, c)) {
                return Err(GrammarError::UnknownRightSymbol);
            }
            i += 1;
        }
        let right = copy_symbols(to);
        self.rules.push((from, right));
        proof {
            assert(self.rules_model() =~= old(self).rules_model().push((from, to@)));
        }
        Ok(())
    }
}

/// Copies a borrowed slice of symbols into an owned vector.
fn copy_symbols(cs: &[char]) -> (v: Vec<char>)
    ensures
        v@ == cs@,
{
    let mut v: Vec<char> = Vec::new();
    let mut i: usize = 0;
    while i < cs.len()
        invariant
            0 <= i <= cs@.len(),
            v@ == cs@.subrange(0, i as int),
        decreases cs@.len() - i,
    {
        v.push(cs[i]);
        i += 1;
        proof {
            assert(v@ =~= cs@.subrange(0, i as int));
        }
    }
    proof {
        assert(v@ =~= cs@);
    }
    v
}

/// Linear membership test against a declared alphabet.
fn contains_symbol(v: &Vec<char>, c: char) -> (b: bool)
    ensures
        b == v@.contains(c),
{
    let mut i: usize = 0;
    while i < v.len()
        invariant
            0 <= i <= v@.len(),
            forall|k: int| 0 <= k < i ==> v@[k] != c,
        decreases v@.len() - i,
    {
        if v[i] == c {
            return true;
        }
        i += 1;
    }
    false
}

} // verus!
