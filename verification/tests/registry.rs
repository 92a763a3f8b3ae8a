use parser::GrammarError;
use parser::Prods;

fn sample() -> Prods {
    let terms = ['+', 'a', 'b'];
    let nonterms = ['S', 'X'];
    Prods::new(&terms, &nonterms, 'S')
}

#[test]
fn new_registers_alphabets_and_start() {
    let g = sample();
    assert_eq!(g.terms, vec!['+', 'a', 'b']);
    assert_eq!(g.nonterms, vec!['S', 'X']);
    assert_eq!(g.init, 'S');
    assert!(g.rules.is_empty());
}

#[test]
fn add_rule_keeps_registration_order() {
    let mut g = sample();
    g.add_rule('S', &['X', '+', 'X']).unwrap();
    g.add_rule('X', &['a']).unwrap();
    g.add_rule('X', &['b']).unwrap();
    assert_eq!(g.rules.len(), 3);
    assert_eq!(g.rules[0], ('S', vec!['X', '+', 'X']));
    assert_eq!(g.rules[1], ('X', vec!['a']));
    assert_eq!(g.rules[2], ('X', vec!['b']));
}

#[test]
fn empty_right_side_is_refused() {
    let mut g = sample();
    assert_eq!(g.add_rule('S', &[]), Err(GrammarError::EmptyRightSide));
    assert!(g.rules.is_empty());
}

#[test]
fn left_side_must_be_a_nonterminal() {
    let mut g = sample();
    assert_eq!(g.add_rule('a', &['a']), Err(GrammarError::LeftNotNonterminal));
    assert_eq!(g.add_rule('Z', &['a']), Err(GrammarError::LeftNotNonterminal));
    assert!(g.rules.is_empty());
}

#[test]
fn right_side_symbols_must_be_declared() {
    let mut g = sample();
    assert_eq!(g.add_rule('S', &['a', 'q']), Err(GrammarError::UnknownRightSymbol));
    assert!(g.rules.is_empty());
}

#[test]
fn lower_indexed_rule_wins_a_shared_suffix() {
    let terms = ['+', 'a'];
    let nonterms = ['S', 'X'];
    let mut g = Prods::new(&terms, &nonterms, 'S');
    // Both right sides end a stack that reads X + a: the shorter rule was
    // registered first and must win the match.
    g.add_rule('X', &['a']).unwrap();
    g.add_rule('S', &['X', '+', 'a']).unwrap();

    let stack = vec!['X', '+', 'a'];
    assert_eq!(g.find_reduction(&stack, 0), Some(0));
}

#[test]
fn search_resumes_after_the_cursor() {
    let terms = ['+', 'a'];
    let nonterms = ['S', 'X'];
    let mut g = Prods::new(&terms, &nonterms, 'S');
    g.add_rule('X', &['a']).unwrap();
    g.add_rule('S', &['X', '+', 'a']).unwrap();

    let stack = vec!['X', '+', 'a'];
    assert_eq!(g.find_reduction(&stack, 1), Some(1));
    assert_eq!(g.find_reduction(&stack, 2), None);
}

#[test]
fn no_rule_matches_a_bare_stack() {
    let mut g = sample();
    g.add_rule('X', &['a']).unwrap();
    let stack = vec!['+', 'b'];
    assert_eq!(g.find_reduction(&stack, 0), None);
    let empty: Vec<char> = vec![];
    assert_eq!(g.find_reduction(&empty, 0), None);
}
