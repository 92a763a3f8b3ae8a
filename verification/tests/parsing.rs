use parser::Outcome;
use parser::Prods;

fn init() -> Prods {
    let terms = ['!', '+', '*', '(', ')', 'a', 'b'];
    let nonterms = ['A', 'B', 'T', 'M'];
    let init = 'A';

    let mut prods = Prods::new(&terms, &nonterms, init);
    prods.add_rule('A', &['!', 'B', '!']).unwrap();
    prods.add_rule('B', &['T']).unwrap();
    prods.add_rule('B', &['T', '+', 'B']).unwrap();
    prods.add_rule('T', &['M']).unwrap();
    prods.add_rule('T', &['M', '*', 'T']).unwrap();
    prods.add_rule('M', &['a']).unwrap();
    prods.add_rule('M', &['b']).unwrap();
    prods.add_rule('M', &['(', 'B', ')']).unwrap();

    prods
}

#[test]
fn test1() {
    let prods = init();
    let input = "!a+b!";
    let derivation = prods.analyze(input);

    match derivation {
        Outcome::Derivation(derivation) => {
            let derivation: String = derivation
                .iter()
                .map(|rule| (rule + 1).to_string())
                .collect();
            assert_eq!(derivation, "6474231");
        }
        _ => {
            panic!("should belong to grammatic");
        }
    }
}

#[test]
fn test2() {
    let prods = init();
    let input = "!a*b!";
    let derivation = prods.analyze(input);

    match derivation {
        Outcome::Derivation(derivation) => {
            let derivation: String = derivation
                .iter()
                .map(|rule| (rule + 1).to_string())
                .collect();
            assert_eq!(derivation, "674521");
        }
        _ => {
            panic!("should belong to grammatic");
        }
    }
}

#[test]
fn test3() {
    let prods = init();
    let input = "!(a+b)*(b+a)!";
    let derivation = prods.analyze(input);

    match derivation {
        Outcome::Derivation(derivation) => {
            let derivation: String = derivation
                .iter()
                .map(|rule| (rule + 1).to_string())
                .collect();
            assert_eq!(derivation, "647423874642384521");
        }
        _ => {
            panic!("should belong to grammatic");
        }
    }
}

#[test]
fn test4() {
    let prods = init();
    let input = "!b*a+a*b!";
    let derivation = prods.analyze(input);

    match derivation {
        Outcome::Derivation(derivation) => {
            let derivation: String = derivation
                .iter()
                .map(|rule| (rule + 1).to_string())
                .collect();
            assert_eq!(derivation, "76456745231");
        }
        _ => {
            panic!("should belong to grammatic");
        }
    }
}

#[test]
fn test5() {
    let prods = init();
    let input = "!(a+b)*a+b*a!";
    let derivation = prods.analyze(input);

    match derivation {
        Outcome::Derivation(derivation) => {
            let derivation: String = derivation
                .iter()
                .map(|rule| (rule + 1).to_string())
                .collect();
            assert_eq!(derivation, "64742386457645231");
        }
        _ => {
            panic!("should belong to grammatic");
        }
    }
}

#[test]
fn test6() {
    let prods = init();
    let input = "!(a+b*a)*(b*b+a*(a+b+a))!";
    let derivation = prods.analyze(input);

    match derivation {
        Outcome::Derivation(derivation) => {
            let derivation: String = derivation
                .iter()
                .map(|rule| (rule + 1).to_string())
                .collect();
            assert_eq!(derivation, "647645238774566474642338452384521");
        }
        _ => {
            panic!("should belong to grammatic");
        }
    }
}

#[test]
fn test7() {
    let prods = init();
    let input = "!a+*b!";
    let derivation = prods.analyze(input);

    match derivation {
        Outcome::Derivation(_) => {
            panic!("shouldn't belong to grammatic");
        }
        Outcome::NotInLanguage => (),
        Outcome::Exhausted => {
            panic!("the step bound ran out");
        }
    }
}

#[test]
fn test8() {
    let prods = init();
    let input = "a+b*a+b";
    let derivation = prods.analyze(input);

    match derivation {
        Outcome::Derivation(_) => {
            panic!("shouldn't belong to grammatic");
        }
        Outcome::NotInLanguage => (),
        Outcome::Exhausted => {
            panic!("the step bound ran out");
        }
    }
}

#[test]
fn test9() {
    let prods = init();
    let input = "a!b";
    let derivation = prods.analyze(input);

    match derivation {
        Outcome::Derivation(_) => {
            panic!("shouldn't belong to grammatic");
        }
        Outcome::NotInLanguage => (),
        Outcome::Exhausted => {
            panic!("the step bound ran out");
        }
    }
}

#[test]
fn test10() {
    let prods = init();
    let input = "!a(b+a()!";
    let derivation = prods.analyze(input);

    match derivation {
        Outcome::Derivation(_) => {
            panic!("shouldn't belong to grammatic");
        }
        Outcome::NotInLanguage => (),
        Outcome::Exhausted => {
            panic!("the step bound ran out");
        }
    }
}

#[test]
fn test11() {
    let prods = init();
    let input = "!a*(b+a)*b!";
    let derivation = prods.analyze(input);

    match derivation {
        Outcome::Derivation(derivation) => {
            let derivation: String = derivation
                .iter()
                .map(|rule| (rule + 1).to_string())
                .collect();
            assert_eq!(derivation, "67464238745521");
        }
        _ => {
            panic!("should belong to grammatic");
        }
    }
}

#[test]
fn same_outcome_on_every_invocation() {
    let prods = init();
    for input in ["!a+b!", "!a*b!", "!a+*b!", "a!b", "!(a+b)*(b+a)!"] {
        let first = prods.analyze(input);
        let second = prods.analyze(input);
        assert_eq!(first, second);
    }
}

#[test]
fn empty_input_is_not_in_language() {
    let prods = init();
    match prods.analyze("") {
        Outcome::NotInLanguage => (),
        _ => panic!("the empty input should be refused"),
    }
}

#[test]
fn undeclared_terminals_are_not_in_language() {
    let prods = init();
    match prods.analyze("!x!") {
        Outcome::NotInLanguage => (),
        _ => panic!("no rule can consume an undeclared terminal"),
    }
}

#[test]
fn zero_fuel_is_exhausted() {
    let prods = init();
    match prods.analyze_within("!a+b!", 0) {
        Outcome::Exhausted => (),
        _ => panic!("no verdict can be reached in zero steps"),
    }
}

#[test]
fn small_fuel_is_exhausted_before_a_verdict() {
    let prods = init();
    match prods.analyze_within("!a+b!", 3) {
        Outcome::Exhausted => (),
        _ => panic!("three steps only shift and reduce a little"),
    }
}

#[test]
fn enough_fuel_matches_the_unbounded_answer() {
    let prods = init();
    let bounded = prods.analyze_within("!a+b!", 1_000_000);
    let unbounded = prods.analyze("!a+b!");
    assert_eq!(bounded, unbounded);
    match bounded {
        Outcome::Derivation(derivation) => {
            assert_eq!(derivation, vec![5, 3, 6, 3, 1, 2, 0]);
        }
        _ => panic!("should belong to grammatic"),
    }
}

#[test]
fn left_recursive_arithmetic_sample() {
    let terms = ['a', 'b', '*', '+'];
    let nonterms = ['B', 'T', 'M'];
    let init = 'B';

    let mut prods = Prods::new(&terms, &nonterms, init);
    prods.add_rule('B', &['B', '+', 'T']).unwrap();
    prods.add_rule('B', &['T']).unwrap();
    prods.add_rule('T', &['T', '*', 'M']).unwrap();
    prods.add_rule('T', &['M']).unwrap();
    prods.add_rule('M', &['a']).unwrap();
    prods.add_rule('M', &['b']).unwrap();

    match prods.analyze("a*b") {
        Outcome::Derivation(derivation) => {
            let derivation: String = derivation
                .iter()
                .map(|rule| (rule + 1).to_string())
                .collect();
            assert_eq!(derivation, "54632");
        }
        _ => panic!("should belong to grammatic"),
    }
}
