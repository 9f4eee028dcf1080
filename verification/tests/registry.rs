use grammar_items::arena::ForwardRef;
use grammar_items::builder::{build_items, BuildError, ItemSetAllocator};
use grammar_items::grammar::Grammar;
use grammar_items::rule::{AsRuleKey, Combinator, Rule, RuleKey, Sequence, Term};

#[test]
fn get_finds_what_put_registered() {
    let mut g = Grammar::new();
    assert!(g.get("digit").is_none());
    assert!(g.put("digit", Rule::Term(Term::new(b'7'))).is_none());
    match g.get("digit") {
        Some(Rule::Term(t)) => assert_eq!(t.val, b'7'),
        _ => panic!("expected the registered terminal"),
    }
    assert!(g.get("letter").is_none());
}

#[test]
fn put_replaces_and_returns_the_previous_rule() {
    let mut g = Grammar::new();
    g.put("digit", Rule::Term(Term::new(b'7')));
    match g.put("digit", Rule::Term(Term::new(b'8'))) {
        Some(Rule::Term(t)) => assert_eq!(t.val, b'7'),
        _ => panic!("expected the replaced terminal"),
    }
    match g.get("digit") {
        Some(Rule::Term(t)) => assert_eq!(t.val, b'8'),
        _ => panic!("expected the new terminal"),
    }
}

#[test]
fn missing_name_fails_with_unknown_rule_name() {
    let g = Grammar::new();
    let root = Rule::Sequence(Sequence::new("broken", vec!["undefined".as_rule_key()]));
    match build_items(&root, &g, ItemSetAllocator::new()) {
        Err(BuildError::UnknownRuleName(name)) => assert_eq!(name, "undefined"),
        Ok(_) => panic!("the build must fail"),
    }
}

#[test]
fn named_rule_is_resolved_once_and_shared() {
    let mut g = Grammar::new();
    g.put("x", Rule::Term(Term::new(b'2')));
    let root = Rule::Sequence(Sequence::new(
        "xx",
        vec!["x".as_rule_key(), "x".as_rule_key()],
    ));
    let set = build_items(&root, &g, ItemSetAllocator::new()).unwrap();

    let (first, rest) = match set.get(set.root()).unwrap().combinator {
        Combinator::Cons(a, b) => (a, b),
        ref other => panic!("expected a chain, got {:?}", other),
    };
    let (second, _) = match set.get(rest).unwrap().combinator {
        Combinator::Cons(a, b) => (a, b),
        ref other => panic!("expected a chain, got {:?}", other),
    };
    // Both references resolve to the same handle,
    assert_eq!(first, second);
    assert_eq!(set.get(first).unwrap().combinator, Combinator::Term(b'2'));
    // and the rule was expanded once: the root, two chain links, and one
    // shared terminal node.
    assert_eq!(set.len(), 4);
}

#[test]
fn building_twice_yields_equal_graphs() {
    let build_once = || {
        let mut g = Grammar::new();
        g.put("x", Rule::Term(Term::new(b'9')));
        let root = Rule::Sequence(Sequence::new(
            "pair",
            vec!["x".as_rule_key(), Term::new(b'y').as_rule_key()],
        ));
        build_items(&root, &g, ItemSetAllocator::new()).unwrap()
    };
    let a = build_once();
    let b = build_once();

    assert_eq!(a.root(), b.root());
    assert_eq!(a.len(), b.len());
    for index in 0..a.len() {
        let h = ForwardRef { index };
        assert_eq!(a.get(h), b.get(h));
    }
}

#[test]
fn the_last_rule_put_under_a_name_wins() {
    let mut g = Grammar::new();
    g.put("x", Rule::Term(Term::new(b'a')));
    g.put("x", Rule::Term(Term::new(b'b')));
    let root = Rule::Sequence(Sequence::new("one", vec!["x".as_rule_key()]));
    let set = build_items(&root, &g, ItemSetAllocator::new()).unwrap();
    match set.get(set.root()).unwrap().combinator {
        Combinator::Cons(head, _) => {
            assert_eq!(set.get(head).unwrap().combinator, Combinator::Term(b'b'));
        }
        ref other => panic!("expected a chain, got {:?}", other),
    }
}

#[test]
fn rule_values_and_names_convert_to_keys() {
    match Term::new(b'z').as_rule_key() {
        RuleKey::Ref(rule) => match *rule {
            Rule::Term(t) => assert_eq!(t.val, b'z'),
            _ => panic!("expected a terminal rule"),
        },
        RuleKey::Lookup(_) => panic!("a rule value converts to a direct key"),
    }
    match "digit".as_rule_key() {
        RuleKey::Lookup(name) => assert_eq!(name, "digit"),
        RuleKey::Ref(_) => panic!("a name converts to a lookup key"),
    }
    match String::from("digit").as_rule_key() {
        RuleKey::Lookup(name) => assert_eq!(name, "digit"),
        RuleKey::Ref(_) => panic!("a name converts to a lookup key"),
    }
}
