use grammar_items::builder::{build_items, ItemSetAllocator};
use grammar_items::grammar::Grammar;
use grammar_items::rule::{AsRuleKey, Choice, Class, Combinator, Rule, Sequence, Term};

#[test]
fn empty_sequence_builds_empty() {
    let g = Grammar::new();
    let root = Rule::Sequence(Sequence::new("nothing", vec![]));
    let set = build_items(&root, &g, ItemSetAllocator::new()).unwrap();
    let item = set.get(set.root()).unwrap();
    assert_eq!(item.combinator, Combinator::Empty);
    assert_eq!(item.class, Class::Normal);
    assert_eq!(item.name, "nothing");
}

#[test]
fn empty_choice_builds_empty() {
    let g = Grammar::new();
    let root = Rule::Choice(Choice::new("nothing", vec![]));
    let set = build_items(&root, &g, ItemSetAllocator::new()).unwrap();
    let item = set.get(set.root()).unwrap();
    assert_eq!(item.combinator, Combinator::Empty);
    assert_eq!(item.class, Class::Normal);
}

#[test]
fn empty_passthrough_choice_keeps_its_class() {
    let g = Grammar::new();
    let root = Rule::Choice(Choice::new("nothing", vec![]).passthrough());
    let set = build_items(&root, &g, ItemSetAllocator::new()).unwrap();
    let item = set.get(set.root()).unwrap();
    assert_eq!(item.combinator, Combinator::Empty);
    assert_eq!(item.class, Class::Passthrough);
}

#[test]
fn terminal_builds_its_byte() {
    for byte in [0x00u8, b'2', 0x7f, 0x80, 0xff] {
        let g = Grammar::new();
        let root = Rule::Term(Term::new(byte));
        let set = build_items(&root, &g, ItemSetAllocator::new()).unwrap();
        let item = set.get(set.root()).unwrap();
        assert_eq!(item.combinator, Combinator::Term(byte));
        assert_eq!(item.class, Class::Normal);
    }
}

#[test]
fn terminal_name_is_its_character() {
    let g = Grammar::new();
    let root = Rule::Term(Term::new(b'2'));
    let set = build_items(&root, &g, ItemSetAllocator::new()).unwrap();
    assert_eq!(set.get(set.root()).unwrap().name, "2");

    let root = Rule::Term(Term::new(0xff));
    let set = build_items(&root, &g, ItemSetAllocator::new()).unwrap();
    assert_eq!(set.get(set.root()).unwrap().name, "\u{00ff}");
}

#[test]
fn singleton_sequence_still_has_a_tail() {
    let g = Grammar::new();
    let root = Rule::Sequence(Sequence::new("one", vec![Term::new(b'x').as_rule_key()]));
    let set = build_items(&root, &g, ItemSetAllocator::new()).unwrap();
    let item = set.get(set.root()).unwrap();
    match item.combinator {
        Combinator::Cons(head, rest) => {
            assert_eq!(set.get(head).unwrap().combinator, Combinator::Term(b'x'));
            let tail = set.get(rest).unwrap();
            assert_eq!(tail.combinator, Combinator::Empty);
            assert_eq!(tail.class, Class::Elide);
            assert_eq!(tail.name, "(elided)");
        }
        ref other => panic!("expected a chain, got {:?}", other),
    }
}

#[test]
fn elide_preserves_combinator_for_every_variant() {
    let bases: Vec<fn() -> Rule> = vec![
        || Rule::Term(Term::new(b'a')),
        || Rule::Sequence(Sequence::new("s", vec![Term::new(b'a').as_rule_key()])),
        || Rule::Choice(Choice::new("c", vec![Term::new(b'a').as_rule_key()])),
    ];
    for base in bases {
        let g = Grammar::new();
        let bare = build_items(&base(), &g, ItemSetAllocator::new()).unwrap();
        let wrapped_rule = Rule::Elide(Box::new(base()));
        let wrapped = build_items(&wrapped_rule, &g, ItemSetAllocator::new()).unwrap();

        let bare_item = bare.get(bare.root()).unwrap();
        let wrapped_item = wrapped.get(wrapped.root()).unwrap();
        assert_eq!(wrapped_item.combinator, bare_item.combinator);
        assert_eq!(wrapped_item.class, Class::Elide);
    }
}

#[test]
fn sequence_chains_all_elements_in_order() {
    let g = Grammar::new();
    let root = Rule::Sequence(Sequence::new(
        "abc",
        vec![
            Term::new(b'a').as_rule_key(),
            Term::new(b'b').as_rule_key(),
            Term::new(b'c').as_rule_key(),
        ],
    ));
    let set = build_items(&root, &g, ItemSetAllocator::new()).unwrap();
    let mut h = set.root();
    let mut seen = Vec::new();
    loop {
        let item = set.get(h).unwrap();
        match item.combinator {
            Combinator::Cons(head, rest) => {
                match set.get(head).unwrap().combinator {
                    Combinator::Term(v) => seen.push(v),
                    ref other => panic!("expected a terminal, got {:?}", other),
                }
                h = rest;
            }
            Combinator::Empty => break,
            ref other => panic!("expected a chain, got {:?}", other),
        }
    }
    assert_eq!(seen, vec![b'a', b'b', b'c']);
}

#[test]
fn choice_tail_nodes_are_elided_fillers() {
    let g = Grammar::new();
    let root = Rule::Choice(Choice::new(
        "ab",
        vec![Term::new(b'a').as_rule_key(), Term::new(b'b').as_rule_key()],
    ));
    let set = build_items(&root, &g, ItemSetAllocator::new()).unwrap();
    let root_item = set.get(set.root()).unwrap();
    assert_eq!(root_item.class, Class::Normal);
    match root_item.combinator {
        Combinator::Cons(_, rest) => {
            let tail = set.get(rest).unwrap();
            assert_eq!(tail.class, Class::Elide);
            assert_eq!(tail.name, "(elided)");
            match tail.combinator {
                Combinator::Cons(_, end) => {
                    let end_item = set.get(end).unwrap();
                    assert_eq!(end_item.combinator, Combinator::Empty);
                    assert_eq!(end_item.class, Class::Elide);
                }
                ref other => panic!("expected a chain, got {:?}", other),
            }
        }
        ref other => panic!("expected a chain, got {:?}", other),
    }
}
