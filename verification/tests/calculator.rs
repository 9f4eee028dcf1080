use grammar_items::arena::ForwardRef;
use grammar_items::builder::{build_items, ItemSet, ItemSetAllocator};
use grammar_items::grammar::Grammar;
use grammar_items::rule::{AsRuleKey, Choice, Class, Combinator, Rule, Sequence, Term};

fn mononomial_rule() -> Choice {
    let mononomial_complex = Sequence::new(
        "mononomial_complex",
        vec![
            Term::new(b'2').as_rule_key(),
            Term::new(b'*').as_rule_key(),
            "mononomial".as_rule_key(),
        ],
    );
    Choice::new(
        "mononomial",
        vec![Term::new(b'2').as_rule_key(), mononomial_complex.as_rule_key()],
    )
}

fn polynomial_rule() -> Choice {
    let polynomial_complex = Sequence::new(
        "polynomial_complex",
        vec![
            Term::new(b'2').as_rule_key(),
            Term::new(b'+').as_rule_key(),
            "polynomial".as_rule_key(),
        ],
    );
    Choice::new(
        "polynomial",
        vec![mononomial_rule().as_rule_key(), polynomial_complex.as_rule_key()],
    )
}

fn calculator() {
    let mut g = Grammar::new();
    g.put("mononomial", Rule::Choice(mononomial_rule()));
    g.put("polynomial", Rule::Choice(polynomial_rule()));

    let alloc = ItemSetAllocator::new();
    let root = Rule::Choice(polynomial_rule());

    build_items(&root, &g, alloc).unwrap();
}

#[test]
fn smoke_test() {
    calculator();
}

/// Follow a `Cons` chain, collecting the head handle of every link.
fn chain_elems(set: &ItemSet, mut h: ForwardRef) -> Vec<ForwardRef> {
    let mut out = Vec::new();
    loop {
        match set.get(h).unwrap().combinator {
            Combinator::Cons(head, rest) => {
                out.push(head);
                h = rest;
            }
            Combinator::Empty => return out,
            other => panic!("not a chain node: {:?}", other),
        }
    }
}

#[test]
fn recursive_grammar_builds_a_cycle() {
    let mut g = Grammar::new();
    g.put("mononomial", Rule::Choice(mononomial_rule()));
    g.put("polynomial", Rule::Choice(polynomial_rule()));

    let root_rule = Rule::Choice(polynomial_rule());
    let set = build_items(&root_rule, &g, ItemSetAllocator::new()).unwrap();

    // The root is the choice chain over polynomial's two alternatives.
    let root = set.get(set.root()).unwrap();
    assert_eq!(root.class, Class::Normal);
    let alts = chain_elems(&set, set.root());
    assert_eq!(alts.len(), 2);

    // The second alternative is the sequence "2" "+" polynomial; its last
    // element resolves the name "polynomial" to a fresh memoized node.
    let complex = chain_elems(&set, alts[1]);
    assert_eq!(complex.len(), 3);
    assert_eq!(set.get(complex[0]).unwrap().combinator, Combinator::Term(b'2'));
    assert_eq!(set.get(complex[1]).unwrap().combinator, Combinator::Term(b'+'));
    let poly = complex[2];

    // Inside that node the same name resolves to the same handle: the
    // cycle is represented, not unrolled.
    let inner_alts = chain_elems(&set, poly);
    assert_eq!(inner_alts.len(), 2);
    let inner_complex = chain_elems(&set, inner_alts[1]);
    assert_eq!(inner_complex.len(), 3);
    assert_eq!(inner_complex[2], poly);
}

#[test]
fn every_slot_of_a_finished_build_is_filled() {
    let mut g = Grammar::new();
    g.put("mononomial", Rule::Choice(mononomial_rule()));
    g.put("polynomial", Rule::Choice(polynomial_rule()));

    let root_rule = Rule::Choice(polynomial_rule());
    let set = build_items(&root_rule, &g, ItemSetAllocator::new()).unwrap();

    for index in 0..set.len() {
        assert!(set.get(ForwardRef { index }).is_some());
    }
}
