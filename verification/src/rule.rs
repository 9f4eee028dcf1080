//! Rules of a context-free grammar and the items they compile into.
//!
//! A `Rule` describes one production with sequence, choice and terminal
//! combinators; a `RuleKey` addresses a rule either directly by value or by
//! name through a `Grammar`.  Building (see `build`) turns a root rule into
//! `Item` nodes, whose shape is a `Combinator` over arena handles and whose
//! `Class` tells a consumer how to treat the node when walking the graph.

use vstd::prelude::*;

use crate::arena::ForwardRef;

verus! {

use vstd::string::StringExecFns;

/// A handle to an item of the graph under construction or already built.
pub type ItemRef = ForwardRef;

/// How a consumer should treat an item when interpreting the graph: a named,
/// visible node; a node that forwards its child's classification; or a
/// structural filler inserted by the list expansion.
#[derive(Clone, Copy, PartialEq, Eq, Structural, Debug, Hash)]
pub enum Class {
    Normal,
    Passthrough,
    Elide,
}

/// The structural shape of an item.  `Cons` is the binary chain node the
/// sequence and choice expansions produce: a head and the rest of the chain.
/// It and `Choice` hold handles into the arena the item lives in; `Done` is
/// an end marker reserved for a downstream recognizer and is never produced
/// by the builder.
#[derive(Clone, Copy, PartialEq, Eq, Structural, Debug)]
pub enum Combinator {
    Cons(ItemRef, ItemRef),
    Choice(ItemRef, ItemRef),
    Term(u8),
    Done,
    Empty,
}

/// One node of the built graph: a shape, a classification, and a display
/// name (meaningful for `Normal` nodes).
#[derive(PartialEq, Eq, Debug)]
pub struct Item {
    pub combinator: Combinator,
    pub class: Class,
    pub name: String,
}

impl Clone for Item {
    fn clone(&self) -> (r: Self)
        ensures
            r@ == self@,
    {
        Item { combinator: self.combinator, class: self.class, name: self.name.clone() }
    }
}

/// The mathematical value of a `Combinator`: the same shape with handles as
/// plain numbers.
pub enum CombV {
    Cons(nat, nat),
    Choice(nat, nat),
    Term(u8),
    Done,
    Empty,
}

/// The mathematical value of an `Item`.
#[verifier::ext_equal]
pub struct ItemV {
    pub combinator: CombV,
    pub class: Class,
    pub name: Seq<char>,
}

impl View for Combinator {
    type V = CombV;

    open spec fn view(&self) -> CombV {
        match *self {
            Combinator::Cons(a, b) => CombV::Cons(a.index as nat, b.index as nat),
            Combinator::Choice(a, b) => CombV::Choice(a.index as nat, b.index as nat),
            Combinator::Term(v) => CombV::Term(v),
            Combinator::Done => CombV::Done,
            Combinator::Empty => CombV::Empty,
        }
    }
}

impl View for Item {
    type V = ItemV;

    open spec fn view(&self) -> ItemV {
        ItemV { combinator: self.combinator@, class: self.class, name: self.name@ }
    }
}

/// A terminal rule: matches exactly one byte.
#[derive(Clone, Copy)]
pub struct Term {
    pub val: u8,
}

impl Term {
    pub fn new(val: u8) -> (t: Self)
        ensures
            t.val == val,
    {
        Term { val }
    }
}

/// A sequence rule: its elements in order.  The builder right-folds the list
/// into a chain of `Seq` items whose non-head nodes are classed `Elide`.
pub struct Sequence {
    pub name: String,
    pub rules: Vec<RuleKey>,
}

impl Sequence {
    pub fn new(name: &str, rules: Vec<RuleKey>) -> (s: Self)
        ensures
            s.name@ == name@,
            s.rules == rules,
    {
        Sequence { name: String::from_str(name), rules }
    }
}

/// A choice rule: its alternatives.  It expands to the same chain shape as a
/// sequence; the `passthrough` flag only changes the top item's class.
pub struct Choice {
    pub name: String,
    pub rules: Vec<RuleKey>,
    pub passthrough: bool,
}

impl Choice {
    pub fn new(name: &str, rules: Vec<RuleKey>) -> (c: Self)
        ensures
            c.name@ == name@,
            c.rules == rules,
            !c.passthrough,
    {
        Choice { name: String::from_str(name), rules, passthrough: false }
    }

    /// The same alternatives with the top item classed `Passthrough`.
    pub fn passthrough(self) -> (c: Self)
        ensures
            c.name == self.name,
            c.rules == self.rules,
            c.passthrough,
    {
        Choice { name: self.name, rules: self.rules, passthrough: true }
    }
}

/// One grammar production.  `Elide` decorates a rule, keeping its shape but
/// forcing its item's class to `Elide`.
pub enum Rule {
    Sequence(Sequence),
    Choice(Choice),
    Term(Term),
    Elide(Box<Rule>),
}

/// How a rule is addressed from inside another rule: directly by value, or
/// by a name looked up in the grammar while the graph is built.  Names are
/// the one way to refer to a rule before it exists, so they are what makes
/// recursive and forward references expressible.
pub enum RuleKey {
    Ref(Box<Rule>),
    Lookup(String),
}

/// Conversion into a `RuleKey`, so rule lists can be written uniformly over
/// rule values and rule names.
pub trait AsRuleKey: Sized {
    /// Which keys the conversion may yield.
    spec fn is_rule_key(self, k: RuleKey) -> bool;

    fn as_rule_key(self) -> (k: RuleKey)
        ensures
            self.is_rule_key(k),
    ;
}

impl AsRuleKey for Term {
    open spec fn is_rule_key(self, k: RuleKey) -> bool {
        k matches RuleKey::Ref(r) && *r == Rule::Term(self)
    }

    fn as_rule_key(self) -> (k: RuleKey)
        ensures
            self.is_rule_key(k),
    {
        RuleKey::Ref(Box::new(Rule::Term(self)))
    }
}

impl AsRuleKey for Sequence {
    open spec fn is_rule_key(self, k: RuleKey) -> bool {
        k matches RuleKey::Ref(r) && *r == Rule::Sequence(self)
    }

    fn as_rule_key(self) -> (k: RuleKey)
        ensures
            self.is_rule_key(k),
    {
        RuleKey::Ref(Box::new(Rule::Sequence(self)))
    }
}

impl AsRuleKey for Choice {
    open spec fn is_rule_key(self, k: RuleKey) -> bool {
        k matches RuleKey::Ref(r) && *r == Rule::Choice(self)
    }

    fn as_rule_key(self) -> (k: RuleKey)
        ensures
            self.is_rule_key(k),
    {
        RuleKey::Ref(Box::new(Rule::Choice(self)))
    }
}

impl AsRuleKey for String {
    open spec fn is_rule_key(self, k: RuleKey) -> bool {
        k matches RuleKey::Lookup(s) && s@ == self@
    }

    fn as_rule_key(self) -> (k: RuleKey)
        ensures
            self.is_rule_key(k),
    {
        RuleKey::Lookup(self)
    }
}

impl AsRuleKey for &str {
    open spec fn is_rule_key(self, k: RuleKey) -> bool {
        k matches RuleKey::Lookup(s) && s@ == self@
    }

    fn as_rule_key(self) -> (k: RuleKey)
        ensures
            self.is_rule_key(k),
    {
        RuleKey::Lookup(String::from_str(self))
    }
}

} // verus!
