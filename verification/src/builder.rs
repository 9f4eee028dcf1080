//! The executable graph builder.
//!
//! `build_items` turns a root rule and a grammar into an `ItemSet`: an arena
//! of resolved items plus the root handle.  Each function here mirrors one
//! spec function of `crate::model`, and its contract says it computes
//! exactly what the model defines, so the whole build is a function of the
//! root rule and the grammar alone.

use vstd::prelude::*;

use crate::arena::{ForwardArena, ForwardRef};
use crate::grammar::Grammar;
use crate::model::{
    build_fuel, build_items_m, build_rule_m, chain_m, elided_name, extends, init_state, key_size,
    keys_size,
    lemma_build_rule_m_frame, lemma_chain_m_frame, lemma_key_size_pos, lemma_resolve_key_m_frame,
    lemma_unresolved_insert, lemma_unresolved_mono, resolve_key_m, rule_size, unresolved,
    BuildState,
};
use crate::rule::{Class, CombV, Combinator, Item, ItemV, Rule, RuleKey};

verus! {

use vstd::string::StringExecFns;

/// Why a build failed: a named reference had no entry in the grammar at the
/// point it was resolved.
#[derive(Debug, PartialEq, Eq)]
pub enum BuildError {
    UnknownRuleName(String),
}

/// Relies on `char::to_string` of std: the returned string holds exactly
/// the one character it was called on.
#[verifier::external_body]
fn char_to_string(c: char) -> (r: String)
    ensures
        r@ == seq![c],
{
    c.to_string()
}

/// The items of an arena as mathematics.
pub open spec fn slots_view(s: Seq<Option<Item>>) -> Seq<Option<ItemV>> {
    Seq::new(
        s.len(),
        |i: int|
            match s[i] {
                Some(item) => Some(item@),
                None => None,
            },
    )
}

/// Whether some memo entry carries the name `n`.
pub open spec fn memo_has(l: Seq<(String, ForwardRef)>, n: Seq<char>) -> bool {
    exists|i: int| 0 <= i < l.len() && l[i].0@ == n
}

/// The position of a memo entry carrying the name `n`.
pub open spec fn memo_idx(l: Seq<(String, ForwardRef)>, n: Seq<char>) -> int {
    choose|i: int| 0 <= i < l.len() && l[i].0@ == n
}

/// Each name occurs in at most one memo entry.
pub open spec fn memo_unique(l: Seq<(String, ForwardRef)>) -> bool {
    forall|i: int, j: int| 0 <= i < j < l.len() ==> l[i].0@ != l[j].0@
}

/// The memo table as a map from names to handles.
pub open spec fn memo_map(l: Seq<(String, ForwardRef)>) -> Map<Seq<char>, nat> {
    Map::new(|n: Seq<char>| memo_has(l, n), |n: Seq<char>| l[memo_idx(l, n)].1.index as nat)
}

/// A memoized name's `memo_idx` position is in range and matches.
proof fn lemma_memo_at(l: Seq<(String, ForwardRef)>, n: Seq<char>)
    requires
        memo_has(l, n),
    ensures
        0 <= memo_idx(l, n) < l.len(),
        l[memo_idx(l, n)].0@ == n,
{
    let w = choose|i: int| 0 <= i < l.len() && l[i].0@ == n;
    assert(0 <= w < l.len() && l[w].0@ == n);
}

/// With unique names, `memo_idx` is determined by any matching position.
proof fn lemma_memo_idx_det(l: Seq<(String, ForwardRef)>, n: Seq<char>, i: int)
    requires
        memo_unique(l),
        0 <= i < l.len(),
        l[i].0@ == n,
    ensures
        memo_has(l, n),
        memo_idx(l, n) == i,
{
    assert(memo_has(l, n));
    lemma_memo_at(l, n);
    let w = memo_idx(l, n);
    if w != i {
        if w < i {
            assert(l[w].0@ != l[i].0@);
        } else {
            assert(l[i].0@ != l[w].0@);
        }
    }
}

/// Appending an entry under a fresh name inserts it into the memo map.
proof fn lemma_memo_map_push(l: Seq<(String, ForwardRef)>, name: String, fr: ForwardRef)
    requires
        memo_unique(l),
        !memo_has(l, name@),
    ensures
        memo_unique(l.push((name, fr))),
        memo_map(l.push((name, fr))) == memo_map(l).insert(name@, fr.index as nat),
{
    let l1 = l.push((name, fr));
    let last = l1.len() - 1;
    assert(forall|j: int| 0 <= j < l.len() ==> l1[j] == l[j]);
    assert(l1[last] == (name, fr));
    assert forall|a: int, b: int| 0 <= a < b < l1.len() implies l1[a].0@ != l1[b].0@ by {
        if b == last {
            assert(l1[a] == l[a]);
        }
    }
    assert forall|m: Seq<char>|
        memo_map(l).insert(name@, fr.index as nat).dom().contains(m) == memo_map(
            l1,
        ).dom().contains(m) by {
        if memo_has(l, m) {
            lemma_memo_at(l, m);
            let w = memo_idx(l, m);
            assert(l1[w].0@ == m);
        }
        if memo_has(l1, m) {
            lemma_memo_at(l1, m);
            let w = memo_idx(l1, m);
            if w < last {
                assert(l[w].0@ == m);
            }
        }
    }
    assert forall|m: Seq<char>| memo_map(l1).dom().contains(m) implies memo_map(l1)[m]
        == memo_map(l).insert(name@, fr.index as nat)[m] by {
        lemma_memo_at(l1, m);
        let w = memo_idx(l1, m);
        lemma_memo_idx_det(l1, m, w);
        if m == name@ {
            lemma_memo_idx_det(l1, name@, last);
        } else {
            assert(w != last);
            lemma_memo_idx_det(l, m, w);
        }
    }
    assert(memo_map(l1) =~= memo_map(l).insert(name@, fr.index as nat));
}

/// Reserving a slot appends a pending entry to the state's items.
proof fn lemma_slots_view_push(s: Seq<Option<Item>>)
    ensures
        slots_view(s.push(None)) == slots_view(s).push(None),
{
    assert(slots_view(s.push(None)) =~= slots_view(s).push(None));
}

/// Filling a slot updates the state's items in place.
proof fn lemma_slots_view_update(s: Seq<Option<Item>>, i: int, item: Item)
    requires
        0 <= i < s.len(),
    ensures
        slots_view(s.update(i, Some(item))) == slots_view(s).update(i, Some(item@)),
{
    assert(slots_view(s.update(i, Some(item))) =~= slots_view(s).update(i, Some(item@)));
}

/// The builder of one graph: the arena being filled, the memo table from
/// resolved names to their reserved handles, and the grammar consulted for
/// named references.
pub struct GrammarBuilder<'a> {
    arena: ForwardArena<Item>,
    lookup: Vec<(String, ForwardRef)>,
    grammar: &'a Grammar,
}

impl<'a> GrammarBuilder<'a> {
    /// The builder's state as the model sees it.
    pub closed spec fn st(&self) -> BuildState {
        BuildState { items: slots_view(self.arena@), memo: memo_map(self.lookup@) }
    }

    /// The grammar is well formed, memo names are unique, and every memo
    /// handle points into the arena.
    pub closed spec fn wf(&self) -> bool {
        &&& self.grammar.wf()
        &&& memo_unique(self.lookup@)
        &&& forall|i: int|
            0 <= i < self.lookup@.len() ==> (#[trigger] self.lookup@[i]).1.index
                < self.arena@.len()
    }

    /// The memoized handle for a name, if the name has been resolved
    /// before.
    fn memo_get(&self, name: &String) -> (r: Option<ForwardRef>)
        requires
            self.wf(),
        ensures
            match r {
                Some(fr) => self.st().memo.contains_key(name@) && fr.index as nat == self.st().memo[name@],
                None => !self.st().memo.contains_key(name@),
            },
    {
        let n = self.lookup.len();
        let mut i: usize = 0;
        while i < n
            invariant
                self.wf(),
                n == self.lookup@.len(),
                0 <= i <= n,
                forall|j: int| 0 <= j < i ==> self.lookup@[j].0@ != name@,
            decreases n - i,
        {
            if self.lookup[i].0 == *name {
                proof {
                    lemma_memo_idx_det(self.lookup@, name@, i as int);
                }
                return Some(self.lookup[i].1);
            }
            i = i + 1;
        }
        None
    }

    /// Memoize a freshly reserved handle under a name.
    fn memo_insert(&mut self, name: String, fr: ForwardRef)
        requires
            old(self).wf(),
            !old(self).st().memo.contains_key(name@),
            fr.index < old(self).arena@.len(),
        ensures
            final(self).wf(),
            final(self).grammar == old(self).grammar,
            final(self).arena == old(self).arena,
            final(self).st() == (BuildState {
                items: old(self).st().items,
                memo: old(self).st().memo.insert(name@, fr.index as nat),
            }),
    {
        proof {
            lemma_memo_map_push(self.lookup@, name, fr);
        }
        self.lookup.push((name, fr));
    }
}



/// Resolve one key to a handle, computing exactly what `resolve_key_m`
/// defines on the builder's state.
fn resolve_key<'a>(b: &mut GrammarBuilder<'a>, k: &RuleKey, Ghost(fuel): Ghost<nat>) -> (res:
    Result<ForwardRef, BuildError>)
    requires
        old(b).wf(),
        old(b).grammar@.dom().finite(),
        fuel > unresolved(old(b).grammar@, old(b).st()),
    ensures
        final(b).wf(),
        final(b).grammar == old(b).grammar,
        match res {
            Ok(fr) => resolve_key_m(old(b).grammar@, old(b).st(), *k, fuel) == Some(
                Ok::<_, Seq<char>>((final(b).st(), fr.index as nat)),
            ),
            Err(e) => match (resolve_key_m(old(b).grammar@, old(b).st(), *k, fuel), e) {
                (Some(Err(nm)), BuildError::UnknownRuleName(s)) => s@ == nm,
                _ => false,
            },
        },
    decreases fuel, key_size(*k),
{
    let ghost g = old(b).grammar@;
    let ghost st0 = old(b).st();
    match k {
        RuleKey::Ref(rule) => {
            let cell = b.arena.forward();
            let fr = cell.borrow();
            let ghost st1 = BuildState { items: st0.items.push(None), memo: st0.memo };
            proof {
                lemma_slots_view_push(old(b).arena@);
                assert(b.st() == st1);
                assert(b.wf());
            }
            match build_rule(b, &**rule, Ghost(fuel)) {
                Ok(item) => {
                    let ghost st2 = b.st();
                    let ghost pre = b.arena@;
                    proof {
                        lemma_build_rule_m_frame(g, st1, **rule, fuel);
                        assert(extends(st1, st2));
                        assert(st2.items[fr.index as int] == st1.items[fr.index as int]);
                        assert(slots_view(pre)[fr.index as int] is None);
                        assert(pre[fr.index as int] is None);
                    }
                    let fr2 = cell.set(&mut b.arena, item);
                    proof {
                        lemma_slots_view_update(pre, fr.index as int, item);
                        assert(b.st() == (BuildState {
                            items: st2.items.update(fr.index as int, Some(item@)),
                            memo: st2.memo,
                        }));
                        assert(resolve_key_m(g, st0, *k, fuel) == Some(
                            Ok::<_, Seq<char>>((b.st(), fr.index as nat)),
                        ));
                    }
                    Ok(fr2)
                },
                Err(e) => Err(e),
            }
        },
        RuleKey::Lookup(name) => {
            match b.memo_get(name) {
                Some(fr) => {
                    proof {
                        assert(resolve_key_m(g, st0, *k, fuel) == Some(
                            Ok::<_, Seq<char>>((st0, st0.memo[name@])),
                        ));
                    }
                    Ok(fr)
                },
                None => {
                    let gr = b.grammar;
                    match gr.get(name.as_str()) {
                        None => Err(BuildError::UnknownRuleName(name.clone())),
                        Some(rule) => {
                            let cell = b.arena.forward();
                            let fr = cell.borrow();
                            proof {
                                lemma_slots_view_push(old(b).arena@);
                                assert(b.wf());
                            }
                            b.memo_insert(name.clone(), fr);
                            let ghost st1 = BuildState {
                                items: st0.items.push(None),
                                memo: st0.memo.insert(name@, st0.items.len()),
                            };
                            proof {
                                assert(fr.index as nat == st0.items.len());
                                assert(b.st() == st1);
                                lemma_unresolved_insert(g, st0, st1, name@, st0.items.len());
                            }
                            match build_rule(b, rule, Ghost((fuel - 1) as nat)) {
                                Ok(item) => {
                                    let ghost st2 = b.st();
                                    let ghost pre = b.arena@;
                                    proof {
                                        lemma_build_rule_m_frame(g, st1, g[name@], (fuel - 1) as nat);
                                        assert(extends(st1, st2));
                                        assert(st2.items[fr.index as int] == st1.items[fr.index as int]);
                                        assert(slots_view(pre)[fr.index as int] is None);
                                        assert(pre[fr.index as int] is None);
                                    }
                                    let fr2 = cell.set(&mut b.arena, item);
                                    proof {
                                        lemma_slots_view_update(pre, fr.index as int, item);
                                        assert(b.st() == (BuildState {
                                            items: st2.items.update(fr.index as int, Some(item@)),
                                            memo: st2.memo,
                                        }));
                                        assert(resolve_key_m(g, st0, *k, fuel) == Some(
                                            Ok::<_, Seq<char>>((b.st(), fr.index as nat)),
                                        ));
                                    }
                                    Ok(fr2)
                                },
                                Err(e) => Err(e),
                            }
                        },
                    }
                },
            }
        },
    }
}

/// Build the item of one rule, computing exactly what `build_rule_m`
/// defines on the builder's state.
fn build_rule<'a>(b: &mut GrammarBuilder<'a>, r: &Rule, Ghost(fuel): Ghost<nat>) -> (res: Result<
    Item,
    BuildError,
>)
    requires
        old(b).wf(),
        old(b).grammar@.dom().finite(),
        fuel > unresolved(old(b).grammar@, old(b).st()),
    ensures
        final(b).wf(),
        final(b).grammar == old(b).grammar,
        match res {
            Ok(item) => build_rule_m(old(b).grammar@, old(b).st(), *r, fuel) == Some(
                Ok::<_, Seq<char>>((final(b).st(), item@)),
            ),
            Err(e) => match (build_rule_m(old(b).grammar@, old(b).st(), *r, fuel), e) {
                (Some(Err(nm)), BuildError::UnknownRuleName(s)) => s@ == nm,
                _ => false,
            },
        },
    decreases fuel, rule_size(*r),
{
    let ghost g = old(b).grammar@;
    let ghost st0 = old(b).st();
    match r {
        Rule::Term(t) => {
            let name = char_to_string(t.val as char);
            let item = Item { combinator: Combinator::Term(t.val), class: Class::Normal, name };
            proof {
                assert(item@ =~= (ItemV {
                    combinator: CombV::Term(t.val),
                    class: Class::Normal,
                    name: seq![t.val as char],
                }));
            }
            Ok(item)
        },
        Rule::Elide(inner) => {
            match build_rule(b, &**inner, Ghost(fuel)) {
                Ok(item) => {
                    let out = Item {
                        combinator: item.combinator,
                        class: Class::Elide,
                        name: String::from_str("(elided)"),
                    };
                    proof {
                        assert(out@ =~= (ItemV {
                            combinator: item@.combinator,
                            class: Class::Elide,
                            name: elided_name(),
                        }));
                    }
                    Ok(out)
                },
                Err(e) => Err(e),
            }
        },
        Rule::Sequence(s) => {
            if s.rules.len() == 0 {
                let item = Item {
                    combinator: Combinator::Empty,
                    class: Class::Normal,
                    name: s.name.clone(),
                };
                proof {
                    assert(item@ =~= (ItemV {
                        combinator: CombV::Empty,
                        class: Class::Normal,
                        name: s.name@,
                    }));
                }
                Ok(item)
            } else {
                proof {
                    lemma_key_size_pos(s.rules@[0]);
                    assert(keys_size(s.rules@) == key_size(s.rules@[0]) + keys_size(
                        s.rules@.subrange(1, s.rules@.len() as int),
                    ));
                }
                let h0 = match resolve_key(b, &s.rules[0], Ghost(fuel)) {
                    Ok(h) => h,
                    Err(e) => {
                        return Err(e);
                    },
                };
                let ghost st1 = b.st();
                proof {
                    lemma_resolve_key_m_frame(g, st0, s.rules@[0], fuel);
                    lemma_unresolved_mono(g, st0, st1);
                }
                let h1 = match build_chain(b, &s.rules, 1, Ghost(fuel)) {
                    Ok(h) => h,
                    Err(e) => {
                        return Err(e);
                    },
                };
                let item = Item {
                    combinator: Combinator::Cons(h0, h1),
                    class: Class::Normal,
                    name: s.name.clone(),
                };
                proof {
                    assert(item@ =~= (ItemV {
                        combinator: CombV::Cons(h0.index as nat, h1.index as nat),
                        class: Class::Normal,
                        name: s.name@,
                    }));
                }
                Ok(item)
            }
        },
        Rule::Choice(c) => {
            let class = if c.passthrough {
                Class::Passthrough
            } else {
                Class::Normal
            };
            if c.rules.len() == 0 {
                let item = Item {
                    combinator: Combinator::Empty,
                    class: class,
                    name: c.name.clone(),
                };
                proof {
                    assert(item@ =~= (ItemV {
                        combinator: CombV::Empty,
                        class: class,
                        name: c.name@,
                    }));
                }
                Ok(item)
            } else {
                proof {
                    lemma_key_size_pos(c.rules@[0]);
                    assert(keys_size(c.rules@) == key_size(c.rules@[0]) + keys_size(
                        c.rules@.subrange(1, c.rules@.len() as int),
                    ));
                }
                let h0 = match resolve_key(b, &c.rules[0], Ghost(fuel)) {
                    Ok(h) => h,
                    Err(e) => {
                        return Err(e);
                    },
                };
                let ghost st1 = b.st();
                proof {
                    lemma_resolve_key_m_frame(g, st0, c.rules@[0], fuel);
                    lemma_unresolved_mono(g, st0, st1);
                }
                let h1 = match build_chain(b, &c.rules, 1, Ghost(fuel)) {
                    Ok(h) => h,
                    Err(e) => {
                        return Err(e);
                    },
                };
                let item = Item {
                    combinator: Combinator::Cons(h0, h1),
                    class: class,
                    name: c.name.clone(),
                };
                proof {
                    assert(item@ =~= (ItemV {
                        combinator: CombV::Cons(h0.index as nat, h1.index as nat),
                        class: class,
                        name: c.name@,
                    }));
                }
                Ok(item)
            }
        },
    }
}

/// Build the elided tail chain over `keys[from..]`, computing exactly what
/// `chain_m` defines on the builder's state.
fn build_chain<'a>(
    b: &mut GrammarBuilder<'a>,
    keys: &Vec<RuleKey>,
    from: usize,
    Ghost(fuel): Ghost<nat>,
) -> (res: Result<ForwardRef, BuildError>)
    requires
        old(b).wf(),
        old(b).grammar@.dom().finite(),
        fuel > unresolved(old(b).grammar@, old(b).st()),
        from <= keys@.len(),
    ensures
        final(b).wf(),
        final(b).grammar == old(b).grammar,
        match res {
            Ok(fr) => chain_m(
                old(b).grammar@,
                old(b).st(),
                keys@.subrange(from as int, keys@.len() as int),
                fuel,
            ) == Some(Ok::<_, Seq<char>>((final(b).st(), fr.index as nat))),
            Err(e) => match (
                chain_m(
                    old(b).grammar@,
                    old(b).st(),
                    keys@.subrange(from as int, keys@.len() as int),
                    fuel,
                ),
                e,
            ) {
                (Some(Err(nm)), BuildError::UnknownRuleName(s)) => s@ == nm,
                _ => false,
            },
        },
    decreases fuel, keys_size(keys@.subrange(from as int, keys@.len() as int)) + 1,
{
    let ghost g = old(b).grammar@;
    let ghost st0 = old(b).st();
    let ghost ks = keys@.subrange(from as int, keys@.len() as int);
    let cell = b.arena.forward();
    let fr = cell.borrow();
    let ghost st1 = BuildState { items: st0.items.push(None), memo: st0.memo };
    proof {
        lemma_slots_view_push(old(b).arena@);
        assert(b.st() == st1);
        assert(b.wf());
    }
    if from >= keys.len() {
        let item = Item {
            combinator: Combinator::Empty,
            class: Class::Elide,
            name: String::from_str("(elided)"),
        };
        let ghost pre = b.arena@;
        proof {
            assert(pre[fr.index as int] is None);
        }
        let fr2 = cell.set(&mut b.arena, item);
        proof {
            lemma_slots_view_update(pre, fr.index as int, item);
            assert(item@ =~= (ItemV {
                combinator: CombV::Empty,
                class: Class::Elide,
                name: elided_name(),
            }));
            assert(b.st() == (BuildState {
                items: st1.items.update(fr.index as int, Some(item@)),
                memo: st1.memo,
            }));
            assert(chain_m(g, st0, ks, fuel) == Some(Ok::<_, Seq<char>>((b.st(), fr.index as nat))));
        }
        Ok(fr2)
    } else {
        proof {
            lemma_key_size_pos(ks[0]);
            assert(ks.subrange(1, ks.len() as int) =~= keys@.subrange(
                from as int + 1,
                keys@.len() as int,
            ));
            assert(keys_size(ks) == key_size(ks[0]) + keys_size(ks.subrange(1, ks.len() as int)));
            assert(ks[0] == keys@[from as int]);
        }
        let h0 = match resolve_key(b, &keys[from], Ghost(fuel)) {
            Ok(h) => h,
            Err(e) => {
                return Err(e);
            },
        };
        let ghost st2 = b.st();
        proof {
            lemma_resolve_key_m_frame(g, st1, ks[0], fuel);
            lemma_unresolved_mono(g, st1, st2);
        }
        let h1 = match build_chain(b, keys, from + 1, Ghost(fuel)) {
            Ok(h) => h,
            Err(e) => {
                return Err(e);
            },
        };
        let ghost st3 = b.st();
        let ghost pre = b.arena@;
        let item = Item {
            combinator: Combinator::Cons(h0, h1),
            class: Class::Elide,
            name: String::from_str("(elided)"),
        };
        proof {
            lemma_chain_m_frame(g, st2, ks.subrange(1, ks.len() as int), fuel);
            assert(extends(st1, st2));
            assert(extends(st2, st3));
            assert(st3.items[fr.index as int] == st2.items[fr.index as int]);
            assert(st2.items[fr.index as int] == st1.items[fr.index as int]);
            assert(slots_view(pre)[fr.index as int] is None);
            assert(pre[fr.index as int] is None);
        }
        let fr2 = cell.set(&mut b.arena, item);
        proof {
            lemma_slots_view_update(pre, fr.index as int, item);
            assert(item@ =~= (ItemV {
                combinator: CombV::Cons(h0.index as nat, h1.index as nat),
                class: Class::Elide,
                name: elided_name(),
            }));
            assert(b.st() == (BuildState {
                items: st3.items.update(fr.index as int, Some(item@)),
                memo: st3.memo,
            }));
            assert(chain_m(g, st0, ks, fuel) == Some(Ok::<_, Seq<char>>((b.st(), fr.index as nat))));
        }
        Ok(fr2)
    }
}



/// The allocator handed to one build: an empty arena that will own every
/// item the build creates.
pub struct ItemSetAllocator {
    arena: ForwardArena<Item>,
}

impl ItemSetAllocator {
    /// The arena has not been used yet.
    pub closed spec fn is_fresh(&self) -> bool {
        self.arena@.len() == 0
    }

    pub fn new() -> (a: Self)
        ensures
            a.is_fresh(),
    {
        ItemSetAllocator { arena: ForwardArena::new() }
    }
}

/// The finished graph: every item of one build, and the root handle, which
/// is all a caller needs to walk it.
pub struct ItemSet {
    arena: ForwardArena<Item>,
    root: ForwardRef,
}

impl ItemSet {
    /// The graph's items, by handle.
    pub closed spec fn items(&self) -> Seq<Option<ItemV>> {
        slots_view(self.arena@)
    }

    /// The handle of the root item.
    pub closed spec fn root_handle(&self) -> nat {
        self.root.index as nat
    }

    /// The root item's handle.
    pub fn root(&self) -> (r: ForwardRef)
        ensures
            r.index as nat == self.root_handle(),
    {
        self.root
    }

    /// Read an item by handle: `Some` exactly when the handle is in range
    /// and the slot is filled -- which, in a built graph, always holds.
    pub fn get(&self, r: ForwardRef) -> (res: Option<&Item>)
        ensures
            match res {
                Some(item) => r.index < self.items().len() && self.items()[r.index as int]
                    == Some(item@),
                None => r.index >= self.items().len() || self.items()[r.index as int] is None,
            },
    {
        let res = r.get(&self.arena);
        proof {
            if r.index < self.arena@.len() {
                assert(self.items()[r.index as int] == match self.arena@[r.index as int] {
                    Some(item) => Some(item@),
                    None => None,
                });
            }
        }
        res
    }

    /// How many items the build allocated.
    pub fn len(&self) -> (n: usize)
        ensures
            n == self.items().len(),
    {
        self.arena.len()
    }
}

/// Build the item graph of a root rule against a grammar: the executable
/// counterpart of `build_items_m`.  On success every allocated slot is
/// filled and the root handle leads the returned set; a named reference
/// with no grammar entry fails with `UnknownRuleName` and returns no graph
/// at all.
pub fn build_items(r: &Rule, g: &Grammar, alloc: ItemSetAllocator) -> (res: Result<
    ItemSet,
    BuildError,
>)
    requires
        g.wf(),
        alloc.is_fresh(),
    ensures
        match res {
            Ok(iset) => {
                &&& build_items_m(*r, g@) == Some(
                    Ok::<_, Seq<char>>((iset.items(), iset.root_handle())),
                )
                &&& iset.root_handle() == 0
                &&& iset.items().len() >= 1
                &&& forall|i: int|
                    0 <= i < iset.items().len() ==> ({
                        &&& (#[trigger] iset.items()[i]) matches Some(item)
                        &&& crate::model::comb_closed(item.combinator, iset.items().len())
                    })
            },
            Err(e) => match (build_items_m(*r, g@), e) {
                (Some(Err(nm)), BuildError::UnknownRuleName(s)) => s@ == nm,
                _ => false,
            },
        },
{
    let ItemSetAllocator { arena } = alloc;
    let mut b = GrammarBuilder { arena, lookup: Vec::new(), grammar: g };
    let ghost pre0 = b.arena@;
    proof {
        g.lemma_dom_finite();
        assert(memo_map(b.lookup@) =~= Map::<Seq<char>, nat>::empty());
    }
    let cell = b.arena.forward();
    let fr = cell.borrow();
    proof {
        lemma_slots_view_push(pre0);
        assert(slots_view(pre0) =~= Seq::<Option<ItemV>>::empty());
        assert(b.st().items =~= init_state().items);
        assert(b.st() == init_state());
        assert(g@.dom().difference(b.st().memo.dom()) =~= g@.dom());
        assert(build_fuel(g@) > unresolved(g@, b.st()));
        assert(b.wf());
    }
    match build_rule(&mut b, r, Ghost(build_fuel(g@))) {
        Ok(item) => {
            let ghost st2 = b.st();
            let ghost pre = b.arena@;
            proof {
                lemma_build_rule_m_frame(g@, init_state(), *r, build_fuel(g@));
                assert(extends(init_state(), st2));
                assert(st2.items[0] == init_state().items[0]);
                assert(slots_view(pre)[0] is None);
                assert(pre[0] is None);
            }
            let root = cell.set(&mut b.arena, item);
            proof {
                lemma_slots_view_update(pre, 0, item);
            }
            let GrammarBuilder { arena, lookup: _, grammar: _ } = b;
            let iset = ItemSet { arena, root };
            proof {
                assert(iset.items() == st2.items.update(0, Some(item@)));
                assert(build_items_m(*r, g@) == Some(
                    Ok::<_, Seq<char>>((iset.items(), iset.root_handle())),
                ));
                crate::model::lemma_build_items_m_filled(*r, g@);
            }
            Ok(iset)
        },
        Err(e) => Err(e),
    }
}

} // verus!
