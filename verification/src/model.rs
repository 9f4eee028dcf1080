//! The mathematical model of graph building.
//!
//! `build_rule_m`, `resolve_key_m` and `chain_m` define, as recursive spec
//! functions, exactly what the executable builder computes: the sequence of
//! allocated items and the memo table, step by step.  The functions carry a
//! fuel argument so their recursion is well founded independently of the
//! memoization argument; `lemma_resolve_key_m_some` shows that any fuel
//! beyond the number of still-unresolved grammar names is enough, so the
//! fixed fuel used by `build_items_m` never runs out.

use vstd::prelude::*;

use crate::rule::{Class, CombV, ItemV, Rule, RuleKey};

verus! {

/// The state of one build: the items allocated so far, by handle, with
/// pending slots `None`; and the memo table from resolved names to handles.
#[verifier::ext_equal]
pub struct BuildState {
    pub items: Seq<Option<ItemV>>,
    pub memo: Map<Seq<char>, nat>,
}

/// The display name of the filler items the list expansion inserts.
pub open spec fn elided_name() -> Seq<char> {
    "(elided)"@
}

/// The size of a key, counting every combinator beneath it.
pub open spec fn key_size(k: RuleKey) -> nat
    decreases k,
{
    match k {
        RuleKey::Ref(r) => 1 + rule_size(*r),
        RuleKey::Lookup(_) => 1,
    }
}

/// The size of a rule, counting every combinator beneath it.
pub open spec fn rule_size(r: Rule) -> nat
    decreases r,
{
    match r {
        Rule::Term(_) => 1,
        Rule::Elide(inner) => 1 + rule_size(*inner),
        Rule::Sequence(s) => 1 + keys_size(s.rules@),
        Rule::Choice(c) => 1 + keys_size(c.rules@),
    }
}

/// The summed size of a list of keys.
pub open spec fn keys_size(ks: Seq<RuleKey>) -> nat
    decreases ks,
{
    if ks.len() == 0 {
        0
    } else {
        key_size(ks[0]) + keys_size(ks.subrange(1, ks.len() as int))
    }
}

/// Resolve one key to a handle: a direct rule is always built afresh into a
/// newly reserved slot; a named rule is built once and found in the memo
/// table afterwards, including while its own item is still pending.
pub open spec fn resolve_key_m(
    g: Map<Seq<char>, Rule>,
    st: BuildState,
    k: RuleKey,
    fuel: nat,
) -> Option<Result<(BuildState, nat), Seq<char>>>
    decreases fuel, key_size(k),
{
    match k {
        RuleKey::Ref(r) => {
            let idx = st.items.len();
            let st1 = BuildState { items: st.items.push(None), memo: st.memo };
            match build_rule_m(g, st1, *r, fuel) {
                None => None,
                Some(Err(e)) => Some(Err(e)),
                Some(Ok((st2, item))) => Some(
                    Ok(
                        (
                            BuildState {
                                items: st2.items.update(idx as int, Some(item)),
                                memo: st2.memo,
                            },
                            idx,
                        ),
                    ),
                ),
            }
        },
        RuleKey::Lookup(name) => {
            if st.memo.contains_key(name@) {
                Some(Ok((st, st.memo[name@])))
            } else if !g.contains_key(name@) {
                Some(Err(name@))
            } else if fuel == 0 {
                None
            } else {
                let idx = st.items.len();
                let st1 = BuildState {
                    items: st.items.push(None),
                    memo: st.memo.insert(name@, idx),
                };
                match build_rule_m(g, st1, g[name@], (fuel - 1) as nat) {
                    None => None,
                    Some(Err(e)) => Some(Err(e)),
                    Some(Ok((st2, item))) => Some(
                        Ok(
                            (
                                BuildState {
                                    items: st2.items.update(idx as int, Some(item)),
                                    memo: st2.memo,
                                },
                                idx,
                            ),
                        ),
                    ),
                }
            }
        },
    }
}

/// Build the item of one rule.  The item is returned rather than stored:
/// the caller owns the slot it goes into.
pub open spec fn build_rule_m(
    g: Map<Seq<char>, Rule>,
    st: BuildState,
    r: Rule,
    fuel: nat,
) -> Option<Result<(BuildState, ItemV), Seq<char>>>
    decreases fuel, rule_size(r),
    via build_rule_m_dec
{
    match r {
        Rule::Term(t) => Some(
            Ok(
                (
                    st,
                    ItemV {
                        combinator: CombV::Term(t.val),
                        class: Class::Normal,
                        name: seq![t.val as char],
                    },
                ),
            ),
        ),
        Rule::Elide(inner) => match build_rule_m(g, st, *inner, fuel) {
            None => None,
            Some(Err(e)) => Some(Err(e)),
            Some(Ok((st1, item))) => Some(
                Ok(
                    (
                        st1,
                        ItemV {
                            combinator: item.combinator,
                            class: Class::Elide,
                            name: elided_name(),
                        },
                    ),
                ),
            ),
        },
        Rule::Sequence(s) => {
            if s.rules@.len() == 0 {
                Some(
                    Ok(
                        (
                            st,
                            ItemV {
                                combinator: CombV::Empty,
                                class: Class::Normal,
                                name: s.name@,
                            },
                        ),
                    ),
                )
            } else {
                match resolve_key_m(g, st, s.rules@[0], fuel) {
                    None => None,
                    Some(Err(e)) => Some(Err(e)),
                    Some(Ok((st1, h0))) => match chain_m(
                        g,
                        st1,
                        s.rules@.subrange(1, s.rules@.len() as int),
                        fuel,
                    ) {
                        None => None,
                        Some(Err(e)) => Some(Err(e)),
                        Some(Ok((st2, h1))) => Some(
                            Ok(
                                (
                                    st2,
                                    ItemV {
                                        combinator: CombV::Cons(h0, h1),
                                        class: Class::Normal,
                                        name: s.name@,
                                    },
                                ),
                            ),
                        ),
                    },
                }
            }
        },
        Rule::Choice(c) => {
            let class = if c.passthrough {
                Class::Passthrough
            } else {
                Class::Normal
            };
            if c.rules@.len() == 0 {
                Some(
                    Ok((st, ItemV { combinator: CombV::Empty, class: class, name: c.name@ })),
                )
            } else {
                match resolve_key_m(g, st, c.rules@[0], fuel) {
                    None => None,
                    Some(Err(e)) => Some(Err(e)),
                    Some(Ok((st1, h0))) => match chain_m(
                        g,
                        st1,
                        c.rules@.subrange(1, c.rules@.len() as int),
                        fuel,
                    ) {
                        None => None,
                        Some(Err(e)) => Some(Err(e)),
                        Some(Ok((st2, h1))) => Some(
                            Ok(
                                (
                                    st2,
                                    ItemV {
                                        combinator: CombV::Cons(h0, h1),
                                        class: class,
                                        name: c.name@,
                                    },
                                ),
                            ),
                        ),
                    },
                }
            }
        },
    }
}

/// Build the elided tail chain over the remaining keys.  One filler node is
/// reserved up front; an empty tail makes it `Empty`, otherwise it is a
/// `Cons` of the resolved head and the chain over the rest.
pub open spec fn chain_m(
    g: Map<Seq<char>, Rule>,
    st: BuildState,
    ks: Seq<RuleKey>,
    fuel: nat,
) -> Option<Result<(BuildState, nat), Seq<char>>>
    decreases fuel, keys_size(ks) + 1,
    via chain_m_dec
{
    let idx = st.items.len();
    let st1 = BuildState { items: st.items.push(None), memo: st.memo };
    if ks.len() == 0 {
        Some(
            Ok(
                (
                    BuildState {
                        items: st1.items.update(
                            idx as int,
                            Some(
                                ItemV {
                                    combinator: CombV::Empty,
                                    class: Class::Elide,
                                    name: elided_name(),
                                },
                            ),
                        ),
                        memo: st1.memo,
                    },
                    idx,
                ),
            ),
        )
    } else {
        match resolve_key_m(g, st1, ks[0], fuel) {
            None => None,
            Some(Err(e)) => Some(Err(e)),
            Some(Ok((st2, h0))) => match chain_m(g, st2, ks.subrange(1, ks.len() as int), fuel) {
                None => None,
                Some(Err(e)) => Some(Err(e)),
                Some(Ok((st3, h1))) => Some(
                    Ok(
                        (
                            BuildState {
                                items: st3.items.update(
                                    idx as int,
                                    Some(
                                        ItemV {
                                            combinator: CombV::Cons(h0, h1),
                                            class: Class::Elide,
                                            name: elided_name(),
                                        },
                                    ),
                                ),
                                memo: st3.memo,
                            },
                            idx,
                        ),
                    ),
                ),
            },
        }
    }
}

/// One key weighs at least one combinator.
pub proof fn lemma_key_size_pos(k: RuleKey)
    ensures
        key_size(k) >= 1,
{
}

/// One build state extends another: slots the first already had are
/// unchanged, every slot added in between has been filled, the memo table
/// has only grown, and every new memo entry points at a slot added in
/// between.
pub open spec fn extends(a: BuildState, b: BuildState) -> bool {
    &&& a.items.len() <= b.items.len()
    &&& forall|i: int| 0 <= i < a.items.len() ==> #[trigger] b.items[i] == a.items[i]
    &&& forall|i: int| a.items.len() <= i < b.items.len() ==> (#[trigger] b.items[i]) is Some
    &&& a.memo.submap_of(b.memo)
    &&& forall|n: Seq<char>|
        #[trigger] b.memo.contains_key(n) && !a.memo.contains_key(n) ==> a.items.len()
            <= b.memo[n] < b.items.len()
}

/// Every memo entry points at an existing slot.
pub open spec fn memo_valid(st: BuildState) -> bool {
    forall|n: Seq<char>| #[trigger] st.memo.contains_key(n) ==> st.memo[n] < st.items.len()
}

/// Every handle a combinator stores lies below `n`.
pub open spec fn comb_closed(c: CombV, n: nat) -> bool {
    match c {
        CombV::Cons(a, b) => a < n && b < n,
        CombV::Choice(a, b) => a < n && b < n,
        CombV::Term(_) => true,
        CombV::Done => true,
        CombV::Empty => true,
    }
}

/// Every filled slot stores only handles to existing slots.
pub open spec fn state_closed(st: BuildState) -> bool {
    forall|i: int|
        0 <= i < st.items.len() ==> ((#[trigger] st.items[i]) matches Some(item)
            ==> comb_closed(item.combinator, st.items.len()))
}

/// A state that extends a valid one is valid.
pub proof fn lemma_extends_memo_valid(a: BuildState, b: BuildState)
    requires
        memo_valid(a),
        extends(a, b),
    ensures
        memo_valid(b),
{
    assert forall|n: Seq<char>| #[trigger] b.memo.contains_key(n) implies b.memo[n]
        < b.items.len() by {
        if a.memo.contains_key(n) {
            assert(a.memo[n] == b.memo[n]);
        }
    }
}

/// A closed state stays closed when it is only extended: old items are
/// unchanged and the bound grows.
proof fn lemma_extends_closed_mono(a: BuildState, b: BuildState)
    requires
        extends(a, b),
        state_closed(a),
        forall|i: int|
            a.items.len() <= i < b.items.len() ==> ((#[trigger] b.items[i]) matches Some(item)
                ==> comb_closed(item.combinator, b.items.len())),
    ensures
        state_closed(b),
{
    assert forall|i: int|
        0 <= i < b.items.len() implies ((#[trigger] b.items[i]) matches Some(item)
            ==> comb_closed(item.combinator, b.items.len())) by {
        if i < a.items.len() {
            assert(b.items[i] == a.items[i]);
        }
    }
}

pub proof fn lemma_extends_refl(a: BuildState)
    ensures
        extends(a, a),
{
}

pub proof fn lemma_extends_trans(a: BuildState, b: BuildState, c: BuildState)
    requires
        extends(a, b),
        extends(b, c),
    ensures
        extends(a, c),
{
    assert forall|i: int| 0 <= i < a.items.len() implies #[trigger] c.items[i]
        == a.items[i] by {
        assert(c.items[i] == b.items[i]);
        assert(b.items[i] == a.items[i]);
    }
    assert forall|i: int| a.items.len() <= i < c.items.len() implies (#[trigger] c.items[i])
        is Some by {
        if i < b.items.len() {
            assert(b.items[i] is Some);
        }
    }
    assert(a.memo.submap_of(c.memo)) by {
        assert forall|n: Seq<char>| #[trigger] a.memo.contains_key(n) implies
            c.memo.contains_key(n) && a.memo[n] == c.memo[n] by {
            assert(b.memo.contains_key(n) && b.memo[n] == a.memo[n]);
            assert(c.memo.contains_key(n) && c.memo[n] == b.memo[n]);
        }
    }
    assert forall|n: Seq<char>|
        #[trigger] c.memo.contains_key(n) && !a.memo.contains_key(n) implies a.items.len()
            <= c.memo[n] < c.items.len() by {
        if b.memo.contains_key(n) {
            assert(b.memo[n] == c.memo[n]);
        }
    }
}

/// Reserving a pending slot keeps a state closed: no stored handle moved,
/// and the bound only grew.
proof fn lemma_reserve_closed(a: BuildState, b: BuildState)
    requires
        state_closed(a),
        b.items == a.items.push(None),
    ensures
        state_closed(b),
        memo_valid(a) && b.memo == a.memo ==> memo_valid(b),
{
    assert forall|i: int|
        0 <= i < b.items.len() implies ((#[trigger] b.items[i]) matches Some(item)
            ==> comb_closed(item.combinator, b.items.len())) by {
        if i < a.items.len() {
            assert(b.items[i] == a.items[i]);
        }
    }
}

/// Filling one slot with a closed item keeps a state closed.
proof fn lemma_bind_closed(a: BuildState, b: BuildState, idx: int, item: ItemV)
    requires
        state_closed(a),
        0 <= idx < a.items.len(),
        comb_closed(item.combinator, a.items.len()),
        b.items == a.items.update(idx, Some(item)),
    ensures
        state_closed(b),
{
    assert forall|i: int|
        0 <= i < b.items.len() implies ((#[trigger] b.items[i]) matches Some(it)
            ==> comb_closed(it.combinator, b.items.len())) by {
        if i != idx {
            assert(b.items[i] == a.items[i]);
        }
    }
}

/// Reserving a slot, extending the state somehow, and then filling that
/// slot extends the state it started from.
proof fn lemma_alloc_bind_extends(
    st: BuildState,
    m1: Map<Seq<char>, nat>,
    st2: BuildState,
    item: ItemV,
)
    requires
        st.memo.submap_of(m1),
        forall|n: Seq<char>|
            #[trigger] m1.contains_key(n) && !st.memo.contains_key(n) ==> m1[n]
                == st.items.len(),
        extends(BuildState { items: st.items.push(None), memo: m1 }, st2),
    ensures
        ({
            let f = BuildState {
                items: st2.items.update(st.items.len() as int, Some(item)),
                memo: st2.memo,
            };
            &&& extends(st, f)
            &&& st.items.len() < f.items.len()
            &&& f.items[st.items.len() as int] == Some(item)
        }),
{
    let idx = st.items.len() as int;
    let st1 = BuildState { items: st.items.push(None), memo: m1 };
    let f = BuildState { items: st2.items.update(idx, Some(item)), memo: st2.memo };
    assert forall|i: int| 0 <= i < st.items.len() implies #[trigger] f.items[i]
        == st.items[i] by {
        assert(st2.items[i] == st1.items[i]);
        assert(st1.items[i] == st.items[i]);
    }
    assert forall|i: int| st.items.len() <= i < f.items.len() implies (#[trigger] f.items[i])
        is Some by {
        if i != idx {
            assert(st1.items.len() <= i < st2.items.len());
            assert(st2.items[i] is Some);
        }
    }
    assert(st.memo.submap_of(f.memo)) by {
        assert forall|n: Seq<char>| #[trigger] st.memo.contains_key(n) implies
            f.memo.contains_key(n) && st.memo[n] == f.memo[n] by {
            assert(m1.contains_key(n) && m1[n] == st.memo[n]);
            assert(st2.memo.contains_key(n) && st2.memo[n] == m1[n]);
        }
    }
    assert forall|n: Seq<char>|
        #[trigger] f.memo.contains_key(n) && !st.memo.contains_key(n) implies st.items.len()
            <= f.memo[n] < f.items.len() by {
        if m1.contains_key(n) {
            assert(st2.memo[n] == m1[n]);
            assert(m1[n] == st.items.len());
        } else {
            assert(st1.items.len() <= st2.memo[n] < st2.items.len());
        }
    }
}

/// After a successful resolution the state has been extended, the handle is
/// an existing slot, and a directly addressed rule gets the slot reserved
/// at entry.
pub proof fn lemma_resolve_key_m_frame(
    g: Map<Seq<char>, Rule>,
    st: BuildState,
    k: RuleKey,
    fuel: nat,
)
    ensures
        resolve_key_m(g, st, k, fuel) matches Some(Ok(r)) ==> {
            &&& extends(st, r.0)
            &&& (memo_valid(st) ==> r.1 < r.0.items.len())
            &&& (memo_valid(st) && state_closed(st) ==> state_closed(r.0))
            &&& (k matches RuleKey::Ref(_) ==> r.1 == st.items.len() && st.items.len()
                < r.0.items.len() && r.0.items[r.1 as int] is Some)
        },
    decreases fuel, key_size(k),
{
    match k {
        RuleKey::Ref(rule) => {
            let st1 = BuildState { items: st.items.push(None), memo: st.memo };
            lemma_build_rule_m_frame(g, st1, *rule, fuel);
            match build_rule_m(g, st1, *rule, fuel) {
                Some(Ok((st2, item))) => {
                    lemma_alloc_bind_extends(st, st.memo, st2, item);
                    if memo_valid(st) && state_closed(st) {
                        lemma_reserve_closed(st, st1);
                        lemma_bind_closed(
                            st2,
                            BuildState {
                                items: st2.items.update(st.items.len() as int, Some(item)),
                                memo: st2.memo,
                            },
                            st.items.len() as int,
                            item,
                        );
                    }
                },
                _ => {},
            }
        },
        RuleKey::Lookup(name) => {
            if st.memo.contains_key(name@) {
                lemma_extends_refl(st);
            } else if !g.contains_key(name@) {
            } else if fuel == 0 {
            } else {
                let idx = st.items.len();
                let m1 = st.memo.insert(name@, idx);
                let st1 = BuildState { items: st.items.push(None), memo: m1 };
                lemma_build_rule_m_frame(g, st1, g[name@], (fuel - 1) as nat);
                match build_rule_m(g, st1, g[name@], (fuel - 1) as nat) {
                    Some(Ok((st2, item))) => {
                        lemma_alloc_bind_extends(st, m1, st2, item);
                        if memo_valid(st) && state_closed(st) {
                            lemma_reserve_closed(st, st1);
                            assert(memo_valid(st1));
                            lemma_bind_closed(
                                st2,
                                BuildState {
                                    items: st2.items.update(st.items.len() as int, Some(item)),
                                    memo: st2.memo,
                                },
                                st.items.len() as int,
                                item,
                            );
                        }
                    },
                    _ => {},
                }
            }
        },
    }
}

/// After a successful rule build the state has been extended.
pub proof fn lemma_build_rule_m_frame(
    g: Map<Seq<char>, Rule>,
    st: BuildState,
    r: Rule,
    fuel: nat,
)
    ensures
        build_rule_m(g, st, r, fuel) matches Some(Ok(p)) ==> {
            &&& extends(st, p.0)
            &&& (memo_valid(st) && state_closed(st) ==> state_closed(p.0) && comb_closed(
                p.1.combinator,
                p.0.items.len(),
            ))
        },
    decreases fuel, rule_size(r),
{
    match r {
        Rule::Term(_) => {
            lemma_extends_refl(st);
        },
        Rule::Elide(inner) => {
            lemma_build_rule_m_frame(g, st, *inner, fuel);
        },
        Rule::Sequence(s) => {
            if s.rules@.len() == 0 {
                lemma_extends_refl(st);
            } else {
                lemma_key_size_pos(s.rules@[0]);
                assert(keys_size(s.rules@) == key_size(s.rules@[0]) + keys_size(
                    s.rules@.subrange(1, s.rules@.len() as int),
                ));
                lemma_resolve_key_m_frame(g, st, s.rules@[0], fuel);
                match resolve_key_m(g, st, s.rules@[0], fuel) {
                    Some(Ok((st1, h0))) => {
                        let tail = s.rules@.subrange(1, s.rules@.len() as int);
                        lemma_chain_m_frame(g, st1, tail, fuel);
                        match chain_m(g, st1, tail, fuel) {
                            Some(Ok((st2, h1))) => {
                                lemma_extends_trans(st, st1, st2);
                                if memo_valid(st) && state_closed(st) {
                                    lemma_extends_memo_valid(st, st1);
                                }
                            },
                            _ => {},
                        }
                    },
                    _ => {},
                }
            }
        },
        Rule::Choice(c) => {
            if c.rules@.len() == 0 {
                lemma_extends_refl(st);
            } else {
                lemma_key_size_pos(c.rules@[0]);
                assert(keys_size(c.rules@) == key_size(c.rules@[0]) + keys_size(
                    c.rules@.subrange(1, c.rules@.len() as int),
                ));
                lemma_resolve_key_m_frame(g, st, c.rules@[0], fuel);
                match resolve_key_m(g, st, c.rules@[0], fuel) {
                    Some(Ok((st1, h0))) => {
                        let tail = c.rules@.subrange(1, c.rules@.len() as int);
                        lemma_chain_m_frame(g, st1, tail, fuel);
                        match chain_m(g, st1, tail, fuel) {
                            Some(Ok((st2, h1))) => {
                                lemma_extends_trans(st, st1, st2);
                                if memo_valid(st) && state_closed(st) {
                                    lemma_extends_memo_valid(st, st1);
                                }
                            },
                            _ => {},
                        }
                    },
                    _ => {},
                }
            }
        },
    }
}

/// After a successful chain build the state has been extended and the
/// returned handle is the filler slot reserved at entry, now filled.
pub proof fn lemma_chain_m_frame(
    g: Map<Seq<char>, Rule>,
    st: BuildState,
    ks: Seq<RuleKey>,
    fuel: nat,
)
    ensures
        chain_m(g, st, ks, fuel) matches Some(Ok(r)) ==> {
            &&& extends(st, r.0)
            &&& r.1 == st.items.len()
            &&& st.items.len() < r.0.items.len()
            &&& r.0.items[r.1 as int] is Some
            &&& (memo_valid(st) && state_closed(st) ==> state_closed(r.0))
        },
    decreases fuel, keys_size(ks) + 1,
{
    let st1 = BuildState { items: st.items.push(None), memo: st.memo };
    if ks.len() == 0 {
        let item = ItemV { combinator: CombV::Empty, class: Class::Elide, name: elided_name() };
        lemma_extends_refl(st1);
        lemma_alloc_bind_extends(st, st.memo, st1, item);
        if memo_valid(st) && state_closed(st) {
            lemma_reserve_closed(st, st1);
            lemma_bind_closed(
                st1,
                BuildState {
                    items: st1.items.update(st.items.len() as int, Some(item)),
                    memo: st1.memo,
                },
                st.items.len() as int,
                item,
            );
        }
    } else {
        lemma_key_size_pos(ks[0]);
        assert(keys_size(ks) == key_size(ks[0]) + keys_size(ks.subrange(1, ks.len() as int)));
        lemma_resolve_key_m_frame(g, st1, ks[0], fuel);
        match resolve_key_m(g, st1, ks[0], fuel) {
            Some(Ok((st2, h0))) => {
                let tail = ks.subrange(1, ks.len() as int);
                lemma_chain_m_frame(g, st2, tail, fuel);
                match chain_m(g, st2, tail, fuel) {
                    Some(Ok((st3, h1))) => {
                        let item = ItemV {
                            combinator: CombV::Cons(h0, h1),
                            class: Class::Elide,
                            name: elided_name(),
                        };
                        lemma_extends_trans(st1, st2, st3);
                        lemma_alloc_bind_extends(st, st.memo, st3, item);
                        if memo_valid(st) && state_closed(st) {
                            lemma_reserve_closed(st, st1);
                            lemma_extends_memo_valid(st1, st2);
                            assert(h0 < st2.items.len());
                            assert(h1 == st2.items.len() && h1 < st3.items.len());
                            assert(comb_closed(item.combinator, st3.items.len()));
                            lemma_bind_closed(
                                st3,
                                BuildState {
                                    items: st3.items.update(st.items.len() as int, Some(item)),
                                    memo: st3.memo,
                                },
                                st.items.len() as int,
                                item,
                            );
                        }
                    },
                    _ => {},
                }
            },
            _ => {},
        }
    }
}

/// The number of grammar names not yet memoized: the quantity that bounds
/// how much fuel a build can consume.
pub open spec fn unresolved(g: Map<Seq<char>, Rule>, st: BuildState) -> nat {
    g.dom().difference(st.memo.dom()).len()
}

/// A state whose memo table has grown leaves no more names unresolved.
pub proof fn lemma_unresolved_mono(g: Map<Seq<char>, Rule>, a: BuildState, b: BuildState)
    requires
        g.dom().finite(),
        a.memo.submap_of(b.memo),
    ensures
        unresolved(g, b) <= unresolved(g, a),
{
    let da = g.dom().difference(a.memo.dom());
    let db = g.dom().difference(b.memo.dom());
    assert(db.subset_of(da));
    vstd::set_lib::lemma_len_subset(da, g.dom());
    vstd::set_lib::lemma_len_subset(db, da);
}

/// Memoizing one grammar name leaves exactly one fewer name unresolved.
pub proof fn lemma_unresolved_insert(
    g: Map<Seq<char>, Rule>,
    st: BuildState,
    st1: BuildState,
    n: Seq<char>,
    v: nat,
)
    requires
        g.dom().finite(),
        g.contains_key(n),
        !st.memo.contains_key(n),
        st1.memo == st.memo.insert(n, v),
    ensures
        unresolved(g, st) >= 1,
        unresolved(g, st1) + 1 == unresolved(g, st),
{
    broadcast use vstd::set::group_set_axioms;

    let d = g.dom().difference(st.memo.dom());
    let d1 = g.dom().difference(st1.memo.dom());
    assert(d.contains(n));
    vstd::set_lib::lemma_len_subset(d, g.dom());
    if d.len() == 0 {
        d.lemma_len0_is_empty();
    }
    assert(d1 =~= d.remove(n));
    assert(d1.len() == d.len() - 1);
}

/// With more fuel than unresolved names, resolution never runs out of fuel.
pub proof fn lemma_resolve_key_m_some(
    g: Map<Seq<char>, Rule>,
    st: BuildState,
    k: RuleKey,
    fuel: nat,
)
    requires
        g.dom().finite(),
        fuel > unresolved(g, st),
    ensures
        resolve_key_m(g, st, k, fuel) is Some,
    decreases fuel, key_size(k),
{
    broadcast use vstd::set::group_set_axioms;

    match k {
        RuleKey::Ref(rule) => {
            let st1 = BuildState { items: st.items.push(None), memo: st.memo };
            assert(unresolved(g, st1) == unresolved(g, st));
            lemma_build_rule_m_some(g, st1, *rule, fuel);
        },
        RuleKey::Lookup(name) => {
            if st.memo.contains_key(name@) {
            } else if !g.contains_key(name@) {
            } else {
                let d = g.dom().difference(st.memo.dom());
                assert(d.contains(name@));
                vstd::set_lib::lemma_len_subset(d, g.dom());
                if d.len() == 0 {
                    d.lemma_len0_is_empty();
                }
                assert(fuel > 0);
                let idx = st.items.len();
                let st1 = BuildState {
                    items: st.items.push(None),
                    memo: st.memo.insert(name@, idx),
                };
                let d1 = g.dom().difference(st1.memo.dom());
                assert(d1 =~= d.remove(name@));
                assert(d1.len() == d.len() - 1);
                lemma_build_rule_m_some(g, st1, g[name@], (fuel - 1) as nat);
            }
        },
    }
}

/// With more fuel than unresolved names, building a rule never runs out of
/// fuel.
pub proof fn lemma_build_rule_m_some(
    g: Map<Seq<char>, Rule>,
    st: BuildState,
    r: Rule,
    fuel: nat,
)
    requires
        g.dom().finite(),
        fuel > unresolved(g, st),
    ensures
        build_rule_m(g, st, r, fuel) is Some,
    decreases fuel, rule_size(r),
{
    match r {
        Rule::Term(_) => {},
        Rule::Elide(inner) => {
            lemma_build_rule_m_some(g, st, *inner, fuel);
        },
        Rule::Sequence(s) => {
            if s.rules@.len() > 0 {
                lemma_key_size_pos(s.rules@[0]);
                assert(keys_size(s.rules@) == key_size(s.rules@[0]) + keys_size(
                    s.rules@.subrange(1, s.rules@.len() as int),
                ));
                lemma_resolve_key_m_some(g, st, s.rules@[0], fuel);
                lemma_resolve_key_m_frame(g, st, s.rules@[0], fuel);
                match resolve_key_m(g, st, s.rules@[0], fuel) {
                    Some(Ok((st1, h0))) => {
                        lemma_unresolved_mono(g, st, st1);
                        lemma_chain_m_some(
                            g,
                            st1,
                            s.rules@.subrange(1, s.rules@.len() as int),
                            fuel,
                        );
                    },
                    _ => {},
                }
            }
        },
        Rule::Choice(c) => {
            if c.rules@.len() > 0 {
                lemma_key_size_pos(c.rules@[0]);
                assert(keys_size(c.rules@) == key_size(c.rules@[0]) + keys_size(
                    c.rules@.subrange(1, c.rules@.len() as int),
                ));
                lemma_resolve_key_m_some(g, st, c.rules@[0], fuel);
                lemma_resolve_key_m_frame(g, st, c.rules@[0], fuel);
                match resolve_key_m(g, st, c.rules@[0], fuel) {
                    Some(Ok((st1, h0))) => {
                        lemma_unresolved_mono(g, st, st1);
                        lemma_chain_m_some(
                            g,
                            st1,
                            c.rules@.subrange(1, c.rules@.len() as int),
                            fuel,
                        );
                    },
                    _ => {},
                }
            }
        },
    }
}

/// With more fuel than unresolved names, building a chain never runs out of
/// fuel.
pub proof fn lemma_chain_m_some(g: Map<Seq<char>, Rule>, st: BuildState, ks: Seq<RuleKey>, fuel: nat)
    requires
        g.dom().finite(),
        fuel > unresolved(g, st),
    ensures
        chain_m(g, st, ks, fuel) is Some,
    decreases fuel, keys_size(ks) + 1,
{
    let st1 = BuildState { items: st.items.push(None), memo: st.memo };
    if ks.len() > 0 {
        lemma_key_size_pos(ks[0]);
        assert(keys_size(ks) == key_size(ks[0]) + keys_size(ks.subrange(1, ks.len() as int)));
        assert(unresolved(g, st1) == unresolved(g, st));
        lemma_resolve_key_m_some(g, st1, ks[0], fuel);
        lemma_resolve_key_m_frame(g, st1, ks[0], fuel);
        match resolve_key_m(g, st1, ks[0], fuel) {
            Some(Ok((st2, h0))) => {
                lemma_unresolved_mono(g, st, st2);
                lemma_chain_m_some(g, st2, ks.subrange(1, ks.len() as int), fuel);
            },
            _ => {},
        }
    }
}

/// The state a build starts from: the root slot reserved, nothing memoized.
pub open spec fn init_state() -> BuildState {
    BuildState { items: seq![Option::<ItemV>::None], memo: Map::empty() }
}

/// The fuel every build runs with: more than the grammar has names, so by
/// `lemma_build_rule_m_some` it is never exhausted.
pub open spec fn build_fuel(g: Map<Seq<char>, Rule>) -> nat {
    g.dom().len() + 1
}

/// The whole build as a function of the root rule and the grammar: the
/// items of the finished graph and the root handle, or the unknown name the
/// build stopped at.
pub open spec fn build_items_m(r: Rule, g: Map<Seq<char>, Rule>) -> Option<
    Result<(Seq<Option<ItemV>>, nat), Seq<char>>,
> {
    match build_rule_m(g, init_state(), r, build_fuel(g)) {
        None => None,
        Some(Err(e)) => Some(Err(e)),
        Some(Ok((st1, item))) => Some(Ok((st1.items.update(0, Some(item)), 0))),
    }
}

/// Against a registry with finitely many names -- which every `Grammar`
/// is -- a build never runs out of fuel.
pub proof fn lemma_build_items_m_some(r: Rule, g: Map<Seq<char>, Rule>)
    requires
        g.dom().finite(),
    ensures
        build_items_m(r, g) is Some,
{
    assert(g.dom().difference(init_state().memo.dom()) =~= g.dom());
    lemma_build_rule_m_some(g, init_state(), r, build_fuel(g));
}

/// A finished build has filled every slot it allocated, the root slot
/// among them, and no stored handle points outside the graph.
pub proof fn lemma_build_items_m_filled(r: Rule, g: Map<Seq<char>, Rule>)
    ensures
        build_items_m(r, g) matches Some(Ok(p)) ==> {
            &&& p.1 == 0
            &&& p.0.len() >= 1
            &&& forall|i: int|
                0 <= i < p.0.len() ==> ({
                    &&& (#[trigger] p.0[i]) matches Some(item)
                    &&& comb_closed(item.combinator, p.0.len())
                })
        },
{
    lemma_build_rule_m_frame(g, init_state(), r, build_fuel(g));
    match build_rule_m(g, init_state(), r, build_fuel(g)) {
        Some(Ok((st1, item))) => {
            let out = st1.items.update(0, Some(item));
            assert(extends(init_state(), st1));
            assert(state_closed(init_state()));
            assert(memo_valid(init_state()));
            assert(state_closed(st1));
            assert forall|i: int|
                0 <= i < out.len() implies ({
                    &&& (#[trigger] out[i]) matches Some(it)
                    &&& comb_closed(it.combinator, out.len())
                }) by {
                if i != 0 {
                    assert(st1.items[i] is Some);
                    assert(out[i] == st1.items[i]);
                }
            }
        },
        _ => {},
    }
}

#[via_fn]
proof fn build_rule_m_dec(g: Map<Seq<char>, Rule>, st: BuildState, r: Rule, fuel: nat) {
    match r {
        Rule::Sequence(s) => {
            if s.rules@.len() > 0 {
                lemma_key_size_pos(s.rules@[0]);
                assert(keys_size(s.rules@) == key_size(s.rules@[0]) + keys_size(
                    s.rules@.subrange(1, s.rules@.len() as int),
                ));
            }
        },
        Rule::Choice(c) => {
            if c.rules@.len() > 0 {
                lemma_key_size_pos(c.rules@[0]);
                assert(keys_size(c.rules@) == key_size(c.rules@[0]) + keys_size(
                    c.rules@.subrange(1, c.rules@.len() as int),
                ));
            }
        },
        _ => {},
    }
}

#[via_fn]
proof fn chain_m_dec(g: Map<Seq<char>, Rule>, st: BuildState, ks: Seq<RuleKey>, fuel: nat) {
    if ks.len() > 0 {
        lemma_key_size_pos(ks[0]);
        assert(keys_size(ks) == key_size(ks[0]) + keys_size(ks.subrange(1, ks.len() as int)));
    }
}

} // verus!
