//! The laws the builder obeys, each proved against the model that
//! `crate::builder::build_items` provably computes.

use vstd::prelude::*;

use crate::model::{build_items_m, build_rule_m, elided_name, resolve_key_m, BuildState};
use crate::rule::{Class, CombV, ItemV, Rule, RuleKey};

verus! {

/// Building is deterministic: two builds of one root rule against one
/// grammar yield the same items, handle for handle, and the same root.
/// `build_items` ensures its result equals `build_items_m(r, g@)`, so any
/// two runs over equal inputs satisfy the premises.
pub proof fn lemma_build_deterministic(
    r: Rule,
    g: Map<Seq<char>, Rule>,
    p1: (Seq<Option<ItemV>>, nat),
    p2: (Seq<Option<ItemV>>, nat),
)
    requires
        build_items_m(r, g) == Some(Ok::<_, Seq<char>>(p1)),
        build_items_m(r, g) == Some(Ok::<_, Seq<char>>(p2)),
    ensures
        p1 == p2,
{
}

/// An empty `Sequence` or an empty `Choice` builds to a root item whose
/// combinator is `Empty`, whatever the grammar holds.
pub proof fn lemma_empty_list_gives_empty(r: Rule, g: Map<Seq<char>, Rule>)
    requires
        (r matches Rule::Sequence(s) && s.rules@.len() == 0) || (r matches Rule::Choice(c)
            && c.rules@.len() == 0),
    ensures
        ({
            &&& build_items_m(r, g) matches Some(Ok(p))
            &&& p.0.len() == 1
            &&& p.0[0] matches Some(item)
            &&& item.combinator == CombV::Empty
        }),
{
}

/// A terminal rule builds to a root item whose combinator is
/// `Term` of that same byte, for every byte value.
pub proof fn lemma_terminal_byte(r: Rule, g: Map<Seq<char>, Rule>)
    requires
        r matches Rule::Term(_),
    ensures
        ({
            &&& build_items_m(r, g) matches Some(Ok(p))
            &&& p.0.len() == 1
            &&& p.0[0] matches Some(item)
            &&& r matches Rule::Term(t) && item.combinator == CombV::Term(t.val)
                && item.class == Class::Normal
        }),
{
}

/// A one-element `Sequence` still materializes its tail: the root is a
/// `Cons` whose second handle leads to an `Empty` filler item classed
/// `Elide`, never a bare resolution of the single element.
pub proof fn lemma_singleton_keeps_tail(r: Rule, g: Map<Seq<char>, Rule>)
    requires
        r matches Rule::Sequence(s) && s.rules@.len() == 1,
    ensures
        build_items_m(r, g) matches Some(Ok(p)) ==> {
            &&& p.0[0] matches Some(item)
            &&& item.combinator matches CombV::Cons(h0, h1)
            &&& 0 < h1 < p.0.len()
            &&& p.0[h1 as int] == Some(
                ItemV { combinator: CombV::Empty, class: Class::Elide, name: elided_name() },
            )
        },
{
    let s = r->Sequence_0;
    let fuel = crate::model::build_fuel(g);
    let st0 = crate::model::init_state();
    match resolve_key_m(g, st0, s.rules@[0], fuel) {
        Some(Ok((st1, h0))) => {
            crate::model::lemma_resolve_key_m_frame(g, st0, s.rules@[0], fuel);
            assert(st1.items.len() >= 1);
            let tail = s.rules@.subrange(1, s.rules@.len() as int);
            assert(tail.len() == 0);
            let idx = st1.items.len();
            let filler = ItemV {
                combinator: CombV::Empty,
                class: Class::Elide,
                name: elided_name(),
            };
            let st_f = BuildState {
                items: st1.items.push(None).update(idx as int, Some(filler)),
                memo: st1.memo,
            };
            assert(crate::model::chain_m(g, st1, tail, fuel) == Some(
                Ok::<_, Seq<char>>((st_f, idx)),
            ));
            let root = ItemV {
                combinator: CombV::Cons(h0, idx),
                class: Class::Normal,
                name: s.name@,
            };
            assert(build_rule_m(g, st0, r, fuel) == Some(Ok::<_, Seq<char>>((st_f, root))));
            assert(st_f.items.len() == st1.items.len() + 1);
            assert(st_f.items[idx as int] == Some(filler));
            assert(build_items_m(r, g) == Some(Ok::<_, Seq<char>>(
                (st_f.items.update(0, Some(root)), 0nat),
            )));
            assert(st_f.items.update(0, Some(root))[idx as int] == Some(filler));
        },
        _ => {},
    }
}

/// Wrapping a rule in the `Elide` decorator changes only the root item's
/// class (to `Elide`) and display name: its combinator and every other
/// item of the graph are exactly those of the bare rule, and a build that
/// fails keeps failing with the same name.
pub proof fn lemma_elide_preserves_combinator(wrapped: Rule, r: Rule, g: Map<Seq<char>, Rule>)
    requires
        wrapped matches Rule::Elide(inner) && *inner == r,
    ensures
        build_items_m(r, g) matches Some(Ok(p)) ==> {
            &&& build_items_m(wrapped, g) matches Some(Ok(q))
            &&& q.1 == p.1
            &&& q.0.len() == p.0.len()
            &&& p.0[p.1 as int] matches Some(item)
            &&& q.0[q.1 as int] matches Some(witem)
            &&& witem.combinator == item.combinator
            &&& witem.class == Class::Elide
            &&& forall|i: int| 0 <= i < p.0.len() && i != p.1 ==> q.0[i] == p.0[i]
        },
        build_items_m(r, g) matches Some(Err(nm)) ==> build_items_m(wrapped, g) == Some(
            Err::<(Seq<Option<ItemV>>, nat), _>(nm),
        ),
{
    let fuel = crate::model::build_fuel(g);
    let st0 = crate::model::init_state();
    match build_rule_m(g, st0, r, fuel) {
        Some(Ok((st1, item))) => {
            crate::model::lemma_build_rule_m_frame(g, st0, r, fuel);
            assert(st1.items.len() >= 1);
            assert(build_rule_m(g, st0, wrapped, fuel) == Some(
                Ok::<_, Seq<char>>(
                    (
                        st1,
                        ItemV {
                            combinator: item.combinator,
                            class: Class::Elide,
                            name: elided_name(),
                        },
                    ),
                ),
            ));
        },
        Some(Err(nm)) => {
            assert(build_rule_m(g, st0, wrapped, fuel) == Some(
                Err::<(BuildState, ItemV), _>(nm),
            ));
        },
        None => {
            assert(build_rule_m(g, st0, wrapped, fuel) is None);
        },
    }
}

/// A named reference already in the memo table resolves to the memoized
/// handle at once, changing nothing: the state -- items and memo alike --
/// comes back untouched.  This is what makes a recursive reference
/// terminate, and it is why a rule named N times is expanded only once.
pub proof fn lemma_memoized_reuse(g: Map<Seq<char>, Rule>, st: BuildState, k: RuleKey, fuel: nat)
    requires
        k matches RuleKey::Lookup(name) && st.memo.contains_key(name@),
    ensures
        k matches RuleKey::Lookup(name) ==> resolve_key_m(g, st, k, fuel) == Some(
            Ok::<_, Seq<char>>((st, st.memo[name@])),
        ),
{
}

/// Once a name is memoized to a handle, every later state of the same
/// resolution still maps it to that handle: all references to one name
/// share one handle.
pub proof fn lemma_memo_stable(g: Map<Seq<char>, Rule>, st: BuildState, k: RuleKey, fuel: nat)
    ensures
        resolve_key_m(g, st, k, fuel) matches Some(Ok(r)) ==> forall|n: Seq<char>|
            #[trigger] st.memo.contains_key(n) ==> r.0.memo.contains_key(n) && r.0.memo[n]
                == st.memo[n],
{
    crate::model::lemma_resolve_key_m_frame(g, st, k, fuel);
}

/// A rule whose first element names a rule the grammar does not hold
/// fails with exactly that name; `build_items` then returns the error and
/// no graph, so no dangling root handle exists.
pub proof fn lemma_unknown_name_fails(r: Rule, g: Map<Seq<char>, Rule>, name: Seq<char>)
    requires
        ({
            &&& r matches Rule::Sequence(s)
            &&& s.rules@.len() > 0
            &&& s.rules@[0] matches RuleKey::Lookup(n)
            &&& n@ == name
        }),
        !g.contains_key(name),
    ensures
        build_items_m(r, g) == Some(Err::<(Seq<Option<ItemV>>, nat), _>(name)),
{
    let fuel = crate::model::build_fuel(g);
    let st0 = crate::model::init_state();
    let s = r->Sequence_0;
    let k = s.rules@[0];
    assert(!st0.memo.contains_key(name));
    assert(resolve_key_m(g, st0, k, fuel) == Some(Err::<(BuildState, nat), _>(name)));
    assert(build_rule_m(g, st0, r, fuel) == Some(Err::<(BuildState, ItemV), _>(name)));
}


} // verus!
