//! The registry mapping rule names to rules.
//!
//! Named references are resolved against this registry while the graph is
//! built, so a rule may mention a name before that name's rule exists, as
//! long as it is registered before building starts.  Names are unique; a
//! second `put` under one name replaces the first rule.

use vstd::prelude::*;

use crate::rule::Rule;

verus! {

use vstd::pervasive::VecAdditionalExecFns;
use vstd::string::StringExecFns;

pub struct Grammar {
    entries: Vec<(String, Rule)>,
}

impl Grammar {
    /// Whether some entry carries the name `n`.
    spec fn has_name(self, n: Seq<char>) -> bool {
        exists|i: int| 0 <= i < self.entries@.len() && self.entries@[i].0@ == n
    }

    /// The position of an entry carrying the name `n`; under `wf` it is the
    /// only one.
    spec fn idx_of(self, n: Seq<char>) -> int {
        choose|i: int| 0 <= i < self.entries@.len() && self.entries@[i].0@ == n
    }

    /// Each name occurs in at most one entry.
    pub closed spec fn wf(&self) -> bool {
        forall|i: int, j: int|
            0 <= i < j < self.entries@.len() ==> self.entries@[i].0@ != self.entries@[j].0@
    }

    /// A registered name's `idx_of` position is in range and matches.
    proof fn lemma_at(self, n: Seq<char>)
        requires
            self.has_name(n),
        ensures
            0 <= self.idx_of(n) < self.entries@.len(),
            self.entries@[self.idx_of(n)].0@ == n,
    {
        let w = choose|i: int| 0 <= i < self.entries@.len() && self.entries@[i].0@ == n;
        assert(0 <= w < self.entries@.len() && self.entries@[w].0@ == n);
    }

    /// With unique names, `idx_of` is determined by any matching position.
    proof fn lemma_idx_of(self, n: Seq<char>, i: int)
        requires
            self.wf(),
            0 <= i < self.entries@.len(),
            self.entries@[i].0@ == n,
        ensures
            self.has_name(n),
            self.idx_of(n) == i,
    {
        assert(self.has_name(n));
        self.lemma_at(n);
        let w = self.idx_of(n);
        if w != i {
            if w < i {
                assert(self.entries@[w].0@ != self.entries@[i].0@);
            } else {
                assert(self.entries@[i].0@ != self.entries@[w].0@);
            }
        }
    }

    /// An empty registry.
    pub fn new() -> (g: Self)
        ensures
            g.wf(),
            g@ == Map::<Seq<char>, Rule>::empty(),
    {
        let g = Grammar { entries: Vec::new() };
        proof {
            assert(g@ =~= Map::<Seq<char>, Rule>::empty());
        }
        g
    }

    /// The registered names form a finite set.
    pub proof fn lemma_dom_finite(&self)
        ensures
            self@.dom().finite(),
    {
        broadcast use vstd::seq_lib::seq_to_set_is_finite;

        let names = Seq::new(self.entries@.len(), |i: int| self.entries@[i].0@);
        assert forall|n: Seq<char>| self@.dom().contains(n) implies names.to_set().contains(
            n,
        ) by {
            let i = choose|i: int| 0 <= i < self.entries@.len() && self.entries@[i].0@ == n;
            assert(names[i] == n);
        }
        assert forall|n: Seq<char>| names.to_set().contains(n) implies self@.dom().contains(
            n,
        ) by {
            let i = choose|i: int| 0 <= i < names.len() && names[i] == n;
            assert(self.entries@[i].0@ == n);
        }
        assert(self@.dom() =~= names.to_set());
        names.lemma_cardinality_of_set();
    }

    /// Look a name up.  `Some` exactly when the name is registered, and then
    /// the registered rule.
    pub fn get<'s>(&'s self, k: &str) -> (r: Option<&'s Rule>)
        requires
            self.wf(),
        ensures
            match r {
                Some(rule) => self@.contains_key(k@) && *rule == self@[k@],
                None => !self@.contains_key(k@),
            },
    {
        let key = k.to_owned();
        let n = self.entries.len();
        let mut i: usize = 0;
        while i < n
            invariant
                self.wf(),
                n == self.entries@.len(),
                0 <= i <= n,
                key@ == k@,
                forall|j: int| 0 <= j < i ==> self.entries@[j].0@ != k@,
            decreases n - i,
        {
            if self.entries[i].0 == key {
                proof {
                    self.lemma_idx_of(k@, i as int);
                }
                return Some(&self.entries[i].1);
            }
            i = i + 1;
        }
        None
    }

    /// Register a rule under a name, replacing and returning any rule the
    /// name held before.
    pub fn put(&mut self, name: &str, v: Rule) -> (r: Option<Rule>)
        requires
            old(self).wf(),
        ensures
            final(self).wf(),
            final(self)@ == old(self)@.insert(name@, v),
            match r {
                Some(prev) => old(self)@.contains_key(name@) && prev == old(self)@[name@],
                None => !old(self)@.contains_key(name@),
            },
    {
        let key = String::from_str(name);
        let ghost old_entries = self.entries@;
        let n = self.entries.len();
        let mut i: usize = 0;
        while i < n
            invariant
                self.wf(),
                old(self).wf(),
                self.entries@ == old_entries,
                old_entries == old(self).entries@,
                n == self.entries@.len(),
                0 <= i <= n,
                key@ == name@,
                forall|j: int| 0 <= j < i ==> self.entries@[j].0@ != name@,
            decreases n - i,
        {
            if self.entries[i].0 == key {
                proof {
                    old(self).lemma_idx_of(name@, i as int);
                }
                let mut pair = (key, v);
                self.entries.set_and_swap(i, &mut pair);
                proof {
                    // Name views are unchanged position by position, so both
                    // uniqueness and every lookup witness carry over.
                    assert(forall|j: int|
                        0 <= j < self.entries@.len() ==> self.entries@[j].0@
                            == old_entries[j].0@);
                    assert forall|m: Seq<char>|
                        old(self)@.insert(name@, v).dom().contains(m)
                            == self@.dom().contains(m) by {
                        if old(self).has_name(m) {
                            old(self).lemma_at(m);
                            let w = old(self).idx_of(m);
                            assert(self.entries@[w].0@ == m);
                        }
                        if self.has_name(m) {
                            self.lemma_at(m);
                            let w = self.idx_of(m);
                            assert(old_entries[w].0@ == m);
                        }
                    }
                    assert forall|m: Seq<char>| self@.dom().contains(m) implies self@[m]
                        == old(self)@.insert(name@, v)[m] by {
                        self.lemma_at(m);
                        let w = self.idx_of(m);
                        self.lemma_idx_of(m, w);
                        if m == name@ {
                            self.lemma_idx_of(name@, i as int);
                        } else {
                            assert(w != i as int);
                            old(self).lemma_idx_of(m, w);
                        }
                    }
                    assert(old(self)@.insert(name@, v) =~= self@);
                }
                return Some(pair.1);
            }
            i = i + 1;
        }
        self.entries.push((key, v));
        proof {
            let last = self.entries@.len() - 1;
            assert(forall|j: int| 0 <= j < old_entries.len() ==> self.entries@[j]
                == old_entries[j]);
            assert(self.entries@[last] == (key, v));
            assert forall|m: Seq<char>|
                old(self)@.insert(name@, v).dom().contains(m) == self@.dom().contains(
                    m,
            ) by {
                if old(self).has_name(m) {
                    let w = old(self).idx_of(m);
                    assert(self.entries@[w].0@ == m);
                }
                if self.has_name(m) {
                    let w = self.idx_of(m);
                    if w < last {
                        assert(old_entries[w].0@ == m);
                    }
                }
            }
            assert forall|m: Seq<char>| self@.dom().contains(m) implies self@[m]
                == old(self)@.insert(name@, v)[m] by {
                let w = self.idx_of(m);
                assert(0 <= w < self.entries@.len() && self.entries@[w].0@ == m);
                self.lemma_idx_of(m, w);
                if m == name@ {
                    self.lemma_idx_of(name@, last);
                } else {
                    assert(w != last);
                    old(self).lemma_idx_of(m, w);
                }
            }
            assert(old(self)@.insert(name@, v) =~= self@);
        }
        None
    }
}

impl View for Grammar {
    type V = Map<Seq<char>, Rule>;

    closed spec fn view(&self) -> Map<Seq<char>, Rule> {
        Map::new(|n: Seq<char>| self.has_name(n), |n: Seq<char>| self.entries@[self.idx_of(n)].1)
    }
}

} // verus!
