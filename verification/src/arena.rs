//! An arena of write-once slots with forward references.
//!
//! A slot is reserved first and filled later, so a node can embed a handle to
//! a node whose value is not yet known.  This is the primitive that lets the
//! graph builder represent recursive rules: the handle for a rule is available
//! while the rule's own item is still under construction.

use vstd::prelude::*;

verus! {

/// The owning store for values of one build.  Each slot is either still
/// pending (`None`) or filled exactly once (`Some`).
pub struct ForwardArena<T> {
    slots: Vec<Option<T>>,
}

/// A copyable read handle to one slot of a `ForwardArena`.
#[derive(Clone, Copy, PartialEq, Eq, Structural, Debug)]
pub struct ForwardRef {
    pub index: usize,
}

/// The right to fill one reserved slot.  It is not copyable, and filling
/// consumes it, so a slot reserved through `ForwardArena::forward` is filled
/// at most once.
pub struct ForwardCell {
    pub index: usize,
}

impl<T> View for ForwardArena<T> {
    type V = Seq<Option<T>>;

    closed spec fn view(&self) -> Seq<Option<T>> {
        self.slots@
    }
}

impl<T> ForwardArena<T> {
    /// An arena with no slots.
    pub fn new() -> (a: Self)
        ensures
            a@ == Seq::<Option<T>>::empty(),
    {
        ForwardArena { slots: Vec::new() }
    }

    /// How many slots have been reserved.
    pub fn len(&self) -> (n: usize)
        ensures
            n == self@.len(),
    {
        self.slots.len()
    }

    /// Reserve a fresh slot, initially pending.  The returned cell is the
    /// one right to fill it; its `borrow` hands out read handles.
    pub fn forward(&mut self) -> (c: ForwardCell)
        ensures
            final(self)@ == old(self)@.push(None),
            c.index == old(self)@.len(),
    {
        let index = self.slots.len();
        self.slots.push(None);
        ForwardCell { index }
    }
}

impl ForwardRef {
    /// Read the slot this handle points to: its value once filled, `None`
    /// while it is still pending or when the handle misses the arena.
    pub fn get<'a, T>(&self, arena: &'a ForwardArena<T>) -> (r: Option<&'a T>)
        ensures
            match r {
                Some(t) => self.index < arena@.len() && arena@[self.index as int] == Some(*t),
                None => self.index >= arena@.len() || arena@[self.index as int] is None,
            },
    {
        if self.index < arena.slots.len() {
            match &arena.slots[self.index] {
                Some(t) => Some(t),
                None => None,
            }
        } else {
            None
        }
    }
}

impl ForwardCell {
    /// A read handle to the reserved slot, sharing its identity.
    pub fn borrow(&self) -> (r: ForwardRef)
        ensures
            r.index == self.index,
    {
        ForwardRef { index: self.index }
    }

    /// Fill the reserved slot.  The slot must still be pending: a second
    /// fill of one slot is rejected at verification time, so a filled value
    /// is never overwritten.
    pub fn set<T>(self, arena: &mut ForwardArena<T>, t: T) -> (r: ForwardRef)
        requires
            self.index < old(arena)@.len(),
            old(arena)@[self.index as int] is None,
        ensures
            final(arena)@ == old(arena)@.update(self.index as int, Some(t)),
            r.index == self.index,
    {
        arena.slots[self.index] = Some(t);
        ForwardRef { index: self.index }
    }
}

} // verus!
