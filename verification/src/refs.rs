//! Reference wrappers distinguishing the two notions of identity the
//! deduplication refinement cares about: a `ShallowRef` stands for one
//! particular referent, while a `DeepRef` stands for its content.

use vstd::prelude::*;

verus! {

/// A copyable wrapper around a reference that stands for one particular
/// referent, not for what that referent contains.
pub struct ShallowRef<'a, T: 'a + ?Sized> {
    pub val: &'a T,
}

impl<'a, T: ?Sized> ShallowRef<'a, T> {
    pub fn new(val: &'a T) -> (r: Self)
        ensures
            r.val == val,
    {
        ShallowRef { val }
    }

    /// Reborrow for a shorter lifetime, keeping the same referent.
    pub fn borrow<'b>(this: &'b mut ShallowRef<'a, T>) -> (r: ShallowRef<'b, T>)
        ensures
            *final(this) == *old(this),
            r.val == final(this).val,
    {
        ShallowRef { val: this.val }
    }
}

impl<'a, T: ?Sized> Clone for ShallowRef<'a, T> {
    fn clone(&self) -> (r: Self)
        ensures
            r == self,
    {
        ShallowRef { val: self.val }
    }
}

impl<'a, T: ?Sized> Copy for ShallowRef<'a, T> {

}

/// A copyable wrapper around a reference that stands for its referent's
/// content: two `DeepRef`s are interchangeable when the values they point
/// at are equal, wherever those values live.
pub struct DeepRef<'a, T: 'a + ?Sized> {
    pub val: &'a T,
}

impl<'a, T: ?Sized> DeepRef<'a, T> {
    pub fn new(val: &'a T) -> (r: Self)
        ensures
            r.val == val,
    {
        DeepRef { val }
    }

    /// Reborrow for a shorter lifetime, keeping the same referent.
    pub fn borrow<'b>(this: &'b mut DeepRef<'a, T>) -> (r: DeepRef<'b, T>)
        ensures
            *final(this) == *old(this),
            r.val == final(this).val,
    {
        DeepRef { val: this.val }
    }
}

impl<'a, T: ?Sized> Clone for DeepRef<'a, T> {
    fn clone(&self) -> (r: Self)
        ensures
            r == self,
    {
        DeepRef { val: self.val }
    }
}

impl<'a, T: ?Sized> Copy for DeepRef<'a, T> {

}

} // verus!
