use grammar_items::arena::{ForwardArena, ForwardRef};
use grammar_items::refs::{DeepRef, ShallowRef};

#[test]
fn a_slot_reads_none_until_it_is_set() {
    let mut arena: ForwardArena<i32> = ForwardArena::new();
    let cell = arena.forward();
    let handle = cell.borrow();
    assert!(handle.get(&arena).is_none());
    cell.set(&mut arena, 41);
    assert_eq!(handle.get(&arena), Some(&41));
}

#[test]
fn handles_keep_their_identity_across_later_slots() {
    let mut arena: ForwardArena<i32> = ForwardArena::new();
    let first = arena.forward();
    let first_handle = first.borrow();
    let second = arena.forward();
    second.set(&mut arena, 2);
    first.set(&mut arena, 1);
    assert_eq!(first_handle.get(&arena), Some(&1));
    assert_eq!(arena.len(), 2);
}

#[test]
fn a_handle_outside_the_arena_reads_none() {
    let arena: ForwardArena<i32> = ForwardArena::new();
    let stray = ForwardRef { index: 7 };
    assert!(stray.get(&arena).is_none());
}

#[test]
fn reference_wrappers_expose_their_referent() {
    let value: u64 = 12;
    let mut deep = DeepRef::new(&value);
    assert_eq!(*deep.val, 12);
    let reborrowed = DeepRef::borrow(&mut deep);
    assert_eq!(*reborrowed.val, 12);

    let mut shallow = ShallowRef::new(&value);
    assert_eq!(*shallow.val, 12);
    let reborrowed = ShallowRef::borrow(&mut shallow);
    assert_eq!(*reborrowed.val, 12);
}
