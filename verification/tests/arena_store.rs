use yakui_core::arena::Arena;

#[test]
fn insert_then_get_returns_the_value() {
    let mut arena: Arena<u32> = Arena::new();
    let a = arena.insert(11);
    let b = arena.insert(22);
    assert_ne!(a, b);
    assert_eq!(arena.get(a), Some(&11));
    assert_eq!(arena.get(b), Some(&22));
}

#[test]
fn removed_identifier_is_stale_even_after_slot_reuse() {
    let mut arena: Arena<u32> = Arena::new();
    let a = arena.insert(11);
    assert_eq!(arena.remove(a), Some(11));
    assert_eq!(arena.get(a), None);
    assert_eq!(arena.remove(a), None);

    // The next insert reuses the freed slot under a newer generation: the
    // old identifier stays dead and never aliases the new occupant.
    let b = arena.insert(33);
    assert_eq!(b.index, a.index);
    assert_ne!(a, b);
    assert_eq!(arena.get(a), None);
    assert_eq!(arena.get(b), Some(&33));
}

#[test]
fn replace_keeps_the_identifier_valid() {
    let mut arena: Arena<u32> = Arena::new();
    let a = arena.insert(5);
    assert_eq!(arena.replace(a, 6), Some(5));
    assert_eq!(arena.get(a), Some(&6));
    let stale = yakui_core::arena::Id { index: a.index, generation: a.generation + 1 };
    assert_eq!(arena.replace(stale, 9), None);
    assert_eq!(arena.get(a), Some(&6));
}

#[test]
fn id_at_walks_live_slots() {
    let mut arena: Arena<u32> = Arena::new();
    let a = arena.insert(1);
    let b = arena.insert(2);
    arena.remove(a);
    assert_eq!(arena.slot_count(), 2);
    assert_eq!(arena.id_at(a.index), None);
    assert_eq!(arena.id_at(b.index), Some(b));
    assert_eq!(arena.id_at(99), None);
}
