//! Slot-indexed storage with stable, generation-checked identifiers.
//!
//! The arena owns the engine's nodes and widget instances. Each value gets an
//! [`Id`] that stays valid across frames; removing a value bumps the slot's
//! generation, so an `Id` held after its value was removed is detected as
//! stale: lookups return `None`, never a wrong value and never a panic.

use vstd::prelude::*;
use vstd::pervasive::VecAdditionalExecFns;

verus! {

/// A stable identifier: the slot's index plus the generation the slot had
/// when the identifier was issued. Once issued, an `Id` refers to at most
/// one logical value; a reused slot carries a newer generation, so a stale
/// `Id` never aliases the slot's next occupant.
#[derive(Clone, Copy, PartialEq, Eq, Hash, Structural, Debug)]
pub struct Id {
    pub index: usize,
    pub generation: u64,
}

struct Slot<T> {
    generation: u64,
    value: Option<T>,
}

/// Generational arena. Its view is the map from live identifiers to the
/// values they name; `issued_ids()` is the set of every identifier the arena
/// has ever handed out, which lets callers state that a fresh identifier
/// differs from anything they saw before.
pub struct Arena<T> {
    slots: Vec<Slot<T>>,
    free: Vec<usize>,
    issued: Ghost<Set<Id>>,
}

impl<T> View for Arena<T> {
    type V = Map<Id, T>;

    closed spec fn view(&self) -> Map<Id, T> {
        Map::new(|id: Id| self.live(id), |id: Id| self.slots@[id.index as int].value->0)
    }
}

impl<T> Arena<T> {
    pub closed spec fn live(&self, id: Id) -> bool {
        &&& id.index < self.slots@.len()
        &&& self.slots@[id.index as int].generation == id.generation
        &&& self.slots@[id.index as int].value is Some
    }

    /// Every identifier this arena ever issued.
    pub closed spec fn issued_ids(&self) -> Set<Id> {
        self.issued@
    }

    pub closed spec fn spec_slot_count(&self) -> nat {
        self.slots@.len()
    }

    #[verifier::opaque]
    pub closed spec fn inv(&self) -> bool {
        &&& forall|i: int|
            0 <= i < self.free@.len() ==> (#[trigger] self.free@[i]) < self.slots@.len()
                && self.slots@[self.free@[i] as int].value is None
        &&& forall|i: int, j: int|
            #![trigger self.free@[i], self.free@[j]]
            0 <= i < j < self.free@.len() ==> self.free@[i] != self.free@[j]
        &&& forall|id: Id|
            #[trigger] self.issued@.contains(id) ==> id.index < self.slots@.len()
                && id.generation <= self.slots@[id.index as int].generation
        &&& forall|id: Id|
            self.issued@.contains(id) && #[trigger] self.free@.contains(id.index)
                ==> id.generation < self.slots@[id.index as int].generation
        &&& forall|id: Id| #[trigger] self.live(id) ==> self.issued@.contains(id)
    }

    /// Every live identifier's index lies below the slot count.
    pub proof fn lemma_dom_index_bound(&self)
        ensures
            forall|id: Id|
                #[trigger] self@.dom().contains(id) ==> id.index < self.spec_slot_count(),
    {
    }

    /// Live identifiers were issued.
    pub proof fn lemma_live_issued(&self, id: Id)
        requires
            self.inv(),
            self@.dom().contains(id),
        ensures
            self.issued_ids().contains(id),
    {
        reveal(Arena::inv);
    }

    /// Distinct live identifiers occupy distinct slots: a slot holds one
    /// generation at a time.
    pub proof fn lemma_index_injective(&self)
        ensures
            forall|a: Id, b: Id|
                #![trigger self@.dom().contains(a), self@.dom().contains(b)]
                self@.dom().contains(a) && self@.dom().contains(b) && a != b ==> a.index
                    != b.index,
    {
    }

    /// Every live identifier was issued.
    pub proof fn lemma_dom_sub_issued(&self)
        requires
            self.inv(),
        ensures
            forall|id: Id|
                #[trigger] self@.dom().contains(id) ==> self.issued_ids().contains(id),
    {
        reveal(Arena::inv);
    }

    pub fn new() -> (r: Arena<T>)
        ensures
            r.inv(),
            r@ == Map::<Id, T>::empty(),
            r.issued_ids() == Set::<Id>::empty(),
    {
        let r = Arena { slots: Vec::new(), free: Vec::new(), issued: Ghost(Set::empty()) };
        proof {
            reveal(Arena::inv);
            assert(r@ =~= Map::<Id, T>::empty());
        }
        r
    }

    /// Store `value` and issue a fresh identifier for it: one that was never
    /// issued before, by this arena, for any value.
    pub fn insert(&mut self, value: T) -> (r: Id)
        requires
            old(self).inv(),
        ensures
            final(self).inv(),
            !old(self).issued_ids().contains(r),
            !old(self)@.dom().contains(r),
            final(self).issued_ids() == old(self).issued_ids().insert(r),
            final(self)@ == old(self)@.insert(r, value),
            final(self).spec_slot_count() >= old(self).spec_slot_count(),
    {
        proof {
            reveal(Arena::inv);
        }
        let popped = self.free.pop();
        match popped {
            Some(idx) => {
                let g = self.slots[idx].generation;
                self.slots.set(idx, Slot { generation: g, value: Some(value) });
                let id = Id { index: idx, generation: g };
                proof {
                    self.issued@ = self.issued@.insert(id);
                    assert(old(self).free@.contains(idx));
                    assert forall|k: Id| self.live(k) implies self.issued@.contains(k) by {
                        if k != id {
                            assert(old(self).live(k));
                        }
                    }
                    assert forall|k: Id|
                        self.issued@.contains(k) && self.free@.contains(k.index) implies k
                        .generation < self.slots@[k.index as int].generation by {
                        assert(old(self).free@.contains(k.index));
                    }
                    assert(self@ =~= old(self)@.insert(id, value));
                }
                id
            },
            None => {
                let idx = self.slots.len();
                self.slots.push(Slot { generation: 0, value: Some(value) });
                let id = Id { index: idx, generation: 0 };
                proof {
                    self.issued@ = self.issued@.insert(id);
                    assert forall|k: Id| self.live(k) implies self.issued@.contains(k) by {
                        if k != id {
                            assert(old(self).live(k));
                        }
                    }
                    assert(self@ =~= old(self)@.insert(id, value));
                }
                id
            },
        }
    }

    /// Look `id` up; a stale or unknown identifier yields `None`.
    pub fn get(&self, id: Id) -> (r: Option<&T>)
        ensures
            match r {
                Some(v) => self@.dom().contains(id) && *v == self@[id],
                None => !self@.dom().contains(id),
            },
    {
        if id.index < self.slots.len() {
            let slot = &self.slots[id.index];
            if slot.generation == id.generation {
                match &slot.value {
                    Some(v) => Some(v),
                    None => None,
                }
            } else {
                None
            }
        } else {
            None
        }
    }

    /// Replace the value a live `id` names, keeping the identifier valid;
    /// on a stale or unknown identifier nothing changes and the new value is
    /// dropped.
    pub fn replace(&mut self, id: Id, value: T) -> (r: Option<T>)
        requires
            old(self).inv(),
        ensures
            final(self).inv(),
            final(self).issued_ids() == old(self).issued_ids(),
            final(self).spec_slot_count() == old(self).spec_slot_count(),
            old(self)@.dom().contains(id) ==> r == Some(old(self)@[id]) && final(self)@ == old(
                self)@.insert(id, value),
            !old(self)@.dom().contains(id) ==> r is None && final(self)@ == old(self)@,
    {
        proof {
            reveal(Arena::inv);
        }
        if id.index < self.slots.len() {
            let live_here = self.slots[id.index].generation == id.generation
                && self.slots[id.index].value.is_some();
            if live_here {
                let mut tmp = Slot { generation: id.generation, value: Some(value) };
                self.slots.set_and_swap(id.index, &mut tmp);
                proof {
                    assert forall|k: Id| self.live(k) implies self.issued@.contains(k) by {
                        if k.index != id.index {
                            assert(old(self).live(k));
                        } else {
                            assert(old(self).live(k));
                        }
                    }
                    assert(self@ =~= old(self)@.insert(id, value));
                }
                match tmp.value {
                    Some(v) => Some(v),
                    None => None,
                }
            } else {
                proof {
                    assert(self@ =~= old(self)@);
                }
                None
            }
        } else {
            proof {
                assert(self@ =~= old(self)@);
            }
            None
        }
    }

    /// Remove the value a live `id` names and return it; the slot's
    /// generation moves on, so `id` is stale from here on. A stale or
    /// unknown identifier yields `None` and changes nothing.
    pub fn remove(&mut self, id: Id) -> (r: Option<T>)
        requires
            old(self).inv(),
        ensures
            final(self).inv(),
            final(self).issued_ids() == old(self).issued_ids(),
            final(self).spec_slot_count() == old(self).spec_slot_count(),
            old(self)@.dom().contains(id) ==> r == Some(old(self)@[id]) && final(self)@ == old(
                self)@.remove(id),
            !old(self)@.dom().contains(id) ==> r is None && final(self)@ == old(self)@,
    {
        proof {
            reveal(Arena::inv);
        }
        if id.index < self.slots.len() {
            let live_here = self.slots[id.index].generation == id.generation
                && self.slots[id.index].value.is_some();
            if live_here {
                let next_gen: u64 = if id.generation < u64::MAX {
                    id.generation + 1
                } else {
                    id.generation
                };
                let mut tmp = Slot { generation: next_gen, value: None };
                self.slots.set_and_swap(id.index, &mut tmp);
                if id.generation < u64::MAX {
                    proof {
                        assert(!old(self).free@.contains(id.index));
                    }
                    self.free.push(id.index);
                }
                proof {
                    assert forall|k: Id| self.live(k) implies self.issued@.contains(k) by {
                        assert(old(self).live(k));
                    }
                    assert forall|k: Id|
                        self.issued@.contains(k) && self.free@.contains(k.index) implies k
                        .generation < self.slots@[k.index as int].generation by {
                        if k.index != id.index {
                            assert(old(self).free@.contains(k.index));
                        }
                    }
                    assert(self@ =~= old(self)@.remove(id));
                }
                match tmp.value {
                    Some(v) => Some(v),
                    None => None,
                }
            } else {
                proof {
                    assert(self@ =~= old(self)@);
                }
                None
            }
        } else {
            proof {
                assert(self@ =~= old(self)@);
            }
            None
        }
    }

    /// How many slots the arena holds, live or free; an upper bound on the
    /// number of live values and the range of `id_at`.
    pub fn slot_count(&self) -> (r: usize)
        ensures
            r == self.spec_slot_count(),
    {
        self.slots.len()
    }

    /// The live identifier occupying slot `i`, if any. Together with
    /// `slot_count` this walks every live value in slot order.
    pub fn id_at(&self, i: usize) -> (r: Option<Id>)
        ensures
            match r {
                Some(id) => self@.dom().contains(id) && id.index == i && forall|k: Id|
                    self@.dom().contains(k) && k.index == i ==> k == id,
                None => forall|k: Id| self@.dom().contains(k) ==> k.index != i,
            },
    {
        if i < self.slots.len() {
            let slot = &self.slots[i];
            if slot.value.is_some() {
                Some(Id { index: i, generation: slot.generation })
            } else {
                None
            }
        } else {
            None
        }
    }
}

} // verus!
