//! A sparse, slot-indexed store of the components of one type.

use vstd::prelude::*;
use crate::entity::Entity;

verus! {

/// One occupied slot: the entity that owns the value, and the value.
#[derive(Debug)]
struct Slot<T> {
    entity: Entity,
    value: T,
}

/// Maps entities to at most one component of type `T` each.
///
/// Values are kept by slot index, so a list never holds entries for two
/// entities that share an index, and it is walked in slot order.
#[derive(Debug)]
pub struct ComponentList<T> {
    slots: Vec<Option<Slot<T>>>,
}

/// Some entity other than `e` with the index of `e` has an entry in `m`.
pub open spec fn index_taken_by_other<T>(m: Map<Entity, T>, e: Entity) -> bool {
    exists|o: Entity| #[trigger] m.contains_key(o) && o.index == e.index && o != e
}

/// No two entries of `m` belong to entities with the same index.
pub open spec fn one_per_index<T>(m: Map<Entity, T>) -> bool {
    forall|a: Entity, b: Entity|
        #[trigger] m.contains_key(a) && #[trigger] m.contains_key(b) && a.index == b.index ==> a == b
}

/// `entries` walks `m` in slot order: indices strictly increase, every pair
/// is an entry of `m`, and every entry of `m` occurs.
pub open spec fn in_slot_order<T>(entries: Seq<(Entity, T)>, m: Map<Entity, T>) -> bool {
    &&& forall|i: int, j: int|
        0 <= i < j < entries.len() ==> (#[trigger] entries[i]).0.index < (#[trigger] entries[j]).0.index
    &&& forall|i: int|
        0 <= i < entries.len() ==> m.contains_key((#[trigger] entries[i]).0) && m[entries[i].0]
            == entries[i].1
    &&& forall|e: Entity| #[trigger]
        m.contains_key(e) ==> exists|i: int| 0 <= i < entries.len() && (#[trigger] entries[i]).0 == e
}

impl<T> ComponentList<T> {
    spec fn holds(&self, e: Entity) -> bool {
        &&& (e.index as int) < self.slots@.len()
        &&& self.slots@[e.index as int] is Some
        &&& self.slots@[e.index as int].unwrap().entity == e
    }

    /// The entries of the list, as a map from entity to component.
    pub closed spec fn view(&self) -> Map<Entity, T> {
        Map::new(|e: Entity| self.holds(e), |e: Entity| self.slots@[e.index as int].unwrap().value)
    }

    /// Every occupied slot belongs to an entity with that slot's index.
    pub closed spec fn wf(&self) -> bool {
        forall|i: int|
            0 <= i < self.slots@.len() && (#[trigger] self.slots@[i]) is Some
                ==> self.slots@[i].unwrap().entity.index == i
    }

    /// A list holds at most one entry per slot index.
    pub proof fn lemma_one_per_index(&self)
        ensures
            one_per_index(self@),
    {
    }

    /// An empty list.
    pub fn new() -> (list: Self)
        ensures
            list.wf(),
            list@ == Map::<Entity, T>::empty(),
    {
        let list = ComponentList { slots: Vec::new() };
        assert(list@ =~= Map::<Entity, T>::empty());
        list
    }

    /// The component of `e`, if it has one. A stale handle finds nothing.
    pub fn get(&self, e: &Entity) -> (found: Option<&T>)
        requires
            self.wf(),
        ensures
            found is Some == self@.contains_key(*e),
            found is Some ==> *found.unwrap() == self@[*e],
    {
        let i = e.index as usize;
        if i < self.slots.len() {
            match &self.slots[i] {
                Some(slot) => {
                    if slot.entity.generation == e.generation {
                        Some(&slot.value)
                    } else {
                        None
                    }
                },
                None => None,
            }
        } else {
            None
        }
    }

    /// The component of `e` for writing, if it has one. A stale handle
    /// finds nothing. What the caller writes through the reference is the
    /// component of `e` afterwards; nothing else in the list changes.
    pub fn get_mut(&mut self, e: &Entity) -> (found: Option<&mut T>)
        requires
            old(self).wf(),
        ensures
            found is Some == old(self)@.contains_key(*e),
            found is Some ==> *found.unwrap() == old(self)@[*e] && final(self)@ == old(self)@.insert(
                *e,
                *final(found.unwrap()),
            ),
            found is None ==> final(self)@ == old(self)@,
            final(self).wf(),
    {
        let i = e.index as usize;
        if i < self.slots.len() {
            match &mut self.slots[i] {
                Some(slot) => {
                    if slot.entity.generation == e.generation {
                        Some(&mut slot.value)
                    } else {
                        None
                    }
                },
                None => None,
            }
        } else {
            None
        }
    }

    /// Whether `e` has a component in this list.
    pub fn contains(&self, e: &Entity) -> (present: bool)
        requires
            self.wf(),
        ensures
            present == self@.contains_key(*e),
    {
        self.get(e).is_some()
    }

    /// Gives `e` the component `value` and returns the one it had before.
    ///
    /// Where the slot of `e` is held by another generation of that slot, `e`
    /// cannot be the live entity there: the list is left as it was and `value`
    /// is dropped.
    pub fn insert(&mut self, e: Entity, value: T) -> (previous: Option<T>)
        requires
            old(self).wf(),
        ensures
            final(self).wf(),
            index_taken_by_other(old(self)@, e) ==> final(self)@ == old(self)@ && previous is None,
            !index_taken_by_other(old(self)@, e) ==> final(self)@ == old(self)@.insert(e, value)
                && previous == old(self)@.get(e),
    {
        let i = e.index as usize;
        while self.slots.len() <= i
            invariant
                self.wf(),
                self@ == old(self)@,
                i == e.index as usize,
            decreases i + 1 - self.slots.len(),
        {
            let ghost before = *self;
            self.slots.push(None);
            assert(self@ =~= before@);
        }
        let ghost before = *self;
        let conflict = match &self.slots[i] {
            Some(slot) => slot.entity.generation != e.generation,
            None => false,
        };
        if conflict {
            assert(before@.contains_key(before.slots@[i as int].unwrap().entity));
            None
        } else {
            let mut cell = Some(Slot { entity: e, value });
            self.slots.set_and_swap(i, &mut cell);
            assert(self@ =~= before@.insert(e, value));
            assert(!index_taken_by_other(before@, e)) by {
                if index_taken_by_other(before@, e) {
                    let o = choose|o: Entity| #[trigger]
                        before@.contains_key(o) && o.index == e.index && o != e;
                    assert(before.slots@[i as int].unwrap().entity == o);
                }
            }
            match cell {
                Some(slot) => Some(slot.value),
                None => None,
            }
        }
    }

    /// Takes the component of `e` out of the list and returns it.
    pub fn remove(&mut self, e: &Entity) -> (removed: Option<T>)
        requires
            old(self).wf(),
        ensures
            final(self).wf(),
            final(self)@ == old(self)@.remove(*e),
            removed == old(self)@.get(*e),
    {
        let ghost before = *self;
        if self.contains(e) {
            let mut cell = None;
            self.slots.set_and_swap(e.index as usize, &mut cell);
            assert(self@ =~= before@.remove(*e));
            match cell {
                Some(slot) => Some(slot.value),
                None => None,
            }
        } else {
            assert(self@ =~= before@.remove(*e));
            None
        }
    }

    /// The entries of the list in slot order.
    pub fn iter(&self) -> (entries: Vec<(Entity, &T)>)
        requires
            self.wf(),
        ensures
            in_slot_order(entries@.map_values(|p: (Entity, &T)| (p.0, *p.1)), self@),
    {
        let mut entries: Vec<(Entity, &T)> = Vec::new();
        let mut i: usize = 0;
        while i < self.slots.len()
            invariant
                self.wf(),
                i <= self.slots.len(),
                forall|a: int, b: int|
                    0 <= a < b < entries.len() ==> (#[trigger] entries[a]).0.index < (
                    #[trigger] entries[b]).0.index,
                forall|a: int|
                    0 <= a < entries.len() ==> (#[trigger] entries[a]).0.index < i && self@.contains_key(
                        entries[a].0,
                    ) && self@[entries[a].0] == *entries[a].1,
                forall|e: Entity| #[trigger]
                    self@.contains_key(e) && e.index < i ==> exists|a: int|
                        0 <= a < entries.len() && (#[trigger] entries[a]).0 == e,
            decreases self.slots.len() - i,
        {
            let ghost prior = entries@;
            match &self.slots[i] {
                Some(slot) => {
                    entries.push((slot.entity, &slot.value));
                    assert forall|e: Entity| #[trigger]
                        self@.contains_key(e) && e.index < i + 1 implies exists|a: int|
                        0 <= a < entries.len() && (#[trigger] entries[a]).0 == e by {
                        if e.index < i {
                            let a = choose|a: int| 0 <= a < prior.len() && (#[trigger] prior[a]).0 == e;
                            assert(entries[a].0 == e);
                        } else {
                            assert(entries[entries.len() - 1].0 == e);
                        }
                    }
                },
                None => {},
            }
            i += 1;
        }
        proof {
            let mapped = entries@.map_values(|p: (Entity, &T)| (p.0, *p.1));
            assert forall|e: Entity| #[trigger] self@.contains_key(e) implies exists|a: int|
                0 <= a < mapped.len() && (#[trigger] mapped[a]).0 == e by {
                let a = choose|a: int| 0 <= a < entries.len() && (#[trigger] entries[a]).0 == e;
                assert(mapped[a].0 == e);
            }
        }
        entries
    }
}

} // verus!
