//! Entity handles and the allocator that issues them.

use vstd::prelude::*;

verus! {

/// A handle to a live object: a slot index and the generation of that slot
/// at the time the handle was issued.
#[derive(Clone, Copy, Debug, PartialEq, Eq, Structural, Hash)]
pub struct Entity {
    pub index: u32,
    pub generation: u32,
}

impl Entity {
    /// Builds a handle from its two parts.
    pub fn new(index: u32, generation: u32) -> (e: Entity)
        ensures
            e == (Entity { index, generation }),
    {
        Entity { index, generation }
    }
}

/// The error of destroying a handle that is not live.
#[derive(Clone, Copy, Debug, PartialEq, Eq, Structural)]
pub struct InvalidHandle {
    pub entity: Entity,
}

/// The last generation at which a slot can still be handed out again: one
/// bump makes it live, a second one retires it for good.
pub const LAST_REUSABLE_GENERATION: u32 = 0xffff_fffc;

/// The most slots an allocator ever holds.
pub const MAX_SLOTS: u32 = 0xffff_ffff;

/// The mathematical state of an allocator.
///
/// A slot is live while its generation is odd. Creating an entity bumps the
/// generation of its slot from even to odd, destroying it bumps it from odd
/// to even, so a generation never comes back.
pub struct AllocatorState {
    /// The current generation of every slot.
    pub generations: Seq<u32>,
    /// The dead slots that can be handed out again, most recently freed last.
    pub free: Seq<u32>,
}

impl AllocatorState {
    /// The state of an allocator that has issued nothing yet.
    pub open spec fn empty() -> AllocatorState {
        AllocatorState { generations: Seq::empty(), free: Seq::empty() }
    }

    /// No slot has run past its last generation, and the free slots are
    /// dead slots that can be handed out again, each listed once.
    pub open spec fn wf(self) -> bool {
        &&& self.generations.len() <= MAX_SLOTS
        &&& forall|i: int|
            0 <= i < self.generations.len() ==> 1 <= #[trigger] self.generations[i] <= LAST_REUSABLE_GENERATION
                + 2
        &&& forall|k: int|
            0 <= k < self.free.len() ==> {
                &&& (#[trigger] self.free[k] as int) < self.generations.len()
                &&& self.generations[self.free[k] as int] % 2 == 0
                &&& self.generations[self.free[k] as int] <= LAST_REUSABLE_GENERATION
            }
        &&& forall|k: int, l: int|
            0 <= k < l < self.free.len() ==> #[trigger] self.free[k] != #[trigger] self.free[l]
    }

    /// `e` names the entity that currently lives in its slot.
    pub open spec fn is_live(self, e: Entity) -> bool {
        &&& (e.index as int) < self.generations.len()
        &&& self.generations[e.index as int] == e.generation
        &&& e.generation % 2 == 1
    }

    /// `e` may have been handed out at some time up to now: its slot exists
    /// and has reached the generation of `e`.
    pub open spec fn was_issued(self, e: Entity) -> bool {
        &&& (e.index as int) < self.generations.len()
        &&& e.generation <= self.generations[e.index as int]
    }

    /// The live entity in slot `index`, if there is one.
    pub open spec fn live_at(self, index: int) -> Option<Entity> {
        if 0 <= index < self.generations.len() && self.generations[index] % 2 == 1 {
            Some(Entity { index: index as u32, generation: self.generations[index] })
        } else {
            None
        }
    }

    /// Another entity can be created.
    pub open spec fn has_capacity(self) -> bool {
        self.free.len() > 0 || self.generations.len() < MAX_SLOTS
    }

    /// The handle that the next creation issues: the most recently freed slot
    /// at its next generation, or a new slot where none is free.
    pub open spec fn next_entity(self) -> Entity {
        if self.free.len() > 0 {
            Entity {
                index: self.free.last(),
                generation: (self.generations[self.free.last() as int] + 1) as u32,
            }
        } else {
            Entity { index: self.generations.len() as u32, generation: 1 }
        }
    }

    /// The state after creating `self.next_entity()`.
    pub open spec fn create(self) -> AllocatorState {
        if self.free.len() > 0 {
            AllocatorState {
                generations: self.generations.update(
                    self.free.last() as int,
                    self.next_entity().generation,
                ),
                free: self.free.drop_last(),
            }
        } else {
            AllocatorState { generations: self.generations.push(1), free: self.free }
        }
    }

    /// The state after destroying the live entity `e`. Its slot goes back to
    /// the free slots unless it has run out of generations.
    pub open spec fn destroy(self, e: Entity) -> AllocatorState {
        let dead = (e.generation + 1) as u32;
        AllocatorState {
            generations: self.generations.update(e.index as int, dead),
            free: if dead <= LAST_REUSABLE_GENERATION {
                self.free.push(e.index)
            } else {
                self.free
            },
        }
    }

    /// Creation issues a handle that was never issued before, makes it live,
    /// and leaves every other handle as it was.
    pub proof fn lemma_create(self)
        requires
            self.wf(),
            self.has_capacity(),
        ensures
            self.create().wf(),
            !self.was_issued(self.next_entity()),
            self.create().is_live(self.next_entity()),
            forall|h: Entity|
                h != self.next_entity() ==> #[trigger] self.create().is_live(h) == self.is_live(h),
            forall|h: Entity| #[trigger] self.was_issued(h) ==> self.create().was_issued(h),
            forall|i: int|
                i != self.next_entity().index ==> #[trigger] self.create().live_at(i) == self.live_at(i),
            self.create().live_at(self.next_entity().index as int) == Some(self.next_entity()),
            self.live_at(self.next_entity().index as int) is None,
            self.create().generations.len() >= self.generations.len(),
    {
        let next = self.create();
        if self.free.len() > 0 {
            let last = self.free.len() - 1;
            assert(self.free[last] == self.free.last());
            assert forall|k: int, l: int| 0 <= k < l < next.free.len() implies #[trigger] next.free[k]
                != #[trigger] next.free[l] by {
                assert(next.free[k] == self.free[k]);
                assert(next.free[l] == self.free[l]);
            }
            assert forall|k: int| 0 <= k < next.free.len() implies {
                &&& (#[trigger] next.free[k] as int) < next.generations.len()
                &&& next.generations[next.free[k] as int] % 2 == 0
                &&& next.generations[next.free[k] as int] <= LAST_REUSABLE_GENERATION
            } by {
                assert(next.free[k] == self.free[k]);
                assert(self.free[k] != self.free[last]);
            }
        }
    }

    /// Destruction makes `e` stale and leaves every other handle as it was.
    pub proof fn lemma_destroy(self, e: Entity)
        requires
            self.wf(),
            self.is_live(e),
        ensures
            self.destroy(e).wf(),
            !self.destroy(e).is_live(e),
            self.destroy(e).was_issued(e),
            forall|h: Entity| h != e ==> #[trigger] self.destroy(e).is_live(h) == self.is_live(h),
            forall|h: Entity| #[trigger] self.was_issued(h) ==> self.destroy(e).was_issued(h),
            forall|i: int| i != e.index ==> #[trigger] self.destroy(e).live_at(i) == self.live_at(i),
            self.destroy(e).live_at(e.index as int) is None,
            self.destroy(e).generations.len() == self.generations.len(),
    {
        let next = self.destroy(e);
        assert forall|k: int, l: int| 0 <= k < l < next.free.len() implies #[trigger] next.free[k]
            != #[trigger] next.free[l] by {
            if l < self.free.len() {
                assert(next.free[k] == self.free[k]);
                assert(next.free[l] == self.free[l]);
            } else {
                assert(next.free[k] == self.free[k]);
            }
        }
        assert forall|k: int| 0 <= k < next.free.len() implies {
            &&& (#[trigger] next.free[k] as int) < next.generations.len()
            &&& next.generations[next.free[k] as int] % 2 == 0
            &&& next.generations[next.free[k] as int] <= LAST_REUSABLE_GENERATION
        } by {
            if k < self.free.len() {
                assert(next.free[k] == self.free[k]);
            }
        }
    }

    /// A handle that was destroyed never comes back: whatever is created
    /// next differs from it, and where it takes the same slot its generation
    /// is strictly greater.
    pub proof fn lemma_reuse_changes_generation(self, old_handle: Entity)
        requires
            self.wf(),
            self.is_live(old_handle),
            self.destroy(old_handle).has_capacity(),
        ensures
            self.destroy(old_handle).next_entity() != old_handle,
            self.destroy(old_handle).next_entity().index == old_handle.index
                ==> self.destroy(old_handle).next_entity().generation > old_handle.generation,
    {
        self.lemma_destroy(old_handle);
        self.destroy(old_handle).lemma_create();
    }

    /// Every handle issued so far differs from the one created next, and
    /// where the two share a slot the new generation is strictly greater.
    pub proof fn lemma_created_handle_is_new(self, earlier: Entity)
        requires
            self.wf(),
            self.has_capacity(),
            self.was_issued(earlier),
        ensures
            self.next_entity() != earlier,
            self.next_entity().index == earlier.index ==> self.next_entity().generation
                > earlier.generation,
    {
        self.lemma_create();
    }
}

/// Issues entity handles and tells live handles from stale ones.
#[derive(Debug)]
pub struct EntityAllocator {
    generations: Vec<u32>,
    free: Vec<u32>,
}

impl EntityAllocator {
    /// The mathematical state of the allocator.
    pub closed spec fn view(&self) -> AllocatorState {
        AllocatorState { generations: self.generations@, free: self.free@ }
    }

    /// The state of the allocator is well formed.
    pub open spec fn wf(&self) -> bool {
        self@.wf()
    }

    /// An allocator that has issued nothing yet.
    pub fn new() -> (allocator: Self)
        ensures
            allocator.wf(),
            allocator@ == AllocatorState::empty(),
    {
        EntityAllocator { generations: Vec::new(), free: Vec::new() }
    }

    /// Whether `e` names a live entity. Handles of other allocators and
    /// handles out of range are simply not live.
    pub fn is_live(&self, e: Entity) -> (live: bool)
        ensures
            live == self@.is_live(e),
    {
        let i = e.index as usize;
        i < self.generations.len() && self.generations[i] == e.generation && e.generation % 2 == 1
    }

    /// Whether another entity can be created.
    pub fn has_capacity(&self) -> (room: bool)
        ensures
            room == self@.has_capacity(),
    {
        self.free.len() > 0 || self.generations.len() < MAX_SLOTS as usize
    }

    /// The number of slots handed out so far, live or not.
    pub fn slot_count(&self) -> (count: usize)
        ensures
            count == self@.generations.len(),
    {
        self.generations.len()
    }

    /// The live entity in slot `index`, if there is one.
    pub fn live_at(&self, index: usize) -> (found: Option<Entity>)
        requires
            self.wf(),
        ensures
            found == self@.live_at(index as int),
    {
        if index < self.generations.len() && self.generations[index] % 2 == 1 {
            Some(Entity { index: index as u32, generation: self.generations[index] })
        } else {
            None
        }
    }

    /// Creates an entity: a handle that no live entity has and that was
    /// never issued before.
    pub fn create(&mut self) -> (e: Entity)
        requires
            old(self).wf(),
            old(self)@.has_capacity(),
        ensures
            final(self).wf(),
            e == old(self)@.next_entity(),
            final(self)@ == old(self)@.create(),
            !old(self)@.was_issued(e),
            final(self)@.is_live(e),
            forall|h: Entity| h != e ==> #[trigger] final(self)@.is_live(h) == old(self)@.is_live(h),
    {
        proof {
            self@.lemma_create();
        }
        match self.free.pop() {
            Some(index) => {
                let generation = self.generations[index as usize] + 1;
                self.generations.set(index as usize, generation);
                Entity { index, generation }
            },
            None => {
                let index = self.generations.len() as u32;
                self.generations.push(1);
                Entity { index, generation: 1 }
            },
        }
    }

    /// Destroys the entity `e`, which makes every copy of the handle stale.
    /// Fails, and changes nothing, where `e` is stale already.
    pub fn destroy(&mut self, e: Entity) -> (outcome: Result<(), InvalidHandle>)
        requires
            old(self).wf(),
        ensures
            final(self).wf(),
            outcome is Ok == old(self)@.is_live(e),
            outcome is Ok ==> final(self)@ == old(self)@.destroy(e),
            outcome is Err ==> final(self)@ == old(self)@ && outcome == Err::<(), InvalidHandle>(
                InvalidHandle { entity: e },
            ),
            !final(self)@.is_live(e),
            forall|h: Entity| h != e ==> #[trigger] final(self)@.is_live(h) == old(self)@.is_live(h),
    {
        if !self.is_live(e) {
            return Err(InvalidHandle { entity: e });
        }
        proof {
            self@.lemma_destroy(e);
        }
        let dead = e.generation + 1;
        self.generations.set(e.index as usize, dead);
        if dead <= LAST_REUSABLE_GENERATION {
            self.free.push(e.index);
        }
        Ok(())
    }
}

} // verus!
