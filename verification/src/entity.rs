//! Entity identifiers and the registry that allocates and recycles them.

use vstd::prelude::*;

verus! {

/// An opaque identifier for one simulated object. An entity carries no data
/// of its own; `index` names a registry slot and `generation` distinguishes
/// the slot's current occupant from stale identifiers left over after the
/// slot was recycled.
#[derive(Clone, Copy, PartialEq, Eq, Structural, Debug)]
pub struct Entity {
    pub index: usize,
    pub generation: u64,
}

/// Allocates fresh entity identifiers, recycles the slots of destroyed ones,
/// and tracks which identifiers are currently live.
pub struct EntityRegistry {
    /// Current generation of each slot.
    pub gens: Vec<u64>,
    /// Whether each slot currently holds a live entity.
    pub alive: Vec<bool>,
    /// Slots available for recycling; each is dead and listed once.
    pub free: Vec<usize>,
}

impl EntityRegistry {
    /// Structural invariant: the slot arrays run in parallel, and the free
    /// list names only dead slots, each at most once.
    pub open spec fn wf(&self) -> bool {
        &&& self.gens@.len() == self.alive@.len()
        &&& forall|k: int|
            0 <= k < self.free@.len() ==> (#[trigger] self.free@[k]) < self.gens@.len()
                && !self.alive@[self.free@[k] as int]
        &&& forall|k1: int, k2: int|
            0 <= k1 < k2 < self.free@.len() ==> self.free@[k1] != self.free@[k2]
    }

    /// The set of identifiers that are currently live: their slot is marked
    /// alive and their generation is the slot's current one.
    pub open spec fn live(&self) -> Set<Entity> {
        Set::new(
            |e: Entity|
                e.index < self.alive@.len() && self.alive@[e.index as int]
                    && self.gens@[e.index as int] == e.generation,
        )
    }

    /// How many slots have ever been allocated.
    pub open spec fn num_slots(&self) -> int {
        self.gens@.len() as int
    }

    pub fn new() -> (r: EntityRegistry)
        ensures
            r.wf(),
            r.live() == Set::<Entity>::empty(),
            r.num_slots() == 0,
    {
        let r = EntityRegistry { gens: Vec::new(), alive: Vec::new(), free: Vec::new() };
        proof {
            assert(r.live() =~= Set::<Entity>::empty());
        }
        r
    }

    /// Allocates a fresh identifier. The chosen slot was vacant before the
    /// call: no identifier of any generation was live at that index.
    pub fn create(&mut self) -> (e: Entity)
        requires
            old(self).wf(),
        ensures
            final(self).wf(),
            forall|g: u64| !old(self).live().contains(Entity { index: e.index, generation: g }),
            final(self).live() == old(self).live().insert(e),
            e.index < final(self).num_slots(),
            final(self).num_slots() <= old(self).num_slots() + 1,
    {
        match self.free.pop() {
            Some(i) => {
                let g = self.gens[i];
                self.alive.set(i, true);
                let e = Entity { index: i, generation: g };
                proof {
                    assert(self.live() =~= old(self).live().insert(e));
                }
                e
            },
            None => {
                let i = self.gens.len();
                self.gens.push(0);
                self.alive.push(true);
                let e = Entity { index: i, generation: 0 };
                proof {
                    assert(self.live() =~= old(self).live().insert(e));
                }
                e
            },
        }
    }

    /// Marks `e` dead and its slot eligible for recycling. Destroying an
    /// identifier that is already dead, stale, or was never allocated is a
    /// no-op, never a fault.
    pub fn destroy(&mut self, e: Entity)
        requires
            old(self).wf(),
        ensures
            final(self).wf(),
            final(self).live() == old(self).live().remove(e),
            final(self).num_slots() == old(self).num_slots(),
    {
        let was_live = self.is_alive(e);
        if was_live {
            self.alive.set(e.index, false);
            let g = self.gens[e.index];
            if g < u64::MAX {
                // Bump the generation so stale identifiers can never match
                // again, and offer the slot for recycling.
                self.gens.set(e.index, g + 1);
                self.free.push(e.index);
            }
            // A slot whose generation is exhausted is retired: it stays dead
            // forever rather than risking a generation collision.
        }
        proof {
            assert(self.live() =~= old(self).live().remove(e));
        }
    }

    /// Whether `e` denotes the current live occupant of its slot.
    pub fn is_alive(&self, e: Entity) -> (r: bool)
        requires
            self.wf(),
        ensures
            r == self.live().contains(e),
    {
        e.index < self.alive.len() && self.alive[e.index] && self.gens[e.index] == e.generation
    }
}

} // verus!
