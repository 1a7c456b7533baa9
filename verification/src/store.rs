//! Sparse, per-type component storage keyed by entity, and the join queries
//! over several stores.

use vstd::prelude::*;

use crate::entity::Entity;

verus! {

/// One occupied storage slot: the generation of the owning entity and the
/// component value.
pub struct Slot<T> {
    pub gen: u64,
    pub value: T,
}

/// The collection of all components of one type, keyed by entity. A slot per
/// entity index holds at most one value, so an entity has at most one
/// component of each type; the recorded generation keeps values of the
/// slot's previous occupants from leaking to stale identifiers.
pub struct Store<T> {
    pub slots: Vec<Option<Slot<T>>>,
}

/// All identifiers (of any generation) that name the slot `i`.
pub open spec fn keys_at_index(i: int) -> Set<Entity> {
    Set::new(|e: Entity| e.index == i)
}

/// Entity sequences produced by queries are strictly ordered by slot index;
/// this makes query results deterministic and free of duplicates.
pub open spec fn sorted_by_index(s: Seq<Entity>) -> bool {
    forall|k1: int, k2: int| 0 <= k1 < k2 < s.len() ==> s[k1].index < s[k2].index
}

impl<T> Store<T> {
    /// Whether `e` owns a component here: its slot is occupied and the
    /// occupant's generation is `e`'s.
    pub open spec fn spec_has(&self, e: Entity) -> bool {
        &&& e.index < self.slots@.len()
        &&& match self.slots@[e.index as int] {
            Some(s) => s.gen == e.generation,
            None => false,
        }
    }
}

impl<T> View for Store<T> {
    type V = Map<Entity, T>;

    /// A store abstracts to the map from each owning entity to its value.
    open spec fn view(&self) -> Map<Entity, T> {
        Map::new(
            |e: Entity| self.spec_has(e),
            |e: Entity| self.slots@[e.index as int].unwrap().value,
        )
    }
}

/// Membership in a sequence after pushing one element, spelt out with the
/// witnesses the solver needs.
pub(crate) proof fn lemma_push_contains<A>(s: Seq<A>, v: A, x: A)
    ensures
        s.push(v).contains(x) <==> (s.contains(x) || x == v),
{
    if s.push(v).contains(x) {
        let j = choose|j: int| 0 <= j < s.push(v).len() && s.push(v)[j] == x;
        if j < s.len() {
            assert(s[j] == x);
        }
    }
    if s.contains(x) {
        let j = choose|j: int| 0 <= j < s.len() && s[j] == x;
        assert(s.push(v)[j] == x);
    }
    if x == v {
        assert(s.push(v)[s.len() as int] == x);
    }
}

/// Uniqueness of storage: one slot holds at most one component, so two
/// distinct entities stored in the same store never share an index. In
/// particular a store holds at most one value per entity.
pub proof fn lemma_store_unique<T>(s: &Store<T>, e1: Entity, e2: Entity)
    requires
        s@.contains_key(e1),
        s@.contains_key(e2),
        e1.index == e2.index,
    ensures
        e1 == e2,
{
}

impl<T> Store<T> {
    pub fn new() -> (s: Self)
        ensures
            s@ == Map::<Entity, T>::empty(),
            s.slots@.len() == 0,
    {
        let s = Store { slots: Vec::new() };
        proof {
            assert(s@ =~= Map::<Entity, T>::empty());
        }
        s
    }

    /// Attaches `value` to `e`, overwriting any value `e` already had. Any
    /// value a previous occupant of the slot left behind disappears with it.
    pub fn insert(&mut self, e: Entity, value: T)
        ensures
            final(self)@ == old(self)@.remove_keys(keys_at_index(e.index as int)).insert(
                e,
                value,
            ),
            old(self)@.contains_key(e) ==> final(self)@ == old(self)@.insert(e, value),
            (forall|e2: Entity| old(self)@.contains_key(e2) ==> e2.index != e.index)
                ==> final(self)@ == old(self)@.insert(e, value),
    {
        while self.slots.len() <= e.index
            invariant
                old(self).slots@.len() <= self.slots@.len(),
                forall|k: int|
                    0 <= k < old(self).slots@.len() ==> self.slots@[k] == old(self).slots@[k],
                forall|k: int|
                    old(self).slots@.len() <= k < self.slots@.len() ==> self.slots@[k] is None,
            decreases e.index + 1 - self.slots@.len(),
        {
            self.slots.push(None);
        }
        self.slots.set(e.index, Some(Slot { gen: e.generation, value }));
        proof {
            let target = old(self)@.remove_keys(keys_at_index(e.index as int)).insert(e, value);
            assert forall|e2: Entity| self.spec_has(e2) == target.contains_key(e2) by {
                if e2.index == e.index {
                } else if e2.index < old(self).slots@.len() {
                } else {
                }
            }
            assert(self@ =~= target);
            if old(self)@.contains_key(e) {
                assert forall|e2: Entity|
                    old(self)@.contains_key(e2) && e2.index == e.index implies e2 == e by {
                    lemma_store_unique(old(self), e2, e);
                }
                assert(self@ =~= old(self)@.insert(e, value));
            }
            if forall|e2: Entity| old(self)@.contains_key(e2) ==> e2.index != e.index {
                assert(self@ =~= old(self)@.insert(e, value));
            }
        }
    }

    /// Whether `e` currently has a component in this store.
    pub fn contains(&self, e: Entity) -> (r: bool)
        ensures
            r == self@.contains_key(e),
    {
        if e.index < self.slots.len() {
            match &self.slots[e.index] {
                Some(s) => s.gen == e.generation,
                None => false,
            }
        } else {
            false
        }
    }

    /// All entities with a component here, in ascending slot order: the
    /// deterministic iteration order every query is built on.
    pub fn entities(&self) -> (r: Vec<Entity>)
        ensures
            forall|e: Entity| r@.contains(e) <==> self@.contains_key(e),
            sorted_by_index(r@),
    {
        broadcast use vstd::seq_lib::group_seq_properties;

        let mut r: Vec<Entity> = Vec::new();
        let mut i: usize = 0;
        while i < self.slots.len()
            invariant
                i <= self.slots@.len(),
                forall|e: Entity| r@.contains(e) <==> (self.spec_has(e) && e.index < i),
                sorted_by_index(r@),
                forall|k: int| 0 <= k < r@.len() ==> (#[trigger] r@[k]).index < i,
            decreases self.slots@.len() - i,
        {
            let ghost r0 = r@;
            match &self.slots[i] {
                Some(s) => {
                    let en = Entity { index: i, generation: s.gen };
                    proof {
                        assert(self.spec_has(en));
                    }
                    r.push(en);
                    proof {
                        assert forall|e: Entity|
                            r@.contains(e) == (self.spec_has(e) && e.index < i + 1) by {
                            lemma_push_contains(r0, en, e);
                            if e.index == i && e != en {
                                assert(!self.spec_has(e));
                            }
                        }
                    }
                },
                None => {
                    proof {
                        assert forall|e: Entity|
                            r@.contains(e) == (self.spec_has(e) && e.index < i + 1) by {
                            if e.index == i {
                                assert(!self.spec_has(e));
                            }
                        }
                    }
                },
            }
            i = i + 1;
        }
        r
    }
}

impl<T: Copy> Store<T> {
    /// Reads `e`'s component, or reports absence; asking for an entity that
    /// has no component here is not a fault.
    pub fn get(&self, e: Entity) -> (r: Option<T>)
        ensures
            self@.contains_key(e) ==> r == Some(self@[e]),
            !self@.contains_key(e) ==> r is None,
    {
        if e.index < self.slots.len() {
            match &self.slots[e.index] {
                Some(s) => {
                    if s.gen == e.generation {
                        Some(s.value)
                    } else {
                        None
                    }
                },
                None => None,
            }
        } else {
            None
        }
    }

    /// Detaches and returns `e`'s component if it has one; absence is
    /// reported, not raised.
    pub fn remove(&mut self, e: Entity) -> (r: Option<T>)
        ensures
            old(self)@.contains_key(e) ==> r == Some(old(self)@[e]) && final(self)@ == old(
                self,
            )@.remove(e),
            !old(self)@.contains_key(e) ==> r is None && final(self)@ == old(self)@,
            final(self).slots@.len() == old(self).slots@.len(),
    {
        if e.index < self.slots.len() {
            let found = match &self.slots[e.index] {
                Some(s) => {
                    if s.gen == e.generation {
                        Some(s.value)
                    } else {
                        None
                    }
                },
                None => None,
            };
            if found.is_some() {
                self.slots.set(e.index, None);
                proof {
                    assert(self@ =~= old(self)@.remove(e));
                }
            }
            found
        } else {
            None
        }
    }
}

/// The entities present in both stores at once, in ascending slot order,
/// ready for per-entity access to each store's value.
pub fn join2<A, B>(a: &Store<A>, b: &Store<B>) -> (r: Vec<Entity>)
    ensures
        forall|e: Entity| r@.contains(e) <==> (a@.contains_key(e) && b@.contains_key(e)),
        sorted_by_index(r@),
{
    broadcast use vstd::seq_lib::group_seq_properties;

    let n = if a.slots.len() < b.slots.len() {
        a.slots.len()
    } else {
        b.slots.len()
    };
    let mut r: Vec<Entity> = Vec::new();
    let mut i: usize = 0;
    while i < n
        invariant
            n <= a.slots@.len(),
            n <= b.slots@.len(),
            i <= n,
            forall|e: Entity|
                r@.contains(e) <==> (a.spec_has(e) && b.spec_has(e) && e.index < i),
            sorted_by_index(r@),
            forall|k: int| 0 <= k < r@.len() ==> (#[trigger] r@[k]).index < i,
        decreases n - i,
    {
        let ghost r0 = r@;
        match (&a.slots[i], &b.slots[i]) {
            (Some(sa), Some(sb)) => {
                if sa.gen == sb.gen {
                    let en = Entity { index: i, generation: sa.gen };
                    r.push(en);
                    proof {
                        assert forall|e: Entity|
                            r@.contains(e) == (a.spec_has(e) && b.spec_has(e) && e.index < i
                                + 1) by {
                            lemma_push_contains(r0, en, e);
                            if e.index == i && e != en {
                                assert(!(a.spec_has(e) && b.spec_has(e)));
                            }
                        }
                    }
                } else {
                    proof {
                        assert forall|e: Entity|
                            r@.contains(e) == (a.spec_has(e) && b.spec_has(e) && e.index < i
                                + 1) by {
                            if e.index == i {
                                assert(!(a.spec_has(e) && b.spec_has(e)));
                            }
                        }
                    }
                }
            },
            _ => {
                proof {
                    assert forall|e: Entity|
                        r@.contains(e) == (a.spec_has(e) && b.spec_has(e) && e.index < i
                            + 1) by {
                        if e.index == i {
                            assert(!(a.spec_has(e) && b.spec_has(e)));
                        }
                    }
                }
            },
        }
        i = i + 1;
    }
    proof {
        assert forall|e: Entity|
            r@.contains(e) == (a@.contains_key(e) && b@.contains_key(e)) by {
            if e.index >= n {
                assert(!(a.spec_has(e) && b.spec_has(e)));
            }
        }
    }
    r
}

/// Narrows a query result to the entities that also have a component in
/// `s`, keeping the order. Chaining this after [`join2`] joins any number
/// of stores.
pub fn restrict_to<T>(list: &Vec<Entity>, s: &Store<T>) -> (r: Vec<Entity>)
    requires
        sorted_by_index(list@),
    ensures
        forall|e: Entity| r@.contains(e) <==> (list@.contains(e) && s@.contains_key(e)),
        sorted_by_index(r@),
{
    broadcast use vstd::seq_lib::group_seq_properties;

    let mut r: Vec<Entity> = Vec::new();
    let mut k: usize = 0;
    while k < list.len()
        invariant
            sorted_by_index(list@),
            k <= list@.len(),
            forall|e: Entity|
                r@.contains(e) <==> (list@.take(k as int).contains(e) && s@.contains_key(e)),
            sorted_by_index(r@),
            forall|j: int|
                0 <= j < r@.len() ==> exists|p: int|
                    0 <= p < k && list@[p] == (#[trigger] r@[j]),
        decreases list@.len() - k,
    {
        let e = list[k];
        let ghost r0 = r@;
        let present = s.contains(e);
        if present {
            proof {
                assert forall|j: int| 0 <= j < r@.len() implies (#[trigger] r@[j]).index
                    < e.index by {
                    let p = choose|p: int| 0 <= p < k && list@[p] == r@[j];
                    assert(list@[p].index < list@[k as int].index);
                }
            }
            r.push(e);
        }
        proof {
            assert(list@.take(k + 1) =~= list@.take(k as int).push(list@[k as int]));
            assert forall|e2: Entity|
                r@.contains(e2) == (list@.take(k + 1).contains(e2) && s@.contains_key(e2)) by {
                lemma_push_contains(list@.take(k as int), list@[k as int], e2);
                if present {
                    lemma_push_contains(r0, e, e2);
                }
            }
        }
        k = k + 1;
    }
    proof {
        assert(list@.take(list@.len() as int) =~= list@);
    }
    r
}

} // verus!
