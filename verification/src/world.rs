//! The world: root owner of the entity registry and of one store per
//! component type, with atomic entity construction and deferred
//! destruction and creation queues flushed in one batch by `maintain`.

use vstd::prelude::*;

use crate::components::{LeftMover, Player, Position, Renderable};
use crate::entity::{Entity, EntityRegistry};
use crate::store::{lemma_push_contains, Store};

verus! {

/// Accumulates component values for one entity-to-be; `World::build_entity`
/// registers the entity and attaches everything in one atomic commit, so no
/// half-built entity is ever observable. A builder can also be queued with
/// `World::queue_spawn`, to be committed by the next `maintain`.
#[derive(Clone, Copy)]
pub struct EntityBuilder {
    pub position: Option<Position>,
    pub renderable: Option<Renderable>,
    pub left_mover: Option<LeftMover>,
    pub player: Option<Player>,
}

impl EntityBuilder {
    pub fn new() -> (b: EntityBuilder)
        ensures
            b.position is None,
            b.renderable is None,
            b.left_mover is None,
            b.player is None,
    {
        EntityBuilder { position: None, renderable: None, left_mover: None, player: None }
    }

    pub fn with_position(self, value: Position) -> (b: EntityBuilder)
        ensures
            b.position == Some(value),
            b.renderable == self.renderable,
            b.left_mover == self.left_mover,
            b.player == self.player,
    {
        EntityBuilder { position: Some(value), ..self }
    }

    pub fn with_renderable(self, value: Renderable) -> (b: EntityBuilder)
        ensures
            b.renderable == Some(value),
            b.position == self.position,
            b.left_mover == self.left_mover,
            b.player == self.player,
    {
        EntityBuilder { renderable: Some(value), ..self }
    }

    pub fn with_left_mover(self, value: LeftMover) -> (b: EntityBuilder)
        ensures
            b.left_mover == Some(value),
            b.position == self.position,
            b.renderable == self.renderable,
            b.player == self.player,
    {
        EntityBuilder { left_mover: Some(value), ..self }
    }

    pub fn with_player(self, value: Player) -> (b: EntityBuilder)
        ensures
            b.player == Some(value),
            b.position == self.position,
            b.renderable == self.renderable,
            b.left_mover == self.left_mover,
    {
        EntityBuilder { player: Some(value), ..self }
    }
}

/// Every entity stored in `s` is live in `reg`: destroyed entities leave no
/// orphaned components behind once `maintain` has run.
pub open spec fn store_covered<T>(s: Store<T>, reg: EntityRegistry) -> bool {
    forall|e: Entity| s@.contains_key(e) ==> reg.live().contains(e)
}

/// The root owner of the registry and of one store per component type. The
/// stores are reached through the world, so Rust's borrow rules enforce the
/// one-writer-or-many-readers discipline per store statically.
pub struct World {
    pub registry: EntityRegistry,
    pub positions: Store<Position>,
    pub renderables: Store<Renderable>,
    pub left_movers: Store<LeftMover>,
    pub players: Store<Player>,
    /// Entities queued for destruction, applied in order by `maintain`.
    pub pending: Vec<Entity>,
    /// Builders queued for deferred creation, committed in order by
    /// `maintain` after the queued destructions.
    pub pending_spawn: Vec<EntityBuilder>,
}

/// The positions the queued builders will attach, in queue order.
pub open spec fn builder_positions(bs: Seq<EntityBuilder>) -> Seq<Option<Position>> {
    bs.map_values(|b: EntityBuilder| b.position)
}

/// The renderables the queued builders will attach, in queue order.
pub open spec fn builder_renderables(bs: Seq<EntityBuilder>) -> Seq<Option<Renderable>> {
    bs.map_values(|b: EntityBuilder| b.renderable)
}

/// The left-mover tags the queued builders will attach, in queue order.
pub open spec fn builder_left_movers(bs: Seq<EntityBuilder>) -> Seq<Option<LeftMover>> {
    bs.map_values(|b: EntityBuilder| b.left_mover)
}

/// The player tags the queued builders will attach, in queue order.
pub open spec fn builder_players(bs: Seq<EntityBuilder>) -> Seq<Option<Player>> {
    bs.map_values(|b: EntityBuilder| b.player)
}

/// A store's contents after committing queued component values `picks` to
/// the batch-created entities `es`, front to back.
pub open spec fn spawn_apply<T>(m: Map<Entity, T>, picks: Seq<Option<T>>, es: Seq<Entity>) -> Map<
    Entity,
    T,
>
    decreases picks.len(),
{
    if picks.len() <= 0 || es.len() <= 0 {
        m
    } else {
        spawn_apply(
            match picks[0] {
                Some(v) => m.insert(es[0], v),
                None => m,
            },
            picks.drop_first(),
            es.drop_first(),
        )
    }
}

/// Committing one more queued creation at the end applies its insertion on
/// top of everything before it.
pub proof fn lemma_spawn_apply_snoc<T>(
    m: Map<Entity, T>,
    picks: Seq<Option<T>>,
    es: Seq<Entity>,
    p: Option<T>,
    e: Entity,
)
    requires
        picks.len() == es.len(),
    ensures
        spawn_apply(m, picks.push(p), es.push(e)) == match p {
            Some(v) => spawn_apply(m, picks, es).insert(e, v),
            None => spawn_apply(m, picks, es),
        },
    decreases picks.len(),
{
    if picks.len() == 0 {
        assert(picks.push(p)[0] == p);
        assert(es.push(e)[0] == e);
        assert(picks.push(p).drop_first() =~= Seq::<Option<T>>::empty());
        assert(es.push(e).drop_first() =~= Seq::<Entity>::empty());
        let m1 = match p {
            Some(v) => m.insert(e, v),
            None => m,
        };
        assert(spawn_apply(m, picks.push(p), es.push(e)) == spawn_apply(
            m1,
            Seq::<Option<T>>::empty(),
            Seq::<Entity>::empty(),
        ));
        assert(spawn_apply(m1, Seq::<Option<T>>::empty(), Seq::<Entity>::empty()) == m1);
        assert(spawn_apply(m, picks, es) == m);
    } else {
        assert(picks.push(p)[0] == picks[0]);
        assert(es.push(e)[0] == es[0]);
        assert(picks.push(p).drop_first() =~= picks.drop_first().push(p));
        assert(es.push(e).drop_first() =~= es.drop_first().push(e));
        let m1 = match picks[0] {
            Some(v) => m.insert(es[0], v),
            None => m,
        };
        assert(spawn_apply(m, picks.push(p), es.push(e)) == spawn_apply(
            m1,
            picks.drop_first().push(p),
            es.drop_first().push(e),
        ));
        lemma_spawn_apply_snoc(m1, picks.drop_first(), es.drop_first(), p, e);
        assert(spawn_apply(m, picks, es) == spawn_apply(
            m1,
            picks.drop_first(),
            es.drop_first(),
        ));
    }
}

impl World {
    /// The world's invariant: a sound registry, and no store holding a
    /// component for an entity that is not live.
    pub open spec fn wf(&self) -> bool {
        &&& self.registry.wf()
        &&& store_covered(self.positions, self.registry)
        &&& store_covered(self.renderables, self.registry)
        &&& store_covered(self.left_movers, self.registry)
        &&& store_covered(self.players, self.registry)
    }

    /// The set of entities currently queued for destruction.
    pub open spec fn pending_set(&self) -> Set<Entity> {
        self.pending@.to_set()
    }

    pub fn new() -> (w: World)
        ensures
            w.wf(),
            w.registry.live() == Set::<Entity>::empty(),
            w.positions@ == Map::<Entity, Position>::empty(),
            w.renderables@ == Map::<Entity, Renderable>::empty(),
            w.left_movers@ == Map::<Entity, LeftMover>::empty(),
            w.players@ == Map::<Entity, Player>::empty(),
            w.pending@ == Seq::<Entity>::empty(),
            w.pending_spawn@ == Seq::<EntityBuilder>::empty(),
    {
        World {
            registry: EntityRegistry::new(),
            positions: Store::new(),
            renderables: Store::new(),
            left_movers: Store::new(),
            players: Store::new(),
            pending: Vec::new(),
            pending_spawn: Vec::new(),
        }
    }

    /// Whether `e` denotes a currently live entity of this world.
    pub fn is_alive(&self, e: Entity) -> (r: bool)
        requires
            self.wf(),
        ensures
            r == self.registry.live().contains(e),
    {
        self.registry.is_alive(e)
    }

    /// Registers a fresh entity and attaches every component the builder
    /// accumulated, atomically from the caller's point of view.
    pub fn build_entity(&mut self, b: EntityBuilder) -> (e: Entity)
        requires
            old(self).wf(),
        ensures
            final(self).wf(),
            !old(self).registry.live().contains(e),
            final(self).registry.live() == old(self).registry.live().insert(e),
            final(self).positions@ == match b.position {
                Some(v) => old(self).positions@.insert(e, v),
                None => old(self).positions@,
            },
            final(self).renderables@ == match b.renderable {
                Some(v) => old(self).renderables@.insert(e, v),
                None => old(self).renderables@,
            },
            final(self).left_movers@ == match b.left_mover {
                Some(v) => old(self).left_movers@.insert(e, v),
                None => old(self).left_movers@,
            },
            final(self).players@ == match b.player {
                Some(v) => old(self).players@.insert(e, v),
                None => old(self).players@,
            },
            final(self).pending@ == old(self).pending@,
            final(self).pending_spawn@ == old(self).pending_spawn@,
    {
        let e = self.registry.create();
        proof {
            assert(!old(self).registry.live().contains(e)) by {
                assert(!old(self).registry.live().contains(
                    Entity { index: e.index, generation: e.generation },
                ));
            }
            assert forall|e2: Entity|
                old(self).positions@.contains_key(e2) implies e2.index != e.index by {
                assert(old(self).registry.live().contains(e2));
                assert(!old(self).registry.live().contains(
                    Entity { index: e.index, generation: e2.generation },
                ));
            }
            assert forall|e2: Entity|
                old(self).renderables@.contains_key(e2) implies e2.index != e.index by {
                assert(old(self).registry.live().contains(e2));
                assert(!old(self).registry.live().contains(
                    Entity { index: e.index, generation: e2.generation },
                ));
            }
            assert forall|e2: Entity|
                old(self).left_movers@.contains_key(e2) implies e2.index != e.index by {
                assert(old(self).registry.live().contains(e2));
                assert(!old(self).registry.live().contains(
                    Entity { index: e.index, generation: e2.generation },
                ));
            }
            assert forall|e2: Entity|
                old(self).players@.contains_key(e2) implies e2.index != e.index by {
                assert(old(self).registry.live().contains(e2));
                assert(!old(self).registry.live().contains(
                    Entity { index: e.index, generation: e2.generation },
                ));
            }
        }
        if let Some(v) = b.position {
            self.positions.insert(e, v);
        }
        if let Some(v) = b.renderable {
            self.renderables.insert(e, v);
        }
        if let Some(v) = b.left_mover {
            self.left_movers.insert(e, v);
        }
        if let Some(v) = b.player {
            self.players.insert(e, v);
        }
        e
    }

    /// Reads `e`'s position, or reports absence.
    pub fn get_position(&self, e: Entity) -> (r: Option<Position>)
        ensures
            self.positions@.contains_key(e) ==> r == Some(self.positions@[e]),
            !self.positions@.contains_key(e) ==> r is None,
    {
        self.positions.get(e)
    }

    /// Reads `e`'s renderable, or reports absence.
    pub fn get_renderable(&self, e: Entity) -> (r: Option<Renderable>)
        ensures
            self.renderables@.contains_key(e) ==> r == Some(self.renderables@[e]),
            !self.renderables@.contains_key(e) ==> r is None,
    {
        self.renderables.get(e)
    }

    /// Attaches a position to the live entity `e`, overwriting any it had;
    /// reports whether `e` was live (a dead or stale identifier attaches
    /// nothing and is not a fault).
    pub fn attach_position(&mut self, e: Entity, value: Position) -> (attached: bool)
        requires
            old(self).wf(),
        ensures
            final(self).wf(),
            attached == old(self).registry.live().contains(e),
            final(self).positions@ == if attached {
                old(self).positions@.insert(e, value)
            } else {
                old(self).positions@
            },
            final(self).renderables@ == old(self).renderables@,
            final(self).left_movers@ == old(self).left_movers@,
            final(self).players@ == old(self).players@,
            final(self).registry == old(self).registry,
            final(self).pending@ == old(self).pending@,
            final(self).pending_spawn@ == old(self).pending_spawn@,
    {
        let alive = self.registry.is_alive(e);
        if alive {
            proof {
                live_same_index(self.registry, self.positions, e);
            }
            self.positions.insert(e, value);
        }
        alive
    }

    /// Attaches a renderable to the live entity `e`; see `attach_position`.
    pub fn attach_renderable(&mut self, e: Entity, value: Renderable) -> (attached: bool)
        requires
            old(self).wf(),
        ensures
            final(self).wf(),
            attached == old(self).registry.live().contains(e),
            final(self).renderables@ == if attached {
                old(self).renderables@.insert(e, value)
            } else {
                old(self).renderables@
            },
            final(self).positions@ == old(self).positions@,
            final(self).left_movers@ == old(self).left_movers@,
            final(self).players@ == old(self).players@,
            final(self).registry == old(self).registry,
            final(self).pending@ == old(self).pending@,
            final(self).pending_spawn@ == old(self).pending_spawn@,
    {
        let alive = self.registry.is_alive(e);
        if alive {
            proof {
                live_same_index(self.registry, self.renderables, e);
            }
            self.renderables.insert(e, value);
        }
        alive
    }

    /// Attaches a left-mover tag to the live entity `e`; see
    /// `attach_position`.
    pub fn attach_left_mover(&mut self, e: Entity, value: LeftMover) -> (attached: bool)
        requires
            old(self).wf(),
        ensures
            final(self).wf(),
            attached == old(self).registry.live().contains(e),
            final(self).left_movers@ == if attached {
                old(self).left_movers@.insert(e, value)
            } else {
                old(self).left_movers@
            },
            final(self).positions@ == old(self).positions@,
            final(self).renderables@ == old(self).renderables@,
            final(self).players@ == old(self).players@,
            final(self).registry == old(self).registry,
            final(self).pending@ == old(self).pending@,
            final(self).pending_spawn@ == old(self).pending_spawn@,
    {
        let alive = self.registry.is_alive(e);
        if alive {
            proof {
                live_same_index(self.registry, self.left_movers, e);
            }
            self.left_movers.insert(e, value);
        }
        alive
    }

    /// Attaches a player tag to the live entity `e`; see `attach_position`.
    pub fn attach_player(&mut self, e: Entity, value: Player) -> (attached: bool)
        requires
            old(self).wf(),
        ensures
            final(self).wf(),
            attached == old(self).registry.live().contains(e),
            final(self).players@ == if attached {
                old(self).players@.insert(e, value)
            } else {
                old(self).players@
            },
            final(self).positions@ == old(self).positions@,
            final(self).renderables@ == old(self).renderables@,
            final(self).left_movers@ == old(self).left_movers@,
            final(self).registry == old(self).registry,
            final(self).pending@ == old(self).pending@,
            final(self).pending_spawn@ == old(self).pending_spawn@,
    {
        let alive = self.registry.is_alive(e);
        if alive {
            proof {
                live_same_index(self.registry, self.players, e);
            }
            self.players.insert(e, value);
        }
        alive
    }

    /// Queues `e` for destruction. Nothing is observable until `maintain`
    /// runs: every store, and `e`'s liveness, stay exactly as they were.
    /// Queueing a dead, stale or never-allocated identifier is accepted.
    pub fn queue_destroy(&mut self, e: Entity)
        requires
            old(self).wf(),
        ensures
            final(self).wf(),
            final(self).pending@ == old(self).pending@.push(e),
            final(self).positions@ == old(self).positions@,
            final(self).renderables@ == old(self).renderables@,
            final(self).left_movers@ == old(self).left_movers@,
            final(self).players@ == old(self).players@,
            final(self).registry == old(self).registry,
            final(self).pending_spawn@ == old(self).pending_spawn@,
    {
        self.pending.push(e);
    }

    /// Queues a builder for deferred creation, for callers that must not
    /// change the entity population mid-tick. Nothing is observable until
    /// `maintain` commits the builder: every store and the registry stay
    /// exactly as they were.
    pub fn queue_spawn(&mut self, b: EntityBuilder)
        requires
            old(self).wf(),
        ensures
            final(self).wf(),
            final(self).pending_spawn@ == old(self).pending_spawn@.push(b),
            final(self).pending@ == old(self).pending@,
            final(self).positions@ == old(self).positions@,
            final(self).renderables@ == old(self).renderables@,
            final(self).left_movers@ == old(self).left_movers@,
            final(self).players@ == old(self).players@,
            final(self).registry == old(self).registry,
    {
        self.pending_spawn.push(b);
    }

    /// Applies every queued structural change in one batch and clears both
    /// queues: first each queued destruction (the entity leaves the registry
    /// and every store; queued identifiers that are dead or were never
    /// allocated change nothing), then each queued creation, committed in
    /// queue order. The batch-created entities are returned in that order;
    /// each is fresh: distinct from every entity that survived the
    /// destructions and from its fellow creations.
    pub fn maintain(&mut self) -> (spawned: Vec<Entity>)
        requires
            old(self).wf(),
        ensures
            final(self).wf(),
            final(self).pending@ == Seq::<Entity>::empty(),
            final(self).pending_spawn@ == Seq::<EntityBuilder>::empty(),
            spawned@.len() == old(self).pending_spawn@.len(),
            forall|i: int|
                0 <= i < spawned@.len() ==> !old(self).registry.live().difference(
                    old(self).pending_set(),
                ).contains(#[trigger] spawned@[i]),
            forall|i1: int, i2: int|
                0 <= i1 < i2 < spawned@.len() ==> spawned@[i1] != spawned@[i2],
            final(self).registry.live() == old(self).registry.live().difference(
                old(self).pending_set(),
            ).union(spawned@.to_set()),
            final(self).positions@ == spawn_apply(
                old(self).positions@.remove_keys(old(self).pending_set()),
                builder_positions(old(self).pending_spawn@),
                spawned@,
            ),
            final(self).renderables@ == spawn_apply(
                old(self).renderables@.remove_keys(old(self).pending_set()),
                builder_renderables(old(self).pending_spawn@),
                spawned@,
            ),
            final(self).left_movers@ == spawn_apply(
                old(self).left_movers@.remove_keys(old(self).pending_set()),
                builder_left_movers(old(self).pending_spawn@),
                spawned@,
            ),
            final(self).players@ == spawn_apply(
                old(self).players@.remove_keys(old(self).pending_set()),
                builder_players(old(self).pending_spawn@),
                spawned@,
            ),
    {
        let n = self.pending.len();
        let mut k: usize = 0;
        while k < n
            invariant
                self.wf(),
                n == self.pending@.len(),
                self.pending@ == old(self).pending@,
                k <= n,
                self.positions@ == old(self).positions@.remove_keys(
                    self.pending@.take(k as int).to_set(),
                ),
                self.renderables@ == old(self).renderables@.remove_keys(
                    self.pending@.take(k as int).to_set(),
                ),
                self.left_movers@ == old(self).left_movers@.remove_keys(
                    self.pending@.take(k as int).to_set(),
                ),
                self.players@ == old(self).players@.remove_keys(
                    self.pending@.take(k as int).to_set(),
                ),
                self.registry.live() == old(self).registry.live().difference(
                    self.pending@.take(k as int).to_set(),
                ),
                self.pending_spawn@ == old(self).pending_spawn@,
            decreases n - k,
        {
            let e = self.pending[k];
            let ghost qk = self.pending@.take(k as int).to_set();
            self.positions.remove(e);
            self.renderables.remove(e);
            self.left_movers.remove(e);
            self.players.remove(e);
            self.registry.destroy(e);
            proof {
                assert(self.pending@.take(k + 1) =~= self.pending@.take(k as int).push(e));
                assert(self.pending@.take(k + 1).to_set() =~= qk.insert(e)) by {
                    assert forall|x: Entity|
                        self.pending@.take(k + 1).contains(x) == (self.pending@.take(
                            k as int,
                        ).contains(x) || x == e) by {
                        lemma_push_contains(self.pending@.take(k as int), e, x);
                    }
                }
                assert(self.positions@ =~= old(self).positions@.remove_keys(qk.insert(e)));
                assert(self.renderables@ =~= old(self).renderables@.remove_keys(qk.insert(e)));
                assert(self.left_movers@ =~= old(self).left_movers@.remove_keys(qk.insert(e)));
                assert(self.players@ =~= old(self).players@.remove_keys(qk.insert(e)));
                assert(self.registry.live() =~= old(self).registry.live().difference(
                    qk.insert(e),
                ));
            }
            k = k + 1;
        }
        self.pending.clear();
        proof {
            assert(old(self).pending@.take(n as int) =~= old(self).pending@);
        }
        let ghost base_pos = self.positions@;
        let ghost base_ren = self.renderables@;
        let ghost base_lm = self.left_movers@;
        let ghost base_pl = self.players@;
        let ghost base_live = self.registry.live();
        let ghost picks = self.pending_spawn@;
        let mut spawned: Vec<Entity> = Vec::new();
        let m = self.pending_spawn.len();
        let mut j: usize = 0;
        while j < m
            invariant
                self.wf(),
                m == self.pending_spawn@.len(),
                self.pending_spawn@ == picks,
                self.pending@ == Seq::<Entity>::empty(),
                j <= m,
                spawned@.len() == j as int,
                forall|i: int| 0 <= i < j ==> !base_live.contains(#[trigger] spawned@[i]),
                forall|i1: int, i2: int| 0 <= i1 < i2 < j ==> spawned@[i1] != spawned@[i2],
                self.registry.live() == base_live.union(spawned@.to_set()),
                self.positions@ == spawn_apply(
                    base_pos,
                    builder_positions(picks).take(j as int),
                    spawned@,
                ),
                self.renderables@ == spawn_apply(
                    base_ren,
                    builder_renderables(picks).take(j as int),
                    spawned@,
                ),
                self.left_movers@ == spawn_apply(
                    base_lm,
                    builder_left_movers(picks).take(j as int),
                    spawned@,
                ),
                self.players@ == spawn_apply(
                    base_pl,
                    builder_players(picks).take(j as int),
                    spawned@,
                ),
            decreases m - j,
        {
            let b = self.pending_spawn[j];
            let ghost live_before = self.registry.live();
            let ghost spawned0 = spawned@;
            let e = self.build_entity(b);
            spawned.push(e);
            proof {
                assert(!live_before.contains(e));
                assert(!base_live.contains(e));
                assert forall|i: int| 0 <= i < j implies spawned0[i] != e by {
                    assert(spawned0.contains(spawned0[i]));
                    assert(spawned0.to_set().contains(spawned0[i]));
                    assert(live_before.contains(spawned0[i]));
                }
                assert(spawned@.to_set() =~= spawned0.to_set().insert(e)) by {
                    assert forall|x: Entity|
                        spawned@.contains(x) == (spawned0.contains(x) || x == e) by {
                        lemma_push_contains(spawned0, e, x);
                    }
                }
                assert(self.registry.live() =~= base_live.union(spawned@.to_set()));
                assert(builder_positions(picks).take(j + 1) =~= builder_positions(picks).take(
                    j as int,
                ).push(b.position));
                assert(builder_renderables(picks).take(j + 1) =~= builder_renderables(
                    picks,
                ).take(j as int).push(b.renderable));
                assert(builder_left_movers(picks).take(j + 1) =~= builder_left_movers(
                    picks,
                ).take(j as int).push(b.left_mover));
                assert(builder_players(picks).take(j + 1) =~= builder_players(picks).take(
                    j as int,
                ).push(b.player));
                lemma_spawn_apply_snoc(
                    base_pos,
                    builder_positions(picks).take(j as int),
                    spawned0,
                    b.position,
                    e,
                );
                lemma_spawn_apply_snoc(
                    base_ren,
                    builder_renderables(picks).take(j as int),
                    spawned0,
                    b.renderable,
                    e,
                );
                lemma_spawn_apply_snoc(
                    base_lm,
                    builder_left_movers(picks).take(j as int),
                    spawned0,
                    b.left_mover,
                    e,
                );
                lemma_spawn_apply_snoc(
                    base_pl,
                    builder_players(picks).take(j as int),
                    spawned0,
                    b.player,
                    e,
                );
            }
            j = j + 1;
        }
        self.pending_spawn.clear();
        proof {
            assert(builder_positions(picks).take(m as int) =~= builder_positions(picks));
            assert(builder_renderables(picks).take(m as int) =~= builder_renderables(picks));
            assert(builder_left_movers(picks).take(m as int) =~= builder_left_movers(picks));
            assert(builder_players(picks).take(m as int) =~= builder_players(picks));
        }
        spawned
    }
}

/// In a well-formed world, a live entity shares its slot index with no other
/// stored entity: any stored entity at the same index is the same entity.
proof fn live_same_index<T>(reg: EntityRegistry, s: Store<T>, e: Entity)
    requires
        store_covered(s, reg),
        reg.live().contains(e),
    ensures
        forall|e2: Entity| s@.contains_key(e2) && e2.index == e.index ==> e2 == e,
{
    assert forall|e2: Entity| s@.contains_key(e2) && e2.index == e.index implies e2 == e by {
        assert(reg.live().contains(e2));
    }
}

/// Deferred destruction, applied: once the queued batch has run, a queued
/// entity is absent from every store.
pub proof fn lemma_queued_entity_absent<T>(m: Map<Entity, T>, queued: Set<Entity>, e: Entity)
    requires
        queued.contains(e),
    ensures
        !m.remove_keys(queued).contains_key(e),
{
}

/// Idempotent destruction: a destruction batch that names only entities a
/// store does not hold leaves that store exactly as it was.
pub proof fn lemma_absent_destruction_is_noop<T>(m: Map<Entity, T>, queued: Set<Entity>)
    requires
        forall|e: Entity| queued.contains(e) ==> !m.contains_key(e),
    ensures
        m.remove_keys(queued) == m,
{
    assert(m.remove_keys(queued) =~= m);
}

} // verus!
