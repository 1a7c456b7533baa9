//! Behaviour units ("systems") and the scheduler that runs them once per
//! tick, in registration order, before flushing the world's queued
//! structural changes.

use vstd::prelude::*;

use crate::components::Position;
use crate::entity::Entity;
use crate::store::{join2, lemma_push_contains, sorted_by_index};
use crate::world::{
    builder_left_movers, builder_players, builder_positions, builder_renderables, spawn_apply,
    EntityBuilder, World,
};

verus! {

/// The behaviour units the scheduler can run. Each declares up front which
/// stores it touches: both kinds read entity membership and write positions
/// only.
#[derive(Clone, Copy, PartialEq, Eq, Structural, Debug)]
pub enum SystemKind {
    /// Moves every entity that has both a left-mover tag and a position one
    /// column to the left, wrapping to the rightmost column at the screen
    /// edge.
    LeftWalker,
    /// Teleports every entity that has a position to a fixed column. Two
    /// such systems overwrite each other, so registration order is
    /// observable through them.
    SetAllX { x: i32 },
}

/// One step left under the wrap policy: at or beyond the left edge the
/// mover reappears in the rightmost column, 79.
pub open spec fn wrap_left(x: i32) -> i32 {
    if x <= 0 {
        79i32
    } else {
        (x - 1) as i32
    }
}

/// The position map after one left-walker pass: every mover steps left with
/// wrap, everything else stays.
pub open spec fn left_walk_map(pos: Map<Entity, Position>, movers: Set<Entity>) -> Map<
    Entity,
    Position,
> {
    Map::new(
        |e: Entity| pos.contains_key(e),
        |e: Entity|
            if movers.contains(e) {
                Position { x: wrap_left(pos[e].x), y: pos[e].y }
            } else {
                pos[e]
            },
    )
}

/// The position map after a teleport-to-column pass: every positioned
/// entity keeps its row and moves to column `x`.
pub open spec fn set_all_x_map(pos: Map<Entity, Position>, x: i32) -> Map<Entity, Position> {
    Map::new(|e: Entity| pos.contains_key(e), |e: Entity| Position { x: x, y: pos[e].y })
}

/// What one system does to the position map, given the set of movers.
pub open spec fn system_step(s: SystemKind, pos: Map<Entity, Position>, movers: Set<Entity>) -> Map<
    Entity,
    Position,
> {
    match s {
        SystemKind::LeftWalker => left_walk_map(pos, movers),
        SystemKind::SetAllX { x } => set_all_x_map(pos, x),
    }
}

/// The position map after running a list of systems front to back.
pub open spec fn run_sequence(
    systems: Seq<SystemKind>,
    pos: Map<Entity, Position>,
    movers: Set<Entity>,
) -> Map<Entity, Position>
    decreases systems.len(),
{
    if systems.len() <= 0 {
        pos
    } else {
        run_sequence(systems.drop_first(), system_step(systems[0], pos, movers), movers)
    }
}

/// Running one more system at the end applies its step to the result of
/// everything before it.
pub proof fn lemma_run_sequence_snoc(
    systems: Seq<SystemKind>,
    s: SystemKind,
    pos: Map<Entity, Position>,
    movers: Set<Entity>,
)
    ensures
        run_sequence(systems.push(s), pos, movers) == system_step(
            s,
            run_sequence(systems, pos, movers),
            movers,
        ),
    decreases systems.len(),
{
    if systems.len() == 0 {
        assert(systems.push(s)[0] == s);
        assert(systems.push(s).drop_first() =~= Seq::<SystemKind>::empty());
        assert(run_sequence(systems.push(s), pos, movers) == run_sequence(
            Seq::<SystemKind>::empty(),
            system_step(s, pos, movers),
            movers,
        ));
        assert(run_sequence(
            Seq::<SystemKind>::empty(),
            system_step(s, pos, movers),
            movers,
        ) == system_step(s, pos, movers));
        assert(run_sequence(systems, pos, movers) == pos);
    } else {
        assert(systems.push(s)[0] == systems[0]);
        assert(systems.push(s).drop_first() =~= systems.drop_first().push(s));
        assert(run_sequence(systems.push(s), pos, movers) == run_sequence(
            systems.drop_first().push(s),
            system_step(systems[0], pos, movers),
            movers,
        ));
        lemma_run_sequence_snoc(
            systems.drop_first(),
            s,
            system_step(systems[0], pos, movers),
            movers,
        );
        assert(run_sequence(systems, pos, movers) == run_sequence(
            systems.drop_first(),
            system_step(systems[0], pos, movers),
            movers,
        ));
    }
}

/// Scheduling-order law: a tick that runs system `a` and then system `b`
/// leaves the store as `b`'s mutation applied over `a`'s result — never the
/// reverse — whatever either system does internally.
pub proof fn lemma_two_systems_in_order(
    a: SystemKind,
    b: SystemKind,
    pos: Map<Entity, Position>,
    movers: Set<Entity>,
)
    ensures
        run_sequence(seq![a, b], pos, movers) == system_step(
            b,
            system_step(a, pos, movers),
            movers,
        ),
{
    assert(seq![a, b] =~= seq![a].push(b));
    assert(seq![a] =~= Seq::<SystemKind>::empty().push(a));
    lemma_run_sequence_snoc(seq![a], b, pos, movers);
    lemma_run_sequence_snoc(Seq::<SystemKind>::empty(), a, pos, movers);
    assert(run_sequence(Seq::<SystemKind>::empty(), pos, movers) == pos);
}

/// One left-walker pass over the world, exactly `left_walk_map`.
fn run_left_walker(w: &mut World)
    requires
        old(w).wf(),
    ensures
        final(w).wf(),
        final(w).positions@ == left_walk_map(old(w).positions@, old(w).left_movers@.dom()),
        final(w).renderables@ == old(w).renderables@,
        final(w).left_movers@ == old(w).left_movers@,
        final(w).players@ == old(w).players@,
        final(w).registry == old(w).registry,
        final(w).pending@ == old(w).pending@,
        final(w).pending_spawn@ == old(w).pending_spawn@,
{
    let joined = join2(&w.left_movers, &w.positions);
    let ghost pos0 = w.positions@;
    let ghost movers = w.left_movers@.dom();
    let mut k: usize = 0;
    while k < joined.len()
        invariant
            w.wf(),
            w.renderables@ == old(w).renderables@,
            w.left_movers@ == old(w).left_movers@,
            w.players@ == old(w).players@,
            w.registry == old(w).registry,
            w.pending@ == old(w).pending@,
            w.pending_spawn@ == old(w).pending_spawn@,
            pos0 == old(w).positions@,
            movers == old(w).left_movers@.dom(),
            forall|e: Entity|
                (#[trigger] joined@.contains(e)) == (movers.contains(e)
                    && pos0.contains_key(e)),
            sorted_by_index(joined@),
            k <= joined@.len(),
            w.positions@.dom() == pos0.dom(),
            forall|e: Entity| #[trigger]
                w.positions@.contains_key(e) ==> w.positions@[e] == (if joined@.take(
                    k as int,
                ).contains(e) {
                    left_walk_map(pos0, movers)[e]
                } else {
                    pos0[e]
                }),
        decreases joined@.len() - k,
    {
        let e = joined[k];
        proof {
            assert(joined@.contains(e));
            assert(w.positions@.contains_key(e));
            assert(!joined@.take(k as int).contains(e)) by {
                if joined@.take(k as int).contains(e) {
                    let j = choose|j: int|
                        0 <= j < k && joined@.take(k as int)[j] == e;
                    assert(joined@[j] == e);
                    assert(joined@[j].index < joined@[k as int].index);
                }
            }
        }
        let p = match w.positions.get(e) {
            Some(p) => p,
            None => {
                proof {
                    assert(false);
                }
                Position { x: 0, y: 0 }
            },
        };
        let nx: i32 = if p.x <= 0 {
            79
        } else {
            p.x - 1
        };
        let np = Position { x: nx, y: p.y };
        let ghost before = w.positions@;
        w.positions.insert(e, np);
        proof {
            assert(w.positions@ == before.insert(e, np));
            assert(np == left_walk_map(pos0, movers)[e]);
            assert(w.positions@.dom() =~= pos0.dom());
            assert(joined@.take(k + 1) =~= joined@.take(k as int).push(e));
            assert forall|e2: Entity| #[trigger]
                w.positions@.contains_key(e2) implies w.positions@[e2] == (if joined@.take(
                k + 1,
            ).contains(e2) {
                left_walk_map(pos0, movers)[e2]
            } else {
                pos0[e2]
            }) by {
                lemma_push_contains(joined@.take(k as int), e, e2);
                if e2 != e {
                    assert(w.positions@[e2] == before[e2]);
                }
            }
        }
        k = k + 1;
    }
    proof {
        assert(joined@.take(joined@.len() as int) =~= joined@);
        assert(w.positions@ =~= left_walk_map(pos0, movers));
    }
}

/// One teleport pass over the world, exactly `set_all_x_map`.
fn run_set_all_x(w: &mut World, x: i32)
    requires
        old(w).wf(),
    ensures
        final(w).wf(),
        final(w).positions@ == set_all_x_map(old(w).positions@, x),
        final(w).renderables@ == old(w).renderables@,
        final(w).left_movers@ == old(w).left_movers@,
        final(w).players@ == old(w).players@,
        final(w).registry == old(w).registry,
        final(w).pending@ == old(w).pending@,
        final(w).pending_spawn@ == old(w).pending_spawn@,
{
    let list = w.positions.entities();
    let ghost pos0 = w.positions@;
    let mut k: usize = 0;
    while k < list.len()
        invariant
            w.wf(),
            w.renderables@ == old(w).renderables@,
            w.left_movers@ == old(w).left_movers@,
            w.players@ == old(w).players@,
            w.registry == old(w).registry,
            w.pending@ == old(w).pending@,
            w.pending_spawn@ == old(w).pending_spawn@,
            pos0 == old(w).positions@,
            forall|e: Entity| (#[trigger] list@.contains(e)) == pos0.contains_key(e),
            sorted_by_index(list@),
            k <= list@.len(),
            w.positions@.dom() == pos0.dom(),
            forall|e: Entity| #[trigger]
                w.positions@.contains_key(e) ==> w.positions@[e] == (if list@.take(
                    k as int,
                ).contains(e) {
                    set_all_x_map(pos0, x)[e]
                } else {
                    pos0[e]
                }),
        decreases list@.len() - k,
    {
        let e = list[k];
        proof {
            assert(list@.contains(e));
            assert(w.positions@.contains_key(e));
            assert(!list@.take(k as int).contains(e)) by {
                if list@.take(k as int).contains(e) {
                    let j = choose|j: int| 0 <= j < k && list@.take(k as int)[j] == e;
                    assert(list@[j] == e);
                    assert(list@[j].index < list@[k as int].index);
                }
            }
        }
        let p = match w.positions.get(e) {
            Some(p) => p,
            None => {
                proof {
                    assert(false);
                }
                Position { x: 0, y: 0 }
            },
        };
        let np = Position { x, y: p.y };
        let ghost before = w.positions@;
        w.positions.insert(e, np);
        proof {
            assert(w.positions@ == before.insert(e, np));
            assert(np == set_all_x_map(pos0, x)[e]);
            assert(w.positions@.dom() =~= pos0.dom());
            assert(list@.take(k + 1) =~= list@.take(k as int).push(e));
            assert forall|e2: Entity| #[trigger]
                w.positions@.contains_key(e2) implies w.positions@[e2] == (if list@.take(
                k + 1,
            ).contains(e2) {
                set_all_x_map(pos0, x)[e2]
            } else {
                pos0[e2]
            }) by {
                lemma_push_contains(list@.take(k as int), e, e2);
                if e2 != e {
                    assert(w.positions@[e2] == before[e2]);
                }
            }
        }
        k = k + 1;
    }
    proof {
        assert(list@.take(list@.len() as int) =~= list@);
        assert(w.positions@ =~= set_all_x_map(pos0, x));
    }
}

/// Runs one system over the world: exactly its declared step, touching no
/// other store and no structural state.
pub fn run_system(kind: SystemKind, w: &mut World)
    requires
        old(w).wf(),
    ensures
        final(w).wf(),
        final(w).positions@ == system_step(kind, old(w).positions@, old(w).left_movers@.dom()),
        final(w).renderables@ == old(w).renderables@,
        final(w).left_movers@ == old(w).left_movers@,
        final(w).players@ == old(w).players@,
        final(w).registry == old(w).registry,
        final(w).pending@ == old(w).pending@,
        final(w).pending_spawn@ == old(w).pending_spawn@,
{
    match kind {
        SystemKind::LeftWalker => run_left_walker(w),
        SystemKind::SetAllX { x } => run_set_all_x(w, x),
    }
}

/// Runs systems in the order they were registered; the order is fixed by
/// the caller and nothing reorders it.
pub struct Scheduler {
    pub systems: Vec<SystemKind>,
}

impl Scheduler {
    pub fn new() -> (s: Scheduler)
        ensures
            s.systems@ == Seq::<SystemKind>::empty(),
    {
        Scheduler { systems: Vec::new() }
    }

    /// Registers a system to run after every system registered before it.
    pub fn register(&mut self, kind: SystemKind)
        ensures
            final(self).systems@ == old(self).systems@.push(kind),
    {
        self.systems.push(kind);
    }

    /// One scheduling pass: every registered system runs once, in
    /// registration order, and then the world applies its queued structural
    /// changes in one batch — destructions first, then creations, whose
    /// fresh entities are returned. Changes queued before or during the
    /// pass stay invisible until that batch.
    pub fn run_systems(&self, w: &mut World) -> (spawned: Vec<Entity>)
        requires
            old(w).wf(),
        ensures
            final(w).wf(),
            final(w).pending@ == Seq::<Entity>::empty(),
            final(w).pending_spawn@ == Seq::<EntityBuilder>::empty(),
            spawned@.len() == old(w).pending_spawn@.len(),
            forall|i: int|
                0 <= i < spawned@.len() ==> !old(w).registry.live().difference(
                    old(w).pending_set(),
                ).contains(#[trigger] spawned@[i]),
            forall|i1: int, i2: int|
                0 <= i1 < i2 < spawned@.len() ==> spawned@[i1] != spawned@[i2],
            final(w).registry.live() == old(w).registry.live().difference(
                old(w).pending_set(),
            ).union(spawned@.to_set()),
            final(w).positions@ == spawn_apply(
                run_sequence(
                    self.systems@,
                    old(w).positions@,
                    old(w).left_movers@.dom(),
                ).remove_keys(old(w).pending_set()),
                builder_positions(old(w).pending_spawn@),
                spawned@,
            ),
            final(w).renderables@ == spawn_apply(
                old(w).renderables@.remove_keys(old(w).pending_set()),
                builder_renderables(old(w).pending_spawn@),
                spawned@,
            ),
            final(w).left_movers@ == spawn_apply(
                old(w).left_movers@.remove_keys(old(w).pending_set()),
                builder_left_movers(old(w).pending_spawn@),
                spawned@,
            ),
            final(w).players@ == spawn_apply(
                old(w).players@.remove_keys(old(w).pending_set()),
                builder_players(old(w).pending_spawn@),
                spawned@,
            ),
    {
        let mut k: usize = 0;
        while k < self.systems.len()
            invariant
                w.wf(),
                k <= self.systems@.len(),
                w.positions@ == run_sequence(
                    self.systems@.take(k as int),
                    old(w).positions@,
                    old(w).left_movers@.dom(),
                ),
                w.renderables@ == old(w).renderables@,
                w.left_movers@ == old(w).left_movers@,
                w.players@ == old(w).players@,
                w.registry == old(w).registry,
                w.pending@ == old(w).pending@,
                w.pending_spawn@ == old(w).pending_spawn@,
            decreases self.systems@.len() - k,
        {
            let kind = self.systems[k];
            run_system(kind, w);
            proof {
                assert(self.systems@.take(k + 1) =~= self.systems@.take(k as int).push(kind));
                lemma_run_sequence_snoc(
                    self.systems@.take(k as int),
                    kind,
                    old(w).positions@,
                    old(w).left_movers@.dom(),
                );
            }
            k = k + 1;
        }
        proof {
            assert(self.systems@.take(self.systems@.len() as int) =~= self.systems@);
        }
        w.maintain()
    }
}

} // verus!
