//! One simulation step from the outside: a player intent, then every
//! registered system in order, then the deferred structural batch. A
//! presentation collaborator reads the render join afterwards.

use vstd::prelude::*;

use crate::entity::Entity;
use crate::components::Position;
use crate::player::{player_move_map, try_move_player};
use crate::store::{join2, sorted_by_index};
use crate::systems::{run_sequence, Scheduler};
use crate::world::{
    builder_left_movers, builder_players, builder_positions, builder_renderables, spawn_apply,
    EntityBuilder, World,
};

verus! {

/// What a raw input event asks of the world. The input collaborator maps
/// key presses to intents; anything unrecognized maps to `Idle`, which
/// makes no call into the movement path at all.
#[derive(Clone, Copy, PartialEq, Eq, Structural, Debug)]
pub enum Intent {
    MoveLeft,
    MoveRight,
    MoveUp,
    MoveDown,
    Idle,
}

/// The unit move each intent requests.
pub open spec fn intent_delta(intent: Intent) -> (int, int) {
    match intent {
        Intent::MoveLeft => (-1int, 0int),
        Intent::MoveRight => (1int, 0int),
        Intent::MoveUp => (0int, -1int),
        Intent::MoveDown => (0int, 1int),
        Intent::Idle => (0int, 0int),
    }
}

/// The unit move each intent requests, as machine integers.
pub fn delta_of(intent: Intent) -> (d: (i32, i32))
    ensures
        (d.0 as int, d.1 as int) == intent_delta(intent),
{
    match intent {
        Intent::MoveLeft => (-1, 0),
        Intent::MoveRight => (1, 0),
        Intent::MoveUp => (0, -1),
        Intent::MoveDown => (0, 1),
        Intent::Idle => (0, 0),
    }
}

/// The position map after the input phase of a tick: an `Idle` intent
/// touches nothing, any other intent moves the players under the clamp
/// policy.
pub open spec fn input_step(
    pos: Map<Entity, Position>,
    players: Set<Entity>,
    intent: Intent,
) -> Map<Entity, Position> {
    if intent is Idle {
        pos
    } else {
        player_move_map(pos, players, intent_delta(intent).0, intent_delta(intent).1)
    }
}

/// One full simulation step: the intent is applied immediately, then every
/// registered system runs in registration order, then the world applies its
/// queued structural changes — in exactly that order, so nothing queued
/// during the tick is visible before its end. The entities created by the
/// queued-creation batch are returned in queue order.
pub fn tick(w: &mut World, sched: &Scheduler, intent: Intent) -> (spawned: Vec<Entity>)
    requires
        old(w).wf(),
    ensures
        final(w).wf(),
        final(w).pending@ == Seq::<Entity>::empty(),
        final(w).pending_spawn@ == Seq::<EntityBuilder>::empty(),
        spawned@.len() == old(w).pending_spawn@.len(),
        forall|i: int|
            0 <= i < spawned@.len() ==> !old(w).registry.live().difference(
                old(w).pending_set(),
            ).contains(#[trigger] spawned@[i]),
        forall|i1: int, i2: int|
            0 <= i1 < i2 < spawned@.len() ==> spawned@[i1] != spawned@[i2],
        final(w).registry.live() == old(w).registry.live().difference(
            old(w).pending_set(),
        ).union(spawned@.to_set()),
        final(w).positions@ == spawn_apply(
            run_sequence(
                sched.systems@,
                input_step(old(w).positions@, old(w).players@.dom(), intent),
                old(w).left_movers@.dom(),
            ).remove_keys(old(w).pending_set()),
            builder_positions(old(w).pending_spawn@),
            spawned@,
        ),
        final(w).renderables@ == spawn_apply(
            old(w).renderables@.remove_keys(old(w).pending_set()),
            builder_renderables(old(w).pending_spawn@),
            spawned@,
        ),
        final(w).left_movers@ == spawn_apply(
            old(w).left_movers@.remove_keys(old(w).pending_set()),
            builder_left_movers(old(w).pending_spawn@),
            spawned@,
        ),
        final(w).players@ == spawn_apply(
            old(w).players@.remove_keys(old(w).pending_set()),
            builder_players(old(w).pending_spawn@),
            spawned@,
        ),
{
    match intent {
        Intent::Idle => {},
        _ => {
            let d = delta_of(intent);
            try_move_player(d.0, d.1, w);
        },
    }
    sched.run_systems(w)
}

/// The render join, read once per tick after `tick` returns: exactly the
/// entities that have both a position and a renderable, in deterministic
/// ascending slot order. The collaborator then reads each entity's pair of
/// components through the world's accessors.
pub fn render_entities(w: &World) -> (r: Vec<Entity>)
    ensures
        forall|e: Entity|
            r@.contains(e) <==> (w.positions@.contains_key(e)
                && w.renderables@.contains_key(e)),
        sorted_by_index(r@),
{
    join2(&w.positions, &w.renderables)
}

} // verus!
