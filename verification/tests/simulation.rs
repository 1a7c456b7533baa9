//! Tests of the simulation behaviour: player movement, the left-walker
//! system, scheduling order, and a full tick.

use kazoo_ecs::components::{LeftMover, Player, Position, Renderable, Rgb};
use kazoo_ecs::player::try_move_player;
use kazoo_ecs::systems::{Scheduler, SystemKind};
use kazoo_ecs::tick::{delta_of, render_entities, tick, Intent};
use kazoo_ecs::world::{EntityBuilder, World};

fn pos(x: i32, y: i32) -> Position {
    Position { x, y }
}

fn glyph(g: u16, fg: Rgb) -> Renderable {
    Renderable { glyph: g, fg, bg: Rgb { r: 0, g: 0, b: 0 } }
}

const YELLOW: Rgb = Rgb { r: 255, g: 255, b: 0 };
const RED: Rgb = Rgb { r: 255, g: 0, b: 0 };

#[test]
fn left_walker_steps_left() {
    let mut w = World::new();
    let e = w.build_entity(
        EntityBuilder::new().with_position(pos(5, 20)).with_left_mover(LeftMover {}),
    );
    let mut sched = Scheduler::new();
    sched.register(SystemKind::LeftWalker);
    sched.run_systems(&mut w);
    assert_eq!(w.get_position(e), Some(pos(4, 20)));
}

#[test]
fn left_walker_wraps_at_the_edge() {
    let mut w = World::new();
    let e = w.build_entity(
        EntityBuilder::new().with_position(pos(0, 20)).with_left_mover(LeftMover {}),
    );
    let bystander = w.build_entity(EntityBuilder::new().with_position(pos(0, 30)));
    let mut sched = Scheduler::new();
    sched.register(SystemKind::LeftWalker);
    sched.run_systems(&mut w);
    // Wrap policy: one step left of column 0 is the far column, 79.
    assert_eq!(w.get_position(e), Some(pos(79, 20)));
    // An entity without the left-mover tag does not move.
    assert_eq!(w.get_position(bystander), Some(pos(0, 30)));
}

#[test]
fn left_walker_wraps_from_any_offscreen_column() {
    let mut w = World::new();
    let e = w.build_entity(EntityBuilder::new().with_left_mover(LeftMover {}));
    // A position left of the screen still wraps to the far column.
    assert!(w.attach_position(e, pos(-5, 10)));
    let mut sched = Scheduler::new();
    sched.register(SystemKind::LeftWalker);
    sched.run_systems(&mut w);
    assert_eq!(w.get_position(e), Some(pos(79, 10)));
}

#[test]
fn empty_schedule_only_flushes_the_queues() {
    let mut w = World::new();
    let kept = w.build_entity(EntityBuilder::new().with_position(pos(1, 1)));
    let gone = w.build_entity(EntityBuilder::new().with_position(pos(2, 2)));
    w.queue_destroy(gone);
    let sched = Scheduler::new();
    let spawned = sched.run_systems(&mut w);
    assert!(spawned.is_empty());
    assert_eq!(w.get_position(kept), Some(pos(1, 1)));
    assert!(!w.is_alive(gone));
}

#[test]
fn player_movement_clamps_and_never_wraps() {
    let mut w = World::new();
    let e = w.build_entity(
        EntityBuilder::new().with_position(pos(0, 25)).with_player(Player {}),
    );
    // Clamp policy at the left edge: x stays 0, no wrap to 79.
    try_move_player(-1, 0, &mut w);
    assert_eq!(w.get_position(e), Some(pos(0, 25)));
    // Clamp at the right edge: x sticks at 79.
    assert!(w.attach_position(e, pos(79, 25)));
    try_move_player(1, 0, &mut w);
    assert_eq!(w.get_position(e), Some(pos(79, 25)));
    // Clamp at the bottom edge: y sticks at 49.
    assert!(w.attach_position(e, pos(40, 49)));
    try_move_player(0, 1, &mut w);
    assert_eq!(w.get_position(e), Some(pos(40, 49)));
    // Clamp at the top edge: y stays 0.
    assert!(w.attach_position(e, pos(40, 0)));
    try_move_player(0, -1, &mut w);
    assert_eq!(w.get_position(e), Some(pos(40, 0)));
    // An interior move is applied unchanged.
    assert!(w.attach_position(e, pos(40, 25)));
    try_move_player(1, -1, &mut w);
    assert_eq!(w.get_position(e), Some(pos(41, 24)));
}

#[test]
fn movement_ignores_entities_without_the_player_tag() {
    let mut w = World::new();
    let npc = w.build_entity(EntityBuilder::new().with_position(pos(10, 10)));
    try_move_player(1, 1, &mut w);
    assert_eq!(w.get_position(npc), Some(pos(10, 10)));
}

#[test]
fn systems_run_in_registration_order() {
    let mut w = World::new();
    let e = w.build_entity(EntityBuilder::new().with_position(pos(0, 7)));
    let mut sched = Scheduler::new();
    sched.register(SystemKind::SetAllX { x: 5 });
    sched.register(SystemKind::SetAllX { x: 9 });
    sched.run_systems(&mut w);
    // The later registration overwrites the earlier one, never the reverse.
    assert_eq!(w.get_position(e), Some(pos(9, 7)));

    let mut w2 = World::new();
    let e2 = w2.build_entity(EntityBuilder::new().with_position(pos(0, 7)));
    let mut sched2 = Scheduler::new();
    sched2.register(SystemKind::SetAllX { x: 9 });
    sched2.register(SystemKind::SetAllX { x: 5 });
    sched2.run_systems(&mut w2);
    assert_eq!(w2.get_position(e2), Some(pos(5, 7)));
}

#[test]
fn intents_map_to_unit_deltas() {
    assert_eq!(delta_of(Intent::MoveLeft), (-1, 0));
    assert_eq!(delta_of(Intent::MoveRight), (1, 0));
    assert_eq!(delta_of(Intent::MoveUp), (0, -1));
    assert_eq!(delta_of(Intent::MoveDown), (0, 1));
    assert_eq!(delta_of(Intent::Idle), (0, 0));
}

#[test]
fn destruction_queued_during_a_tick_applies_at_its_end() {
    let mut w = World::new();
    let mover = w.build_entity(
        EntityBuilder::new().with_position(pos(3, 3)).with_left_mover(LeftMover {}),
    );
    w.queue_destroy(mover);
    // Queued, not applied: the tick still sees and moves the entity, and
    // only the maintain step at the tick's end removes it.
    assert_eq!(w.get_position(mover), Some(pos(3, 3)));
    let mut sched = Scheduler::new();
    sched.register(SystemKind::LeftWalker);
    tick(&mut w, &sched, Intent::Idle);
    assert!(!w.is_alive(mover));
    assert_eq!(w.get_position(mover), None);
    assert!(!w.left_movers.contains(mover));
}

#[test]
fn creation_queued_during_a_tick_applies_at_its_end() {
    let mut w = World::new();
    w.queue_spawn(
        EntityBuilder::new().with_position(pos(2, 2)).with_left_mover(LeftMover {}),
    );
    let mut sched = Scheduler::new();
    sched.register(SystemKind::LeftWalker);
    let spawned = tick(&mut w, &sched, Intent::Idle);
    // The entity appears only after the tick's systems: it was not walked.
    assert_eq!(spawned.len(), 1);
    assert_eq!(w.get_position(spawned[0]), Some(pos(2, 2)));
    // The next tick moves it like any other mover.
    tick(&mut w, &sched, Intent::Idle);
    assert_eq!(w.get_position(spawned[0]), Some(pos(1, 2)));
}

#[test]
fn full_tick_scenario() {
    let mut w = World::new();
    let player = w.build_entity(
        EntityBuilder::new()
            .with_position(pos(40, 25))
            .with_renderable(glyph(64, YELLOW))
            .with_player(Player {}),
    );
    let mut movers = Vec::new();
    for i in 0..10 {
        movers.push(w.build_entity(
            EntityBuilder::new()
                .with_position(pos(i * 7, 20))
                .with_renderable(glyph(1, RED))
                .with_left_mover(LeftMover {}),
        ));
    }
    let mut sched = Scheduler::new();
    sched.register(SystemKind::LeftWalker);

    tick(&mut w, &sched, Intent::MoveRight);

    // The player moved right once and was not walked left.
    assert_eq!(w.get_position(player), Some(pos(41, 25)));
    // Every left mover stepped one column left; the one at column 0 wrapped.
    assert_eq!(w.get_position(movers[0]), Some(pos(79, 20)));
    for i in 1..10 {
        assert_eq!(w.get_position(movers[i]), Some(pos(i as i32 * 7 - 1, 20)));
    }
    // The render join yields exactly the eleven drawable entities, with the
    // positions above and their glyphs and colours intact.
    let drawn = render_entities(&w);
    assert_eq!(drawn.len(), 11);
    assert!(drawn.contains(&player));
    let mut wrapped = 0;
    for e in &drawn {
        let p = w.get_position(*e).unwrap();
        let r = w.get_renderable(*e).unwrap();
        if *e == player {
            assert_eq!((p, r.glyph, r.fg), (pos(41, 25), 64, YELLOW));
        } else {
            assert_eq!((p.y, r.glyph, r.fg), (20, 1, RED));
            if p.x == 79 {
                wrapped += 1;
            }
        }
    }
    assert_eq!(wrapped, 1);
}
