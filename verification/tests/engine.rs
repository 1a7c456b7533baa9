//! Tests of the storage engine: registry, stores, joins, and the world's
//! structural operations.

use kazoo_ecs::components::{LeftMover, Player, Position, Renderable, Rgb};
use kazoo_ecs::entity::{Entity, EntityRegistry};
use kazoo_ecs::store::{join2, restrict_to, Store};
use kazoo_ecs::world::{EntityBuilder, World};

fn pos(x: i32, y: i32) -> Position {
    Position { x, y }
}

#[test]
fn registry_creates_live_entities() {
    let mut reg = EntityRegistry::new();
    let a = reg.create();
    let b = reg.create();
    assert!(reg.is_alive(a));
    assert!(reg.is_alive(b));
    assert_ne!(a, b);
}

#[test]
fn registry_destroy_is_idempotent() {
    let mut reg = EntityRegistry::new();
    let a = reg.create();
    reg.destroy(a);
    assert!(!reg.is_alive(a));
    reg.destroy(a);
    assert!(!reg.is_alive(a));
    let never = Entity { index: 100, generation: 0 };
    reg.destroy(never);
    assert!(!reg.is_alive(never));
}

#[test]
fn recycled_slot_rejects_stale_identifier() {
    let mut reg = EntityRegistry::new();
    let a = reg.create();
    reg.destroy(a);
    let b = reg.create();
    assert_eq!(b.index, a.index);
    assert_ne!(b.generation, a.generation);
    assert!(reg.is_alive(b));
    assert!(!reg.is_alive(a));
}

#[test]
fn store_holds_at_most_one_value_per_entity() {
    let mut reg = EntityRegistry::new();
    let e = reg.create();
    let mut s: Store<Position> = Store::new();
    s.insert(e, pos(1, 2));
    s.insert(e, pos(3, 4));
    assert_eq!(s.get(e), Some(pos(3, 4)));
    assert_eq!(s.entities().len(), 1);
}

#[test]
fn store_get_and_remove_report_absence() {
    let mut reg = EntityRegistry::new();
    let e = reg.create();
    let other = reg.create();
    let mut s: Store<Position> = Store::new();
    s.insert(e, pos(5, 6));
    assert_eq!(s.get(other), None);
    assert_eq!(s.remove(other), None);
    assert_eq!(s.remove(e), Some(pos(5, 6)));
    assert_eq!(s.get(e), None);
    assert_eq!(s.remove(e), None);
}

#[test]
fn stale_identifier_reads_nothing_from_store() {
    let mut reg = EntityRegistry::new();
    let a = reg.create();
    let mut s: Store<Position> = Store::new();
    s.insert(a, pos(1, 1));
    reg.destroy(a);
    s.remove(a);
    let b = reg.create();
    s.insert(b, pos(9, 9));
    // `a` names the same slot as `b` but an older generation.
    assert_eq!(s.get(a), None);
    assert_eq!(s.get(b), Some(pos(9, 9)));
}

#[test]
fn join_yields_exactly_the_common_entities() {
    let mut reg = EntityRegistry::new();
    let both = reg.create();
    let only_pos = reg.create();
    let only_mover = reg.create();
    let neither = reg.create();
    let mut positions: Store<Position> = Store::new();
    let mut movers: Store<LeftMover> = Store::new();
    positions.insert(both, pos(1, 2));
    positions.insert(only_pos, pos(3, 4));
    movers.insert(both, LeftMover {});
    movers.insert(only_mover, LeftMover {});
    let joined = join2(&movers, &positions);
    assert_eq!(joined.len(), 1);
    assert_eq!(joined[0], both);
    assert!(!joined.contains(&only_pos));
    assert!(!joined.contains(&only_mover));
    assert!(!joined.contains(&neither));
    // The joined entity carries the correct per-store values.
    assert_eq!(positions.get(joined[0]), Some(pos(1, 2)));
    assert!(movers.get(joined[0]).is_some());
}

#[test]
fn join_of_three_stores_via_restrict() {
    let mut reg = EntityRegistry::new();
    let a = reg.create();
    let b = reg.create();
    let mut positions: Store<Position> = Store::new();
    let mut movers: Store<LeftMover> = Store::new();
    let mut players: Store<Player> = Store::new();
    positions.insert(a, pos(0, 0));
    positions.insert(b, pos(1, 1));
    movers.insert(a, LeftMover {});
    movers.insert(b, LeftMover {});
    players.insert(a, Player {});
    let two = join2(&movers, &positions);
    assert_eq!(two.len(), 2);
    let three = restrict_to(&two, &players);
    assert_eq!(three.len(), 1);
    assert_eq!(three[0], a);
}

#[test]
fn join_order_is_deterministic_and_ascending() {
    let mut reg = EntityRegistry::new();
    let e0 = reg.create();
    let e1 = reg.create();
    let e2 = reg.create();
    let mut positions: Store<Position> = Store::new();
    let mut movers: Store<LeftMover> = Store::new();
    // Insertion order deliberately scrambled.
    positions.insert(e2, pos(2, 0));
    positions.insert(e0, pos(0, 0));
    positions.insert(e1, pos(1, 0));
    movers.insert(e1, LeftMover {});
    movers.insert(e0, LeftMover {});
    movers.insert(e2, LeftMover {});
    let first = join2(&movers, &positions);
    let second = join2(&movers, &positions);
    assert_eq!(first, second);
    assert_eq!(first, vec![e0, e1, e2]);
}

#[test]
fn builder_commits_all_components_atomically() {
    let mut w = World::new();
    let b = EntityBuilder::new()
        .with_position(pos(4, 5))
        .with_renderable(Renderable {
            glyph: 64,
            fg: Rgb { r: 255, g: 255, b: 0 },
            bg: Rgb { r: 0, g: 0, b: 0 },
        })
        .with_player(Player {});
    let e = w.build_entity(b);
    assert!(w.is_alive(e));
    assert_eq!(w.get_position(e), Some(pos(4, 5)));
    assert_eq!(w.get_renderable(e).map(|r| r.glyph), Some(64));
    assert!(w.players.contains(e));
    assert!(!w.left_movers.contains(e));
}

#[test]
fn attach_fails_softly_on_dead_entity() {
    let mut w = World::new();
    let e = w.build_entity(EntityBuilder::new());
    w.queue_destroy(e);
    w.maintain();
    assert!(!w.attach_position(e, pos(1, 1)));
    assert_eq!(w.get_position(e), None);
    let live = w.build_entity(EntityBuilder::new());
    assert!(w.attach_position(live, pos(2, 2)));
    assert_eq!(w.get_position(live), Some(pos(2, 2)));
}

#[test]
fn queued_destruction_is_invisible_until_maintain() {
    let mut w = World::new();
    let e = w.build_entity(
        EntityBuilder::new().with_position(pos(7, 8)).with_left_mover(LeftMover {}),
    );
    w.queue_destroy(e);
    // Still fully queryable: nothing applied yet.
    assert!(w.is_alive(e));
    assert_eq!(w.get_position(e), Some(pos(7, 8)));
    assert!(w.left_movers.contains(e));
    w.maintain();
    // Now gone from the registry and from every store.
    assert!(!w.is_alive(e));
    assert_eq!(w.get_position(e), None);
    assert!(!w.left_movers.contains(e));
    assert_eq!(w.positions.entities().len(), 0);
}

#[test]
fn queued_creation_is_invisible_until_maintain() {
    let mut w = World::new();
    w.queue_spawn(
        EntityBuilder::new().with_position(pos(12, 13)).with_player(Player {}),
    );
    // Nothing observable yet: no entity, no components.
    assert_eq!(w.positions.entities().len(), 0);
    assert_eq!(w.players.entities().len(), 0);
    let spawned = w.maintain();
    assert_eq!(spawned.len(), 1);
    assert!(w.is_alive(spawned[0]));
    assert_eq!(w.get_position(spawned[0]), Some(pos(12, 13)));
    assert!(w.players.contains(spawned[0]));
}

#[test]
fn maintain_applies_destructions_before_creations() {
    let mut w = World::new();
    let old_one = w.build_entity(EntityBuilder::new().with_position(pos(1, 2)));
    w.queue_destroy(old_one);
    w.queue_spawn(EntityBuilder::new().with_position(pos(3, 4)));
    w.queue_spawn(EntityBuilder::new().with_position(pos(5, 6)));
    let spawned = w.maintain();
    assert!(!w.is_alive(old_one));
    assert_eq!(w.get_position(old_one), None);
    assert_eq!(spawned.len(), 2);
    assert_ne!(spawned[0], spawned[1]);
    assert_eq!(w.get_position(spawned[0]), Some(pos(3, 4)));
    assert_eq!(w.get_position(spawned[1]), Some(pos(5, 6)));
    assert_eq!(w.positions.entities().len(), 2);
}

#[test]
fn destroying_absent_entities_changes_nothing() {
    let mut w = World::new();
    let keeper = w.build_entity(EntityBuilder::new().with_position(pos(10, 11)));
    let gone = w.build_entity(EntityBuilder::new().with_position(pos(1, 1)));
    w.queue_destroy(gone);
    w.maintain();
    // Already destroyed: queueing it again is a no-op.
    w.queue_destroy(gone);
    // Never existed at all.
    w.queue_destroy(Entity { index: 999, generation: 3 });
    w.maintain();
    assert!(w.is_alive(keeper));
    assert_eq!(w.get_position(keeper), Some(pos(10, 11)));
    assert_eq!(w.positions.entities(), vec![keeper]);
}
