//! Direct player movement: applied immediately against the world's stores,
//! outside the system/scheduler path, with a clamp policy at the screen
//! edges — deliberately different from the left-walker's wrap policy.

use vstd::prelude::*;

use crate::components::Position;
use crate::entity::Entity;
use crate::store::{join2, lemma_push_contains, sorted_by_index};
use crate::world::World;

verus! {

/// Saturation to a closed interval: values stick at the bounds, never wrap.
pub open spec fn clamp(v: int, lo: int, hi: int) -> int {
    if v < lo {
        lo
    } else if v > hi {
        hi
    } else {
        v
    }
}

/// Where an entity standing at `p` ends up after a requested move of
/// `(dx, dy)`: each coordinate saturates at its screen edge (x in 0..=79,
/// y in 0..=49).
pub open spec fn player_moved(p: Position, dx: int, dy: int) -> Position {
    Position { x: clamp(p.x + dx, 0, 79) as i32, y: clamp(p.y + dy, 0, 49) as i32 }
}

/// The position map after a player move: every entity with the player tag
/// and a position moves under the clamp policy, everything else stays.
pub open spec fn player_move_map(
    pos: Map<Entity, Position>,
    players: Set<Entity>,
    dx: int,
    dy: int,
) -> Map<Entity, Position> {
    Map::new(
        |e: Entity| pos.contains_key(e),
        |e: Entity|
            if players.contains(e) {
                player_moved(pos[e], dx, dy)
            } else {
                pos[e]
            },
    )
}

/// Moves every entity that has both the player tag and a position by
/// `(delta_x, delta_y)`, clamping to the screen. Applied immediately: no
/// queueing, no scheduler involvement.
pub fn try_move_player(delta_x: i32, delta_y: i32, w: &mut World)
    requires
        old(w).wf(),
    ensures
        final(w).wf(),
        final(w).positions@ == player_move_map(
            old(w).positions@,
            old(w).players@.dom(),
            delta_x as int,
            delta_y as int,
        ),
        final(w).renderables@ == old(w).renderables@,
        final(w).left_movers@ == old(w).left_movers@,
        final(w).players@ == old(w).players@,
        final(w).registry == old(w).registry,
        final(w).pending@ == old(w).pending@,
        final(w).pending_spawn@ == old(w).pending_spawn@,
{
    let joined = join2(&w.players, &w.positions);
    let ghost pos0 = w.positions@;
    let ghost who = w.players@.dom();
    let ghost target = player_move_map(pos0, who, delta_x as int, delta_y as int);
    let mut k: usize = 0;
    while k < joined.len()
        invariant
            w.wf(),
            w.renderables@ == old(w).renderables@,
            w.left_movers@ == old(w).left_movers@,
            w.players@ == old(w).players@,
            w.registry == old(w).registry,
            w.pending@ == old(w).pending@,
            w.pending_spawn@ == old(w).pending_spawn@,
            pos0 == old(w).positions@,
            who == old(w).players@.dom(),
            target == player_move_map(pos0, who, delta_x as int, delta_y as int),
            forall|e: Entity|
                (#[trigger] joined@.contains(e)) == (who.contains(e) && pos0.contains_key(e)),
            sorted_by_index(joined@),
            k <= joined@.len(),
            w.positions@.dom() == pos0.dom(),
            forall|e: Entity| #[trigger]
                w.positions@.contains_key(e) ==> w.positions@[e] == (if joined@.take(
                    k as int,
                ).contains(e) {
                    target[e]
                } else {
                    pos0[e]
                }),
        decreases joined@.len() - k,
    {
        let e = joined[k];
        proof {
            assert(joined@.contains(e));
            assert(w.positions@.contains_key(e));
            assert(!joined@.take(k as int).contains(e)) by {
                if joined@.take(k as int).contains(e) {
                    let j = choose|j: int| 0 <= j < k && joined@.take(k as int)[j] == e;
                    assert(joined@[j] == e);
                    assert(joined@[j].index < joined@[k as int].index);
                }
            }
        }
        let p = match w.positions.get(e) {
            Some(p) => p,
            None => {
                proof {
                    assert(false);
                }
                Position { x: 0, y: 0 }
            },
        };
        let sx: i64 = p.x as i64 + delta_x as i64;
        let nx: i32 = if sx < 0 {
            0
        } else if sx > 79 {
            79
        } else {
            sx as i32
        };
        let sy: i64 = p.y as i64 + delta_y as i64;
        let ny: i32 = if sy < 0 {
            0
        } else if sy > 49 {
            49
        } else {
            sy as i32
        };
        let np = Position { x: nx, y: ny };
        proof {
            assert(np == player_moved(pos0[e], delta_x as int, delta_y as int));
        }
        let ghost before = w.positions@;
        w.positions.insert(e, np);
        proof {
            assert(w.positions@ == before.insert(e, np));
            assert(np == target[e]);
            assert(w.positions@.dom() =~= pos0.dom());
            assert(joined@.take(k + 1) =~= joined@.take(k as int).push(e));
            assert forall|e2: Entity| #[trigger]
                w.positions@.contains_key(e2) implies w.positions@[e2] == (if joined@.take(
                k + 1,
            ).contains(e2) {
                target[e2]
            } else {
                pos0[e2]
            }) by {
                lemma_push_contains(joined@.take(k as int), e, e2);
                if e2 != e {
                    assert(w.positions@[e2] == before[e2]);
                }
            }
        }
        k = k + 1;
    }
    proof {
        assert(joined@.take(joined@.len() as int) =~= joined@);
        assert(w.positions@ =~= target);
    }
}

} // verus!
