//! The enemy rules: where enemies appear, and what destroys them.
use vstd::prelude::*;
use rand::Rng;
use crate::collision::{
    start_pairs, struck, struck_participants, CollidableKind, CollisionStartEvent, ObjectInfo,
};

verus! {

/// Enemies appear at whole-unit coordinates in `[-SPAWN_EXTENT, SPAWN_EXTENT)`
/// on both ground axes, inside the arena's walls.
pub const SPAWN_EXTENT: i32 = 23;

/// The kinds that destroy an enemy on contact.
pub open spec fn enemy_killers() -> Seq<CollidableKind> {
    seq![CollidableKind::Bullet]
}

/// The enemies that this frame's started contacts destroy: each enemy that
/// began touching a bullet, once. The caller despawns them.
pub fn enemy_collision<T: Copy>(start_events: &Vec<CollisionStartEvent<T>>) -> (r: Vec<ObjectInfo<T>>)
    ensures
        r@ == struck(start_pairs(start_events@), CollidableKind::Enemy, enemy_killers()),
{
    let killers = vec![CollidableKind::Bullet];
    proof {
        assert(killers@ =~= enemy_killers());
    }
    struck_participants(start_events, CollidableKind::Enemy, &killers)
}

/// Relies on rand::thread_rng and rand::Rng::gen_range on `low..high`: the
/// value drawn lies in that half-open range (gen_range panics when it is
/// empty, which `requires` rules out).
#[verifier::external_body]
fn draw_between(low: i32, high: i32) -> (r: i32)
    requires
        low < high,
    ensures
        low <= r < high,
{
    rand::thread_rng().gen_range(low..high)
}

/// Where the next enemy appears, as ground coordinates `(x, z)`, each drawn
/// at random from `[-SPAWN_EXTENT, SPAWN_EXTENT)`.
pub fn spawn_position() -> (r: (i32, i32))
    ensures
        -SPAWN_EXTENT <= r.0 < SPAWN_EXTENT,
        -SPAWN_EXTENT <= r.1 < SPAWN_EXTENT,
{
    let x = draw_between(-SPAWN_EXTENT, SPAWN_EXTENT);
    let z = draw_between(-SPAWN_EXTENT, SPAWN_EXTENT);
    (x, z)
}

} // verus!
