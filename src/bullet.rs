//! The bullet rule: a bullet is destroyed by the first wall or enemy it hits.
use vstd::prelude::*;
use crate::collision::{
    start_pairs, struck, struck_participants, CollidableKind, CollisionStartEvent, ObjectInfo,
};

verus! {

/// The kinds that destroy a bullet on contact.
pub open spec fn bullet_stoppers() -> Seq<CollidableKind> {
    seq![CollidableKind::Enemy, CollidableKind::Wall]
}

/// The bullets that this frame's started contacts destroy: each bullet that
/// began touching an enemy or a wall, once, with the snapshot taken at
/// contact time. The caller despawns them and plays the impact cue where
/// they were.
pub fn bullet_collision<T: Copy>(start_events: &Vec<CollisionStartEvent<T>>) -> (r: Vec<ObjectInfo<T>>)
    ensures
        r@ == struck(start_pairs(start_events@), CollidableKind::Bullet, bullet_stoppers()),
{
    let stoppers = vec![CollidableKind::Enemy, CollidableKind::Wall];
    proof {
        assert(stoppers@ =~= bullet_stoppers());
    }
    struck_participants(start_events, CollidableKind::Bullet, &stoppers)
}

} // verus!
