//! The damage rule: contact with an enemy costs the player one point of
//! health, at most once per cooldown window.
use vstd::prelude::*;
use crate::collision::{
    lemma_kind_filter_symmetric, pair_has_kinds, start_pairs, swapped, stay_pairs, involves_kinds, CollidableKind, CollisionStartEvent,
    CollisionStayEvent, ContactPair,
};

verus! {

/// The health a player starts with, which the health bar shows as full.
pub const FULL_HEALTH: i32 = 10;

/// Whether a contact is one that hurts the player: a player-kind and an
/// enemy-kind participant, on either side.
pub open spec fn hurts_player<T>(p: ContactPair<T>) -> bool {
    pair_has_kinds(p.0, p.1, CollidableKind::Player, CollidableKind::Enemy)
}

pub open spec fn any_hurts_player<T>(s: Seq<ContactPair<T>>) -> bool {
    exists|i: int| 0 <= i < s.len() && #[trigger] hurts_player(s[i])
}

/// The width of the health bar, in percent of its full width.
pub open spec fn bar_percent(health: int) -> int {
    health * 100 / (FULL_HEALTH as int)
}

/// What the player's state becomes after one hit.
#[derive(Clone, Copy, Debug, PartialEq, Eq, Structural)]
pub struct DamageOutcome {
    /// Health after the hit.
    pub health: i32,
    /// Width of the health bar for that health, in percent.
    pub health_bar_percent: i64,
    /// The hit used up the last point of health: the game is over.
    pub game_over: bool,
}

/// The outcome of one hit on a player with `health`.
pub open spec fn hit_outcome(health: i32) -> DamageOutcome {
    DamageOutcome {
        health: (health - 1) as i32,
        health_bar_percent: bar_percent(health - 1) as i64,
        game_over: health - 1 <= 0,
    }
}

/// The hit a player with `health` takes, if any: one when no cooldown runs
/// and some started or staying contact hurts the player.
pub open spec fn damage_decision<T>(
    cooldown_ready: bool,
    health: i32,
    started: Seq<ContactPair<T>>,
    staying: Seq<ContactPair<T>>,
) -> Option<DamageOutcome> {
    if cooldown_ready && (any_hurts_player(started) || any_hurts_player(staying)) {
        Some(hit_outcome(health))
    } else {
        None
    }
}

/// The width of the health bar for `health`, in percent of full width.
pub fn health_bar_percent(health: i32) -> (r: i64)
    ensures
        r == bar_percent(health as int),
{
    (health as i64) * 100 / (FULL_HEALTH as i64)
}

fn any_start_hurts<T>(events: &Vec<CollisionStartEvent<T>>) -> (r: bool)
    ensures
        r == any_hurts_player(start_pairs(events@)),
{
    let ghost s = start_pairs(events@);
    let mut i: usize = 0;
    while i < events.len()
        invariant
            0 <= i <= events@.len(),
            s == start_pairs(events@),
            forall|j: int| 0 <= j < i ==> !hurts_player(#[trigger] s[j]),
        decreases events@.len() - i,
    {
        let e = &events[i];
        if involves_kinds(&e.0, &e.1, CollidableKind::Player, CollidableKind::Enemy) {
            assert(hurts_player(s[i as int]));
            return true;
        }
        i += 1;
    }
    false
}

fn any_stay_hurts<T>(events: &Vec<CollisionStayEvent<T>>) -> (r: bool)
    ensures
        r == any_hurts_player(stay_pairs(events@)),
{
    let ghost s = stay_pairs(events@);
    let mut i: usize = 0;
    while i < events.len()
        invariant
            0 <= i <= events@.len(),
            s == stay_pairs(events@),
            forall|j: int| 0 <= j < i ==> !hurts_player(#[trigger] s[j]),
        decreases events@.len() - i,
    {
        let e = &events[i];
        if involves_kinds(&e.0, &e.1, CollidableKind::Player, CollidableKind::Enemy) {
            assert(hurts_player(s[i as int]));
            return true;
        }
        i += 1;
    }
    false
}

/// Decides whether the player takes a hit this frame. `cooldown_ready`
/// tells that no damage cooldown is running; `health` is the player's
/// health. A started or staying contact between a player and an enemy then
/// costs one point of health, once however many such contacts there are;
/// the caller restarts the cooldown when a hit is returned.
pub fn player_damage<T>(
    cooldown_ready: bool,
    health: i32,
    start_events: &Vec<CollisionStartEvent<T>>,
    stay_events: &Vec<CollisionStayEvent<T>>,
) -> (r: Option<DamageOutcome>)
    requires
        health > i32::MIN,
    ensures
        r == damage_decision(cooldown_ready, health, start_pairs(start_events@), stay_pairs(stay_events@)),
{
    if !cooldown_ready {
        return None;
    }
    if any_start_hurts(start_events) || any_stay_hurts(stay_events) {
        let health = health - 1;
        Some(DamageOutcome {
            health,
            health_bar_percent: health_bar_percent(health),
            game_over: health <= 0,
        })
    } else {
        None
    }
}

/// The damage rule does not depend on which side of a contact holds the
/// player and which the enemy: exchanging the sides of every started and
/// staying contact leaves the decision unchanged.
pub proof fn lemma_damage_ignores_sides<T>(
    cooldown_ready: bool,
    health: i32,
    started: Seq<ContactPair<T>>,
    staying: Seq<ContactPair<T>>,
)
    ensures
        damage_decision(cooldown_ready, health, swapped(started), swapped(staying))
            == damage_decision(cooldown_ready, health, started, staying),
{
    lemma_hurts_swapped(started);
    lemma_hurts_swapped(staying);
}

proof fn lemma_hurts_swapped<T>(s: Seq<ContactPair<T>>)
    ensures
        any_hurts_player(swapped(s)) == any_hurts_player(s),
{
    let w = swapped(s);
    assert forall|i: int| 0 <= i < s.len() implies #[trigger] hurts_player(w[i]) == hurts_player(s[i]) by {
        lemma_kind_filter_symmetric(s[i].0, s[i].1, CollidableKind::Player, CollidableKind::Enemy);
    }
    if any_hurts_player(s) {
        let i = choose|i: int| 0 <= i < s.len() && #[trigger] hurts_player(s[i]);
        assert(hurts_player(w[i]));
    }
    if any_hurts_player(w) {
        let i = choose|i: int| 0 <= i < w.len() && #[trigger] hurts_player(w[i]);
        assert(hurts_player(s[i]));
    }
}

} // verus!
