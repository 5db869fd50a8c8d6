//! Gameplay rules of a top-down arena shooter, kept apart from the engine
//! that runs them: collision-event bookkeeping across frames and the
//! decisions that the damage, bullet and enemy systems take on those events.

pub mod collision;
pub mod lifecycle;
pub mod player;
pub mod bullet;
pub mod enemy;
pub mod audio;
