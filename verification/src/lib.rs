//! The lifecycle core of a small rolling-ball game.
//!
//! A ball waits on a tilted plane until the player releases it. Rolling into
//! the target zone or falling off the plane resets the level: every ball is
//! removed and exactly one fresh ball takes its place. The host engine owns
//! rendering and physics; this crate owns the entities, the reset queue and
//! the order in which a tick handles them, all of it stated in contracts.

pub mod ball;
pub mod components;
pub mod events;
pub mod filters;
pub mod game;
pub mod laws;
pub mod level;
pub mod store;
