//! A two-player grid combat game: fleet placement, alternating aim-and-fire
//! turns, victory detection, and the line protocol that keeps two networked
//! instances in lock-step.

pub mod geometry;
pub mod fleet;
pub mod player;
pub mod random;
pub mod layout;
pub mod codec;
pub mod session;
