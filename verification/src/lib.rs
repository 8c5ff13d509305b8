//! The rules of a tank game, verified: damage and what it does to a tank, driving, aiming, shooting,
//! and the readouts.
//!
//! All arithmetic on quantities is binary32 arithmetic done in integers, so that a step of the
//! simulation gives the same bits everywhere.

pub mod binary32;
pub mod bounds;
pub mod camera;
pub mod damage;
pub mod debug;
pub mod driving;
pub mod hierarchy;
pub mod hud;
pub mod sandbox;
pub mod shooting;
pub mod sight;
pub mod spec;
pub mod state;
pub mod tank;
pub mod text;
pub mod vector;
pub mod world;
