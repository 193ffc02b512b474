//! Collision detection and resolution for a block-breaking arcade game,
//! on fixed-point integer geometry.
pub mod frame;
pub mod geometry;
pub mod level;
pub mod lifecycle;
pub mod motion;
pub mod resolver;
pub mod world;
