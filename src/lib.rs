//! A fixed-point particle simulation: entities drift inside a rectangular
//! arena, bounce off its walls and can be drawn toward, or pushed away from,
//! a focal point.

pub mod entity;
pub mod fixed;
mod random;
pub mod vec2;
pub mod world;

pub use entity::{Bounds, Entity, Rgba};
pub use fixed::{LIMIT, UNIT};
pub use vec2::Vec2;
pub use world::World;
