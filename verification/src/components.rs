//! The attribute records that an entity is made of.

pub mod physics;
pub mod render;
