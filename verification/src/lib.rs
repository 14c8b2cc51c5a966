//! The core of a small real-time 2D physics sandbox: the data model of its
//! entities, the entity store, and the per-frame systems that detect
//! collisions, prune entities that left the bounds and list what to draw.

pub mod components;
pub mod physics;
pub mod scalar;
pub mod simulator;
pub mod systems;
pub mod world;
