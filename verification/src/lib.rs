//! Core of a discrete-grid snake simulation: grid geometry, the entity
//! model (snakes, walls, food), the per-tick movement/collision/growth
//! engine, and the session manager with its food-spawning policy.
//!
//! Rendering and input handling are deliberately left to the surrounding
//! program; this crate holds only the simulation rules, each stated in a
//! contract and proved.

pub mod entity;
pub mod geom;
pub mod session;
pub mod tick;
