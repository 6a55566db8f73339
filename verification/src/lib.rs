//! Deterministic simulation core of a top-down gravity game: a sparse
//! component store, an entity registry with deferred destruction, and the
//! per-tick systems that run over them, all in fixed-point integer arithmetic.

pub mod aim;
pub mod collision;
pub mod components;
pub mod controls;
pub mod explosion;
pub mod gravity;
pub mod level;
pub mod model;
pub mod physics;
pub mod predict;
pub mod query;
pub mod registry;
pub mod rocket;
pub mod scalar;
pub mod spawn;
pub mod store;
pub mod sweep;
pub mod tick;
pub mod trail;
pub mod turret;
pub mod world;
