//! Core of a retained-mode UI runtime: an entity tree, a typed component store,
//! per-window registries with a message queue, and a fixed four-phase system pipeline.

pub mod geometry;
pub mod tree;
pub mod component;
pub mod context;
pub mod window;
pub mod application;
