//! A small entity-component engine for a real-time simulation loop.
//!
//! Simulated objects ("entities") are opaque identifiers; their data lives in
//! per-type sparse stores. Behaviour units ("systems") run once per tick over
//! the entities present in a chosen combination of stores, and structural
//! changes requested during a tick are queued and applied in one batch
//! afterwards.

pub mod components;
pub mod entity;
pub mod player;
pub mod store;
pub mod systems;
pub mod tick;
pub mod world;
