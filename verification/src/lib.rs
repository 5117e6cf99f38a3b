//! A minimal entity-component-system registry with singleton semantics.
//!
//! A single logical world holds entities (bundles of component references)
//! and systems (handlers keyed by a component-combination query). The core
//! is the component register: it assigns each distinct component address a
//! unique bit position in a fixed-width bitmap, combines per-entity
//! component sets into composite bitmasks, and lets systems declare
//! interest via bitmask queries.

pub mod address;
pub mod bits;
pub mod contract;
pub mod errors;
pub mod laws;
pub mod register;
pub mod world;
