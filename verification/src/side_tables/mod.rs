//! Dense hot-component side-tables: which place each entity occupies (with a
//! reverse occupant index), which entities each container holds, and the
//! keywords each entity answers to.
//!
//! These tables are pure storage keyed by slot index (the slot half of an
//! `EntityId`); they are deliberately not the liveness authority. The arena
//! owns liveness: a caller resolves a handle through the arena — which rejects
//! stale and cross-tenant handles — and only then indexes a side-table.

pub mod location;
pub mod inventory;
pub mod naming;
