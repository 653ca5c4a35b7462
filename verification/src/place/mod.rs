//! The `Place` spatial surface.
//!
//! Every spatial location is a `Place`. A place carries two identities with
//! distinct lifetimes, mirroring entities: `PlaceId` is the ephemeral
//! in-process handle; `PlaceKey` is the durable authored slug.

pub mod id;
pub mod key;
pub mod room;
