//! The pure decisions of the persistence layer: the boundary conversions
//! between the database's integer columns and the typed ids, the mapping
//! between durable place slugs and in-process place handles, the login
//! decision over a fetched account row, and the row write each applied effect
//! implies. The queries themselves run outside this library.

pub mod error;
pub mod keys;
pub mod place_map;
pub mod login;
pub mod write_plan;
pub mod persist;
pub mod accounts;
