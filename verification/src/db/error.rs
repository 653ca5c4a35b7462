//! The persistence error type.

use vstd::prelude::*;
use crate::arena::{ArenaError, ArenaFault};
use crate::chars::{decimal_i64, decimal_spec, decimal_u64, joined, signed_decimal_spec};
use crate::entity::EntityKey;

verus! {

/// Errors raised by the persistence layer. Infrastructure faults carry the
/// driver's message; consistency violations — a persisted value out of
/// range, unparseable, dangling, or otherwise impossible in a well-formed
/// database — are surfaced rather than panicked on.
#[derive(Debug, Clone, PartialEq, Eq)]
#[non_exhaustive]
pub enum DbError {
    /// A query or connection failure from the underlying driver.
    Sqlx(String),
    /// A schema migration failed to apply.
    Migrate(String),
    /// A blocking task offloaded from the async runtime failed to complete.
    BlockingTask(String),
    /// A persisted integer id was negative or zero where a positive key was
    /// expected.
    InvalidId(i64),
    /// A persisted text value failed domain validation on load.
    CorruptValue(String),
    /// An in-memory id exceeded the signed range its column stores.
    KeyOutOfRange(u64),
    /// A live arena handle had no persisted key in the in-process map.
    EntityNotMapped,
    /// A location row names a room slug absent from the loaded world.
    UnknownPlaceKey(String),
    /// A place handle has no durable slug in the world's place map.
    PlaceNotMapped,
    /// A row references an entity key with no matching entity.
    DanglingReference(i64),
    /// The arena was exhausted while minting a handle for a persisted key.
    LoadArenaExhausted {
        /// The persisted key whose handle could not be minted.
        entity_key: EntityKey,
        /// The arena failure that prevented minting.
        source: ArenaError,
    },
    /// An effect variant this backend cannot persist.
    UnsupportedEffect,
}

/// A persistence error over plain values.
pub enum DbFault {
    Sqlx(Seq<char>),
    Migrate(Seq<char>),
    BlockingTask(Seq<char>),
    InvalidId(i64),
    CorruptValue(Seq<char>),
    KeyOutOfRange(u64),
    EntityNotMapped,
    UnknownPlaceKey(Seq<char>),
    PlaceNotMapped,
    DanglingReference(i64),
    LoadArenaExhausted { entity_key: u64, source: ArenaFault },
    UnsupportedEffect,
}

impl View for DbError {
    type V = DbFault;

    open spec fn view(&self) -> DbFault {
        match self {
            DbError::Sqlx(m) => DbFault::Sqlx(m@),
            DbError::Migrate(m) => DbFault::Migrate(m@),
            DbError::BlockingTask(m) => DbFault::BlockingTask(m@),
            DbError::InvalidId(v) => DbFault::InvalidId(*v),
            DbError::CorruptValue(m) => DbFault::CorruptValue(m@),
            DbError::KeyOutOfRange(v) => DbFault::KeyOutOfRange(*v),
            DbError::EntityNotMapped => DbFault::EntityNotMapped,
            DbError::UnknownPlaceKey(k) => DbFault::UnknownPlaceKey(k@),
            DbError::PlaceNotMapped => DbFault::PlaceNotMapped,
            DbError::DanglingReference(v) => DbFault::DanglingReference(*v),
            DbError::LoadArenaExhausted { entity_key, source } => DbFault::LoadArenaExhausted {
                entity_key: entity_key@,
                source: source@,
            },
            DbError::UnsupportedEffect => DbFault::UnsupportedEffect,
        }
    }
}

/// The human-readable message of an error.
pub open spec fn message_spec(f: DbFault) -> Seq<char> {
    match f {
        DbFault::Sqlx(m) => "database error: "@ + m,
        DbFault::Migrate(m) => "migration error: "@ + m,
        DbFault::BlockingTask(m) => "background task failed: "@ + m,
        DbFault::InvalidId(v) => "invalid persisted id: "@ + signed_decimal_spec(v as int),
        DbFault::CorruptValue(m) => "corrupt persisted value: "@ + m,
        DbFault::KeyOutOfRange(v) => "id out of range for storage: "@ + decimal_spec(v as nat),
        DbFault::EntityNotMapped => "internal map inconsistency: a live entity has no persisted key"@,
        DbFault::UnknownPlaceKey(k) => "location references unknown room slug: "@ + k,
        DbFault::PlaceNotMapped => "internal map inconsistency: a place handle has no durable slug"@,
        DbFault::DanglingReference(v) => "dangling entity reference during load: entity_key "@ + signed_decimal_spec(v as int),
        DbFault::LoadArenaExhausted { entity_key, .. } => "arena exhausted while loading entity_key "@ + decimal_spec(entity_key as nat),
        DbFault::UnsupportedEffect => "unsupported effect variant"@,
    }
}

impl DbError {
    /// The human-readable message for this error.
    pub fn message(&self) -> (r: String)
        ensures
            r@ == message_spec(self@),
    {
        match self {
            DbError::Sqlx(m) => joined("database error: ", m.as_str()),
            DbError::Migrate(m) => joined("migration error: ", m.as_str()),
            DbError::BlockingTask(m) => joined("background task failed: ", m.as_str()),
            DbError::InvalidId(v) => joined("invalid persisted id: ", decimal_i64(*v).as_str()),
            DbError::CorruptValue(m) => joined("corrupt persisted value: ", m.as_str()),
            DbError::KeyOutOfRange(v) => joined("id out of range for storage: ", decimal_u64(*v).as_str()),
            DbError::EntityNotMapped => "internal map inconsistency: a live entity has no persisted key".to_owned(),
            DbError::UnknownPlaceKey(k) => joined("location references unknown room slug: ", k.as_str()),
            DbError::PlaceNotMapped => "internal map inconsistency: a place handle has no durable slug".to_owned(),
            DbError::DanglingReference(v) => joined("dangling entity reference during load: entity_key ", decimal_i64(*v).as_str()),
            DbError::LoadArenaExhausted { entity_key, .. } => joined("arena exhausted while loading entity_key ", decimal_u64(entity_key.get()).as_str()),
            DbError::UnsupportedEffect => "unsupported effect variant".to_owned(),
        }
    }
}

} // verus!
