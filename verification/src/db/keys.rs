//! Boundary conversions between the database's `i64` columns and the typed
//! domain ids. Parsing happens once, at the persistence edge.

use vstd::prelude::*;
use std::collections::HashMap;
use crate::account::account::AccountId;
use crate::entity::{EntityId, EntityKey};
use super::error::DbError;

verus! {

broadcast use vstd::std_specs::hash::group_hash_axioms;

/// `i64` → a non-zero `u64`, rejecting negative or zero values.
pub fn nonzero_from_db(value: i64) -> (r: Result<u64, DbError>)
    ensures
        value > 0 ==> r == Ok::<u64, DbError>(value as u64),
        value <= 0 ==> r == Err::<u64, DbError>(DbError::InvalidId(value)),
{
    if value > 0 {
        Ok(value as u64)
    } else {
        Err(DbError::InvalidId(value))
    }
}

/// `u64` → `i64`, rejecting values beyond the signed range.
pub fn nonzero_to_db(value: u64) -> (r: Result<i64, DbError>)
    ensures
        value <= i64::MAX ==> r == Ok::<i64, DbError>(value as i64),
        value > i64::MAX ==> r == Err::<i64, DbError>(DbError::KeyOutOfRange(value)),
{
    if value <= 9223372036854775807u64 {
        Ok(value as i64)
    } else {
        Err(DbError::KeyOutOfRange(value))
    }
}

/// Parses a database `i64` into an [`EntityKey`], rejecting non-positive
/// values.
pub fn entity_key_from_db(value: i64) -> (r: Result<EntityKey, DbError>)
    ensures
        value > 0 ==> (r matches Ok(k) && k@ == value as u64),
        value <= 0 ==> r == Err::<EntityKey, DbError>(DbError::InvalidId(value)),
{
    let raw = match nonzero_from_db(value) {
        Ok(raw) => raw,
        Err(e) => return Err(e),
    };
    match EntityKey::new(raw) {
        Some(key) => Ok(key),
        None => Err(DbError::InvalidId(value)),
    }
}

/// Narrows an [`EntityKey`] to the `i64` its column stores.
pub fn entity_key_to_db(key: EntityKey) -> (r: Result<i64, DbError>)
    ensures
        key@ <= i64::MAX ==> r == Ok::<i64, DbError>(key@ as i64),
        key@ > i64::MAX ==> r == Err::<i64, DbError>(DbError::KeyOutOfRange(key@)),
{
    nonzero_to_db(key.get())
}

/// Parses a database `accounts.id` into an [`AccountId`], rejecting
/// non-positive values.
pub fn account_id_from_db(value: i64) -> (r: Result<AccountId, DbError>)
    ensures
        value > 0 ==> (r matches Ok(a) && a@ == value as u64),
        value <= 0 ==> r == Err::<AccountId, DbError>(DbError::InvalidId(value)),
{
    let raw = match nonzero_from_db(value) {
        Ok(raw) => raw,
        Err(e) => return Err(e),
    };
    match AccountId::new(raw) {
        Some(id) => Ok(id),
        None => Err(DbError::InvalidId(value)),
    }
}

/// Narrows an [`AccountId`] to the `i64` its column stores.
pub fn account_id_to_db(id: AccountId) -> (r: Result<i64, DbError>)
    ensures
        id@ <= i64::MAX ==> r == Ok::<i64, DbError>(id@ as i64),
        id@ > i64::MAX ==> r == Err::<i64, DbError>(DbError::KeyOutOfRange(id@)),
{
    nonzero_to_db(id.get())
}

/// Resolves a persisted `entity_key` to its loaded handle (keyed by the raw
/// key), failing if no handle was minted for it.
pub fn resolve_loaded(by_key: &HashMap<u64, EntityId>, value: i64) -> (r: Result<EntityId, DbError>)
    ensures
        value <= 0 ==> r == Err::<EntityId, DbError>(DbError::InvalidId(value)),
        value > 0 && by_key@.contains_key(value as u64) ==> r == Ok::<EntityId, DbError>(by_key@[value as u64]),
        value > 0 && !by_key@.contains_key(value as u64) ==> r == Err::<EntityId, DbError>(DbError::DanglingReference(value)),
{
    let key = match entity_key_from_db(value) {
        Ok(key) => key,
        Err(e) => return Err(e),
    };
    match by_key.get(&key.get()) {
        Some(id) => Ok(*id),
        None => Err(DbError::DanglingReference(value)),
    }
}

} // verus!
