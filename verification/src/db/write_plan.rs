//! The write-through plan: the one-to-one map between durable entity keys and
//! in-process handles, and the row write each applied effect implies.

use vstd::prelude::*;
use std::collections::HashMap;
use crate::entity::{EntityId, EntityKey};
use crate::write_model::Effect;
use crate::place::key::PlaceKey;
use super::error::{DbError, DbFault};
use super::keys::entity_key_to_db;
use super::place_map::{PlaceMap, key_of_spec};

verus! {

broadcast use vstd::std_specs::hash::group_hash_axioms;

/// The one-to-one map between durable entity keys and the handles minted for
/// them, in both directions: by the raw key, and by the handle's raw bits (a
/// stale handle to a reused slot carries an older generation and so misses).
#[derive(Debug)]
pub struct KeyMap {
    by_key: HashMap<u64, EntityId>,
    by_id: HashMap<u64, EntityKey>,
}

impl KeyMap {
    /// The handle minted for each raw key.
    pub closed spec fn ids(&self) -> Map<u64, EntityId> {
        self.by_key@
    }

    /// The key each raw handle maps to.
    pub closed spec fn keys(&self) -> Map<u64, EntityKey> {
        self.by_id@
    }

    /// An empty map.
    pub fn new() -> (r: Self)
        ensures
            r.ids() == Map::<u64, EntityId>::empty(),
            r.keys() == Map::<u64, EntityKey>::empty(),
    {
        KeyMap { by_key: HashMap::new(), by_id: HashMap::new() }
    }

    /// Records that `id` was minted for `key`.
    pub fn insert(&mut self, key: EntityKey, id: EntityId)
        ensures
            final(self).ids() == old(self).ids().insert(key@, id),
            final(self).keys() == old(self).keys().insert(id@, key),
    {
        self.by_key.insert(key.get(), id);
        self.by_id.insert(id.to_bits(), key);
    }

    /// Forgets the pair of `key` and `id`.
    pub fn remove(&mut self, key: EntityKey, id: EntityId)
        ensures
            final(self).ids() == old(self).ids().remove(key@),
            final(self).keys() == old(self).keys().remove(id@),
    {
        self.by_key.remove(&key.get());
        self.by_id.remove(&id.to_bits());
    }

    /// The current handle of `key`, if the entity is resident.
    pub fn entity_id(&self, key: EntityKey) -> (r: Option<EntityId>)
        ensures
            r == (if self.ids().contains_key(key@) { Some(self.ids()[key@]) } else { None::<EntityId> }),
    {
        match self.by_key.get(&key.get()) {
            Some(id) => Some(*id),
            None => None,
        }
    }

    /// The durable key of a resident handle, if it maps to one.
    pub fn entity_key(&self, id: EntityId) -> (r: Option<EntityKey>)
        ensures
            r == (if self.keys().contains_key(id@) { Some(self.keys()[id@]) } else { None::<EntityKey> }),
    {
        match self.by_id.get(&id.to_bits()) {
            Some(key) => Some(*key),
            None => None,
        }
    }

    /// The durable key of a resident handle; a live handle absent from the
    /// map is an internal inconsistency.
    pub fn key_of(&self, id: EntityId) -> (r: Result<EntityKey, DbError>)
        ensures
            self.keys().contains_key(id@) ==> r == Ok::<EntityKey, DbError>(self.keys()[id@]),
            !self.keys().contains_key(id@) ==> r == Err::<EntityKey, DbError>(DbError::EntityNotMapped),
    {
        match self.entity_key(id) {
            Some(key) => Ok(key),
            None => Err(DbError::EntityNotMapped),
        }
    }
}

/// A row write that persists an effect already applied in memory.
#[derive(Debug, Clone, PartialEq, Eq)]
pub enum RowWrite {
    /// Upsert the entity's location to the room with this slug.
    UpsertLocation { entity_key: i64, place_key: String },
    /// Delete the entity's location.
    DeleteLocation { entity_key: i64 },
    /// Upsert the item's containment in the container.
    UpsertContainment { item_key: i64, container_key: i64 },
    /// Delete the item's containment in the container.
    DeleteContainment { item_key: i64, container_key: i64 },
    /// Delete the entity's row; dependent rows cascade.
    DeleteEntity { entity_key: i64 },
}

/// A row write over plain values.
pub enum WriteModel {
    UpsertLocation { entity_key: i64, place_key: Seq<char> },
    DeleteLocation { entity_key: i64 },
    UpsertContainment { item_key: i64, container_key: i64 },
    DeleteContainment { item_key: i64, container_key: i64 },
    DeleteEntity { entity_key: i64 },
}

impl View for RowWrite {
    type V = WriteModel;

    open spec fn view(&self) -> WriteModel {
        match self {
            RowWrite::UpsertLocation { entity_key, place_key } => WriteModel::UpsertLocation {
                entity_key: *entity_key,
                place_key: place_key@,
            },
            RowWrite::DeleteLocation { entity_key } => WriteModel::DeleteLocation { entity_key: *entity_key },
            RowWrite::UpsertContainment { item_key, container_key } => WriteModel::UpsertContainment {
                item_key: *item_key,
                container_key: *container_key,
            },
            RowWrite::DeleteContainment { item_key, container_key } => WriteModel::DeleteContainment {
                item_key: *item_key,
                container_key: *container_key,
            },
            RowWrite::DeleteEntity { entity_key } => WriteModel::DeleteEntity { entity_key: *entity_key },
        }
    }
}

/// The column value of a resident handle's key: not mapped, or out of the
/// signed range, is an error.
pub open spec fn column_of(keys: Map<u64, EntityKey>, id: EntityId) -> Result<i64, DbFault> {
    if !keys.contains_key(id@) {
        Err(DbFault::EntityNotMapped)
    } else if keys[id@]@ > i64::MAX {
        Err(DbFault::KeyOutOfRange(keys[id@]@))
    } else {
        Ok(keys[id@]@ as i64)
    }
}

/// The row write an applied effect implies: a move upserts the location by
/// the room's slug, a cleared location is deleted, containment is upserted or
/// deleted (the item resolved first), and a teardown deletes the entity's
/// row. A create is persisted before it applies, so it has no write here.
pub open spec fn plan_spec(effect: Effect, keys: Map<u64, EntityKey>, pairs: Seq<(crate::place::id::PlaceId, Seq<char>)>) -> Result<WriteModel, DbFault> {
    match effect {
        Effect::MoveTo { entity, place } => match column_of(keys, entity) {
            Err(f) => Err(f),
            Ok(k) => match key_of_spec(pairs, place) {
                None => Err(DbFault::PlaceNotMapped),
                Some(slug) => Ok(WriteModel::UpsertLocation { entity_key: k, place_key: slug }),
            },
        },
        Effect::ClearLocation { entity } => match column_of(keys, entity) {
            Err(f) => Err(f),
            Ok(k) => Ok(WriteModel::DeleteLocation { entity_key: k }),
        },
        Effect::InventoryAdd { container, item } => match column_of(keys, item) {
            Err(f) => Err(f),
            Ok(i) => match column_of(keys, container) {
                Err(f) => Err(f),
                Ok(c) => Ok(WriteModel::UpsertContainment { item_key: i, container_key: c }),
            },
        },
        Effect::InventoryRemove { container, item } => match column_of(keys, item) {
            Err(f) => Err(f),
            Ok(i) => match column_of(keys, container) {
                Err(f) => Err(f),
                Ok(c) => Ok(WriteModel::DeleteContainment { item_key: i, container_key: c }),
            },
        },
        Effect::Teardown { entity } => match column_of(keys, entity) {
            Err(f) => Err(f),
            Ok(k) => Ok(WriteModel::DeleteEntity { entity_key: k }),
        },
        Effect::Create => Err(DbFault::UnsupportedEffect),
    }
}

fn column(keys: &KeyMap, id: EntityId) -> (r: Result<i64, DbError>)
    ensures
        match (r, column_of(keys.keys(), id)) {
            (Ok(a), Ok(b)) => a == b,
            (Err(e), Err(f)) => e@ == f,
            _ => false,
        },
{
    let key = match keys.key_of(id) {
        Ok(key) => key,
        Err(e) => return Err(e),
    };
    entity_key_to_db(key)
}

/// Plans the row write that persists `effect`, already applied in memory.
pub fn plan_write(effect: Effect, keys: &KeyMap, places: &PlaceMap) -> (r: Result<RowWrite, DbError>)
    requires
        places.wf(),
    ensures
        match (r, plan_spec(effect, keys.keys(), places.pairs_spec())) {
            (Ok(w), Ok(v)) => w@ == v,
            (Err(e), Err(f)) => e@ == f,
            _ => false,
        },
{
    match effect {
        Effect::MoveTo { entity, place } => {
            let k = match column(keys, entity) {
                Ok(k) => k,
                Err(e) => return Err(e),
            };
            match places.key_of(place) {
                Some(slug) => Ok(RowWrite::UpsertLocation { entity_key: k, place_key: slug.to_string() }),
                None => Err(DbError::PlaceNotMapped),
            }
        },
        Effect::ClearLocation { entity } => {
            let k = match column(keys, entity) {
                Ok(k) => k,
                Err(e) => return Err(e),
            };
            Ok(RowWrite::DeleteLocation { entity_key: k })
        },
        Effect::InventoryAdd { container, item } => {
            let i = match column(keys, item) {
                Ok(i) => i,
                Err(e) => return Err(e),
            };
            let c = match column(keys, container) {
                Ok(c) => c,
                Err(e) => return Err(e),
            };
            Ok(RowWrite::UpsertContainment { item_key: i, container_key: c })
        },
        Effect::InventoryRemove { container, item } => {
            let i = match column(keys, item) {
                Ok(i) => i,
                Err(e) => return Err(e),
            };
            let c = match column(keys, container) {
                Ok(c) => c,
                Err(e) => return Err(e),
            };
            Ok(RowWrite::DeleteContainment { item_key: i, container_key: c })
        },
        Effect::Teardown { entity } => {
            let k = match column(keys, entity) {
                Ok(k) => k,
                Err(e) => return Err(e),
            };
            Ok(RowWrite::DeleteEntity { entity_key: k })
        },
        Effect::Create => Err(DbError::UnsupportedEffect),
    }
}

} // verus!
