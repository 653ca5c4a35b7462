//! The decisions of the write-through world. A boot load reads the entity,
//! location and containment rows and hands them to [`rebuild`], which mints
//! a fresh handle per durable key and replays the rows. Applying a command
//! is decided by [`begin_apply`]: an answer needing no write, a new entity
//! row (whose key then goes to [`complete_create`]), or the row write that
//! persists an effect already applied in memory.

use vstd::prelude::*;
use crate::arena::{ArenaModel, SlotModel, SlotState, alloc_model, resolve_model};
use crate::entity::{EntityId, EntityKey, TenantTag, TENANT_MAX, generation_of_bits, lemma_bits_determine, lemma_of_bits, lemma_pack_unpack, lemma_unpack_pack, slot_of_bits, tenant_of_bits};
use crate::place::id::PlaceId;
use crate::place::key::{PlaceKey, place_key_spec};
use crate::world::{World, WorldModel, apply_spec, contains_spec, effect_spec, guarded, lemma_rejection_changes_nothing, located_in_spec, place_spec, satisfies_spec};
use crate::side_tables::inventory::holds_slot;
use crate::write_model::{Effect, EventModel, MutationCommand, TickEvent};
use super::error::{DbError, DbFault};
use super::keys::entity_key_from_db;
use super::place_map::{PlaceMap, id_of_spec};
use super::write_plan::{KeyMap, RowWrite, WriteModel, plan_spec, plan_write};

verus! {

/// What a boot load holds between rows, over plain values: the world, the
/// handle minted for each raw key, and the raw key of each raw handle.
pub struct LoadModel {
    pub world: WorldModel,
    pub ids: Map<u64, EntityId>,
    pub keys: Map<u64, u64>,
}

/// The raw values of a key map's keys.
pub open spec fn key_values(keys: Map<u64, EntityKey>) -> Map<u64, u64> {
    keys.map_values(|k: EntityKey| k@)
}

/// An empty world owned by `tenant`.
pub open spec fn empty_world(tenant: u16) -> WorldModel {
    WorldModel {
        arena: ArenaModel { tenant, slots: Seq::empty(), free: Seq::empty() },
        fw: Map::empty(),
        occ: Map::empty(),
        held: Map::new(|s: u32| true, |s: u32| Seq::<EntityId>::empty()),
        names: Map::new(|s: u32| true, |s: u32| Seq::<Seq<char>>::empty()),
    }
}

/// One entity row: its key must be positive, and a handle is minted for it.
pub open spec fn load_entity_step(s: LoadModel, raw: i64) -> Result<LoadModel, DbFault> {
    if raw <= 0 {
        Err(DbFault::InvalidId(raw))
    } else {
        let (am, r) = alloc_model(s.world.arena);
        match r {
            Ok(bits) => Ok(LoadModel {
                world: WorldModel { arena: am, ..s.world },
                ids: s.ids.insert(raw as u64, EntityId::of_bits(bits)),
                keys: s.keys.insert(bits, raw as u64),
            }),
            Err(f) => Err(DbFault::LoadArenaExhausted { entity_key: raw as u64, source: f }),
        }
    }
}

/// The handle loaded for a persisted key: a non-positive key is corrupt, and
/// one with no entity row dangles.
pub open spec fn resolve_spec(ids: Map<u64, EntityId>, raw: i64) -> Result<EntityId, DbFault> {
    if raw <= 0 {
        Err(DbFault::InvalidId(raw))
    } else if !ids.contains_key(raw as u64) {
        Err(DbFault::DanglingReference(raw))
    } else {
        Ok(ids[raw as u64])
    }
}

/// One location row: the entity is moved to the room its slug names in the
/// loaded world; a slug the world does not define is an unknown place.
pub open spec fn load_location_step(s: LoadModel, pairs: Seq<(PlaceId, Seq<char>)>, row: (i64, Seq<char>)) -> Result<
    LoadModel,
    DbFault,
> {
    match resolve_spec(s.ids, row.0) {
        Err(f) => Err(f),
        Ok(id) => if place_key_spec(row.1) is Err {
            Err(DbFault::UnknownPlaceKey(row.1))
        } else {
            match id_of_spec(pairs, row.1) {
                None => Err(DbFault::UnknownPlaceKey(row.1)),
                Some(p) => {
                    let (w, r) = guarded(s.world, id, place_spec(s.world, id, p));
                    match r {
                        Ok(()) => Ok(LoadModel { world: w, ..s }),
                        Err(_) => Err(DbFault::DanglingReference(row.0)),
                    }
                },
            }
        },
    }
}

/// One containment row, `(item, container)`: the item is added to the
/// container's inventory.
pub open spec fn load_containment_step(s: LoadModel, row: (i64, i64)) -> Result<LoadModel, DbFault> {
    match resolve_spec(s.ids, row.0) {
        Err(f) => Err(f),
        Ok(item) => match resolve_spec(s.ids, row.1) {
            Err(f) => Err(f),
            Ok(container) => {
                let (w, r) = effect_spec(s.world, Effect::InventoryAdd { container, item });
                match r {
                    Ok(()) => Ok(LoadModel { world: w, ..s }),
                    Err(_) => Err(DbFault::DanglingReference(row.0)),
                }
            },
        },
    }
}

/// The entity rows in order, stopping at the first failure.
pub open spec fn load_entities_spec(s: LoadModel, rows: Seq<i64>) -> Result<LoadModel, DbFault>
    decreases rows.len(),
{
    if rows.len() == 0 {
        Ok(s)
    } else {
        match load_entity_step(s, rows[0]) {
            Err(f) => Err(f),
            Ok(t) => load_entities_spec(t, rows.skip(1)),
        }
    }
}

/// The location rows in order, stopping at the first failure.
pub open spec fn load_locations_spec(s: LoadModel, pairs: Seq<(PlaceId, Seq<char>)>, rows: Seq<(i64, Seq<char>)>) -> Result<
    LoadModel,
    DbFault,
>
    decreases rows.len(),
{
    if rows.len() == 0 {
        Ok(s)
    } else {
        match load_location_step(s, pairs, rows[0]) {
            Err(f) => Err(f),
            Ok(t) => load_locations_spec(t, pairs, rows.skip(1)),
        }
    }
}

/// The containment rows in order, stopping at the first failure.
pub open spec fn load_inventory_spec(s: LoadModel, rows: Seq<(i64, i64)>) -> Result<LoadModel, DbFault>
    decreases rows.len(),
{
    if rows.len() == 0 {
        Ok(s)
    } else {
        match load_containment_step(s, rows[0]) {
            Err(f) => Err(f),
            Ok(t) => load_inventory_spec(t, rows.skip(1)),
        }
    }
}

/// The boot load: every entity row, then every location row, then every
/// containment row, over an empty world.
pub open spec fn rebuild_spec(
    tenant: u16,
    pairs: Seq<(PlaceId, Seq<char>)>,
    entities: Seq<i64>,
    locations: Seq<(i64, Seq<char>)>,
    inventory: Seq<(i64, i64)>,
) -> Result<LoadModel, DbFault> {
    let start = LoadModel { world: empty_world(tenant), ids: Map::empty(), keys: Map::empty() };
    match load_entities_spec(start, entities) {
        Err(f) => Err(f),
        Ok(a) => match load_locations_spec(a, pairs, locations) {
            Err(f) => Err(f),
            Ok(b) => load_inventory_spec(b, inventory),
        },
    }
}

/// The plain-value form of location rows.
pub open spec fn location_rows(v: Seq<(i64, String)>) -> Seq<(i64, Seq<char>)> {
    v.map_values(|r: (i64, String)| (r.0, r.1@))
}

/// The current load state of a world and key map.
pub open spec fn load_state(world: WorldModel, keys: KeyMap) -> LoadModel {
    LoadModel { world, ids: keys.ids(), keys: key_values(keys.keys()) }
}

/// Rebuilds a tenant's world from the rows a boot load read: the entity keys
/// (each gets a freshly minted handle, in order), the `(entity, slug)`
/// location rows resolved through `places`, and the `(item, container)`
/// containment rows. Returns the world and the key map, or the first
/// inconsistency found.
pub fn rebuild(
    tenant: TenantTag,
    entities: &Vec<i64>,
    locations: &Vec<(i64, String)>,
    inventory: &Vec<(i64, i64)>,
    places: &PlaceMap,
) -> (r: Result<(World, KeyMap), DbError>)
    ensures
        match (r, rebuild_spec(tenant@, places.pairs_spec(), entities@, location_rows(locations@), inventory@)) {
            (Ok((w, k)), Ok(m)) => w.wf() && load_state(w.model(), k) == m,
            (Err(e), Err(f)) => e@ == f,
            _ => false,
        },
{
    broadcast use lemma_of_bits, lemma_bits_determine;

    let mut world = World::new(tenant);
    let mut keys = KeyMap::new();
    let ghost pairs = places.pairs_spec();
    let ghost start = LoadModel { world: empty_world(tenant@), ids: Map::empty(), keys: Map::empty() };
    assert(key_values(keys.keys()) =~= Map::<u64, u64>::empty());
    assert(load_state(world.model(), keys) == start);

    let mut i: usize = 0;
    assert(entities@.skip(0) =~= entities@);
    while i < entities.len()
        invariant
            world.wf(),
            i <= entities@.len(),
            start == (LoadModel { world: empty_world(tenant@), ids: Map::empty(), keys: Map::empty() }),
            load_entities_spec(start, entities@) == load_entities_spec(load_state(world.model(), keys), entities@.skip(i as int)),
        decreases entities@.len() - i,
    {
        let raw = entities[i];
        let ghost s = load_state(world.model(), keys);
        assert(entities@.skip(i as int)[0] == raw);
        assert(entities@.skip(i as int).skip(1) =~= entities@.skip(i + 1));
        let key = match entity_key_from_db(raw) {
            Ok(k) => k,
            Err(e) => {
                assert(load_entities_spec(s, entities@.skip(i as int)) == Err::<LoadModel, DbFault>(e@));
                return Err(e);
            },
        };
        let id = match world.create() {
            Ok(id) => id,
            Err(source) => {
                let e = DbError::LoadArenaExhausted { entity_key: key, source };
                assert(load_entities_spec(s, entities@.skip(i as int)) == Err::<LoadModel, DbFault>(e@));
                return Err(e);
            },
        };
        let ghost old_keys = keys.keys();
        keys.insert(key, id);
        proof {
            lemma_bits_determine(id);
            assert(key_values(keys.keys()) =~= key_values(old_keys).insert(id@, raw as u64));
            assert(keys.ids() =~= s.ids.insert(raw as u64, EntityId::of_bits(id@)));
            assert(world.model() == (WorldModel { arena: alloc_model(s.world.arena).0, ..s.world }));
            assert(load_state(world.model(), keys) == load_entity_step(s, raw)->Ok_0);
        }
        i = i + 1;
    }
    let ghost after_entities = load_state(world.model(), keys);
    assert(load_entities_spec(start, entities@) == Ok::<LoadModel, DbFault>(after_entities));

    let ghost locs = location_rows(locations@);
    let mut j: usize = 0;
    assert(locs.skip(0) =~= locs);
    while j < locations.len()
        invariant
            world.wf(),
            j <= locations@.len(),
            start == (LoadModel { world: empty_world(tenant@), ids: Map::empty(), keys: Map::empty() }),
            locs == location_rows(locations@),
            pairs == places.pairs_spec(),
            load_entities_spec(start, entities@) == Ok::<LoadModel, DbFault>(after_entities),
            load_locations_spec(after_entities, pairs, locs) == load_locations_spec(load_state(world.model(), keys), pairs, locs.skip(j as int)),
        decreases locations@.len() - j,
    {
        let raw = locations[j].0;
        let slug = &locations[j].1;
        let ghost s = load_state(world.model(), keys);
        assert(locs.skip(j as int)[0] == (raw, slug@));
        assert(locs.skip(j as int).skip(1) =~= locs.skip(j + 1));
        let key = match entity_key_from_db(raw) {
            Ok(k) => k,
            Err(e) => {
                assert(load_locations_spec(s, pairs, locs.skip(j as int)) == Err::<LoadModel, DbFault>(e@));
                return Err(e);
            },
        };
        let id = match keys.entity_id(key) {
            Some(id) => id,
            None => {
                let e = DbError::DanglingReference(raw);
                assert(load_locations_spec(s, pairs, locs.skip(j as int)) == Err::<LoadModel, DbFault>(e@));
                return Err(e);
            },
        };
        let place_key = match PlaceKey::parse(slug.as_str()) {
            Ok(k) => k,
            Err(_) => {
                let e = DbError::UnknownPlaceKey(slug.clone());
                assert(load_locations_spec(s, pairs, locs.skip(j as int)) == Err::<LoadModel, DbFault>(e@));
                return Err(e);
            },
        };
        let place = match places.id_of(&place_key) {
            Some(p) => p,
            None => {
                let e = DbError::UnknownPlaceKey(slug.clone());
                assert(load_locations_spec(s, pairs, locs.skip(j as int)) == Err::<LoadModel, DbFault>(e@));
                return Err(e);
            },
        };
        match world.move_to(id, place) {
            Ok(()) => {},
            Err(_) => {
                let e = DbError::DanglingReference(raw);
                assert(load_locations_spec(s, pairs, locs.skip(j as int)) == Err::<LoadModel, DbFault>(e@));
                return Err(e);
            },
        }
        assert(load_state(world.model(), keys) == load_location_step(s, pairs, (raw, slug@))->Ok_0);
        j = j + 1;
    }
    let ghost after_locations = load_state(world.model(), keys);

    let mut k: usize = 0;
    assert(inventory@.skip(0) =~= inventory@);
    while k < inventory.len()
        invariant
            world.wf(),
            k <= inventory@.len(),
            start == (LoadModel { world: empty_world(tenant@), ids: Map::empty(), keys: Map::empty() }),
            locs == location_rows(locations@),
            pairs == places.pairs_spec(),
            load_entities_spec(start, entities@) == Ok::<LoadModel, DbFault>(after_entities),
            load_locations_spec(after_entities, pairs, locs) == Ok::<LoadModel, DbFault>(after_locations),
            load_inventory_spec(after_locations, inventory@) == load_inventory_spec(load_state(world.model(), keys), inventory@.skip(k as int)),
        decreases inventory@.len() - k,
    {
        let (item_raw, container_raw) = inventory[k];
        let ghost s = load_state(world.model(), keys);
        assert(inventory@.skip(k as int)[0] == (item_raw, container_raw));
        assert(inventory@.skip(k as int).skip(1) =~= inventory@.skip(k + 1));
        let item_key = match entity_key_from_db(item_raw) {
            Ok(key) => key,
            Err(e) => {
                assert(load_inventory_spec(s, inventory@.skip(k as int)) == Err::<LoadModel, DbFault>(e@));
                return Err(e);
            },
        };
        let item = match keys.entity_id(item_key) {
            Some(id) => id,
            None => {
                let e = DbError::DanglingReference(item_raw);
                assert(load_inventory_spec(s, inventory@.skip(k as int)) == Err::<LoadModel, DbFault>(e@));
                return Err(e);
            },
        };
        let container_key = match entity_key_from_db(container_raw) {
            Ok(key) => key,
            Err(e) => {
                assert(load_inventory_spec(s, inventory@.skip(k as int)) == Err::<LoadModel, DbFault>(e@));
                return Err(e);
            },
        };
        let container = match keys.entity_id(container_key) {
            Some(id) => id,
            None => {
                let e = DbError::DanglingReference(container_raw);
                assert(load_inventory_spec(s, inventory@.skip(k as int)) == Err::<LoadModel, DbFault>(e@));
                return Err(e);
            },
        };
        match world.inventory_add(container, item) {
            Ok(()) => {},
            Err(_) => {
                let e = DbError::DanglingReference(item_raw);
                assert(load_inventory_spec(s, inventory@.skip(k as int)) == Err::<LoadModel, DbFault>(e@));
                return Err(e);
            },
        }
        assert(load_state(world.model(), keys) == load_containment_step(s, (item_raw, container_raw))->Ok_0);
        k = k + 1;
    }
    Ok((world, keys))
}

/// What applying one command takes next.
pub enum Step {
    /// The command is answered without a write: a failed precondition or an
    /// arena rejection (as its event), or nothing.
    Answered(Option<TickEvent>),
    /// A create: the entity's row must be inserted first, and its key handed
    /// to [`complete_create`].
    InsertEntity,
    /// The effect was applied in memory; this row write persists it.
    Persist(RowWrite),
}

/// A step over plain values.
pub enum StepModel {
    Answered(Option<EventModel>),
    InsertEntity,
    Persist(WriteModel),
}

impl View for Step {
    type V = StepModel;

    open spec fn view(&self) -> StepModel {
        match self {
            Step::Answered(None) => StepModel::Answered(None),
            Step::Answered(Some(e)) => StepModel::Answered(Some(e@)),
            Step::InsertEntity => StepModel::InsertEntity,
            Step::Persist(w) => StepModel::Persist(w@),
        }
    }
}

/// The world after deciding `c`, and the decision: a precondition that does
/// not hold answers with its event; a create waits for its row; any other
/// effect is applied in memory, and answered with the arena's rejection or
/// persisted by the row write it implies.
pub open spec fn step_spec(w: WorldModel, keys: Map<u64, EntityKey>, pairs: Seq<(PlaceId, Seq<char>)>, c: MutationCommand) -> (
    WorldModel,
    Result<StepModel, DbFault>,
) {
    let effect = c.effect_spec();
    match c.precondition_spec() {
        Some(p) if !satisfies_spec(w, p) => (
            w,
            Ok(StepModel::Answered(Some(EventModel::PreconditionFailed { precondition: p, effect }))),
        ),
        _ => match effect {
            Effect::Create => (w, Ok(StepModel::InsertEntity)),
            _ => {
                let (w2, ev) = apply_spec(w, effect);
                match ev {
                    Some(e) => (w2, Ok(StepModel::Answered(Some(e)))),
                    None => (
                        w2,
                        match plan_spec(effect, keys, pairs) {
                            Ok(v) => Ok(StepModel::Persist(v)),
                            Err(f) => Err(f),
                        },
                    ),
                }
            },
        },
    }
}

/// Decides the first part of applying `command` (see [`step_spec`]); any
/// effect other than a create is applied to `world` here.
pub fn begin_apply(world: &mut World, keys: &KeyMap, places: &PlaceMap, command: MutationCommand) -> (r: Result<Step, DbError>)
    requires
        old(world).wf(),
        places.wf(),
    ensures
        final(world).wf(),
        final(world).model() == step_spec(old(world).model(), keys.keys(), places.pairs_spec(), command).0,
        match (r, step_spec(old(world).model(), keys.keys(), places.pairs_spec(), command).1) {
            (Ok(s), Ok(m)) => s@ == m,
            (Err(e), Err(f)) => e@ == f,
            _ => false,
        },
{
    let effect = command.effect();
    match command.precondition() {
        Some(precondition) => {
            if !world.satisfies(precondition) {
                return Ok(Step::Answered(Some(TickEvent::PreconditionFailed { precondition, effect })));
            }
        },
        None => {},
    }
    match effect {
        Effect::Create => {
            return Ok(Step::InsertEntity);
        },
        _ => {},
    }
    match world.apply_effect(effect) {
        Some(event) => Ok(Step::Answered(Some(event))),
        None => match plan_write(effect, keys, places) {
            Ok(write) => Ok(Step::Persist(write)),
            Err(e) => Err(e),
        },
    }
}

/// Finishes a create once its row exists with `key`: a handle is minted and
/// mapped to the key, or the arena's rejection is reported (the row is then
/// to be rolled back).
pub fn complete_create(world: &mut World, keys: &mut KeyMap, key: EntityKey) -> (r: TickEvent)
    requires
        old(world).wf(),
    ensures
        final(world).wf(),
        final(world).model() == (WorldModel { arena: alloc_model(old(world).model().arena).0, ..old(world).model() }),
        match alloc_model(old(world).model().arena).1 {
            Ok(bits) => r@ == (EventModel::Created { entity: bits })
                && final(keys).ids() == old(keys).ids().insert(key@, EntityId::of_bits(bits))
                && final(keys).keys() == old(keys).keys().insert(bits, key),
            Err(f) => r@ == (EventModel::Rejected { effect: Effect::Create, error: f })
                && final(keys).ids() == old(keys).ids()
                && final(keys).keys() == old(keys).keys(),
        },
{
    broadcast use lemma_bits_determine;

    match world.create() {
        Ok(id) => {
            keys.insert(key, id);
            TickEvent::Created { entity: id }
        },
        Err(error) => TickEvent::Rejected { effect: Effect::Create, error },
    }
}

/// After a teardown's row write, forgets the torn-down handle and its key;
/// any other effect leaves the map as it is.
pub fn forget_torn_down(keys: &mut KeyMap, effect: Effect)
    ensures
        match effect {
            Effect::Teardown { entity } if old(keys).keys().contains_key(entity@) => final(keys).ids() == old(keys).ids().remove(
                old(keys).keys()[entity@]@,
            ) && final(keys).keys() == old(keys).keys().remove(entity@),
            _ => final(keys).ids() == old(keys).ids() && final(keys).keys() == old(keys).keys(),
        },
{
    match effect {
        Effect::Teardown { entity } => {
            match keys.entity_key(entity) {
                Some(key) => keys.remove(key, entity),
                None => {},
            }
        },
        _ => {},
    }
}

/// A command refused by its precondition or by the arena is answered without
/// any row write and leaves the world as it was.
pub proof fn lemma_refused_command_writes_nothing(
    w: WorldModel,
    keys: Map<u64, EntityKey>,
    pairs: Seq<(PlaceId, Seq<char>)>,
    c: MutationCommand,
)
    ensures
        step_spec(w, keys, pairs, c).1 matches Ok(StepModel::Answered(Some(EventModel::PreconditionFailed { .. })))
            ==> step_spec(w, keys, pairs, c).0 == w,
        step_spec(w, keys, pairs, c).1 matches Ok(StepModel::Answered(Some(EventModel::Rejected { .. })))
            ==> step_spec(w, keys, pairs, c).0 == w,
{
    lemma_rejection_changes_nothing(w, c.effect_spec());
}

/// The two directions of a key map are inverse: each raw key's handle maps
/// back to that key, and each handle's key maps back to that handle.
pub open spec fn inverse_maps(ids: Map<u64, EntityId>, keys: Map<u64, u64>) -> bool {
    &&& forall|k: u64| #[trigger] ids.contains_key(k) ==> keys.contains_key(ids[k]@) && keys[ids[k]@] == k
    &&& forall|b: u64| #[trigger] keys.contains_key(b) ==> ids.contains_key(keys[b]) && ids[keys[b]]@ == b
}

/// No two rows carry the same key.
pub open spec fn distinct_keys(rows: Seq<i64>) -> bool {
    forall|i: int, j: int| #![trigger rows[i], rows[j]] 0 <= i < j < rows.len() ==> rows[i] != rows[j]
}

/// What holds of the load state while entity rows are replayed: the maps
/// are inverse, no slot was freed, and every mapped handle names a slot
/// already allocated.
spec fn minting_state(s: LoadModel) -> bool {
    &&& inverse_maps(s.ids, s.keys)
    &&& s.world.arena.free.len() == 0
    &&& s.world.arena.tenant <= TENANT_MAX
    &&& forall|b: u64| #[trigger] s.keys.contains_key(b) ==> slot_of_bits(b) < s.world.arena.slots.len()
}

proof fn lemma_entities_one_to_one(s: LoadModel, rows: Seq<i64>)
    requires
        minting_state(s),
        distinct_keys(rows),
        forall|i: int| 0 <= i < rows.len() && rows[i] > 0 ==> !s.ids.contains_key(#[trigger] rows[i] as u64),
    ensures
        load_entities_spec(s, rows) matches Ok(t) ==> inverse_maps(t.ids, t.keys),
    decreases rows.len(),
{
    if rows.len() > 0 {
        let raw = rows[0];
        if let Ok(t) = load_entity_step(s, raw) {
            let n = s.world.arena.slots.len();
            let bits = alloc_model(s.world.arena).1->Ok_0;
            lemma_unpack_pack(s.world.arena.tenant, n as u32, 0);
            assert(slot_of_bits(bits) == n);
            assert(!s.keys.contains_key(bits));
            assert(!s.ids.contains_key(raw as u64));
            assert(minting_state(t)) by {
                broadcast use lemma_of_bits;
                assert forall|k: u64| #[trigger] t.ids.contains_key(k) implies t.keys.contains_key(t.ids[k]@) && t.keys[t.ids[k]@] == k by {
                    if k != raw as u64 {
                        assert(s.ids.contains_key(k));
                        assert(s.ids[k]@ != bits);
                    }
                }
                assert forall|b: u64| #[trigger] t.keys.contains_key(b) implies t.ids.contains_key(t.keys[b]) && t.ids[t.keys[b]]@ == b by {
                    if b != bits {
                        assert(s.keys.contains_key(b));
                        assert(s.keys[b] != raw as u64);
                    }
                }
            }
            let rest = rows.skip(1);
            assert forall|i: int| 0 <= i < rest.len() && rest[i] > 0 implies !t.ids.contains_key(#[trigger] rest[i] as u64) by {
                assert(rest[i] == rows[i + 1]);
                assert(rows[0] != rows[i + 1]);
            }
            assert forall|i: int, j: int| #![trigger rest[i], rest[j]] 0 <= i < j < rest.len() implies rest[i] != rest[j] by {
                assert(rest[i] == rows[i + 1] && rest[j] == rows[j + 1]);
            }
            lemma_entities_one_to_one(t, rest);
        }
    }
}

proof fn lemma_locations_keep_maps(s: LoadModel, pairs: Seq<(PlaceId, Seq<char>)>, rows: Seq<(i64, Seq<char>)>)
    ensures
        load_locations_spec(s, pairs, rows) matches Ok(t) ==> t.ids == s.ids && t.keys == s.keys,
    decreases rows.len(),
{
    if rows.len() > 0 {
        if let Ok(t) = load_location_step(s, pairs, rows[0]) {
            lemma_locations_keep_maps(t, pairs, rows.skip(1));
        }
    }
}

proof fn lemma_inventory_keeps_maps(s: LoadModel, rows: Seq<(i64, i64)>)
    ensures
        load_inventory_spec(s, rows) matches Ok(t) ==> t.ids == s.ids && t.keys == s.keys,
    decreases rows.len(),
{
    if rows.len() > 0 {
        if let Ok(t) = load_containment_step(s, rows[0]) {
            lemma_inventory_keeps_maps(t, rows.skip(1));
        }
    }
}

/// The boot load keeps the durable keys and the minted handles one to one:
/// when the entity rows carry distinct keys (as the table's primary key
/// guarantees), every key maps to its handle and that handle back to it.
pub proof fn lemma_rebuild_one_to_one(
    tenant: u16,
    pairs: Seq<(PlaceId, Seq<char>)>,
    entities: Seq<i64>,
    locations: Seq<(i64, Seq<char>)>,
    inventory: Seq<(i64, i64)>,
)
    requires
        tenant <= TENANT_MAX,
        distinct_keys(entities),
    ensures
        rebuild_spec(tenant, pairs, entities, locations, inventory) matches Ok(m) ==> inverse_maps(m.ids, m.keys),
{
    let start = LoadModel { world: empty_world(tenant), ids: Map::empty(), keys: Map::empty() };
    lemma_entities_one_to_one(start, entities);
    if let Ok(a) = load_entities_spec(start, entities) {
        lemma_locations_keep_maps(a, pairs, locations);
        if let Ok(b) = load_locations_spec(a, pairs, locations) {
            lemma_inventory_keeps_maps(b, inventory);
        }
    }
}

/// What holds while the entity rows of a boot load are replayed: no slot
/// was freed, every slot is live at the first generation, each loaded key's
/// handle names an allocated slot of this tenant at that generation, and no
/// two keys share a slot.
spec fn fresh_load(s: LoadModel) -> bool {
    &&& s.world.arena.free.len() == 0
    &&& s.world.arena.tenant <= TENANT_MAX
    &&& forall|i: int| 0 <= i < s.world.arena.slots.len() ==> #[trigger] s.world.arena.slots[i] == (SlotModel {
        generation: 0,
        state: SlotState::Live,
    })
    &&& forall|k: u64| #[trigger] s.ids.contains_key(k) ==> {
        &&& slot_of_bits(s.ids[k]@) < s.world.arena.slots.len()
        &&& tenant_of_bits(s.ids[k]@) == s.world.arena.tenant
        &&& generation_of_bits(s.ids[k]@) == 0
    }
    &&& forall|k1: u64, k2: u64| #[trigger] s.ids.contains_key(k1) && #[trigger] s.ids.contains_key(k2) && k1 != k2
        ==> s.ids[k1].slot_spec() != s.ids[k2].slot_spec()
}

/// A loaded key's handle is live in the arena of a fresh load.
proof fn lemma_fresh_live(s: LoadModel, k: u64)
    requires
        fresh_load(s),
        s.ids.contains_key(k),
    ensures
        resolve_model(s.world.arena, s.ids[k]@) is Ok,
{
    let sl = slot_of_bits(s.ids[k]@);
    assert(s.world.arena.slots[sl as int] == (SlotModel { generation: 0, state: SlotState::Live }));
}

/// Replaying entity rows mints one live handle per row, each in a slot of
/// its own, and keeps the handles minted before.
proof fn lemma_entities_fresh(s: LoadModel, rows: Seq<i64>)
    requires
        fresh_load(s),
        distinct_keys(rows),
        forall|i: int| 0 <= i < rows.len() && rows[i] > 0 ==> !s.ids.contains_key(#[trigger] rows[i] as u64),
    ensures
        load_entities_spec(s, rows) matches Ok(t) ==> {
            &&& fresh_load(t)
            &&& t.world.held == s.world.held
            &&& t.world.fw == s.world.fw
            &&& t.world.arena.slots.len() == s.world.arena.slots.len() + rows.len()
            &&& forall|i: int| 0 <= i < rows.len() ==> rows[i] > 0 && t.ids.contains_key(#[trigger] rows[i] as u64)
            &&& forall|k: u64| #[trigger] t.ids.contains_key(k) ==> s.ids.contains_key(k) || exists|i: int|
                0 <= i < rows.len() && #[trigger] rows[i] as u64 == k
            &&& forall|k: u64| #[trigger] s.ids.contains_key(k) ==> t.ids.contains_key(k) && t.ids[k] == s.ids[k]
        },
        (forall|i: int| 0 <= i < rows.len() ==> #[trigger] rows[i] > 0) && s.world.arena.slots.len() + rows.len()
            <= u32::MAX + 1 ==> load_entities_spec(s, rows) is Ok,
    decreases rows.len(),
{
    if rows.len() > 0 {
        let raw = rows[0];
        if (forall|i: int| 0 <= i < rows.len() ==> #[trigger] rows[i] > 0) && s.world.arena.slots.len() + rows.len()
            <= u32::MAX + 1 {
            assert(rows[0] > 0);
            assert(load_entity_step(s, raw) is Ok);
            assert forall|i: int| 0 <= i < rows.skip(1).len() implies #[trigger] rows.skip(1)[i] > 0 by {
                assert(rows.skip(1)[i] == rows[i + 1]);
            }
        }
        if let Ok(t) = load_entity_step(s, raw) {
            let a = s.world.arena;
            let n = a.slots.len();
            let bits = alloc_model(a).1->Ok_0;
            lemma_unpack_pack(a.tenant, n as u32, 0);
            assert(EntityId::of_bits(bits)@ == bits) by {
                broadcast use lemma_of_bits;
            }
            assert(fresh_load(t)) by {
                assert forall|i: int| 0 <= i < t.world.arena.slots.len() implies #[trigger] t.world.arena.slots[i] == (SlotModel {
                    generation: 0,
                    state: SlotState::Live,
                }) by {
                    if i < n {
                        assert(t.world.arena.slots[i] == a.slots[i]);
                    }
                }
                assert forall|k1: u64, k2: u64| #[trigger] t.ids.contains_key(k1) && #[trigger] t.ids.contains_key(k2) && k1 != k2
                    implies t.ids[k1].slot_spec() != t.ids[k2].slot_spec() by {
                    if k1 != raw as u64 && k2 != raw as u64 {
                        assert(s.ids.contains_key(k1) && s.ids.contains_key(k2));
                    } else if k1 == raw as u64 {
                        assert(s.ids.contains_key(k2));
                    } else {
                        assert(s.ids.contains_key(k1));
                    }
                }
            }
            let rest = rows.skip(1);
            assert forall|i: int| 0 <= i < rest.len() && rest[i] > 0 implies !t.ids.contains_key(#[trigger] rest[i] as u64) by {
                assert(rest[i] == rows[i + 1]);
                assert(rows[0] != rows[i + 1]);
            }
            assert forall|i: int, j: int| #![trigger rest[i], rest[j]] 0 <= i < j < rest.len() implies rest[i] != rest[j] by {
                assert(rest[i] == rows[i + 1] && rest[j] == rows[j + 1]);
            }
            lemma_entities_fresh(t, rest);
            if let Ok(u) = load_entities_spec(t, rest) {
                assert(t.ids.contains_key(raw as u64));
                assert(u.ids.contains_key(raw as u64));
                assert forall|i: int| 0 <= i < rows.len() implies rows[i] > 0 && u.ids.contains_key(#[trigger] rows[i] as u64) by {
                    if i > 0 {
                        assert(rest[i - 1] == rows[i]);
                        assert(rest[i - 1] > 0 && u.ids.contains_key(rest[i - 1] as u64));
                    }
                }
                assert forall|k: u64| #[trigger] s.ids.contains_key(k) implies u.ids.contains_key(k) && u.ids[k] == s.ids[k] by {
                    assert(k != raw as u64);
                    assert(t.ids.contains_key(k) && t.ids[k] == s.ids[k]);
                }
                assert(u.world.arena.slots.len() == s.world.arena.slots.len() + rows.len());
                assert forall|k: u64| #[trigger] u.ids.contains_key(k) implies s.ids.contains_key(k) || exists|i: int|
                    0 <= i < rows.len() && #[trigger] rows[i] as u64 == k by {
                    if !t.ids.contains_key(k) {
                        let i = choose|i: int| 0 <= i < rest.len() && #[trigger] rest[i] as u64 == k;
                        assert(rows[i + 1] as u64 == k);
                    } else if k == raw as u64 {
                        assert(rows[0] as u64 == k);
                    }
                }
            }
        }
    }
}

/// Replaying location rows keeps the arena and the key maps, and moves each
/// row's entity to the row's place; a slot no row names keeps its location.
proof fn lemma_locations_restore(s: LoadModel, pairs: Seq<(PlaceId, Seq<char>)>, rows: Seq<(i64, Seq<char>)>)
    requires
        fresh_load(s),
        s.world.arena.slots.len() <= usize::MAX,
        forall|i: int, j: int| 0 <= i < j < rows.len() ==> rows[i].0 != rows[j].0,
    ensures
        load_locations_spec(s, pairs, rows) matches Ok(t) ==> {
            &&& t.world.arena == s.world.arena
            &&& t.world.held == s.world.held
            &&& t.ids == s.ids
            &&& t.keys == s.keys
            &&& forall|j: int| 0 <= j < rows.len() ==> {
                &&& rows[j].0 > 0
                &&& s.ids.contains_key(#[trigger] rows[j].0 as u64)
                &&& id_of_spec(pairs, rows[j].1) is Some
                &&& prev_of_slot(t.world.fw, s.ids[rows[j].0 as u64].slot_spec()) == id_of_spec(pairs, rows[j].1)
            }
            &&& forall|sl: u32| (forall|j: int| 0 <= j < rows.len() ==> s.ids[#[trigger] rows[j].0 as u64].slot_spec() != sl)
                ==> #[trigger] prev_of_slot(t.world.fw, sl) == prev_of_slot(s.world.fw, sl)
        },
        (forall|j: int| 0 <= j < rows.len() ==> #[trigger] rows[j].0 > 0 && s.ids.contains_key(rows[j].0 as u64)
            && place_key_spec(rows[j].1) is Ok && id_of_spec(pairs, rows[j].1) is Some) ==> load_locations_spec(
            s,
            pairs,
            rows,
        ) is Ok,
    decreases rows.len(),
{
    if rows.len() > 0 {
        let row = rows[0];
        if forall|j: int| 0 <= j < rows.len() ==> #[trigger] rows[j].0 > 0 && s.ids.contains_key(rows[j].0 as u64)
            && place_key_spec(rows[j].1) is Ok && id_of_spec(pairs, rows[j].1) is Some {
            assert(rows[0].0 > 0);
            lemma_fresh_live(s, row.0 as u64);
            assert(load_location_step(s, pairs, row) is Ok);
            let t1 = load_location_step(s, pairs, row)->Ok_0;
            assert(t1.ids == s.ids);
            assert forall|j: int| 0 <= j < rows.skip(1).len() implies #[trigger] rows.skip(1)[j].0 > 0 && t1.ids.contains_key(
                rows.skip(1)[j].0 as u64,
            ) && place_key_spec(rows.skip(1)[j].1) is Ok && id_of_spec(pairs, rows.skip(1)[j].1) is Some by {
                assert(rows.skip(1)[j] == rows[j + 1]);
            }
        }
        if let Ok(t1) = load_location_step(s, pairs, row) {
            let id = s.ids[row.0 as u64];
            let p = id_of_spec(pairs, row.1)->Some_0;
            let sl = id.slot_spec();
            assert(sl < s.world.arena.slots.len());
            assert(t1.world == place_spec(s.world, id, p));
            assert(t1.world.fw == s.world.fw.insert(sl, p));
            let rest = rows.skip(1);
            assert forall|i: int, j: int| 0 <= i < j < rest.len() implies rest[i].0 != rest[j].0 by {
                assert(rest[i] == rows[i + 1] && rest[j] == rows[j + 1]);
            }
            lemma_locations_restore(t1, pairs, rest);
            if let Ok(t) = load_locations_spec(t1, pairs, rest) {
                assert forall|j: int| 0 <= j < rows.len() implies {
                    &&& rows[j].0 > 0
                    &&& s.ids.contains_key(#[trigger] rows[j].0 as u64)
                    &&& id_of_spec(pairs, rows[j].1) is Some
                    &&& prev_of_slot(t.world.fw, s.ids[rows[j].0 as u64].slot_spec()) == id_of_spec(pairs, rows[j].1)
                } by {
                    if j > 0 {
                        assert(rest[j - 1] == rows[j]);
                    } else {
                        assert forall|i: int| 0 <= i < rest.len() implies s.ids[#[trigger] rest[i].0 as u64].slot_spec() != sl by {
                            assert(rest[i] == rows[i + 1]);
                            assert(rows[0].0 != rows[i + 1].0);
                            assert(s.ids.contains_key(rest[i].0 as u64));
                        }
                        assert(prev_of_slot(t.world.fw, sl) == prev_of_slot(t1.world.fw, sl));
                    }
                }
                assert forall|w: u32| (forall|j: int| 0 <= j < rows.len() ==> s.ids[#[trigger] rows[j].0 as u64].slot_spec() != w)
                    implies #[trigger] prev_of_slot(t.world.fw, w) == prev_of_slot(s.world.fw, w) by {
                    assert(s.ids[rows[0].0 as u64].slot_spec() != w);
                    assert forall|i: int| 0 <= i < rest.len() implies s.ids[#[trigger] rest[i].0 as u64].slot_spec() != w by {
                        assert(rest[i] == rows[i + 1]);
                    }
                }
            }
        }
    }
}

/// The place a slot's entry in a forward table names, if any.
pub open spec fn prev_of_slot(fw: Map<u32, PlaceId>, s: u32) -> Option<PlaceId> {
    if fw.contains_key(s) {
        Some(fw[s])
    } else {
        None
    }
}

/// Replaying containment rows leaves the arena, the locations and the key
/// maps as they were.
proof fn lemma_inventory_keeps_places(s: LoadModel, rows: Seq<(i64, i64)>)
    ensures
        load_inventory_spec(s, rows) matches Ok(t) ==> t.world.arena == s.world.arena && t.world.fw == s.world.fw
            && t.ids == s.ids,
    decreases rows.len(),
{
    if rows.len() > 0 {
        if let Ok(t) = load_containment_step(s, rows[0]) {
            lemma_inventory_keeps_places(t, rows.skip(1));
        }
    }
}

/// Every held item is a handle of this tenant at the first generation.
spec fn fresh_holdings(w: WorldModel) -> bool {
    forall|sl: u32, x: EntityId| #[trigger] w.held[sl].contains(x) ==> generation_of_bits(x@) == 0 && tenant_of_bits(x@)
        == w.arena.tenant
}

/// Replaying containment rows keeps the arena and the key maps, never drops
/// a held item, and leaves each row's item in the row's container.
proof fn lemma_inventory_restore(s: LoadModel, rows: Seq<(i64, i64)>)
    requires
        fresh_load(s),
        fresh_holdings(s.world),
        s.world.arena.slots.len() <= usize::MAX,
    ensures
        load_inventory_spec(s, rows) matches Ok(t) ==> {
            &&& t.world.arena == s.world.arena
            &&& t.ids == s.ids
            &&& fresh_holdings(t.world)
            &&& forall|sl: u32, x: EntityId| #[trigger] s.world.held[sl].contains(x) ==> t.world.held[sl].contains(x)
            &&& forall|j: int| 0 <= j < rows.len() ==> {
                &&& rows[j].0 > 0 && rows[j].1 > 0
                &&& s.ids.contains_key(#[trigger] rows[j].0 as u64) && s.ids.contains_key(rows[j].1 as u64)
                &&& t.world.held[s.ids[rows[j].1 as u64].slot_spec()].contains(s.ids[rows[j].0 as u64])
            }
        },
        (forall|j: int| 0 <= j < rows.len() ==> #[trigger] rows[j].0 > 0 && rows[j].1 > 0 && s.ids.contains_key(
            rows[j].0 as u64,
        ) && s.ids.contains_key(rows[j].1 as u64)) ==> load_inventory_spec(s, rows) is Ok,
    decreases rows.len(),
{
    if rows.len() > 0 {
        let row = rows[0];
        if forall|j: int| 0 <= j < rows.len() ==> #[trigger] rows[j].0 > 0 && rows[j].1 > 0 && s.ids.contains_key(
            rows[j].0 as u64,
        ) && s.ids.contains_key(rows[j].1 as u64) {
            assert(rows[0].0 > 0);
            lemma_fresh_live(s, row.0 as u64);
            lemma_fresh_live(s, row.1 as u64);
            assert(load_containment_step(s, row) is Ok);
        }
        if let Ok(t1) = load_containment_step(s, row) {
            let item = s.ids[row.0 as u64];
            let container = s.ids[row.1 as u64];
            let cs = container.slot_spec();
            lemma_fresh_live(s, row.0 as u64);
            lemma_fresh_live(s, row.1 as u64);
            let h = s.world.held[cs];
            assert(t1.world.held == s.world.held.insert(
                cs,
                if holds_slot(h, item.slot_spec()) { h } else { h.push(item) },
            ));
            assert(t1.world.held[cs].contains(item)) by {
                if holds_slot(h, item.slot_spec()) {
                    let i = choose|i: int| 0 <= i < h.len() && (#[trigger] h[i]).slot_spec() == item.slot_spec();
                    assert(h.contains(h[i]));
                    lemma_pack_unpack(h[i]@);
                    lemma_pack_unpack(item@);
                    assert(h[i]@ == item@);
                    assert(EntityId::of_bits(h[i]@) == h[i] && EntityId::of_bits(item@) == item) by {
                        broadcast use lemma_bits_determine;
                    }
                } else {
                    assert(h.push(item)[h.len() as int] == item);
                }
            }
            assert forall|sl: u32, x: EntityId| #[trigger] s.world.held[sl].contains(x) implies t1.world.held[sl].contains(x) by {
                if sl == cs && !holds_slot(h, item.slot_spec()) {
                    let i = choose|i: int| 0 <= i < h.len() && h[i] == x;
                    assert(h.push(item)[i] == x);
                }
            }
            assert(fresh_holdings(t1.world)) by {
                assert forall|sl: u32, x: EntityId| #[trigger] t1.world.held[sl].contains(x) implies generation_of_bits(x@) == 0
                    && tenant_of_bits(x@) == t1.world.arena.tenant by {
                    if sl == cs && !holds_slot(h, item.slot_spec()) && x == item {
                    } else if sl == cs && !holds_slot(h, item.slot_spec()) {
                        let i = choose|i: int| 0 <= i < h.len() + 1 && h.push(item)[i] == x;
                        assert(h[i] == x);
                        assert(h.contains(x));
                    }
                }
            }
            let rest = rows.skip(1);
            lemma_inventory_restore(t1, rest);
            if let Ok(t) = load_inventory_spec(t1, rest) {
                assert forall|j: int| 0 <= j < rows.len() implies {
                    &&& rows[j].0 > 0 && rows[j].1 > 0
                    &&& s.ids.contains_key(#[trigger] rows[j].0 as u64) && s.ids.contains_key(rows[j].1 as u64)
                    &&& t.world.held[s.ids[rows[j].1 as u64].slot_spec()].contains(s.ids[rows[j].0 as u64])
                } by {
                    if j > 0 {
                        assert(rest[j - 1] == rows[j]);
                    }
                }
            }
        }
    }
}

/// Some entity row carries the key `k`.
pub open spec fn has_row(entities: Seq<i64>, k: i64) -> bool {
    exists|i: int| 0 <= i < entities.len() && entities[i] == k
}

/// Rows as a consistent database holds them: positive entity keys, no more
/// entities than the 32-bit slot space, each location row naming an entity
/// row and a known room, and each containment row naming two entity rows.
pub open spec fn rows_consistent(
    pairs: Seq<(PlaceId, Seq<char>)>,
    entities: Seq<i64>,
    locations: Seq<(i64, Seq<char>)>,
    inventory: Seq<(i64, i64)>,
) -> bool {
    &&& forall|i: int| 0 <= i < entities.len() ==> #[trigger] entities[i] > 0
    &&& entities.len() <= u32::MAX + 1
    &&& forall|j: int| 0 <= j < locations.len() ==> has_row(entities, #[trigger] locations[j].0) && place_key_spec(
        locations[j].1,
    ) is Ok && id_of_spec(pairs, locations[j].1) is Some
    &&& forall|j: int| 0 <= j < inventory.len() ==> has_row(entities, #[trigger] inventory[j].0) && has_row(
        entities,
        inventory[j].1,
    )
}

/// The boot load restores what the three tables hold: when the entity rows
/// carry distinct keys and no entity has two location rows (as the tables'
/// primary keys guarantee), a successful load has a live handle for each
/// entity row and for nothing else, each location row's entity located at
/// the place its slug names, every other entity located nowhere, and each
/// containment row's item held by the row's container; and the load
/// succeeds whenever the rows are consistent.
pub proof fn lemma_rebuild_restores_tables(
    tenant: u16,
    pairs: Seq<(PlaceId, Seq<char>)>,
    entities: Seq<i64>,
    locations: Seq<(i64, Seq<char>)>,
    inventory: Seq<(i64, i64)>,
)
    requires
        tenant <= TENANT_MAX,
        distinct_keys(entities),
        entities.len() <= usize::MAX,
        forall|i: int, j: int| 0 <= i < j < locations.len() ==> locations[i].0 != locations[j].0,
    ensures
        rebuild_spec(tenant, pairs, entities, locations, inventory) matches Ok(m) ==> {
            &&& forall|i: int| 0 <= i < entities.len() ==> m.ids.contains_key(#[trigger] entities[i] as u64)
                && resolve_model(m.world.arena, m.ids[entities[i] as u64]@) is Ok
            &&& forall|k: u64| #[trigger] m.ids.contains_key(k) ==> exists|i: int| 0 <= i < entities.len() && #[trigger] entities[i] as u64 == k
            &&& forall|j: int| 0 <= j < locations.len() ==> located_in_spec(
                m.world,
                m.ids[#[trigger] locations[j].0 as u64],
                id_of_spec(pairs, locations[j].1)->Some_0,
            )
            &&& forall|i: int| 0 <= i < entities.len() && (forall|j: int| 0 <= j < locations.len() ==> locations[j].0
                != entities[i]) ==> prev_of_slot(m.world.fw, m.ids[#[trigger] entities[i] as u64].slot_spec()) is None
            &&& forall|j: int| 0 <= j < inventory.len() ==> contains_spec(
                m.world,
                m.ids[inventory[j].1 as u64],
                m.ids[#[trigger] inventory[j].0 as u64],
            )
        },
        rows_consistent(pairs, entities, locations, inventory) ==> rebuild_spec(
            tenant,
            pairs,
            entities,
            locations,
            inventory,
        ) is Ok,
{
    let start = LoadModel { world: empty_world(tenant), ids: Map::empty(), keys: Map::empty() };
    lemma_entities_fresh(start, entities);
    if let Ok(a) = load_entities_spec(start, entities) {
        if rows_consistent(pairs, entities, locations, inventory) {
            assert forall|j: int| 0 <= j < locations.len() implies #[trigger] locations[j].0 > 0 && a.ids.contains_key(
                locations[j].0 as u64,
            ) && place_key_spec(locations[j].1) is Ok && id_of_spec(pairs, locations[j].1) is Some by {
                assert(has_row(entities, locations[j].0));
                let i = choose|i: int| 0 <= i < entities.len() && entities[i] == locations[j].0;
                assert(a.ids.contains_key(entities[i] as u64));
            }
        }
        lemma_locations_restore(a, pairs, locations);
        if let Ok(b) = load_locations_spec(a, pairs, locations) {
            lemma_inventory_keeps_places(b, inventory);
            assert(fresh_holdings(b.world));
            if rows_consistent(pairs, entities, locations, inventory) {
                assert forall|j: int| 0 <= j < inventory.len() implies #[trigger] inventory[j].0 > 0 && inventory[j].1 > 0
                    && b.ids.contains_key(inventory[j].0 as u64) && b.ids.contains_key(inventory[j].1 as u64) by {
                    assert(has_row(entities, inventory[j].0) && has_row(entities, inventory[j].1));
                    let i = choose|i: int| 0 <= i < entities.len() && entities[i] == inventory[j].0;
                    let l = choose|l: int| 0 <= l < entities.len() && entities[l] == inventory[j].1;
                    assert(a.ids.contains_key(entities[i] as u64));
                    assert(a.ids.contains_key(entities[l] as u64));
                }
            }
            lemma_inventory_restore(b, inventory);
            if let Ok(m) = load_inventory_spec(b, inventory) {
                assert forall|j: int| 0 <= j < inventory.len() implies contains_spec(
                    m.world,
                    m.ids[inventory[j].1 as u64],
                    m.ids[#[trigger] inventory[j].0 as u64],
                ) by {
                    assert(b.ids.contains_key(inventory[j].0 as u64) && b.ids.contains_key(inventory[j].1 as u64));
                    lemma_fresh_live(a, inventory[j].1 as u64);
                }
                assert forall|i: int| 0 <= i < entities.len() && (forall|j: int| 0 <= j < locations.len() ==> locations[j].0
                    != entities[i]) implies prev_of_slot(m.world.fw, m.ids[#[trigger] entities[i] as u64].slot_spec()) is None by {
                    let k = entities[i] as u64;
                    assert(a.ids.contains_key(k));
                    assert forall|j: int| 0 <= j < locations.len() implies a.ids[#[trigger] locations[j].0 as u64].slot_spec()
                        != a.ids[k].slot_spec() by {
                        assert(a.ids.contains_key(locations[j].0 as u64));
                        assert(locations[j].0 > 0 && entities[i] > 0);
                        assert(locations[j].0 as u64 != k);
                    }
                    assert(prev_of_slot(b.world.fw, a.ids[k].slot_spec()) == prev_of_slot(a.world.fw, a.ids[k].slot_spec()));
                    assert(a.world.fw == start.world.fw);
                }
                assert forall|i: int| 0 <= i < entities.len() implies m.ids.contains_key(#[trigger] entities[i] as u64)
                    && resolve_model(m.world.arena, m.ids[entities[i] as u64]@) is Ok by {
                    lemma_fresh_live(a, entities[i] as u64);
                }
                assert forall|j: int| 0 <= j < locations.len() implies located_in_spec(
                    m.world,
                    m.ids[#[trigger] locations[j].0 as u64],
                    id_of_spec(pairs, locations[j].1)->Some_0,
                ) by {
                    lemma_fresh_live(a, locations[j].0 as u64);
                    assert(prev_of_slot(b.world.fw, a.ids[locations[j].0 as u64].slot_spec()) == id_of_spec(pairs, locations[j].1));
                }
            }
        }
    }
}

} // verus!
