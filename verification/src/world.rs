//! The per-tenant mutable world aggregate.
//!
//! [`World`] bundles what a mutation touches — the liveness arena and the hot
//! side-tables — for a single tenant. It is the apply target the scheduler
//! mutates: the scheduler decides ordering, the world performs the effect.
//!
//! Every operation that touches a side-table first validates the handle
//! through the arena, so a side-table is never indexed without a live,
//! tenant-owned handle.

use vstd::prelude::*;
use crate::arena::{ArenaError, ArenaFault, ArenaModel, EntityArena, alloc_model, arena_model_wf, free_model, id_result_view, resolve_model, slot_result_view, unit_result_view};
use crate::entity::{EntityId, TenantTag};
use crate::place::id::PlaceId;
use crate::side_tables::inventory::{Inventory, holds_slot};
use crate::side_tables::location::{LocationOf, add_occupant_spec, consistent, lemma_place_keeps_consistent, lemma_remove_keeps_consistent, prev_of, remove_occupant_spec, without_slot};
use crate::side_tables::naming::{Keyword, Naming, keywords_view};
use crate::write_model::{Effect, EventModel, Precondition, TickEvent};

verus! {

/// The world over plain values: the arena, the location table's two halves,
/// and each slot's inventory and keywords.
#[verifier::ext_equal]
pub struct WorldModel {
    pub arena: ArenaModel,
    pub fw: Map<u32, PlaceId>,
    pub occ: Map<PlaceId, Seq<EntityId>>,
    pub held: Map<u32, Seq<EntityId>>,
    pub names: Map<u32, Seq<Seq<char>>>,
}

/// `e` moves to `p`.
pub open spec fn place_spec(w: WorldModel, e: EntityId, p: PlaceId) -> WorldModel {
    let s = e.slot_spec();
    if s as int == usize::MAX {
        w
    } else {
        WorldModel {
            fw: w.fw.insert(s, p),
            occ: add_occupant_spec(remove_occupant_spec(w.occ, prev_of(w.fw, s), s), p, e),
            ..w
        }
    }
}

/// `e` is located nowhere.
pub open spec fn unplace_spec(w: WorldModel, e: EntityId) -> WorldModel {
    let s = e.slot_spec();
    WorldModel { fw: w.fw.remove(s), occ: remove_occupant_spec(w.occ, prev_of(w.fw, s), s), ..w }
}

/// `c` gains `i`, unless it already holds an item at `i`'s slot.
pub open spec fn stow_spec(w: WorldModel, c: EntityId, i: EntityId) -> WorldModel {
    let s = c.slot_spec();
    if s as int == usize::MAX {
        w
    } else {
        WorldModel {
            held: w.held.insert(s, if holds_slot(w.held[s], i.slot_spec()) { w.held[s] } else { w.held[s].push(i) }),
            ..w
        }
    }
}

/// `c` loses every item at `i`'s slot.
pub open spec fn unstow_spec(w: WorldModel, c: EntityId, i: EntityId) -> WorldModel {
    let s = c.slot_spec();
    WorldModel { held: w.held.insert(s, without_slot(w.held[s], i.slot_spec())), ..w }
}

/// `e`'s keywords become `k`.
pub open spec fn name_spec(w: WorldModel, e: EntityId, k: Seq<Seq<char>>) -> WorldModel {
    let s = e.slot_spec();
    if s as int == usize::MAX {
        w
    } else {
        WorldModel { names: w.names.insert(s, k), ..w }
    }
}

/// Teardown: the arena frees `e`; on success its location, inventory and
/// keywords are cleared.
pub open spec fn teardown_spec(w: WorldModel, e: EntityId) -> (WorldModel, Result<(), ArenaFault>) {
    let (am, r) = free_model(w.arena, e@);
    match r {
        Err(f) => (w, Err(f)),
        Ok(()) => {
            let s = e.slot_spec();
            let u = unplace_spec(WorldModel { arena: am, ..w }, e);
            (WorldModel { held: u.held.insert(s, Seq::empty()), names: u.names.insert(s, Seq::empty()), ..u }, Ok(()))
        },
    }
}

/// `op` applied after `e` resolves; the resolution error otherwise.
pub open spec fn guarded(w: WorldModel, e: EntityId, after: WorldModel) -> (WorldModel, Result<(), ArenaFault>) {
    match resolve_model(w.arena, e@) {
        Err(f) => (w, Err(f)),
        Ok(_) => (after, Ok(())),
    }
}

/// The world after one effect, and the result of the operation it maps to.
pub open spec fn effect_spec(w: WorldModel, effect: Effect) -> (WorldModel, Result<(), ArenaFault>) {
    match effect {
        Effect::Create => {
            let (am, r) = alloc_model(w.arena);
            (WorldModel { arena: am, ..w }, match r { Ok(_) => Ok(()), Err(f) => Err(f) })
        },
        Effect::Teardown { entity } => teardown_spec(w, entity),
        Effect::MoveTo { entity, place } => guarded(w, entity, place_spec(w, entity, place)),
        Effect::ClearLocation { entity } => guarded(w, entity, unplace_spec(w, entity)),
        Effect::InventoryAdd { container, item } => match resolve_model(w.arena, container@) {
            Err(f) => (w, Err(f)),
            Ok(_) => guarded(w, item, stow_spec(w, container, item)),
        },
        Effect::InventoryRemove { container, item } => guarded(w, container, unstow_spec(w, container, item)),
    }
}

/// The world after one effect, and the event it reports: the minted handle
/// of a create, the arena's rejection, or nothing.
pub open spec fn apply_spec(w: WorldModel, effect: Effect) -> (WorldModel, Option<EventModel>) {
    let (w2, r) = effect_spec(w, effect);
    match effect {
        Effect::Create => match alloc_model(w.arena).1 {
            Ok(id) => (w2, Some(EventModel::Created { entity: id })),
            Err(f) => (w2, Some(EventModel::Rejected { effect, error: f })),
        },
        _ => match r {
            Ok(()) => (w2, None),
            Err(f) => (w2, Some(EventModel::Rejected { effect, error: f })),
        },
    }
}

/// `e` is live and located at `p`.
pub open spec fn located_in_spec(w: WorldModel, e: EntityId, p: PlaceId) -> bool {
    resolve_model(w.arena, e@) is Ok && prev_of(w.fw, e.slot_spec()) == Some(p)
}

/// `c` is live and holds `i`.
pub open spec fn contains_spec(w: WorldModel, c: EntityId, i: EntityId) -> bool {
    resolve_model(w.arena, c@) is Ok && w.held[c.slot_spec()].contains(i)
}

/// Whether `pre` holds in `w`.
pub open spec fn satisfies_spec(w: WorldModel, pre: Precondition) -> bool {
    match pre {
        Precondition::LocatedIn { entity, place } => located_in_spec(w, entity, place),
        Precondition::Contains { container, item } => contains_spec(w, container, item),
    }
}

/// The world the scheduler mutates for one tenant: liveness arena plus the
/// hot side-tables.
pub struct World {
    arena: EntityArena,
    locations: LocationOf,
    inventory: Inventory,
    naming: Naming,
}

impl World {
    /// The world over plain values.
    pub closed spec fn model(&self) -> WorldModel {
        WorldModel {
            arena: self.arena.model(),
            fw: self.locations.forward(),
            occ: self.locations.occupancy(),
            held: Map::new(|s: u32| true, |s: u32| self.inventory.held(s)),
            names: Map::new(|s: u32| true, |s: u32| self.naming.names(s)),
        }
    }

    /// The arena and the location table are well formed.
    pub closed spec fn wf(&self) -> bool {
        self.arena.wf() && self.locations.wf()
    }

    /// A well-formed world has a well-formed arena model, and its location
    /// table agrees with its reverse index, so the model-level laws apply to
    /// every world a caller holds.
    pub proof fn lemma_wf_model(&self)
        requires
            self.wf(),
        ensures
            arena_model_wf(self.model().arena),
            consistent(self.model().fw, self.model().occ),
    {
        self.arena.lemma_wf_model();
    }

    /// Creates an empty world owned by `tenant`.
    pub fn new(tenant: TenantTag) -> (r: Self)
        ensures
            r.wf(),
            r.model() == (WorldModel {
                arena: ArenaModel { tenant: tenant@, slots: Seq::empty(), free: Seq::empty() },
                fw: Map::empty(),
                occ: Map::empty(),
                held: Map::new(|s: u32| true, |s: u32| Seq::<EntityId>::empty()),
                names: Map::new(|s: u32| true, |s: u32| Seq::<Seq<char>>::empty()),
            }),
    {
        let r = World { arena: EntityArena::new(tenant), locations: LocationOf::new(), inventory: Inventory::new(), naming: Naming::new() };
        assert(r.model().held =~= Map::new(|s: u32| true, |s: u32| Seq::<EntityId>::empty()));
        assert(r.model().names =~= Map::new(|s: u32| true, |s: u32| Seq::<Seq<char>>::empty()));
        r
    }

    /// The tenant that owns this world.
    pub fn tenant(&self) -> (r: TenantTag)
        ensures
            r@ == self.model().arena.tenant,
    {
        self.arena.tenant()
    }

    /// Creates a new entity, returning its freshly minted handle;
    /// [`ArenaError::Exhausted`] only when the slot space is full.
    pub fn create(&mut self) -> (r: Result<EntityId, ArenaError>)
        requires
            old(self).wf(),
        ensures
            final(self).wf(),
            final(self).model() == (WorldModel { arena: alloc_model(old(self).model().arena).0, ..old(self).model() }),
            id_result_view(r) == alloc_model(old(self).model().arena).1,
    {
        let r = self.arena.allocate();
        assert(self.model() =~= WorldModel { arena: alloc_model(old(self).model().arena).0, ..old(self).model() });
        r
    }
    /// Tears an entity down: frees its handle and releases its slot's
    /// location, inventory contents and keywords. A stale or foreign handle is
    /// rejected before any table is touched.
    pub fn teardown(&mut self, entity: EntityId) -> (r: Result<(), ArenaError>)
        requires
            old(self).wf(),
        ensures
            final(self).wf(),
            (final(self).model(), unit_result_view(r)) == teardown_spec(old(self).model(), entity),
    {
        let ghost w = self.model();
        match self.arena.free(entity) {
            Ok(()) => {},
            Err(e) => {
                assert(self.model() =~= w);
                return Err(e);
            },
        }
        let ghost w1 = self.model();
        self.locations.remove(entity);
        self.inventory.clear(entity);
        self.naming.clear(entity);
        proof {
            let u = unplace_spec(WorldModel { arena: free_model(w.arena, entity@).0, ..w }, entity);
            let s = entity.slot_spec();
            assert(self.model().held =~= u.held.insert(s, Seq::empty()));
            assert(self.model().names =~= u.names.insert(s, Seq::empty()));
            assert(self.model() =~= WorldModel { held: u.held.insert(s, Seq::empty()), names: u.names.insert(s, Seq::empty()), ..u });
        }
        Ok(())
    }

    /// Moves `entity` to `place`, replacing any previous location; the arena
    /// error for a stale or foreign handle.
    pub fn move_to(&mut self, entity: EntityId, place: PlaceId) -> (r: Result<(), ArenaError>)
        requires
            old(self).wf(),
        ensures
            final(self).wf(),
            (final(self).model(), unit_result_view(r)) == guarded(old(self).model(), entity, place_spec(old(self).model(), entity, place)),
    {
        let ghost w = self.model();
        match self.arena.resolve(entity) {
            Ok(_) => {},
            Err(e) => return Err(e),
        }
        self.locations.place(entity, place);
        assert(self.model() =~= place_spec(w, entity, place));
        Ok(())
    }

    /// Clears `entity`'s location, so it is located nowhere. A no-op if it had
    /// no location; the arena error for a stale or foreign handle.
    pub fn clear_location(&mut self, entity: EntityId) -> (r: Result<(), ArenaError>)
        requires
            old(self).wf(),
        ensures
            final(self).wf(),
            (final(self).model(), unit_result_view(r)) == guarded(old(self).model(), entity, unplace_spec(old(self).model(), entity)),
    {
        let ghost w = self.model();
        match self.arena.resolve(entity) {
            Ok(_) => {},
            Err(e) => return Err(e),
        }
        self.locations.remove(entity);
        assert(self.model() =~= unplace_spec(w, entity));
        Ok(())
    }

    /// Sets `entity`'s lookup keywords, replacing any prior list; the arena
    /// error for a stale or foreign handle.
    pub fn name_entity(&mut self, entity: EntityId, keywords: Vec<Keyword>) -> (r: Result<(), ArenaError>)
        requires
            old(self).wf(),
        ensures
            final(self).wf(),
            (final(self).model(), unit_result_view(r)) == guarded(
                old(self).model(),
                entity,
                name_spec(old(self).model(), entity, keywords_view(keywords@)),
            ),
    {
        let ghost w = self.model();
        let ghost k = keywords_view(keywords@);
        match self.arena.resolve(entity) {
            Ok(_) => {},
            Err(e) => return Err(e),
        }
        self.naming.set(entity, keywords);
        assert(self.model().names =~= name_spec(w, entity, k).names);
        assert(self.model() =~= name_spec(w, entity, k));
        Ok(())
    }

    /// Adds `item` to `container`'s inventory; the arena error for a stale or
    /// foreign handle on either, the container checked first.
    pub fn inventory_add(&mut self, container: EntityId, item: EntityId) -> (r: Result<(), ArenaError>)
        requires
            old(self).wf(),
        ensures
            final(self).wf(),
            (final(self).model(), unit_result_view(r)) == effect_spec(old(self).model(), Effect::InventoryAdd { container, item }),
    {
        let ghost w = self.model();
        match self.arena.resolve(container) {
            Ok(_) => {},
            Err(e) => return Err(e),
        }
        match self.arena.resolve(item) {
            Ok(_) => {},
            Err(e) => return Err(e),
        }
        self.inventory.insert(container, item);
        assert(self.model().held =~= stow_spec(w, container, item).held);
        assert(self.model() =~= stow_spec(w, container, item));
        Ok(())
    }

    /// Removes `item` from `container`'s inventory (a no-op if absent); the
    /// arena error for a stale or foreign container handle.
    pub fn inventory_remove(&mut self, container: EntityId, item: EntityId) -> (r: Result<(), ArenaError>)
        requires
            old(self).wf(),
        ensures
            final(self).wf(),
            (final(self).model(), unit_result_view(r)) == guarded(old(self).model(), container, unstow_spec(old(self).model(), container, item)),
    {
        let ghost w = self.model();
        match self.arena.resolve(container) {
            Ok(_) => {},
            Err(e) => return Err(e),
        }
        self.inventory.remove(container, item);
        assert(self.model().held =~= unstow_spec(w, container, item).held);
        assert(self.model() =~= unstow_spec(w, container, item));
        Ok(())
    }

    /// Applies one [`Effect`], returning a [`TickEvent`] when the outcome must
    /// be observed (a minted handle or an arena rejection) and `None` on a
    /// silent success. The single mapping from effects to operations, and
    /// from arena errors to rejections, shared by every apply path.
    pub fn apply_effect(&mut self, effect: Effect) -> (r: Option<TickEvent>)
        requires
            old(self).wf(),
        ensures
            final(self).wf(),
            (final(self).model(), event_view(r)) == apply_spec(old(self).model(), effect),
    {
        let result = match effect {
            Effect::Create => {
                return Some(match self.create() {
                    Ok(entity) => TickEvent::Created { entity },
                    Err(error) => TickEvent::Rejected { effect, error },
                });
            },
            Effect::Teardown { entity } => self.teardown(entity),
            Effect::MoveTo { entity, place } => self.move_to(entity, place),
            Effect::ClearLocation { entity } => self.clear_location(entity),
            Effect::InventoryAdd { container, item } => self.inventory_add(container, item),
            Effect::InventoryRemove { container, item } => self.inventory_remove(container, item),
        };
        match result {
            Ok(()) => None,
            Err(error) => Some(TickEvent::Rejected { effect, error }),
        }
    }

    /// Whether `precondition` holds against this world's current state; the
    /// single source of precondition semantics.
    pub fn satisfies(&self, precondition: Precondition) -> (r: bool)
        requires
            self.wf(),
        ensures
            r == satisfies_spec(self.model(), precondition),
    {
        match precondition {
            Precondition::LocatedIn { entity, place } => self.is_located_in(entity, place),
            Precondition::Contains { container, item } => self.contains(container, item),
        }
    }

    /// Whether `entity` is a live handle currently located at `place`; a stale
    /// or foreign handle is located nowhere.
    pub fn is_located_in(&self, entity: EntityId, place: PlaceId) -> (r: bool)
        requires
            self.wf(),
        ensures
            r == located_in_spec(self.model(), entity, place),
    {
        if self.arena.resolve(entity).is_err() {
            return false;
        }
        match self.locations.location(entity) {
            Some(p) => p == place,
            None => false,
        }
    }

    /// Whether `container` is a live handle currently holding `item`; a stale
    /// or foreign container holds nothing.
    pub fn contains(&self, container: EntityId, item: EntityId) -> (r: bool)
        requires
            self.wf(),
        ensures
            r == contains_spec(self.model(), container, item),
    {
        if self.arena.resolve(container).is_err() {
            return false;
        }
        let held = self.inventory.contents(container);
        assert(held@ == self.model().held[container.slot_spec()]);
        let mut k: usize = 0;
        while k < held.len()
            invariant
                resolve_model(self.model().arena, container@) is Ok,
                held@ == self.model().held[container.slot_spec()],
                k <= held@.len(),
                forall|q: int| 0 <= q < k ==> held@[q] != item,
            decreases held@.len() - k,
        {
            if held[k] == item {
                assert(held@.contains(item));
                return true;
            }
            k = k + 1;
        }
        false
    }

    /// The place `entity` currently occupies, or `None` if it is located
    /// nowhere or its handle is stale or foreign.
    pub fn location_of(&self, entity: EntityId) -> (r: Option<PlaceId>)
        requires
            self.wf(),
        ensures
            r == (if resolve_model(self.model().arena, entity@) is Ok {
                prev_of(self.model().fw, entity.slot_spec())
            } else {
                None::<PlaceId>
            }),
    {
        if self.arena.resolve(entity).is_err() {
            return None;
        }
        self.locations.location(entity)
    }

    /// The entities currently in `place`, in occupancy order.
    pub fn occupants_of(&self, place: PlaceId) -> (r: Vec<EntityId>)
        ensures
            r@ == (if self.model().occ.contains_key(place) { self.model().occ[place] } else { Seq::<EntityId>::empty() }),
    {
        self.locations.occupants(place)
    }

    /// The items `container` holds, in insertion order. Empty for a stale,
    /// foreign, or empty container.
    pub fn inventory_of(&self, container: EntityId) -> (r: Vec<EntityId>)
        requires
            self.wf(),
        ensures
            r@ == (if resolve_model(self.model().arena, container@) is Ok {
                self.model().held[container.slot_spec()]
            } else {
                Seq::<EntityId>::empty()
            }),
    {
        if self.arena.resolve(container).is_err() {
            return Vec::new();
        }
        self.inventory.contents(container)
    }

    /// The lookup keywords `entity` answers to. Empty for a stale, foreign, or
    /// unnamed entity.
    pub fn keywords_of(&self, entity: EntityId) -> (r: &[Keyword])
        requires
            self.wf(),
        ensures
            keywords_view(r@) == (if resolve_model(self.model().arena, entity@) is Ok {
                self.model().names[entity.slot_spec()]
            } else {
                Seq::<Seq<char>>::empty()
            }),
    {
        if self.arena.resolve(entity).is_err() {
            let r: &[Keyword] = &[];
            assert(keywords_view(r@) =~= Seq::<Seq<char>>::empty());
            return r;
        }
        self.naming.keywords(entity)
    }
}

/// An optional event over plain values.
pub open spec fn event_view(e: Option<TickEvent>) -> Option<EventModel> {
    match e {
        Some(t) => Some(t@),
        None => None,
    }
}

/// A rejected effect leaves the world exactly as it was, and a silent
/// success never mints: only a create reports a handle.
pub proof fn lemma_rejection_changes_nothing(w: WorldModel, effect: Effect)
    ensures
        apply_spec(w, effect).1 matches Some(EventModel::Rejected { .. }) ==> apply_spec(w, effect).0 == w,
        apply_spec(w, effect).1 matches Some(EventModel::Created { .. }) ==> effect == Effect::Create,
{
    match effect {
        Effect::Create => {
            assert(WorldModel { arena: w.arena, ..w } =~= w);
        },
        _ => {},
    }
}

/// A torn-down entity's slot carries nothing into the next entity minted in
/// it: after a successful teardown of `e` and then a create, no handle at
/// `e`'s slot is located anywhere, holds any item or answers to a keyword.
pub proof fn lemma_teardown_leaves_nothing_to_reuse(w: WorldModel, e: EntityId)
    requires
        teardown_spec(w, e).1 is Ok,
    ensures
        ({
            let w2 = effect_spec(teardown_spec(w, e).0, Effect::Create).0;
            let s = e.slot_spec();
            &&& prev_of(w2.fw, s) is None
            &&& w2.held[s] == Seq::<EntityId>::empty()
            &&& w2.names[s] == Seq::<Seq<char>>::empty()
            &&& forall|n: EntityId, i: EntityId| n.slot_spec() == s ==> !#[trigger] contains_spec(w2, n, i)
            &&& forall|n: EntityId, p: PlaceId| n.slot_spec() == s ==> !#[trigger] located_in_spec(w2, n, p)
        }),
{
}

/// A move is observed by every read: after moving a live `e` to `p`, `e` is
/// located at `p` and nowhere else, and `p`'s occupants list it while no
/// other place's does.
pub proof fn lemma_move_is_observed(w: WorldModel, e: EntityId, p: PlaceId, q: PlaceId)
    requires
        consistent(w.fw, w.occ),
        (e.slot_spec() as int) < usize::MAX,
        resolve_model(w.arena, e@) is Ok,
    ensures
        located_in_spec(place_spec(w, e, p), e, p),
        q != p ==> !located_in_spec(place_spec(w, e, p), e, q),
        place_spec(w, e, p).occ.contains_key(p) && place_spec(w, e, p).occ[p].contains(e),
        q != p && place_spec(w, e, p).occ.contains_key(q) ==> !place_spec(w, e, p).occ[q].contains(e),
{
    let w2 = place_spec(w, e, p);
    lemma_place_keeps_consistent(w.fw, w.occ, p, e);
    let l = if remove_occupant_spec(w.occ, prev_of(w.fw, e.slot_spec()), e.slot_spec()).contains_key(p) {
        remove_occupant_spec(w.occ, prev_of(w.fw, e.slot_spec()), e.slot_spec())[p]
    } else {
        Seq::<EntityId>::empty()
    };
    assert(w2.occ[p] == l.push(e));
    assert(w2.occ[p][l.len() as int] == e);
    if q != p && w2.occ.contains_key(q) && w2.occ[q].contains(e) {
        assert(w2.fw[e.slot_spec()] == q);
    }
}

/// A teardown is observed by every read: after tearing `e` down, no handle
/// at `e`'s slot is located anywhere or listed among any place's occupants,
/// and the location table still agrees with its reverse index.
pub proof fn lemma_teardown_unlists(w: WorldModel, e: EntityId, p: PlaceId, x: EntityId)
    requires
        consistent(w.fw, w.occ),
        teardown_spec(w, e).1 is Ok,
        x.slot_spec() == e.slot_spec(),
    ensures
        consistent(teardown_spec(w, e).0.fw, teardown_spec(w, e).0.occ),
        prev_of(teardown_spec(w, e).0.fw, e.slot_spec()) is None,
        teardown_spec(w, e).0.occ.contains_key(p) ==> !teardown_spec(w, e).0.occ[p].contains(x),
{
    lemma_remove_keeps_consistent(w.fw, w.occ, e.slot_spec());
}

} // verus!
