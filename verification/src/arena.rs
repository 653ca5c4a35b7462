//! The per-tenant generational arena: the liveness authority that mints
//! [`EntityId`]s and rejects stale or cross-tenant handles.
//!
//! Freeing a slot advances its generation so outstanding handles become stale;
//! a slot whose generation cannot advance further is burned and never reused.
//! Freed slots are reused last-freed first.

use vstd::prelude::*;
use vstd::string::StringExecFns;
use crate::chars::{decimal_spec, decimal_u64, joined};
use crate::entity::{EntityId, Generation, SlotIndex, TenantTag, TENANT_MAX, GENERATION_MAX, pack_bits, tenant_of_bits, slot_of_bits, generation_of_bits, lemma_unpack_pack, lemma_pack_unpack};

verus! {

/// Errors from arena allocation and resolution.
#[derive(Debug, Clone, Copy, PartialEq, Eq, Structural)]
#[non_exhaustive]
pub enum ArenaError {
    /// The handle belongs to a different tenant than this arena.
    CrossTenant {
        /// Tenant that owns this arena.
        arena: TenantTag,
        /// Tenant the offending handle was minted in.
        handle: TenantTag,
    },
    /// The handle does not name a live entity in this arena.
    StaleHandle,
    /// The arena's 32-bit slot space is exhausted.
    Exhausted,
}

impl ArenaError {
    /// The human-readable message for this error.
    pub fn message(&self) -> (r: String)
        ensures
            r@ == (match *self {
                ArenaError::CrossTenant { arena, handle } => "handle from tenant "@ + decimal_spec(handle@ as nat)
                    + " used in tenant "@ + decimal_spec(arena@ as nat) + "'s arena"@,
                ArenaError::StaleHandle => "stale entity handle"@,
                ArenaError::Exhausted => "entity slot space exhausted"@,
            }),
    {
        match *self {
            ArenaError::CrossTenant { arena, handle } => {
                let mut s = joined("handle from tenant ", decimal_u64(handle.get() as u64).as_str());
                s.append(" used in tenant ");
                s.append(decimal_u64(arena.get() as u64).as_str());
                s.append("'s arena");
                s
            },
            ArenaError::StaleHandle => "stale entity handle".to_owned(),
            ArenaError::Exhausted => "entity slot space exhausted".to_owned(),
        }
    }
}

/// What an [`ArenaError`] says, over plain values.
pub enum ArenaFault {
    CrossTenant { arena: u16, handle: u16 },
    Stale,
    Exhausted,
}

impl View for ArenaError {
    type V = ArenaFault;

    open spec fn view(&self) -> ArenaFault {
        match self {
            ArenaError::CrossTenant { arena, handle } => ArenaFault::CrossTenant {
                arena: arena@,
                handle: handle@,
            },
            ArenaError::StaleHandle => ArenaFault::Stale,
            ArenaError::Exhausted => ArenaFault::Exhausted,
        }
    }
}

/// Liveness state of a single arena slot.
#[derive(Debug, Clone, Copy, PartialEq, Eq, Structural)]
pub enum SlotState {
    /// Holds a live entity at the slot's current generation.
    Live,
    /// Free and available for reuse at the slot's current generation.
    Free,
    /// Generation exhausted; retired forever.
    Burned,
}

/// One slot as the model sees it.
pub struct SlotModel {
    pub generation: u32,
    pub state: SlotState,
}

/// The abstract state of an arena: its tenant, its slots by index, and the
/// free list (reused from the back).
#[verifier::ext_equal]
pub struct ArenaModel {
    pub tenant: u16,
    pub slots: Seq<SlotModel>,
    pub free: Seq<u32>,
}

/// The outcome of resolving the handle `id` against `m`.
pub open spec fn resolve_model(m: ArenaModel, id: u64) -> Result<u32, ArenaFault> {
    if tenant_of_bits(id) != m.tenant {
        Err(ArenaFault::CrossTenant { arena: m.tenant, handle: tenant_of_bits(id) })
    } else {
        let s = slot_of_bits(id);
        if s < m.slots.len() && m.slots[s as int].state == SlotState::Live
            && m.slots[s as int].generation == generation_of_bits(id) {
            Ok(s)
        } else {
            Err(ArenaFault::Stale)
        }
    }
}

/// Allocation: reuse the last freed slot when there is one, else grow by one
/// slot at generation 0, else report exhaustion of the 32-bit slot space.
pub open spec fn alloc_model(m: ArenaModel) -> (ArenaModel, Result<u64, ArenaFault>) {
    if m.free.len() > 0 {
        let s = m.free.last();
        let g = m.slots[s as int].generation;
        (
            ArenaModel {
                slots: m.slots.update(s as int, SlotModel { generation: g, state: SlotState::Live }),
                free: m.free.drop_last(),
                ..m
            },
            Ok(pack_bits(m.tenant, s, g)),
        )
    } else if m.slots.len() <= u32::MAX {
        (
            ArenaModel {
                slots: m.slots.push(SlotModel { generation: 0, state: SlotState::Live }),
                ..m
            },
            Ok(pack_bits(m.tenant, m.slots.len() as u32, 0)),
        )
    } else {
        (m, Err(ArenaFault::Exhausted))
    }
}

/// Freeing: a live handle's slot advances its generation and joins the free
/// list, or is burned when its generation is exhausted; any other handle is
/// rejected with the resolution error and nothing changes.
pub open spec fn free_model(m: ArenaModel, id: u64) -> (ArenaModel, Result<(), ArenaFault>) {
    match resolve_model(m, id) {
        Err(e) => (m, Err(e)),
        Ok(s) => {
            let g = m.slots[s as int].generation;
            if g < GENERATION_MAX {
                (
                    ArenaModel {
                        slots: m.slots.update(s as int, SlotModel { generation: (g + 1) as u32, state: SlotState::Free }),
                        free: m.free.push(s),
                        ..m
                    },
                    Ok(()),
                )
            } else {
                (
                    ArenaModel {
                        slots: m.slots.update(s as int, SlotModel { generation: g, state: SlotState::Burned }),
                        ..m
                    },
                    Ok(()),
                )
            }
        },
    }
}

/// The well-formedness of an arena model: slot indices fit in 32 bits,
/// generations are in range, and the free list holds each free slot exactly
/// once and nothing else.
pub open spec fn arena_model_wf(m: ArenaModel) -> bool {
    &&& m.tenant <= TENANT_MAX
    &&& m.slots.len() <= u32::MAX + 1
    &&& forall|i: int| 0 <= i < m.slots.len() ==> #[trigger] m.slots[i].generation <= GENERATION_MAX
    &&& forall|k: int| 0 <= k < m.free.len() ==> #[trigger] m.free[k] < m.slots.len()
        && m.slots[m.free[k] as int].state == SlotState::Free
    &&& forall|k: int, l: int| 0 <= k < l < m.free.len() ==> m.free[k] != m.free[l]
    &&& forall|i: int| 0 <= i < m.slots.len() && #[trigger] m.slots[i].state == SlotState::Free
        ==> m.free.contains(i as u32)
}

/// A handle is dead in `m` when its slot has moved past its generation, or
/// has been burned at it: such a handle can never name a live entity again.
pub open spec fn is_dead(m: ArenaModel, id: u64) -> bool {
    let s = slot_of_bits(id);
    &&& tenant_of_bits(id) == m.tenant
    &&& s < m.slots.len()
    &&& (m.slots[s as int].generation > generation_of_bits(id)
        || (m.slots[s as int].generation == generation_of_bits(id)
            && m.slots[s as int].state == SlotState::Burned))
}

/// A freshly minted handle carries the arena's tenant and resolves to its
/// own slot.
pub proof fn lemma_minted_handle_resolves(m: ArenaModel)
    requires
        arena_model_wf(m),
    ensures
        alloc_model(m).1 matches Ok(id) ==> {
            &&& tenant_of_bits(id) == m.tenant
            &&& resolve_model(alloc_model(m).0, id) == Ok::<u32, ArenaFault>(slot_of_bits(id))
        },
{
    if let Ok(id) = alloc_model(m).1 {
        let (m2, _) = alloc_model(m);
        if m.free.len() > 0 {
            let s = m.free.last();
            assert(m.free.contains(s));
            lemma_unpack_pack(m.tenant, s, m.slots[s as int].generation);
        } else {
            lemma_unpack_pack(m.tenant, m.slots.len() as u32, 0);
        }
    }
}

/// A handle minted in another tenant is always rejected as cross-tenant,
/// never as stale, and never resolves.
pub proof fn lemma_foreign_handle_rejected(m: ArenaModel, id: u64)
    requires
        tenant_of_bits(id) != m.tenant,
    ensures
        resolve_model(m, id) == Err::<u32, ArenaFault>(ArenaFault::CrossTenant { arena: m.tenant, handle: tenant_of_bits(id) }),
        free_model(m, id).0 == m,
{
}

/// Freeing a live handle kills it.
pub proof fn lemma_freed_handle_is_dead(m: ArenaModel, id: u64)
    requires
        arena_model_wf(m),
        free_model(m, id).1 is Ok,
    ensures
        is_dead(free_model(m, id).0, id),
{
}

/// A dead handle is stale: it does not resolve.
pub proof fn lemma_dead_handle_is_stale(m: ArenaModel, id: u64)
    requires
        is_dead(m, id),
    ensures
        resolve_model(m, id) == Err::<u32, ArenaFault>(ArenaFault::Stale),
{
}

/// A dead handle stays dead across every later allocation and free, so a
/// stale handle never comes back to life, even when its slot is reused.
pub proof fn lemma_dead_handle_stays_dead(m: ArenaModel, id: u64, other: u64)
    requires
        arena_model_wf(m),
        is_dead(m, id),
    ensures
        is_dead(alloc_model(m).0, id),
        is_dead(free_model(m, other).0, id),
{
    if m.free.len() > 0 {
        let s = m.free.last();
        assert(m.free.contains(s));
    }
}

/// Allocation never hands out a burned slot: a slot whose generation ran out
/// is retired forever.
pub proof fn lemma_burned_slot_never_reused(m: ArenaModel, s: u32)
    requires
        arena_model_wf(m),
        s < m.slots.len(),
        m.slots[s as int].state == SlotState::Burned,
    ensures
        alloc_model(m).1 matches Ok(id) ==> slot_of_bits(id) != s,
        alloc_model(m).0.slots[s as int] == m.slots[s as int],
{
    if m.free.len() > 0 {
        let f = m.free.last();
        assert(m.free.contains(f));
        lemma_unpack_pack(m.tenant, f, m.slots[f as int].generation);
    } else {
        lemma_unpack_pack(m.tenant, m.slots.len() as u32, 0);
    }
}

/// The next allocation after freeing a live handle reuses its slot at the
/// next generation, in the same tenant, unless the generation ran out and the
/// slot was burned.
pub proof fn lemma_reuse_bumps_generation(m: ArenaModel, id: u64)
    requires
        arena_model_wf(m),
        free_model(m, id).1 is Ok,
        generation_of_bits(id) < GENERATION_MAX,
    ensures
        alloc_model(free_model(m, id).0).1 matches Ok(n) && {
            &&& slot_of_bits(n) == slot_of_bits(id)
            &&& generation_of_bits(n) == generation_of_bits(id) + 1
            &&& tenant_of_bits(n) == tenant_of_bits(id)
        },
{
    let s = slot_of_bits(id);
    let g = generation_of_bits(id);
    lemma_unpack_pack(m.tenant, s, (g + 1) as u32);
}

/// Allocation keeps the model well formed.
pub proof fn lemma_alloc_keeps_wf(m: ArenaModel)
    requires
        arena_model_wf(m),
    ensures
        arena_model_wf(alloc_model(m).0),
{
    let m2 = alloc_model(m).0;
    if m.free.len() > 0 {
        let slot = m.free.last();
        assert(m.free.contains(slot));
        assert forall|k: int| 0 <= k < m2.free.len() implies #[trigger] m2.free[k] < m2.slots.len()
            && m2.slots[m2.free[k] as int].state == SlotState::Free by {
            assert(m.free[k] != m.free[m.free.len() - 1]);
        }
        assert forall|i: int| 0 <= i < m2.slots.len() && #[trigger] m2.slots[i].state == SlotState::Free
            implies m2.free.contains(i as u32) by {
            assert(i != slot as int);
            assert(m.free.contains(i as u32));
            let k = choose|k: int| 0 <= k < m.free.len() && m.free[k] == i as u32;
            assert(k != m.free.len() - 1);
            assert(m2.free[k] == i as u32);
        }
    } else if m.slots.len() <= u32::MAX {
        assert forall|i: int| 0 <= i < m2.slots.len() && #[trigger] m2.slots[i].state == SlotState::Free
            implies m2.free.contains(i as u32) by {
            assert(i < m.slots.len());
        }
    }
}

/// Freeing keeps the model well formed.
pub proof fn lemma_free_keeps_wf(m: ArenaModel, id: u64)
    requires
        arena_model_wf(m),
    ensures
        arena_model_wf(free_model(m, id).0),
{
    let m2 = free_model(m, id).0;
    if let Ok(slot) = resolve_model(m, id) {
        let g = m.slots[slot as int].generation;
        if g < GENERATION_MAX {
            assert(!m.free.contains(slot));
            assert forall|k: int, l: int| 0 <= k < l < m2.free.len() implies m2.free[k] != m2.free[l] by {
                if l == m2.free.len() - 1 {
                    assert(m2.free[k] == m.free[k]);
                }
            }
            assert forall|i: int| 0 <= i < m2.slots.len() && #[trigger] m2.slots[i].state == SlotState::Free
                implies m2.free.contains(i as u32) by {
                if i == slot as int {
                    assert(m2.free[m2.free.len() - 1] == slot);
                } else {
                    assert(m.free.contains(i as u32));
                    let k = choose|k: int| 0 <= k < m.free.len() && m.free[k] == i as u32;
                    assert(m2.free[k] == i as u32);
                }
            }
            assert forall|k: int| 0 <= k < m2.free.len() implies #[trigger] m2.free[k] < m2.slots.len()
                && m2.slots[m2.free[k] as int].state == SlotState::Free by {
                if k < m.free.len() {
                    assert(m.free[k] != slot) by {
                        assert(m.slots[m.free[k] as int].state == SlotState::Free);
                    }
                }
            }
        } else {
            assert forall|k: int| 0 <= k < m2.free.len() implies #[trigger] m2.free[k] < m2.slots.len()
                && m2.slots[m2.free[k] as int].state == SlotState::Free by {
                assert(m.free[k] != slot) by {
                    assert(m.slots[m.free[k] as int].state == SlotState::Free);
                }
            }
        }
    }
}

struct Slot {
    generation: Generation,
    state: SlotState,
}

/// A per-tenant generational arena that mints [`EntityId`]s and validates
/// handles against tenant ownership and slot liveness.
pub struct EntityArena {
    tenant: TenantTag,
    slots: Vec<Slot>,
    free: Vec<SlotIndex>,
    history: Ghost<Seq<ArenaOp>>,
}

/// The result of a mint, over plain values.
pub open spec fn id_result_view(r: Result<EntityId, ArenaError>) -> Result<u64, ArenaFault> {
    match r {
        Ok(id) => Ok(id@),
        Err(e) => Err(e@),
    }
}

/// The result of a check, over plain values.
pub open spec fn unit_result_view(r: Result<(), ArenaError>) -> Result<(), ArenaFault> {
    match r {
        Ok(()) => Ok(()),
        Err(e) => Err(e@),
    }
}

/// The result of a resolution, over plain values.
pub open spec fn slot_result_view(r: Result<SlotIndex, ArenaError>) -> Result<u32, ArenaFault> {
    match r {
        Ok(s) => Ok(s@),
        Err(e) => Err(e@),
    }
}

impl EntityArena {
    /// The abstract state of this arena.
    pub closed spec fn model(&self) -> ArenaModel {
        ArenaModel {
            tenant: self.tenant@,
            slots: self.slots@.map_values(|s: Slot| SlotModel { generation: s.generation@, state: s.state }),
            free: self.free@.map_values(|i: SlotIndex| i@),
        }
    }

    /// Every allocation and free this arena has performed, in order, since
    /// it was created.
    pub closed spec fn history(&self) -> Seq<ArenaOp> {
        self.history@
    }

    /// The arena's internal invariant: its state is well formed, and is the
    /// state its history builds from a fresh arena of its tenant.
    pub closed spec fn wf(&self) -> bool {
        &&& arena_model_wf(self.model())
        &&& self.model() == run(fresh_arena(self.tenant@), self.history@)
    }

    /// A well-formed arena's model is well formed, so the model-level laws
    /// of this module apply to every arena a caller holds.
    pub proof fn lemma_wf_model(&self)
        requires
            self.wf(),
        ensures
            arena_model_wf(self.model()),
            self.model() == run(fresh_arena(self.model().tenant), self.history()),
    {
    }

    /// Creates an empty arena owned by `tenant`.
    pub fn new(tenant: TenantTag) -> (r: Self)
        ensures
            r.wf(),
            r.model() == (ArenaModel { tenant: tenant@, slots: Seq::empty(), free: Seq::empty() }),
            r.history() == Seq::<ArenaOp>::empty(),
    {
        let _ = tenant.get();
        let r = EntityArena { tenant, slots: Vec::new(), free: Vec::new(), history: Ghost(Seq::empty()) };
        proof {
            assert(r.model().slots =~= Seq::<SlotModel>::empty());
            assert(r.model().free =~= Seq::<u32>::empty());
        }
        r
    }

    /// The tenant that owns this arena.
    pub fn tenant(&self) -> (r: TenantTag)
        ensures
            r@ == self.model().tenant,
    {
        self.tenant
    }

    /// Allocates a new entity, reusing the last freed slot when there is one,
    /// otherwise growing the arena; [`ArenaError::Exhausted`] only when the
    /// 32-bit slot space is full.
    pub fn allocate(&mut self) -> (r: Result<EntityId, ArenaError>)
        requires
            old(self).wf(),
        ensures
            final(self).wf(),
            (final(self).model(), id_result_view(r)) == alloc_model(old(self).model()),
            final(self).history() == old(self).history().push(ArenaOp::Alloc),
            ({
                let fresh = fresh_arena(old(self).model().tenant);
                let st = reuse_stack(fresh, old(self).history());
                let n = fresh_count(fresh, old(self).history());
                &&& st.len() > 0 ==> id_result_view(r) == Ok::<u64, ArenaFault>(
                    pack_bits(fresh.tenant, st.last().0, st.last().1),
                )
                &&& st.len() == 0 ==> id_result_view(r) == (if n <= u32::MAX {
                    Ok::<u64, ArenaFault>(pack_bits(fresh.tenant, n as u32, 0))
                } else {
                    Err::<u64, ArenaFault>(ArenaFault::Exhausted)
                })
            }),
    {
        let ghost m = self.model();
        let ghost h = self.history@;
        proof {
            lemma_allocation_history(self.tenant@, h);
            assert(h.push(ArenaOp::Alloc).drop_last() =~= h);
        }
        self.history = Ghost(h.push(ArenaOp::Alloc));
        if let Some(slot) = self.free.pop() {
            let index = slot.get() as usize;
            proof {
                assert(m.free.last() == slot@);
                assert(m.free.contains(slot@));
            }
            let generation = self.slots[index].generation;
            self.slots.set(index, Slot { generation, state: SlotState::Live });
            let id = EntityId::new(self.tenant, slot, generation);
            proof {
                let m2 = self.model();
                let (am, ar) = alloc_model(m);
                assert(m2.slots =~= am.slots);
                assert(m2.free =~= am.free);
                lemma_alloc_keeps_wf(m);
            }
            return Ok(id);
        }
        let len = self.slots.len();
        if len > 4294967295usize {
            return Err(ArenaError::Exhausted);
        }
        let slot = SlotIndex::new(len as u32);
        let generation = Generation::first();
        self.slots.push(Slot { generation, state: SlotState::Live });
        let id = EntityId::new(self.tenant, slot, generation);
        proof {
            let m2 = self.model();
            let (am, ar) = alloc_model(m);
            assert(m2.slots =~= am.slots);
            assert(m2.free =~= am.free);
            lemma_alloc_keeps_wf(m);
        }
        Ok(id)
    }

    /// Frees a live entity, invalidating its handle: the slot's generation
    /// advances and the slot joins the free list, or the slot is burned when
    /// its generation cannot advance. A foreign handle is
    /// [`ArenaError::CrossTenant`]; a handle that names no live entity
    /// (including a double free) is [`ArenaError::StaleHandle`].
    pub fn free(&mut self, id: EntityId) -> (r: Result<(), ArenaError>)
        requires
            old(self).wf(),
        ensures
            final(self).wf(),
            (final(self).model(), unit_result_view(r)) == free_model(old(self).model(), id@),
            final(self).history() == old(self).history().push(ArenaOp::Free(id@)),
    {
        let ghost m = self.model();
        let ghost h = self.history@;
        proof {
            assert(h.push(ArenaOp::Free(id@)).drop_last() =~= h);
        }
        let slot = match self.resolve(id) {
            Ok(slot) => slot,
            Err(e) => {
                self.history = Ghost(h.push(ArenaOp::Free(id@)));
                return Err(e);
            },
        };
        self.history = Ghost(h.push(ArenaOp::Free(id@)));
        let index = slot.get() as usize;
        let generation = self.slots[index].generation;
        match generation.next() {
            Some(next) => {
                self.slots.set(index, Slot { generation: next, state: SlotState::Free });
                self.free.push(slot);
                proof {
                    let m2 = self.model();
                    let (fm, fr) = free_model(m, id@);
                    assert(m2.slots =~= fm.slots);
                    assert(m2.free =~= fm.free);
                    lemma_free_keeps_wf(m, id@);
                }
            },
            None => {
                self.slots.set(index, Slot { generation, state: SlotState::Burned });
                proof {
                    let m2 = self.model();
                    let (fm, fr) = free_model(m, id@);
                    assert(m2.slots =~= fm.slots);
                    assert(m2.free =~= fm.free);
                    lemma_free_keeps_wf(m, id@);
                }
            },
        }
        Ok(())
    }

    /// Resolves a handle to the slot it names; every entity lookup is checked
    /// here first. A foreign handle is [`ArenaError::CrossTenant`]; a
    /// handle that names no live entity here is [`ArenaError::StaleHandle`].
    pub fn resolve(&self, id: EntityId) -> (r: Result<SlotIndex, ArenaError>)
        requires
            self.wf(),
        ensures
            slot_result_view(r) == resolve_model(self.model(), id@),
            tenant_of_bits(id@) == self.model().tenant ==> (r is Ok <==> minted_and_kept(
                fresh_arena(self.model().tenant),
                self.history(),
                id@,
            )),
    {
        proof {
            lemma_resolve_history(self.tenant@, self.history@, id@);
        }
        let handle = id.tenant();
        if !handle.same_as(self.tenant) {
            return Err(ArenaError::CrossTenant { arena: self.tenant, handle });
        }
        let slot = id.slot();
        let index = slot.get() as usize;
        if index >= self.slots.len() {
            return Err(ArenaError::StaleHandle);
        }
        let entry = &self.slots[index];
        let live = match entry.state {
            SlotState::Live => entry.generation.get() == id.generation().get(),
            _ => false,
        };
        if live {
            Ok(slot)
        } else {
            Err(ArenaError::StaleHandle)
        }
    }
}

/// One operation on an arena, as a history records it.
pub enum ArenaOp {
    /// An allocation.
    Alloc,
    /// A free of the handle with these raw bits.
    Free(u64),
}

/// The arena after `ops`, starting from `m`.
pub open spec fn run(m: ArenaModel, ops: Seq<ArenaOp>) -> ArenaModel
    decreases ops.len(),
{
    if ops.len() == 0 {
        m
    } else {
        let p = run(m, ops.drop_last());
        match ops.last() {
            ArenaOp::Alloc => alloc_model(p).0,
            ArenaOp::Free(id) => free_model(p, id).0,
        }
    }
}

/// The `i`th operation of `ops` is an allocation that returned `id`.
pub open spec fn minted_at(m: ArenaModel, ops: Seq<ArenaOp>, i: int, id: u64) -> bool {
    &&& 0 <= i < ops.len()
    &&& ops[i] is Alloc
    &&& alloc_model(run(m, ops.take(i))).1 == Ok::<u64, ArenaFault>(id)
}

/// The `j`th operation of `ops` is a successful free of `id`.
pub open spec fn freed_at(m: ArenaModel, ops: Seq<ArenaOp>, j: int, id: u64) -> bool {
    &&& 0 <= j < ops.len()
    &&& ops[j] == ArenaOp::Free(id)
    &&& free_model(run(m, ops.take(j)), id).1 is Ok
}

/// `id` was returned by an allocation of `ops` and not successfully freed
/// since.
pub open spec fn minted_and_kept(m: ArenaModel, ops: Seq<ArenaOp>, id: u64) -> bool {
    exists|i: int| #[trigger] minted_at(m, ops, i, id) && forall|j: int| i < j < ops.len() ==> !#[trigger] freed_at(m, ops, j, id)
}

/// A fresh arena owned by `tenant`.
pub open spec fn fresh_arena(tenant: u16) -> ArenaModel {
    ArenaModel { tenant, slots: Seq::empty(), free: Seq::empty() }
}

/// Allocating adds exactly the minted handle to the live ones.
proof fn lemma_alloc_liveness(m: ArenaModel, id: u64)
    requires
        arena_model_wf(m),
    ensures
        alloc_model(m).1 matches Ok(n) ==> (resolve_model(alloc_model(m).0, id) is Ok <==> (resolve_model(m, id) is Ok
            || id == n)),
        alloc_model(m).1 is Err ==> alloc_model(m).0 == m,
{
    if let Ok(n) = alloc_model(m).1 {
        let m2 = alloc_model(m).0;
        lemma_pack_unpack(id);
        if m.free.len() > 0 {
            let f = m.free.last();
            assert(m.free.contains(f));
            lemma_unpack_pack(m.tenant, f, m.slots[f as int].generation);
        } else {
            lemma_unpack_pack(m.tenant, m.slots.len() as u32, 0);
        }
    }
}

/// Freeing a live handle removes exactly it from the live ones.
proof fn lemma_free_liveness(m: ArenaModel, x: u64, id: u64)
    requires
        arena_model_wf(m),
    ensures
        free_model(m, x).1 is Ok ==> (resolve_model(free_model(m, x).0, id) is Ok <==> (resolve_model(m, id) is Ok
            && id != x)),
        free_model(m, x).1 is Err ==> free_model(m, x).0 == m,
{
    lemma_pack_unpack(id);
    lemma_pack_unpack(x);
}

/// Every arena a history builds from a well-formed one is well formed.
pub proof fn lemma_run_wf(m: ArenaModel, ops: Seq<ArenaOp>)
    requires
        arena_model_wf(m),
    ensures
        arena_model_wf(run(m, ops)),
    decreases ops.len(),
{
    if ops.len() > 0 {
        lemma_run_wf(m, ops.drop_last());
        match ops.last() {
            ArenaOp::Alloc => lemma_alloc_keeps_wf(run(m, ops.drop_last())),
            ArenaOp::Free(id) => lemma_free_keeps_wf(run(m, ops.drop_last()), id),
        }
    }
}

proof fn lemma_history_liveness(m: ArenaModel, ops: Seq<ArenaOp>, id: u64)
    requires
        arena_model_wf(m),
        forall|b: u64| resolve_model(m, b) is Err,
    ensures
        resolve_model(run(m, ops), id) is Ok <==> minted_and_kept(m, ops, id),
    decreases ops.len(),
{
    if ops.len() == 0 {
        if minted_and_kept(m, ops, id) {
            let i = choose|i: int| #[trigger] minted_at(m, ops, i, id) && forall|j: int| i < j < ops.len() ==> !#[trigger] freed_at(m, ops, j, id);
        }
    } else {
        let p = ops.drop_last();
        let n = p.len() as int;
        lemma_history_liveness(m, p, id);
        lemma_run_wf(m, p);
        let mp = run(m, p);
        assert(ops.take(n) =~= p);
        assert forall|i: int| 0 <= i <= n implies #[trigger] ops.take(i) == p.take(i) by {
            assert(ops.take(i) =~= p.take(i));
        }
        assert forall|i: int| 0 <= i < n implies (#[trigger] minted_at(m, ops, i, id)) == minted_at(m, p, i, id) by {
            assert(ops.take(i) == p.take(i));
        }
        assert forall|j: int| 0 <= j < n implies (#[trigger] freed_at(m, ops, j, id)) == freed_at(m, p, j, id) by {
            assert(ops.take(j) == p.take(j));
        }
        match ops.last() {
            ArenaOp::Alloc => {
                lemma_alloc_liveness(mp, id);
                assert(!freed_at(m, ops, n, id));
                if minted_and_kept(m, p, id) {
                    let i = choose|i: int| #[trigger] minted_at(m, p, i, id) && forall|j: int| i < j < p.len() ==> !#[trigger] freed_at(m, p, j, id);
                    assert(minted_at(m, ops, i, id));
                    assert forall|j: int| i < j < ops.len() implies !#[trigger] freed_at(m, ops, j, id) by {
                        if j < n {
                            assert(!freed_at(m, p, j, id));
                        }
                    }
                    assert(minted_and_kept(m, ops, id));
                }
                if alloc_model(mp).1 == Ok::<u64, ArenaFault>(id) {
                    assert(minted_at(m, ops, n, id));
                    assert(minted_and_kept(m, ops, id));
                }
                if minted_and_kept(m, ops, id) {
                    let i = choose|i: int| #[trigger] minted_at(m, ops, i, id) && forall|j: int| i < j < ops.len() ==> !#[trigger] freed_at(m, ops, j, id);
                    if i < n {
                        assert(minted_at(m, p, i, id));
                        assert forall|j: int| i < j < p.len() implies !#[trigger] freed_at(m, p, j, id) by {
                            assert(!freed_at(m, ops, j, id));
                        }
                        assert(minted_and_kept(m, p, id));
                    } else {
                        assert(alloc_model(mp).1 == Ok::<u64, ArenaFault>(id));
                    }
                }
            },
            ArenaOp::Free(x) => {
                lemma_free_liveness(mp, x, id);
                assert(!minted_at(m, ops, n, id));
                if minted_and_kept(m, ops, id) {
                    let i = choose|i: int| #[trigger] minted_at(m, ops, i, id) && forall|j: int| i < j < ops.len() ==> !#[trigger] freed_at(m, ops, j, id);
                    assert(i < n);
                    assert(minted_at(m, p, i, id));
                    assert forall|j: int| i < j < p.len() implies !#[trigger] freed_at(m, p, j, id) by {
                        assert(!freed_at(m, ops, j, id));
                    }
                    assert(minted_and_kept(m, p, id));
                    assert(!freed_at(m, ops, n, id));
                }
                if minted_and_kept(m, p, id) && !freed_at(m, ops, n, id) {
                    let i = choose|i: int| #[trigger] minted_at(m, p, i, id) && forall|j: int| i < j < p.len() ==> !#[trigger] freed_at(m, p, j, id);
                    assert(minted_at(m, ops, i, id));
                    assert forall|j: int| i < j < ops.len() implies !#[trigger] freed_at(m, ops, j, id) by {
                        if j < n {
                            assert(!freed_at(m, p, j, id));
                        }
                    }
                    assert(minted_and_kept(m, ops, id));
                }
            },
        }
    }
}

/// Resolution over the whole history of an arena: starting from a fresh
/// arena, a handle of another tenant is rejected as cross-tenant; a handle
/// of the arena's tenant resolves, to its own slot, exactly when an earlier
/// allocation returned it and no successful free of it came after; any
/// other handle is stale.
pub proof fn lemma_resolve_history(tenant: u16, ops: Seq<ArenaOp>, id: u64)
    requires
        tenant <= TENANT_MAX,
    ensures
        tenant_of_bits(id) != tenant ==> resolve_model(run(fresh_arena(tenant), ops), id) == Err::<u32, ArenaFault>(
            ArenaFault::CrossTenant { arena: tenant, handle: tenant_of_bits(id) },
        ),
        tenant_of_bits(id) == tenant ==> (minted_and_kept(fresh_arena(tenant), ops, id) ==> resolve_model(
            run(fresh_arena(tenant), ops),
            id,
        ) == Ok::<u32, ArenaFault>(slot_of_bits(id))),
        tenant_of_bits(id) == tenant ==> (!minted_and_kept(fresh_arena(tenant), ops, id) ==> resolve_model(
            run(fresh_arena(tenant), ops),
            id,
        ) == Err::<u32, ArenaFault>(ArenaFault::Stale)),
{
    let m = fresh_arena(tenant);
    lemma_run_tenant(m, ops);
    lemma_history_liveness(m, ops, id);
}

/// A history never changes the arena's tenant.
proof fn lemma_run_tenant(m: ArenaModel, ops: Seq<ArenaOp>)
    ensures
        run(m, ops).tenant == m.tenant,
    decreases ops.len(),
{
    if ops.len() > 0 {
        lemma_run_tenant(m, ops.drop_last());
    }
}

/// The slots a history has freed and not reallocated since, with the
/// generation each will be reused at, most recently freed last: a free of a
/// handle below the last generation pushes its slot at the next generation,
/// and an allocation that finds one takes the last.
pub open spec fn reuse_stack(m: ArenaModel, ops: Seq<ArenaOp>) -> Seq<(u32, u32)>
    decreases ops.len(),
{
    if ops.len() == 0 {
        Seq::empty()
    } else {
        let p = ops.drop_last();
        let st = reuse_stack(m, p);
        match ops.last() {
            ArenaOp::Alloc => if st.len() > 0 {
                st.drop_last()
            } else {
                st
            },
            ArenaOp::Free(x) => if free_model(run(m, p), x).1 is Ok && generation_of_bits(x) < GENERATION_MAX {
                st.push((slot_of_bits(x), (generation_of_bits(x) + 1) as u32))
            } else {
                st
            },
        }
    }
}

/// How many slots a history has created: the allocations that found no
/// slot to reuse and did not run out of slot space.
pub open spec fn fresh_count(m: ArenaModel, ops: Seq<ArenaOp>) -> nat
    decreases ops.len(),
{
    if ops.len() == 0 {
        0
    } else {
        let p = ops.drop_last();
        match ops.last() {
            ArenaOp::Alloc => if reuse_stack(m, p).len() == 0 && alloc_model(run(m, p)).1 is Ok {
                fresh_count(m, p) + 1
            } else {
                fresh_count(m, p)
            },
            ArenaOp::Free(_) => fresh_count(m, p),
        }
    }
}

/// What a history leaves in the arena: the free list is the reuse stack's
/// slots, each at the generation the stack records, and the slot count is
/// the number of slots created.
spec fn stack_matches(m: ArenaModel, st: Seq<(u32, u32)>, count: nat) -> bool {
    &&& m.free.len() == st.len()
    &&& forall|k: int| 0 <= k < st.len() ==> m.free[k] == (#[trigger] st[k]).0
    &&& forall|k: int| 0 <= k < st.len() ==> m.slots[(#[trigger] st[k]).0 as int].generation == st[k].1
    &&& m.slots.len() == count
}

proof fn lemma_stack_matches(m: ArenaModel, ops: Seq<ArenaOp>)
    requires
        arena_model_wf(m),
        m.slots.len() == 0,
        m.free.len() == 0,
    ensures
        stack_matches(run(m, ops), reuse_stack(m, ops), fresh_count(m, ops)),
    decreases ops.len(),
{
    if ops.len() > 0 {
        let p = ops.drop_last();
        lemma_stack_matches(m, p);
        lemma_run_wf(m, p);
        let mp = run(m, p);
        let st = reuse_stack(m, p);
        match ops.last() {
            ArenaOp::Alloc => {
                if st.len() > 0 {
                    let f = mp.free.last();
                    assert(mp.free.contains(f));
                    let m2 = alloc_model(mp).0;
                    let st2 = st.drop_last();
                    assert forall|k: int| 0 <= k < st2.len() implies m2.slots[(#[trigger] st2[k]).0 as int].generation == st2[k].1 by {
                        assert(st2[k] == st[k]);
                        assert(mp.free[k] == st[k].0);
                        assert(mp.free[k] != mp.free[mp.free.len() - 1]);
                    }
                    assert forall|k: int| 0 <= k < st2.len() implies m2.free[k] == (#[trigger] st2[k]).0 by {
                        assert(st2[k] == st[k]);
                    }
                }
            },
            ArenaOp::Free(x) => {
                if free_model(mp, x).1 is Ok {
                    let sx = slot_of_bits(x);
                    let m2 = free_model(mp, x).0;
                    assert forall|k: int| 0 <= k < st.len() implies st[k].0 != sx by {
                        assert(mp.free[k] == st[k].0);
                    }
                    if generation_of_bits(x) < GENERATION_MAX {
                        let st2 = st.push((sx, (generation_of_bits(x) + 1) as u32));
                        assert forall|k: int| 0 <= k < st2.len() implies m2.slots[(#[trigger] st2[k]).0 as int].generation == st2[k].1 by {
                            if k < st.len() {
                                assert(st2[k] == st[k]);
                            }
                        }
                        assert forall|k: int| 0 <= k < st2.len() implies m2.free[k] == (#[trigger] st2[k]).0 by {
                            if k < st.len() {
                                assert(st2[k] == st[k]);
                            }
                        }
                    } else {
                        assert forall|k: int| 0 <= k < st.len() implies m2.slots[(#[trigger] st[k]).0 as int].generation == st[k].1 by {
                            assert(st[k].0 != sx);
                        }
                    }
                }
            },
        }
    }
}

/// Allocation over the whole history of an arena: starting from a fresh
/// arena, the next allocation reuses the most recently freed slot not
/// reallocated since, at the generation after the freed handle's; when no
/// such slot exists it creates the next slot (its index is the number of
/// slots created so far) at the first generation, and fails only once all
/// 2^32 slots exist.
pub proof fn lemma_allocation_history(tenant: u16, ops: Seq<ArenaOp>)
    requires
        tenant <= TENANT_MAX,
    ensures
        reuse_stack(fresh_arena(tenant), ops).len() > 0 ==> alloc_model(run(fresh_arena(tenant), ops)).1 == Ok::<
            u64,
            ArenaFault,
        >(
            pack_bits(
                tenant,
                reuse_stack(fresh_arena(tenant), ops).last().0,
                reuse_stack(fresh_arena(tenant), ops).last().1,
            ),
        ),
        reuse_stack(fresh_arena(tenant), ops).len() == 0 ==> alloc_model(run(fresh_arena(tenant), ops)).1 == (if fresh_count(
            fresh_arena(tenant),
            ops,
        ) <= u32::MAX {
            Ok::<u64, ArenaFault>(pack_bits(tenant, fresh_count(fresh_arena(tenant), ops) as u32, 0))
        } else {
            Err::<u64, ArenaFault>(ArenaFault::Exhausted)
        }),
        run(fresh_arena(tenant), ops).slots.len() == fresh_count(fresh_arena(tenant), ops),
{
    let m = fresh_arena(tenant);
    lemma_stack_matches(m, ops);
    lemma_run_tenant(m, ops);
    let st = reuse_stack(m, ops);
    if st.len() > 0 {
        assert(st.last() == st[st.len() - 1]);
    }
}

proof fn lemma_burned_stays(m: ArenaModel, ops: Seq<ArenaOp>, j: int, x: u64, k: int)
    requires
        arena_model_wf(m),
        freed_at(m, ops, j, x),
        generation_of_bits(x) == GENERATION_MAX,
        j < k <= ops.len(),
    ensures
        slot_of_bits(x) < run(m, ops.take(k)).slots.len(),
        run(m, ops.take(k)).slots[slot_of_bits(x) as int].state == SlotState::Burned,
    decreases k - j,
{
    let s = slot_of_bits(x);
    if k == j + 1 {
        assert(ops.take(k).drop_last() =~= ops.take(j));
        assert(ops.take(k).last() == ops[j]);
    } else {
        lemma_burned_stays(m, ops, j, x, k - 1);
        lemma_run_wf(m, ops.take(k - 1));
        let mp = run(m, ops.take(k - 1));
        assert(ops.take(k).drop_last() =~= ops.take(k - 1));
        assert(ops.take(k).last() == ops[k - 1]);
        match ops[k - 1] {
            ArenaOp::Alloc => {
                lemma_burned_slot_never_reused(mp, s);
            },
            ArenaOp::Free(y) => {},
        }
    }
}

/// A slot freed at the last generation is burned: no later allocation of
/// the history ever returns a handle to it.
pub proof fn lemma_burned_slot_history(tenant: u16, ops: Seq<ArenaOp>, j: int, x: u64, i: int, n: u64)
    requires
        tenant <= TENANT_MAX,
        freed_at(fresh_arena(tenant), ops, j, x),
        generation_of_bits(x) == GENERATION_MAX,
        j < i,
        minted_at(fresh_arena(tenant), ops, i, n),
    ensures
        slot_of_bits(n) != slot_of_bits(x),
{
    let m = fresh_arena(tenant);
    lemma_burned_stays(m, ops, j, x, i);
    lemma_run_wf(m, ops.take(i));
    lemma_burned_slot_never_reused(run(m, ops.take(i)), slot_of_bits(x));
}

} // verus!
