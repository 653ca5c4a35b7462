//! Entity identity: the packed, tenant-scoped [`EntityId`] handle and its
//! component newtypes, and the durable [`EntityKey`].
//!
//! An `EntityId` packs three fields into one 64-bit word: a 12-bit tenant tag
//! in the high bits, a 32-bit slot index in the middle and a 20-bit generation
//! in the low bits. Every `u64` is a well-formed id, and packing then unpacking
//! gives each field back unchanged.

use vstd::prelude::*;
use vstd::string::StringExecFns;
use crate::chars::{decimal_spec, decimal_u64, joined};

verus! {

/// Largest 12-bit tenant tag.
pub const TENANT_MAX: u16 = 4095;
/// Largest 20-bit generation.
pub const GENERATION_MAX: u32 = 1048575;

/// The word an id with these fields packs to: tenant in bits 52..64, slot in
/// bits 20..52, generation in bits 0..20.
pub open spec fn pack_bits(tenant: u16, slot: u32, generation: u32) -> u64 {
    ((tenant as u64) << 52u64) | ((slot as u64) << 20u64) | (generation as u64)
}

/// The tenant field of a packed word.
pub open spec fn tenant_of_bits(bits: u64) -> u16 {
    ((bits >> 52u64) & 0xfffu64) as u16
}

/// The slot field of a packed word.
pub open spec fn slot_of_bits(bits: u64) -> u32 {
    ((bits >> 20u64) & 0xffff_ffffu64) as u32
}

/// The generation field of a packed word.
pub open spec fn generation_of_bits(bits: u64) -> u32 {
    (bits & 0xf_ffffu64) as u32
}

/// Errors from parsing raw integers into id component newtypes.
#[derive(Debug, Clone, Copy, PartialEq, Eq, Structural)]
#[non_exhaustive]
pub enum EntityIdError {
    /// A tenant tag exceeded the 12-bit range.
    TenantTagOutOfRange(u16),
    /// A generation counter exceeded the 20-bit range.
    GenerationOutOfRange(u32),
}

impl EntityIdError {
    /// The human-readable message for this error.
    pub fn message(&self) -> (r: String)
        ensures
            r@ == (match *self {
                EntityIdError::TenantTagOutOfRange(v) => "tenant tag "@ + decimal_spec(v as nat)
                    + " exceeds the 12-bit maximum of 4095"@,
                EntityIdError::GenerationOutOfRange(v) => "generation "@ + decimal_spec(v as nat)
                    + " exceeds the 20-bit maximum of 1048575"@,
            }),
    {
        match *self {
            EntityIdError::TenantTagOutOfRange(v) => {
                let mut s = joined("tenant tag ", decimal_u64(v as u64).as_str());
                s.append(" exceeds the 12-bit maximum of 4095");
                s
            },
            EntityIdError::GenerationOutOfRange(v) => {
                let mut s = joined("generation ", decimal_u64(v as u64).as_str());
                s.append(" exceeds the 20-bit maximum of 1048575");
                s
            },
        }
    }
}

/// Identifies the tenant that owns an entity; always in `0..=TenantTag::MAX`.
#[derive(Debug, Clone, Copy, PartialEq, Eq, Structural, PartialOrd, Ord, Hash)]
pub struct TenantTag(u16);

impl View for TenantTag {
    type V = u16;

    closed spec fn view(&self) -> u16 {
        self.0
    }
}

impl TenantTag {
    /// Largest representable tenant tag.
    pub const MAX: u16 = 4095;

    #[verifier::type_invariant]
    spec fn in_range(self) -> bool {
        self.0 <= TENANT_MAX
    }

    /// Parses a raw value, rejecting values that do not fit in 12 bits.
    pub fn new(value: u16) -> (r: Result<Self, EntityIdError>)
        ensures
            value <= TENANT_MAX ==> (r matches Ok(t) && t@ == value),
            value > TENANT_MAX ==> r == Err::<Self, EntityIdError>(EntityIdError::TenantTagOutOfRange(value)),
    {
        if value > Self::MAX {
            return Err(EntityIdError::TenantTagOutOfRange(value));
        }
        Ok(TenantTag(value))
    }

    /// The underlying value, always in `0..=MAX`.
    pub fn get(self) -> (r: u16)
        ensures
            r == self@,
            r <= TENANT_MAX,
    {
        proof {
            use_type_invariant(&self);
        }
        self.0
    }

    /// Whether two tags name the same tenant.
    pub fn same_as(self, other: TenantTag) -> (r: bool)
        ensures
            r == (self@ == other@),
    {
        self.0 == other.0
    }
}

impl TryFrom<u16> for TenantTag {
    type Error = EntityIdError;

    fn try_from(value: u16) -> (r: Result<Self, Self::Error>)
        ensures
            value <= TENANT_MAX ==> (r matches Ok(t) && t@ == value),
            value > TENANT_MAX ==> r == Err::<Self, EntityIdError>(EntityIdError::TenantTagOutOfRange(value)),
    {
        Self::new(value)
    }
}

impl vstd::std_specs::convert::TryFromSpecImpl<u16> for TenantTag {
    open spec fn obeys_try_from_spec() -> bool {
        true
    }

    closed spec fn try_from_spec(v: u16) -> Result<Self, Self::Error> {
        if v <= TENANT_MAX {
            Ok(TenantTag(v))
        } else {
            Err(EntityIdError::TenantTagOutOfRange(v))
        }
    }
}

/// Indexes a slot in a tenant's arena; the full 32-bit range is valid.
#[derive(Debug, Clone, Copy, PartialEq, Eq, Structural, PartialOrd, Ord, Hash)]
pub struct SlotIndex(u32);

impl View for SlotIndex {
    type V = u32;

    closed spec fn view(&self) -> u32 {
        self.0
    }
}

impl SlotIndex {
    /// Wraps a raw slot index.
    pub fn new(value: u32) -> (r: Self)
        ensures
            r@ == value,
    {
        SlotIndex(value)
    }

    /// The underlying index.
    pub fn get(self) -> (r: u32)
        ensures
            r == self@,
    {
        self.0
    }

    /// The index as a position in a dense table (every `u32` fits in a
    /// `usize` on the targets this builds for).
    pub fn to_index(self) -> (r: Option<usize>)
        ensures
            r == Some(self@ as usize),
            r matches Some(i) && i as int == self@ as int,
    {
        Some(self.0 as usize)
    }
}

/// The generation of a slot, bumped on each reuse; always in
/// `0..=Generation::MAX`.
#[derive(Debug, Clone, Copy, PartialEq, Eq, Structural, PartialOrd, Ord, Hash)]
pub struct Generation(u32);

impl View for Generation {
    type V = u32;

    closed spec fn view(&self) -> u32 {
        self.0
    }
}

impl Generation {
    /// Largest representable generation.
    pub const MAX: u32 = 1048575;

    #[verifier::type_invariant]
    spec fn in_range(self) -> bool {
        self.0 <= GENERATION_MAX
    }

    /// The generation of a freshly allocated slot, before any reuse.
    pub fn first() -> (r: Self)
        ensures
            r@ == 0,
    {
        Generation(0)
    }

    /// Parses a raw value, rejecting values that do not fit in 20 bits.
    pub fn new(value: u32) -> (r: Result<Self, EntityIdError>)
        ensures
            value <= GENERATION_MAX ==> (r matches Ok(g) && g@ == value),
            value > GENERATION_MAX ==> r == Err::<Self, EntityIdError>(EntityIdError::GenerationOutOfRange(value)),
    {
        if value > Self::MAX {
            return Err(EntityIdError::GenerationOutOfRange(value));
        }
        Ok(Generation(value))
    }

    /// The underlying value, always in `0..=MAX`.
    pub fn get(self) -> (r: u32)
        ensures
            r == self@,
            r <= GENERATION_MAX,
    {
        proof {
            use_type_invariant(&self);
        }
        self.0
    }

    /// The next generation, or `None` when incrementing would pass `MAX` (the
    /// slot must then be burned rather than recycled).
    pub fn next(self) -> (r: Option<Self>)
        ensures
            self@ < GENERATION_MAX ==> (r matches Some(n) && n@ == self@ + 1),
            self@ >= GENERATION_MAX ==> r is None,
    {
        if self.0 >= Self::MAX {
            return None;
        }
        Some(Generation(self.0 + 1))
    }
}

impl TryFrom<u32> for Generation {
    type Error = EntityIdError;

    fn try_from(value: u32) -> (r: Result<Self, Self::Error>)
        ensures
            value <= GENERATION_MAX ==> (r matches Ok(g) && g@ == value),
            value > GENERATION_MAX ==> r == Err::<Self, EntityIdError>(EntityIdError::GenerationOutOfRange(value)),
    {
        Self::new(value)
    }
}

impl vstd::std_specs::convert::TryFromSpecImpl<u32> for Generation {
    open spec fn obeys_try_from_spec() -> bool {
        true
    }

    closed spec fn try_from_spec(v: u32) -> Result<Self, Self::Error> {
        if v <= GENERATION_MAX {
            Ok(Generation(v))
        } else {
            Err(EntityIdError::GenerationOutOfRange(v))
        }
    }
}

/// A tenant-scoped generational handle to an entity: eight bytes packing the
/// tenant tag, slot index and generation.
#[derive(Debug, Clone, Copy, PartialEq, Eq, Structural, PartialOrd, Ord, Hash)]
pub struct EntityId(u64);

impl View for EntityId {
    type V = u64;

    closed spec fn view(&self) -> u64 {
        self.0
    }
}

/// Unpacking a packed word gives each field back unchanged, for every tenant
/// tag and generation in range.
pub proof fn lemma_unpack_pack(tenant: u16, slot: u32, generation: u32)
    requires
        tenant <= TENANT_MAX,
        generation <= GENERATION_MAX,
    ensures
        tenant_of_bits(pack_bits(tenant, slot, generation)) == tenant,
        slot_of_bits(pack_bits(tenant, slot, generation)) == slot,
        generation_of_bits(pack_bits(tenant, slot, generation)) == generation,
{
    assert(((((tenant as u64) << 52u64) | ((slot as u64) << 20u64) | (generation as u64)) >> 52u64)
        & 0xfffu64 == tenant as u64) by (bit_vector)
        requires
            tenant <= 4095u16,
    ;
    assert(((((tenant as u64) << 52u64) | ((slot as u64) << 20u64) | (generation as u64)) >> 20u64)
        & 0xffff_ffffu64 == slot as u64) by (bit_vector)
        requires
            generation <= 1048575u32,
    ;
    assert((((tenant as u64) << 52u64) | ((slot as u64) << 20u64) | (generation as u64))
        & 0xf_ffffu64 == generation as u64) by (bit_vector)
        requires
            generation <= 1048575u32,
    ;
}

/// Every 64-bit word is the packing of its own three fields, so the fields
/// tile the word with no gaps.
pub proof fn lemma_pack_unpack(bits: u64)
    ensures
        pack_bits(tenant_of_bits(bits), slot_of_bits(bits), generation_of_bits(bits)) == bits,
        tenant_of_bits(bits) <= TENANT_MAX,
        generation_of_bits(bits) <= GENERATION_MAX,
{
    assert(((((bits >> 52u64) & 0xfffu64) as u16 as u64) << 52u64)
        | ((((bits >> 20u64) & 0xffff_ffffu64) as u32 as u64) << 20u64)
        | ((bits & 0xf_ffffu64) as u32 as u64) == bits) by (bit_vector);
    assert(((bits >> 52u64) & 0xfffu64) as u16 <= 4095u16) by (bit_vector);
    assert((bits & 0xf_ffffu64) as u32 <= 1048575u32) by (bit_vector);
}

impl EntityId {
    /// The tenant field of this id.
    pub open spec fn tenant_spec(self) -> u16 {
        tenant_of_bits(self@)
    }

    /// The slot field of this id.
    pub open spec fn slot_spec(self) -> u32 {
        slot_of_bits(self@)
    }

    /// The generation field of this id.
    pub open spec fn generation_spec(self) -> u32 {
        generation_of_bits(self@)
    }

    /// Packs the three components into an id.
    pub fn new(tenant: TenantTag, slot: SlotIndex, generation: Generation) -> (r: Self)
        ensures
            r@ == pack_bits(tenant@, slot@, generation@),
            r.tenant_spec() == tenant@,
            r.slot_spec() == slot@,
            r.generation_spec() == generation@,
    {
        let t = tenant.get();
        let g = generation.get();
        let s = slot.get();
        proof {
            lemma_unpack_pack(t, s, g);
        }
        EntityId(((t as u64) << 52u64) | ((s as u64) << 20u64) | (g as u64))
    }

    /// The tenant that owns this entity.
    pub fn tenant(self) -> (r: TenantTag)
        ensures
            r@ == self.tenant_spec(),
    {
        let value = ((self.0 >> 52u64) & 0xfffu64) as u16;
        proof {
            lemma_pack_unpack(self.0);
        }
        TenantTag(value)
    }

    /// The arena slot this id refers to.
    pub fn slot(self) -> (r: SlotIndex)
        ensures
            r@ == self.slot_spec(),
    {
        SlotIndex(((self.0 >> 20u64) & 0xffff_ffffu64) as u32)
    }

    /// The generation of this id.
    pub fn generation(self) -> (r: Generation)
        ensures
            r@ == self.generation_spec(),
    {
        let value = (self.0 & 0xf_ffffu64) as u32;
        proof {
            lemma_pack_unpack(self.0);
        }
        Generation(value)
    }

    /// The raw 64-bit in-memory encoding.
    pub fn to_bits(self) -> (r: u64)
        ensures
            r == self@,
    {
        self.0
    }

    /// The id whose raw encoding is `bits`.
    pub closed spec fn of_bits(bits: u64) -> EntityId {
        EntityId(bits)
    }

    /// Reconstructs an id from its raw encoding; total over `u64`.
    pub fn from_bits(bits: u64) -> (r: Self)
        ensures
            r@ == bits,
    {
        EntityId(bits)
    }

    /// Whether two handles are the same id.
    pub fn same_as(self, other: EntityId) -> (r: bool)
        ensures
            r == (self@ == other@),
    {
        self.0 == other.0
    }
}

/// The durable, per-tenant identity of an entity: a monotonic value that is
/// never zero (an unassigned key is `Option::None`).
#[derive(Debug, Clone, Copy, PartialEq, Eq, Structural, PartialOrd, Ord, Hash)]
pub struct EntityKey(u64);

impl View for EntityKey {
    type V = u64;

    closed spec fn view(&self) -> u64 {
        self.0
    }
}

impl EntityKey {
    #[verifier::type_invariant]
    spec fn nonzero(self) -> bool {
        self.0 != 0
    }

    /// Wraps a monotonic key value; `None` for zero, which names no key.
    pub fn new(value: u64) -> (r: Option<Self>)
        ensures
            r is Some <==> value != 0,
            r matches Some(k) ==> k@ == value,
    {
        if value == 0 {
            None
        } else {
            Some(EntityKey(value))
        }
    }

    /// The decimal form of the key.
    pub fn to_string(&self) -> (r: String)
        ensures
            r@ == decimal_spec(self@ as nat),
    {
        decimal_u64(self.0)
    }

    /// The underlying monotonic value, never zero.
    pub fn get(self) -> (r: u64)
        ensures
            r == self@,
            r != 0,
    {
        proof {
            use_type_invariant(&self);
        }
        self.0
    }
}

/// The id built from a raw encoding has that encoding.
pub broadcast proof fn lemma_of_bits(bits: u64)
    ensures
        #[trigger] EntityId::of_bits(bits)@ == bits,
{
}

/// An id is determined by its raw encoding.
pub broadcast proof fn lemma_bits_determine(e: EntityId)
    ensures
        #[trigger] EntityId::of_bits(e@) == e,
{
}

/// Converting a raw value with `try_from` is parsing it with `new`: a tag in
/// range comes back holding the value, and one out of range is rejected with
/// the value.
pub proof fn lemma_tenant_try_from_is_new(v: u16)
    ensures
        v <= TENANT_MAX ==> (<TenantTag as vstd::std_specs::convert::TryFromSpec<u16>>::try_from_spec(v) matches Ok(t)
            && t@ == v),
        v > TENANT_MAX ==> <TenantTag as vstd::std_specs::convert::TryFromSpec<u16>>::try_from_spec(v) == Err::<
            TenantTag,
            EntityIdError,
        >(EntityIdError::TenantTagOutOfRange(v)),
{
}

/// Converting a raw value with `try_from` is parsing it with `new`: a
/// generation in range comes back holding the value, and one out of range is
/// rejected with the value.
pub proof fn lemma_generation_try_from_is_new(v: u32)
    ensures
        v <= GENERATION_MAX ==> (<Generation as vstd::std_specs::convert::TryFromSpec<u32>>::try_from_spec(v) matches Ok(
            g,
        ) && g@ == v),
        v > GENERATION_MAX ==> <Generation as vstd::std_specs::convert::TryFromSpec<u32>>::try_from_spec(v) == Err::<
            Generation,
            EntityIdError,
        >(EntityIdError::GenerationOutOfRange(v)),
{
}

} // verus!
