use ferrodun::entity::{EntityId, EntityIdError, EntityKey, Generation, SlotIndex, TenantTag};

fn unwrap_tenant(value: u16) -> TenantTag {
    TenantTag::new(value).expect("test tenant tag must be in range")
}

fn unwrap_generation(value: u32) -> Generation {
    Generation::new(value).expect("test generation must be in range")
}

fn key(value: u64) -> EntityKey {
    EntityKey::new(value).expect("test key must be non-zero")
}

#[test]
fn entity_id_is_eight_bytes() {
    assert_eq!(std::mem::size_of::<EntityId>(), 8);
}

#[test]
fn packs_and_unpacks_each_field() {
    let tenant = unwrap_tenant(0xABC);
    let slot = SlotIndex::new(0xDEAD_BEEF);
    let generation = unwrap_generation(0x9_1234);

    let id = EntityId::new(tenant, slot, generation);

    assert_eq!(id.tenant(), tenant);
    assert_eq!(id.slot(), slot);
    assert_eq!(id.generation(), generation);
}

#[test]
fn each_field_is_isolated_from_its_neighbors() {
    let zero_tenant = unwrap_tenant(0);
    let zero_slot = SlotIndex::new(0);
    let zero_generation = unwrap_generation(0);

    let max_tenant = EntityId::new(unwrap_tenant(TenantTag::MAX), zero_slot, zero_generation);
    assert_eq!(max_tenant.tenant().get(), TenantTag::MAX);
    assert_eq!(max_tenant.slot().get(), 0);
    assert_eq!(max_tenant.generation().get(), 0);

    let max_slot = EntityId::new(zero_tenant, SlotIndex::new(u32::MAX), zero_generation);
    assert_eq!(max_slot.slot().get(), u32::MAX);
    assert_eq!(max_slot.tenant().get(), 0);
    assert_eq!(max_slot.generation().get(), 0);

    let max_generation =
        EntityId::new(zero_tenant, zero_slot, unwrap_generation(Generation::MAX));
    assert_eq!(max_generation.generation().get(), Generation::MAX);
    assert_eq!(max_generation.tenant().get(), 0);
    assert_eq!(max_generation.slot().get(), 0);
}

#[test]
fn round_trips_through_raw_bits() {
    let id = EntityId::new(unwrap_tenant(7), SlotIndex::new(42), unwrap_generation(3));

    assert_eq!(EntityId::from_bits(id.to_bits()), id);
}

#[test]
fn packs_to_the_documented_bit_layout() {
    let id = EntityId::new(unwrap_tenant(1), SlotIndex::new(1), unwrap_generation(1));

    assert_eq!(id.to_bits(), (1 << 52) | (1 << 20) | 1);
}

#[test]
fn all_fields_max_packs_to_full_word() {
    let id = EntityId::new(
        unwrap_tenant(TenantTag::MAX),
        SlotIndex::new(u32::MAX),
        unwrap_generation(Generation::MAX),
    );

    assert_eq!(id.to_bits(), u64::MAX);
}

#[test]
fn tenant_tag_rejects_out_of_range() {
    assert_eq!(
        TenantTag::new(TenantTag::MAX + 1),
        Err(EntityIdError::TenantTagOutOfRange(TenantTag::MAX + 1)),
    );
}

#[test]
fn generation_rejects_out_of_range() {
    assert_eq!(
        Generation::new(Generation::MAX + 1),
        Err(EntityIdError::GenerationOutOfRange(Generation::MAX + 1)),
    );
}

#[test]
fn try_from_parses_like_new() {
    assert_eq!(TenantTag::try_from(7), TenantTag::new(7));
    assert_eq!(
        TenantTag::try_from(TenantTag::MAX + 1),
        Err(EntityIdError::TenantTagOutOfRange(TenantTag::MAX + 1)),
    );
    assert_eq!(Generation::try_from(7), Generation::new(7));
    assert_eq!(
        Generation::try_from(Generation::MAX + 1),
        Err(EntityIdError::GenerationOutOfRange(Generation::MAX + 1)),
    );
}

#[test]
fn generation_advances_by_one() {
    let generation = unwrap_generation(5);
    assert_eq!(generation.next(), Some(unwrap_generation(6)));
}

#[test]
fn generation_wraparound_burns_the_slot() {
    let last = unwrap_generation(Generation::MAX);
    assert_eq!(last.next(), None);
}

#[test]
fn entity_key_is_eight_bytes() {
    assert_eq!(std::mem::size_of::<EntityKey>(), 8);
}

#[test]
fn round_trips_through_new_and_get() {
    assert_eq!(EntityKey::new(42).expect("non-zero literal").get(), 42);
}

#[test]
fn orders_by_monotonic_value() {
    assert!(key(1) < key(2));
}

#[test]
fn entity_key_rejects_zero() {
    assert_eq!(EntityKey::new(0), None);
}

#[test]
fn generation_first_is_zero_and_slot_index_widens() {
    assert_eq!(Generation::first().get(), 0);
    assert_eq!(SlotIndex::new(9).to_index(), Some(9usize));
}

#[test]
fn same_tenant_and_same_handle_compare_by_value() {
    let a = EntityId::new(unwrap_tenant(3), SlotIndex::new(4), unwrap_generation(5));
    let b = EntityId::from_bits(a.to_bits());
    let c = EntityId::new(unwrap_tenant(3), SlotIndex::new(4), unwrap_generation(6));
    assert!(a.same_as(b));
    assert!(!a.same_as(c));
    assert!(unwrap_tenant(3).same_as(unwrap_tenant(3)));
    assert!(!unwrap_tenant(3).same_as(unwrap_tenant(4)));
}
