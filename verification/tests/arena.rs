use ferrodun::arena::{ArenaError, EntityArena};
use ferrodun::entity::{EntityId, Generation, SlotIndex, TenantTag};

fn tenant(value: u16) -> TenantTag {
    TenantTag::new(value).expect("test tenant tag must be in range")
}

#[test]
fn alloc_stamps_the_arena_tenant() {
    let mut arena = EntityArena::new(tenant(7));

    let id = arena.allocate().expect("alloc must succeed on an empty arena");

    assert_eq!(id.tenant(), tenant(7));
}

#[test]
fn fresh_handle_resolves_to_its_slot() {
    let mut arena = EntityArena::new(tenant(1));

    let id = arena.allocate().expect("alloc must succeed");

    assert_eq!(arena.resolve(id), Ok(id.slot()));
}

#[test]
fn freed_handle_is_stale() {
    let mut arena = EntityArena::new(tenant(1));
    let id = arena.allocate().expect("alloc must succeed");

    arena.free(id).expect("freeing a live handle must succeed");

    assert_eq!(arena.resolve(id), Err(ArenaError::StaleHandle));
}

#[test]
fn reused_slot_keeps_index_but_bumps_generation() {
    let mut arena = EntityArena::new(tenant(1));
    let first = arena.allocate().expect("first alloc must succeed");
    arena.free(first).expect("free must succeed");

    let second = arena.allocate().expect("second alloc must reuse the slot");

    assert_eq!(second.slot(), first.slot());
    assert_ne!(second.generation(), first.generation());
    assert_eq!(arena.resolve(first), Err(ArenaError::StaleHandle));
    assert_eq!(arena.resolve(second), Ok(second.slot()));
}

#[test]
fn foreign_handle_is_rejected_by_another_tenant() {
    let mut arena_a = EntityArena::new(tenant(1));
    let mut arena_b = EntityArena::new(tenant(2));
    let id = arena_a.allocate().expect("alloc in tenant A must succeed");

    let cross_tenant = ArenaError::CrossTenant {
        arena: tenant(2),
        handle: tenant(1),
    };
    assert_eq!(arena_b.resolve(id), Err(cross_tenant));
    assert_eq!(arena_b.free(id), Err(cross_tenant));
}

#[test]
fn exhausted_generation_burns_the_slot() {
    let mut arena = EntityArena::new(tenant(1));
    let first = arena.allocate().expect("first alloc must succeed");
    let burned_slot = first.slot();

    let mut current = first;
    while current.generation().get() < Generation::MAX {
        arena.free(current).expect("free below MAX must recycle");
        current = arena.allocate().expect("recycled slot must realloc");
        assert_eq!(current.slot(), burned_slot);
    }

    arena.free(current).expect("free at MAX must burn the slot");

    let next = arena.allocate().expect("alloc after burn must succeed");
    assert_ne!(next.slot(), burned_slot);
    assert_eq!(arena.resolve(current), Err(ArenaError::StaleHandle));
}

#[test]
fn out_of_range_slot_is_stale() {
    let arena = EntityArena::new(tenant(1));
    let phantom = EntityId::new(tenant(1), SlotIndex::new(999), Generation::first());

    assert_eq!(arena.resolve(phantom), Err(ArenaError::StaleHandle));
}

#[test]
fn double_free_is_rejected() {
    let mut arena = EntityArena::new(tenant(1));
    let id = arena.allocate().expect("alloc must succeed");
    arena.free(id).expect("first free must succeed");

    assert_eq!(arena.free(id), Err(ArenaError::StaleHandle));
}

#[test]
fn fresh_arena_mints_slots_in_order_at_the_first_generation() {
    let mut arena = EntityArena::new(tenant(5));
    let a = arena.allocate().expect("alloc");
    let b = arena.allocate().expect("alloc");
    assert_eq!(a.slot().get(), 0);
    assert_eq!(b.slot().get(), 1);
    assert_eq!(a.generation(), Generation::first());
    assert_eq!(arena.tenant(), tenant(5));
}
