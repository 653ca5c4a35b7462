use ferrodun::arena::{ArenaError, EntityArena};
use ferrodun::entity::{EntityId, TenantTag};
use ferrodun::place::id::PlaceId;
use ferrodun::side_tables::naming::Keyword;
use ferrodun::world::World;
use ferrodun::write_model::{Effect, MutationCommand, Precondition, TickEvent};

fn tenant(value: u16) -> TenantTag {
    TenantTag::new(value).expect("test tenant tag must be in range")
}

fn place(value: u64) -> PlaceId {
    PlaceId::new(value).expect("test place id must be non-zero")
}

const HALL: u64 = 10;
const STUDY: u64 = 11;

#[test]
fn created_entity_resolves_in_its_world() {
    let mut world = World::new(tenant(1));

    let entity = world.create().expect("create must succeed on an empty world");

    assert!(world.move_to(entity, place(HALL)).is_ok());
}

#[test]
fn teardown_invalidates_the_handle_and_clears_location() {
    let mut world = World::new(tenant(1));
    let entity = world.create().expect("create must succeed");
    world.move_to(entity, place(HALL)).expect("move of a live entity must succeed");

    world.teardown(entity).expect("teardown of a live entity must succeed");

    assert!(!world.is_located_in(entity, place(HALL)));
    assert_eq!(world.move_to(entity, place(STUDY)), Err(ArenaError::StaleHandle));
}

#[test]
fn move_to_records_the_new_location() {
    let mut world = World::new(tenant(1));
    let entity = world.create().expect("create must succeed");

    world.move_to(entity, place(HALL)).expect("move must succeed");

    assert!(world.is_located_in(entity, place(HALL)));
    assert!(!world.is_located_in(entity, place(STUDY)));
}

#[test]
fn move_to_rejects_a_foreign_handle() {
    let mut other = World::new(tenant(2));
    let foreign = other.create().expect("create in tenant 2 must succeed");
    let mut world = World::new(tenant(1));

    let result = world.move_to(foreign, place(HALL));

    assert_eq!(result, Err(ArenaError::CrossTenant { arena: tenant(1), handle: tenant(2) }));
}

#[test]
fn inventory_add_then_contains_round_trips() {
    let mut world = World::new(tenant(1));
    let chest = world.create().expect("create chest must succeed");
    let sword = world.create().expect("create sword must succeed");

    world.inventory_add(chest, sword).expect("add must succeed");

    assert!(world.contains(chest, sword));
}

#[test]
fn inventory_remove_drops_the_item() {
    let mut world = World::new(tenant(1));
    let chest = world.create().expect("create chest must succeed");
    let sword = world.create().expect("create sword must succeed");
    world.inventory_add(chest, sword).expect("add must succeed");

    world.inventory_remove(chest, sword).expect("remove must succeed");

    assert!(!world.contains(chest, sword));
}

#[test]
fn teardown_clears_inventory_so_a_reused_slot_holds_nothing() {
    let mut world = World::new(tenant(1));
    let chest = world.create().expect("create chest must succeed");
    let sword = world.create().expect("create sword must succeed");
    world.inventory_add(chest, sword).expect("add must succeed");

    world.teardown(chest).expect("teardown must succeed");
    let reused = world.create().expect("create must reuse the freed slot");

    assert_eq!(reused.slot(), chest.slot());
    assert!(!world.contains(reused, sword));
}

#[test]
fn predicates_are_false_for_a_stale_handle() {
    let mut world = World::new(tenant(1));
    let entity = world.create().expect("create must succeed");
    world.move_to(entity, place(HALL)).expect("move must succeed");
    world.teardown(entity).expect("teardown must succeed");

    assert!(!world.is_located_in(entity, place(HALL)));
    assert!(!world.contains(entity, entity));
}

#[test]
fn apply_effect_create_reports_the_minted_handle() {
    let mut world = World::new(tenant(1));

    let entity = match world.apply_effect(Effect::Create) {
        Some(TickEvent::Created { entity }) => Some(entity),
        _ => None,
    }
    .expect("apply_effect(Create) must report a Created event");

    assert!(world.apply_effect(Effect::MoveTo { entity, place: place(HALL) }).is_none());
    assert!(world.is_located_in(entity, place(HALL)));
}

#[test]
fn apply_effect_rejects_a_stale_handle_without_mutating() {
    let mut world = World::new(tenant(1));
    let entity = world.create().expect("create must succeed");
    world.teardown(entity).expect("teardown must succeed");

    let event = world.apply_effect(Effect::MoveTo { entity, place: place(HALL) });

    assert_eq!(
        event,
        Some(TickEvent::Rejected {
            effect: Effect::MoveTo { entity, place: place(HALL) },
            error: ArenaError::StaleHandle,
        })
    );
    assert!(!world.is_located_in(entity, place(HALL)));
}

#[test]
fn satisfies_reflects_current_location_and_containment() {
    let mut world = World::new(tenant(1));
    let chest = world.create().expect("create chest must succeed");
    let sword = world.create().expect("create sword must succeed");
    let coin = world.create().expect("create coin must succeed");
    world.move_to(chest, place(HALL)).expect("move must succeed");
    world.inventory_add(chest, sword).expect("add must succeed");

    assert!(world.satisfies(Precondition::LocatedIn { entity: chest, place: place(HALL) }));
    assert!(world.satisfies(Precondition::Contains { container: chest, item: sword }));
    assert!(!world.satisfies(Precondition::LocatedIn { entity: chest, place: place(STUDY) }));
    assert!(!world.satisfies(Precondition::Contains { container: chest, item: coin }));
}

#[test]
fn location_of_reports_the_current_place_and_none_when_unlocated() {
    let mut world = World::new(tenant(1));
    let entity = world.create().expect("create must succeed");

    assert_eq!(world.location_of(entity), None);
    world.move_to(entity, place(HALL)).expect("move must succeed");
    assert_eq!(world.location_of(entity), Some(place(HALL)));
}

#[test]
fn occupants_of_lists_entities_placed_there() {
    let mut world = World::new(tenant(1));
    let alice = world.create().expect("create alice");
    let bob = world.create().expect("create bob");
    world.move_to(alice, place(HALL)).expect("place alice");
    world.move_to(bob, place(HALL)).expect("place bob");

    let occupants: Vec<EntityId> = world.occupants_of(place(HALL));

    assert!(occupants.contains(&alice));
    assert!(occupants.contains(&bob));
    assert_eq!(world.occupants_of(place(STUDY)).len(), 0);
}

#[test]
fn inventory_of_lists_held_items_and_is_empty_for_a_stale_handle() {
    let mut world = World::new(tenant(1));
    let chest = world.create().expect("create chest");
    let sword = world.create().expect("create sword");
    world.inventory_add(chest, sword).expect("add must succeed");

    assert_eq!(world.inventory_of(chest), vec![sword]);

    world.teardown(chest).expect("teardown must succeed");
    assert_eq!(world.inventory_of(chest).len(), 0);
}

#[test]
fn name_entity_then_keywords_of_round_trips() {
    let mut world = World::new(tenant(1));
    let sword = world.create().expect("create sword");

    world
        .name_entity(sword, vec![Keyword::new("sword"), Keyword::new("Rusty")])
        .expect("naming a live entity must succeed");

    assert_eq!(world.keywords_of(sword), &[Keyword::new("sword"), Keyword::new("rusty")]);
}

#[test]
fn keywords_of_is_empty_after_teardown() {
    let mut world = World::new(tenant(1));
    let sword = world.create().expect("create sword");
    world.name_entity(sword, vec![Keyword::new("sword")]).expect("naming must succeed");

    world.teardown(sword).expect("teardown must succeed");

    assert!(world.keywords_of(sword).is_empty());
}

#[test]
fn clear_location_leaves_the_entity_located_nowhere() {
    let mut world = World::new(tenant(1));
    let sword = world.create().expect("create sword");
    world.move_to(sword, place(HALL)).expect("place sword");

    world.clear_location(sword).expect("clear must succeed");

    assert_eq!(world.location_of(sword), None);
    assert_eq!(world.occupants_of(place(HALL)).len(), 0);
}

#[test]
fn apply_effect_clear_location_unlocates_the_entity() {
    let mut world = World::new(tenant(1));
    let sword = world.create().expect("create sword");
    world.move_to(sword, place(HALL)).expect("place sword");

    let event = world.apply_effect(Effect::ClearLocation { entity: sword });

    assert!(event.is_none());
    assert!(!world.is_located_in(sword, place(HALL)));
}

#[test]
fn command_carries_effect_and_optional_precondition() {
    let place = place(10);
    let mut arena = EntityArena::new(tenant(1));
    let entity = arena.allocate().expect("arena must mint an entity");
    let effect = Effect::MoveTo { entity, place };
    let bare = MutationCommand::new(effect);
    assert_eq!(bare.effect(), effect);
    assert_eq!(bare.precondition(), None);

    let guard = Precondition::LocatedIn { entity, place };
    let guarded = MutationCommand::new(effect).with_precondition(guard);
    assert_eq!(guarded.precondition(), Some(guard));
    assert_eq!(guarded.effect(), effect);
}

#[test]
fn a_rejected_effect_changes_no_table() {
    let mut world = World::new(tenant(1));
    let chest = world.create().expect("create chest");
    let sword = world.create().expect("create sword");
    world.move_to(sword, place(HALL)).expect("place sword");
    world.inventory_add(chest, sword).expect("add");
    let mut other = World::new(tenant(2));
    let foreign = other.create().expect("foreign");

    let event = world.apply_effect(Effect::InventoryRemove { container: foreign, item: sword });

    assert_eq!(
        event,
        Some(TickEvent::Rejected {
            effect: Effect::InventoryRemove { container: foreign, item: sword },
            error: ArenaError::CrossTenant { arena: tenant(1), handle: tenant(2) },
        })
    );
    assert!(world.contains(chest, sword));
    assert_eq!(world.location_of(sword), Some(place(HALL)));
    assert_eq!(world.tenant(), tenant(1));
}
