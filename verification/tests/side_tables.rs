use ferrodun::entity::{EntityId, Generation, SlotIndex, TenantTag};
use ferrodun::place::id::PlaceId;
use ferrodun::side_tables::inventory::Inventory;
use ferrodun::side_tables::location::LocationOf;
use ferrodun::side_tables::naming::{Keyword, Naming};

fn entity(slot: u32) -> EntityId {
    EntityId::new(tenant(), SlotIndex::new(slot), generation())
}

fn reused_slot(slot: u32, generation: u32) -> EntityId {
    let generation = Generation::new(generation).expect("test generation must be in range");
    EntityId::new(tenant(), SlotIndex::new(slot), generation)
}

fn tenant() -> TenantTag {
    TenantTag::new(1).expect("test tenant tag must be in range")
}

fn generation() -> Generation {
    Generation::first()
}

fn place(value: u64) -> PlaceId {
    PlaceId::new(value).expect("test place id must be non-zero")
}

const HALL: u64 = 10;
const STUDY: u64 = 11;

#[test]
fn place_then_location_round_trips() {
    let mut locations = LocationOf::new();
    let goblin = entity(3);

    locations.place(goblin, place(HALL));

    assert_eq!(locations.location(goblin), Some(place(HALL)));
}

#[test]
fn occupants_lists_every_entity_in_a_place() {
    let mut locations = LocationOf::new();
    let goblin = entity(3);
    let rat = entity(4);

    locations.place(goblin, place(HALL));
    locations.place(rat, place(HALL));

    let occupants: Vec<EntityId> = locations.occupants(place(HALL));
    assert_eq!(occupants, vec![goblin, rat]);
}

#[test]
fn unlocated_entity_and_empty_place_are_empty() {
    let locations = LocationOf::new();
    let ghost = entity(7);

    assert_eq!(locations.location(ghost), None);
    assert_eq!(locations.occupants(place(HALL)).len(), 0);
}

#[test]
fn moving_an_entity_keeps_the_reverse_index_consistent() {
    let mut locations = LocationOf::new();
    let goblin = entity(3);
    locations.place(goblin, place(HALL));

    locations.place(goblin, place(STUDY));

    assert_eq!(locations.location(goblin), Some(place(STUDY)));
    assert_eq!(locations.occupants(place(HALL)).len(), 0);
    assert_eq!(locations.occupants(place(STUDY)), vec![goblin]);
}

#[test]
fn moving_one_entity_leaves_other_occupants_in_place() {
    let mut locations = LocationOf::new();
    let goblin = entity(3);
    let rat = entity(4);
    locations.place(goblin, place(HALL));
    locations.place(rat, place(HALL));

    locations.place(goblin, place(STUDY));

    assert_eq!(locations.occupants(place(HALL)), vec![rat]);
    assert_eq!(locations.occupants(place(STUDY)), vec![goblin]);
}

#[test]
fn placing_a_reused_slot_supersedes_the_stale_handle() {
    let mut locations = LocationOf::new();
    let old = entity(3);
    locations.place(old, place(HALL));

    let new = reused_slot(3, 1);
    locations.place(new, place(HALL));

    assert_eq!(locations.location(new), Some(place(HALL)));
    assert_eq!(locations.occupants(place(HALL)), vec![new]);
}

#[test]
fn remove_clears_location_and_occupancy() {
    let mut locations = LocationOf::new();
    let goblin = entity(3);
    locations.place(goblin, place(HALL));

    locations.remove(goblin);

    assert_eq!(locations.location(goblin), None);
    assert_eq!(locations.occupants(place(HALL)).len(), 0);
}

#[test]
fn placing_twice_in_the_same_place_lists_the_entity_once() {
    let mut locations = LocationOf::new();
    let goblin = entity(3);
    locations.place(goblin, place(HALL));
    locations.place(goblin, place(HALL));

    assert_eq!(locations.occupants(place(HALL)), vec![goblin]);
}

#[test]
fn side_tables_insert_then_contents_round_trips() {
    let mut inventory = Inventory::new();
    let chest = entity(2);
    let sword = entity(5);
    let shield = entity(6);

    inventory.insert(chest, sword);
    inventory.insert(chest, shield);

    let contents: Vec<EntityId> = inventory.contents(chest);
    assert_eq!(contents, vec![sword, shield]);
}

#[test]
fn side_tables_duplicate_insert_does_not_double_list() {
    let mut inventory = Inventory::new();
    let chest = entity(2);
    let sword = entity(5);

    inventory.insert(chest, sword);
    inventory.insert(chest, sword);

    assert_eq!(inventory.contents(chest), vec![sword]);
}

#[test]
fn side_tables_remove_drops_an_item_and_empty_container_is_empty() {
    let mut inventory = Inventory::new();
    let chest = entity(2);
    let sword = entity(5);
    inventory.insert(chest, sword);

    inventory.remove(chest, sword);

    assert_eq!(inventory.contents(chest).len(), 0);
    assert_eq!(inventory.contents(entity(99)).len(), 0);
}

#[test]
fn side_tables_cleared_container_slot_carries_no_contents_to_a_reused_handle() {
    let mut inventory = Inventory::new();
    let chest = entity(2);
    inventory.insert(chest, entity(5));
    inventory.insert(chest, entity(6));

    inventory.clear(chest);

    assert_eq!(inventory.contents(chest).len(), 0);
    let reused = reused_slot(2, 1);
    assert_eq!(inventory.contents(reused).len(), 0);
}

#[test]
fn inventory_insert_then_contents_round_trips() {
    let mut inventory = Inventory::new();
    let chest = entity(2);
    let sword = entity(5);
    let shield = entity(6);

    inventory.insert(chest, sword);
    inventory.insert(chest, shield);

    let contents: Vec<EntityId> = inventory.contents(chest);
    assert_eq!(contents, vec![sword, shield]);
}

#[test]
fn inventory_duplicate_insert_does_not_double_list() {
    let mut inventory = Inventory::new();
    let chest = entity(2);
    let sword = entity(5);

    inventory.insert(chest, sword);
    inventory.insert(chest, sword);

    assert_eq!(inventory.contents(chest), vec![sword]);
}

#[test]
fn inventory_remove_drops_an_item_and_empty_container_is_empty() {
    let mut inventory = Inventory::new();
    let chest = entity(2);
    let sword = entity(5);
    inventory.insert(chest, sword);

    inventory.remove(chest, sword);

    assert_eq!(inventory.contents(chest).len(), 0);
    assert_eq!(inventory.contents(entity(99)).len(), 0);
}

#[test]
fn inventory_cleared_container_slot_carries_no_contents_to_a_reused_handle() {
    let mut inventory = Inventory::new();
    let chest = entity(2);
    inventory.insert(chest, entity(5));
    inventory.insert(chest, entity(6));

    inventory.clear(chest);

    assert_eq!(inventory.contents(chest).len(), 0);
    let reused = reused_slot(2, 1);
    assert_eq!(inventory.contents(reused).len(), 0);
}

#[test]
fn removing_one_item_keeps_the_others_in_order() {
    let mut inventory = Inventory::new();
    let chest = entity(2);
    inventory.insert(chest, entity(5));
    inventory.insert(chest, entity(6));
    inventory.insert(chest, entity(7));

    inventory.remove(chest, entity(6));

    assert_eq!(inventory.contents(chest), vec![entity(5), entity(7)]);
}

#[test]
fn keyword_is_lowercased_on_construction() {
    assert_eq!(Keyword::new("Rusty SWORD").as_str(), "rusty sword");
}

#[test]
fn set_then_keywords_round_trips() {
    let mut naming = Naming::new();
    let sword = entity(5);

    naming.set(sword, vec![Keyword::new("sword"), Keyword::new("rusty")]);

    assert_eq!(naming.keywords(sword), &[Keyword::new("sword"), Keyword::new("rusty")]);
}

#[test]
fn set_replaces_a_previous_list() {
    let mut naming = Naming::new();
    let it = entity(5);
    naming.set(it, vec![Keyword::new("old")]);

    naming.set(it, vec![Keyword::new("new")]);

    assert_eq!(naming.keywords(it), &[Keyword::new("new")]);
}

#[test]
fn an_unnamed_entity_has_no_keywords() {
    let naming = Naming::new();

    assert!(naming.keywords(entity(99)).is_empty());
}

#[test]
fn cleared_slot_carries_no_keywords_to_a_reused_handle() {
    let mut naming = Naming::new();
    let goblin = entity(2);
    naming.set(goblin, vec![Keyword::new("goblin")]);

    naming.clear(goblin);

    assert!(naming.keywords(goblin).is_empty());
    assert!(naming.keywords(reused_slot(2, 1)).is_empty());
}
