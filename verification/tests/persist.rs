use ferrodun::arena::ArenaError;
use ferrodun::db::error::DbError;
use ferrodun::db::persist::{begin_apply, complete_create, forget_torn_down, rebuild, Step};
use ferrodun::db::place_map::PlaceMap;
use ferrodun::db::write_plan::{KeyMap, RowWrite};
use ferrodun::entity::{EntityKey, TenantTag};
use ferrodun::place::id::PlaceId;
use ferrodun::place::key::PlaceKey;
use ferrodun::world::World;
use ferrodun::write_model::{Effect, MutationCommand, Precondition, TickEvent};

fn tenant() -> TenantTag {
    TenantTag::new(1).expect("tenant")
}

fn place(value: u64) -> PlaceId {
    PlaceId::new(value).expect("non-zero place id")
}

fn slug(value: &str) -> PlaceKey {
    PlaceKey::parse(value).expect("valid slug")
}

fn places() -> PlaceMap {
    PlaceMap::from_pairs(vec![(place(10), slug("hall")), (place(11), slug("study"))])
}

fn key(value: u64) -> EntityKey {
    EntityKey::new(value).expect("non-zero key")
}

#[test]
fn rebuild_replays_entities_locations_and_containment() {
    let (world, keys) = rebuild(
        tenant(),
        &vec![3, 5, 9],
        &vec![(3, "hall".to_string())],
        &vec![(9, 5)],
        &places(),
    )
    .expect("a consistent load");

    let mover = keys.entity_id(key(3)).expect("key 3 resident");
    let chest = keys.entity_id(key(5)).expect("key 5 resident");
    let coin = keys.entity_id(key(9)).expect("key 9 resident");
    assert!(world.is_located_in(mover, place(10)));
    assert!(world.contains(chest, coin));
    assert_eq!(keys.entity_key(coin), Some(key(9)));
    assert_eq!(mover.slot().get(), 0);
    assert_eq!(coin.slot().get(), 2);
}

#[test]
fn rebuild_rejects_a_location_in_a_removed_room() {
    let drifted = PlaceMap::from_pairs(vec![(place(11), slug("study"))]);
    let error = rebuild(tenant(), &vec![1], &vec![(1, "hall".to_string())], &vec![], &drifted)
        .err()
        .expect("a location in a removed room must fail the load");
    assert_eq!(error, DbError::UnknownPlaceKey("hall".to_string()));
}

#[test]
fn rebuild_reports_corrupt_and_dangling_rows() {
    assert_eq!(rebuild(tenant(), &vec![0], &vec![], &vec![], &places()).err(), Some(DbError::InvalidId(0)));
    assert_eq!(
        rebuild(tenant(), &vec![1], &vec![(2, "hall".to_string())], &vec![], &places()).err(),
        Some(DbError::DanglingReference(2))
    );
    assert_eq!(
        rebuild(tenant(), &vec![1], &vec![], &vec![(1, 7)], &places()).err(),
        Some(DbError::DanglingReference(7))
    );
    assert_eq!(
        rebuild(tenant(), &vec![1], &vec![(1, "Not A Slug".to_string())], &vec![], &places()).err(),
        Some(DbError::UnknownPlaceKey("Not A Slug".to_string()))
    );
}

#[test]
fn a_create_waits_for_its_row_then_maps_the_new_handle() {
    let mut world = World::new(tenant());
    let mut keys = KeyMap::new();

    let step = begin_apply(&mut world, &keys, &places(), MutationCommand::new(Effect::Create)).expect("no fault");
    assert!(matches!(step, Step::InsertEntity));

    let event = complete_create(&mut world, &mut keys, key(41));
    let entity = match event {
        TickEvent::Created { entity } => entity,
        other => panic!("expected a creation, got {other:?}"),
    };
    assert_eq!(keys.entity_id(key(41)), Some(entity));
    assert_eq!(keys.entity_key(entity), Some(key(41)));
}

#[test]
fn an_applied_effect_yields_its_row_write_and_teardown_forgets_the_key() {
    let (mut world, mut keys) = rebuild(tenant(), &vec![4], &vec![], &vec![], &places()).expect("load");
    let entity = keys.entity_id(key(4)).expect("resident");

    let step = begin_apply(
        &mut world,
        &keys,
        &places(),
        MutationCommand::new(Effect::MoveTo { entity, place: place(11) }),
    )
    .expect("no fault");
    match step {
        Step::Persist(write) => {
            assert_eq!(write, RowWrite::UpsertLocation { entity_key: 4, place_key: "study".to_string() })
        },
        _ => panic!("a move persists its location"),
    }
    assert!(world.is_located_in(entity, place(11)));

    let teardown = Effect::Teardown { entity };
    match begin_apply(&mut world, &keys, &places(), MutationCommand::new(teardown)).expect("no fault") {
        Step::Persist(write) => assert_eq!(write, RowWrite::DeleteEntity { entity_key: 4 }),
        _ => panic!("a teardown deletes the entity row"),
    }
    forget_torn_down(&mut keys, teardown);
    assert_eq!(keys.entity_id(key(4)), None);
    assert_eq!(keys.entity_key(entity), None);
}

#[test]
fn refused_commands_are_answered_without_a_write() {
    let (mut world, keys) = rebuild(tenant(), &vec![4, 6], &vec![(4, "hall".to_string())], &vec![], &places())
        .expect("load");
    let mover = keys.entity_id(key(4)).expect("resident");
    let chest = keys.entity_id(key(6)).expect("resident");

    let guarded = MutationCommand::new(Effect::MoveTo { entity: mover, place: place(11) })
        .with_precondition(Precondition::Contains { container: chest, item: mover });
    match begin_apply(&mut world, &keys, &places(), guarded).expect("no fault") {
        Step::Answered(Some(TickEvent::PreconditionFailed { .. })) => {},
        _ => panic!("the failed guard answers"),
    }
    assert!(world.is_located_in(mover, place(10)));

    let mut foreign_world = World::new(TenantTag::new(2).expect("tenant"));
    let foreign = foreign_world.create().expect("create");
    match begin_apply(&mut world, &keys, &places(), MutationCommand::new(Effect::Teardown { entity: foreign }))
        .expect("no fault")
    {
        Step::Answered(Some(TickEvent::Rejected { error: ArenaError::CrossTenant { .. }, .. })) => {},
        _ => panic!("a foreign handle is rejected"),
    }
    assert!(world.is_located_in(mover, place(10)));
}

#[test]
fn a_move_to_an_unmapped_place_is_a_fault_after_applying() {
    let (mut world, keys) = rebuild(tenant(), &vec![4], &vec![], &vec![], &places()).expect("load");
    let entity = keys.entity_id(key(4)).expect("resident");
    let result = begin_apply(&mut world, &keys, &places(), MutationCommand::new(Effect::MoveTo { entity, place: place(99) }));
    assert!(matches!(result, Err(DbError::PlaceNotMapped)));
}

#[test]
fn rebuild_restores_every_table_row_and_nothing_else() {
    let (world, keys) = rebuild(
        tenant(),
        &vec![7, 2, 4, 8],
        &vec![(2, "study".to_string()), (7, "hall".to_string())],
        &vec![(4, 8), (2, 8)],
        &places(),
    )
    .expect("a consistent load");

    let a = keys.entity_id(key(7)).expect("key 7 resident");
    let b = keys.entity_id(key(2)).expect("key 2 resident");
    let c = keys.entity_id(key(4)).expect("key 4 resident");
    let bag = keys.entity_id(key(8)).expect("key 8 resident");
    assert_eq!(keys.entity_id(key(5)), None);
    assert!(world.is_located_in(a, place(10)));
    assert!(world.is_located_in(b, place(11)));
    assert_eq!(world.location_of(c), None);
    assert_eq!(world.location_of(bag), None);
    assert!(world.contains(bag, c));
    assert!(world.contains(bag, b));
    assert!(!world.contains(c, bag));
}
