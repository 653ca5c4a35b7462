use std::time::Duration;

use ferrodun::arena::ArenaError;
use ferrodun::entity::{EntityId, TenantTag};
use ferrodun::place::id::PlaceId;
use ferrodun::scheduler::{Scheduler, TICK_HZ, TICK_PERIOD_MS};
use ferrodun::world::World;
use ferrodun::write_model::{Effect, MutationCommand, Precondition, TickEvent};

fn tenant(value: u16) -> TenantTag {
    TenantTag::new(value).expect("test tenant tag must be in range")
}

fn world() -> World {
    World::new(tenant(1))
}

fn place(value: u64) -> PlaceId {
    PlaceId::new(value).expect("test place id must be non-zero")
}

const HALL: u64 = 10;
const STUDY: u64 = 11;
const LIBRARY: u64 = 12;

fn create_entity(scheduler: &mut Scheduler, world: &mut World) -> EntityId {
    scheduler.submit(MutationCommand::new(Effect::Create));
    scheduler
        .tick(world)
        .into_iter()
        .find_map(|event| match event {
            TickEvent::Created { entity } => Some(entity),
            _ => None,
        })
        .expect("Create command must emit a Created event")
}

#[test]
fn create_command_mints_a_usable_entity() {
    let mut scheduler = Scheduler::new();
    let mut world = world();

    let entity = create_entity(&mut scheduler, &mut world);

    scheduler.submit(MutationCommand::new(Effect::MoveTo { entity, place: place(HALL) }));
    assert_eq!(scheduler.tick(&mut world), vec![]);
    assert!(world.is_located_in(entity, place(HALL)));
}

#[test]
fn commands_apply_in_arrival_order_per_entity_last_writer_wins() {
    let mut scheduler = Scheduler::new();
    let mut world = world();
    let entity = create_entity(&mut scheduler, &mut world);

    scheduler.submit(MutationCommand::new(Effect::MoveTo { entity, place: place(HALL) }));
    scheduler.submit(MutationCommand::new(Effect::MoveTo { entity, place: place(STUDY) }));
    let events = scheduler.tick(&mut world);

    assert_eq!(events, vec![]);
    assert!(world.is_located_in(entity, place(STUDY)));
    assert!(!world.is_located_in(entity, place(HALL)));
}

#[test]
fn interleaved_commands_for_two_entities_stay_independent() {
    let mut scheduler = Scheduler::new();
    let mut world = world();
    let a = create_entity(&mut scheduler, &mut world);
    let b = create_entity(&mut scheduler, &mut world);

    scheduler.submit(MutationCommand::new(Effect::MoveTo { entity: a, place: place(HALL) }));
    scheduler.submit(MutationCommand::new(Effect::MoveTo { entity: b, place: place(STUDY) }));
    scheduler.submit(MutationCommand::new(Effect::MoveTo { entity: a, place: place(LIBRARY) }));
    scheduler.tick(&mut world);

    assert!(world.is_located_in(a, place(LIBRARY)));
    assert!(world.is_located_in(b, place(STUDY)));
}

#[test]
fn failed_precondition_skips_effect_and_emits_event() {
    let mut scheduler = Scheduler::new();
    let mut world = world();
    let entity = create_entity(&mut scheduler, &mut world);
    scheduler.submit(MutationCommand::new(Effect::MoveTo { entity, place: place(HALL) }));
    scheduler.tick(&mut world);

    let guarded = MutationCommand::new(Effect::MoveTo { entity, place: place(STUDY) })
        .with_precondition(Precondition::LocatedIn { entity, place: place(LIBRARY) });
    scheduler.submit(guarded);
    let events = scheduler.tick(&mut world);

    assert_eq!(
        events,
        vec![TickEvent::PreconditionFailed {
            precondition: Precondition::LocatedIn { entity, place: place(LIBRARY) },
            effect: Effect::MoveTo { entity, place: place(STUDY) },
        }]
    );
    assert!(world.is_located_in(entity, place(HALL)));
}

#[test]
fn satisfied_precondition_applies_effect() {
    let mut scheduler = Scheduler::new();
    let mut world = world();
    let entity = create_entity(&mut scheduler, &mut world);
    scheduler.submit(MutationCommand::new(Effect::MoveTo { entity, place: place(HALL) }));
    scheduler.tick(&mut world);

    let guarded = MutationCommand::new(Effect::MoveTo { entity, place: place(STUDY) })
        .with_precondition(Precondition::LocatedIn { entity, place: place(HALL) });
    scheduler.submit(guarded);
    let events = scheduler.tick(&mut world);

    assert_eq!(events, vec![]);
    assert!(world.is_located_in(entity, place(STUDY)));
}

#[test]
fn teardown_command_invalidates_and_clears() {
    let mut scheduler = Scheduler::new();
    let mut world = world();
    let entity = create_entity(&mut scheduler, &mut world);
    scheduler.submit(MutationCommand::new(Effect::MoveTo { entity, place: place(HALL) }));
    scheduler.tick(&mut world);

    scheduler.submit(MutationCommand::new(Effect::Teardown { entity }));
    let events = scheduler.tick(&mut world);

    assert_eq!(events, vec![]);
    assert!(!world.is_located_in(entity, place(HALL)));
    scheduler.submit(MutationCommand::new(Effect::MoveTo { entity, place: place(STUDY) }));
    assert_eq!(
        scheduler.tick(&mut world),
        vec![TickEvent::Rejected {
            effect: Effect::MoveTo { entity, place: place(STUDY) },
            error: ArenaError::StaleHandle,
        }]
    );
}

#[test]
fn effect_on_a_foreign_handle_is_rejected() {
    let mut other_scheduler = Scheduler::new();
    let mut other_world = World::new(tenant(2));
    let foreign = create_entity(&mut other_scheduler, &mut other_world);

    let mut scheduler = Scheduler::new();
    let mut world = world();
    scheduler.submit(MutationCommand::new(Effect::MoveTo { entity: foreign, place: place(HALL) }));
    let events = scheduler.tick(&mut world);

    assert_eq!(
        events,
        vec![TickEvent::Rejected {
            effect: Effect::MoveTo { entity: foreign, place: place(HALL) },
            error: ArenaError::CrossTenant { arena: tenant(1), handle: tenant(2) },
        }]
    );
}

#[test]
fn inventory_effects_dispatch_through_a_tick() {
    let mut scheduler = Scheduler::new();
    let mut world = world();
    let chest = create_entity(&mut scheduler, &mut world);
    let sword = create_entity(&mut scheduler, &mut world);

    scheduler.submit(MutationCommand::new(Effect::InventoryAdd { container: chest, item: sword }));
    assert_eq!(scheduler.tick(&mut world), vec![]);
    assert!(world.contains(chest, sword));

    scheduler.submit(MutationCommand::new(Effect::InventoryRemove { container: chest, item: sword }));
    assert_eq!(scheduler.tick(&mut world), vec![]);
    assert!(!world.contains(chest, sword));
}

#[test]
fn contains_precondition_gates_an_effect() {
    let mut scheduler = Scheduler::new();
    let mut world = world();
    let chest = create_entity(&mut scheduler, &mut world);
    let sword = create_entity(&mut scheduler, &mut world);

    let guarded = MutationCommand::new(Effect::MoveTo { entity: sword, place: place(HALL) })
        .with_precondition(Precondition::Contains { container: chest, item: sword });
    scheduler.submit(guarded);
    let events = scheduler.tick(&mut world);

    assert_eq!(
        events,
        vec![TickEvent::PreconditionFailed {
            precondition: Precondition::Contains { container: chest, item: sword },
            effect: Effect::MoveTo { entity: sword, place: place(HALL) },
        }]
    );
    assert!(!world.is_located_in(sword, place(HALL)));

    scheduler.submit(MutationCommand::new(Effect::InventoryAdd { container: chest, item: sword }));
    scheduler.tick(&mut world);
    scheduler.submit(
        MutationCommand::new(Effect::MoveTo { entity: sword, place: place(HALL) })
            .with_precondition(Precondition::Contains { container: chest, item: sword }),
    );

    assert_eq!(scheduler.tick(&mut world), vec![]);
    assert!(world.is_located_in(sword, place(HALL)));
}

#[test]
fn tick_number_increments_once_per_tick() {
    let mut scheduler = Scheduler::new();
    let mut world = world();

    assert_eq!(scheduler.tick_number(), 0);
    scheduler.tick(&mut world);
    assert_eq!(scheduler.tick_number(), 1);
    scheduler.tick(&mut world);
    assert_eq!(scheduler.tick_number(), 2);
}

#[test]
fn tick_period_matches_the_fixed_rate() {
    assert_eq!(TICK_HZ, 20);
    assert_eq!(Duration::from_millis(TICK_PERIOD_MS), Duration::from_millis(50));
}

#[test]
fn guarded_inventory_move_fails_then_succeeds_across_ticks() {
    let mut scheduler = Scheduler::new();
    let mut world = World::new(tenant(1));
    let chest = create_entity(&mut scheduler, &mut world);
    let sword = create_entity(&mut scheduler, &mut world);

    scheduler.submit(MutationCommand::new(Effect::MoveTo { entity: sword, place: place(HALL) }));
    assert_eq!(scheduler.tick(&mut world), vec![]);

    let guarded = || {
        MutationCommand::new(Effect::MoveTo { entity: sword, place: place(STUDY) })
            .with_precondition(Precondition::Contains { container: chest, item: sword })
    };
    scheduler.submit(guarded());
    assert_eq!(
        scheduler.tick(&mut world),
        vec![TickEvent::PreconditionFailed {
            precondition: Precondition::Contains { container: chest, item: sword },
            effect: Effect::MoveTo { entity: sword, place: place(STUDY) },
        }]
    );
    assert!(world.is_located_in(sword, place(HALL)));

    scheduler.submit(MutationCommand::new(Effect::InventoryAdd { container: chest, item: sword }));
    assert_eq!(scheduler.tick(&mut world), vec![]);
    assert!(world.contains(chest, sword));

    scheduler.submit(guarded());
    assert_eq!(scheduler.tick(&mut world), vec![]);
    assert!(world.is_located_in(sword, place(STUDY)));
}

#[test]
fn teardown_makes_a_later_effect_on_the_handle_stale() {
    let mut scheduler = Scheduler::new();
    let mut world = World::new(tenant(1));
    let entity = create_entity(&mut scheduler, &mut world);
    scheduler.submit(MutationCommand::new(Effect::MoveTo { entity, place: place(HALL) }));
    scheduler.tick(&mut world);

    scheduler.submit(MutationCommand::new(Effect::Teardown { entity }));
    assert_eq!(scheduler.tick(&mut world), vec![]);
    assert!(!world.is_located_in(entity, place(HALL)));

    scheduler.submit(MutationCommand::new(Effect::MoveTo { entity, place: place(STUDY) }));
    assert_eq!(
        scheduler.tick(&mut world),
        vec![TickEvent::Rejected {
            effect: Effect::MoveTo { entity, place: place(STUDY) },
            error: ArenaError::StaleHandle,
        }]
    );
}

#[test]
fn a_handle_from_another_tenant_is_rejected() {
    let mut foreign_scheduler = Scheduler::new();
    let mut foreign_world = World::new(tenant(2));
    let foreign = create_entity(&mut foreign_scheduler, &mut foreign_world);

    let mut scheduler = Scheduler::new();
    let mut world = World::new(tenant(1));
    scheduler.submit(MutationCommand::new(Effect::MoveTo { entity: foreign, place: place(HALL) }));

    assert_eq!(
        scheduler.tick(&mut world),
        vec![TickEvent::Rejected {
            effect: Effect::MoveTo { entity: foreign, place: place(HALL) },
            error: ArenaError::CrossTenant { arena: tenant(1), handle: tenant(2) },
        }]
    );
}

#[test]
fn tick_number_advances_once_per_tick() {
    let mut scheduler = Scheduler::new();
    let mut world = World::new(tenant(1));

    assert_eq!(scheduler.tick_number(), 0);
    for expected in 1..=3 {
        scheduler.tick(&mut world);
        assert_eq!(scheduler.tick_number(), expected);
    }
}

#[test]
fn events_come_out_in_submission_order() {
    let mut scheduler = Scheduler::new();
    let mut world = world();
    scheduler.submit(MutationCommand::new(Effect::Create));
    scheduler.submit(MutationCommand::new(Effect::Create));
    let events = scheduler.tick(&mut world);
    let slots: Vec<u32> = events
        .iter()
        .map(|e| match e {
            TickEvent::Created { entity } => entity.slot().get(),
            _ => panic!("unexpected event"),
        })
        .collect();
    assert_eq!(slots, vec![0, 1]);
    assert_eq!(scheduler.tick(&mut world), vec![]);
}

#[test]
fn start_tick_hands_out_the_queue_in_arrival_order_and_counts_the_tick() {
    let mut scheduler = Scheduler::new();
    let mut world = world();
    let entity = create_entity(&mut scheduler, &mut world);
    assert_eq!(scheduler.tick_number(), 1);

    let first = MutationCommand::new(Effect::MoveTo { entity, place: place(HALL) });
    let second = MutationCommand::new(Effect::MoveTo { entity, place: place(STUDY) });
    scheduler.submit(first.clone());
    scheduler.submit(second.clone());

    assert_eq!(scheduler.start_tick(), vec![first, second]);
    assert_eq!(scheduler.tick_number(), 2);
    assert_eq!(scheduler.start_tick(), vec![]);
    assert_eq!(scheduler.tick_number(), 3);
}
