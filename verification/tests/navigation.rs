use ferrodun::arena::{ArenaError, EntityArena};
use ferrodun::entity::TenantTag;
use ferrodun::place::id::PlaceId;
use ferrodun::place::room::{Description, Direction, Place, RoomData};
use ferrodun::region::RegionId;
use ferrodun::side_tables::location::LocationOf;

fn place_id(value: u64) -> PlaceId {
    PlaceId::new(value).expect("test place id must be non-zero")
}

fn region_id(value: u64) -> RegionId {
    RegionId::new(value).expect("test region id must be non-zero")
}

const REGION: u64 = 1;
const HALL: u64 = 10;
const STUDY: u64 = 11;
const LOFT: u64 = 12;
const COURTYARD: u64 = 13;

fn hall() -> Place {
    Place::Room(
        RoomData::new(place_id(HALL), region_id(REGION), Description::new("A long stone hall."))
            .with_exit(Direction::North, place_id(STUDY))
            .with_exit(Direction::Up, place_id(LOFT))
            .with_visible_places(vec![place_id(COURTYARD)]),
    )
}

fn study() -> Place {
    Place::Room(RoomData::new(place_id(STUDY), region_id(REGION), Description::new("A cramped study.")))
}

#[test]
fn an_entity_walks_north_from_the_hall_to_the_study() {
    let hall = hall();
    let study = study();
    let mut arena = EntityArena::new(TenantTag::new(1).expect("tenant must be in range"));
    let mut locations = LocationOf::new();

    let wanderer = arena.allocate().expect("alloc must succeed");
    assert!(arena.resolve(wanderer).is_ok(), "a fresh handle resolves");
    locations.place(wanderer, hall.id());

    assert_eq!(hall.occupants(&locations), vec![wanderer]);

    let north = hall.neighbor(Direction::North).expect("the hall has a north exit");
    assert_eq!(north, study.id());
    locations.place(wanderer, north);

    assert_eq!(study.occupants(&locations), vec![wanderer]);
    assert_eq!(hall.occupants(&locations).len(), 0);
}

#[test]
fn a_visible_place_is_not_an_exit() {
    let hall = hall();

    assert_eq!(hall.visible_places(), vec![place_id(COURTYARD)]);
    for dir in [
        Direction::North,
        Direction::East,
        Direction::South,
        Direction::West,
        Direction::Up,
        Direction::Down,
    ] {
        assert_ne!(hall.neighbor(dir), Some(place_id(COURTYARD)));
    }
}

#[test]
fn tearing_an_entity_down_clears_its_handle_and_occupancy() {
    let hall = hall();
    let mut arena = EntityArena::new(TenantTag::new(1).expect("tenant must be in range"));
    let mut locations = LocationOf::new();

    let resident = arena.allocate().expect("alloc must succeed");
    locations.place(resident, hall.id());

    arena.free(resident).expect("free of a live handle must succeed");
    locations.remove(resident);

    assert_eq!(arena.resolve(resident), Err(ArenaError::StaleHandle));
    assert_eq!(hall.occupants(&locations).len(), 0);
}
