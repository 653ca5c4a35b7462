use ferrodun::entity::EntityId;
use ferrodun::place::id::PlaceId;
use ferrodun::place::key::{PlaceKey, PlaceKeyError};
use ferrodun::place::room::{Description, Direction, Place, RoomData, Title};
use ferrodun::region::{RegionId, RegionKey, RegionKeyError};
use ferrodun::side_tables::location::LocationOf;

fn place_id(value: u64) -> PlaceId {
    PlaceId::new(value).expect("test place id must be non-zero")
}

fn region_id(value: u64) -> RegionId {
    RegionId::new(value).expect("test region id must be non-zero")
}

fn entity_id(value: u64) -> EntityId {
    EntityId::from_bits(value)
}

const REGION: u64 = 1;
const HALL: u64 = 10;
const STUDY: u64 = 11;
const LOFT: u64 = 12;
const COURTYARD: u64 = 13;

fn hall() -> Place {
    Place::Room(
        RoomData::new(place_id(HALL), region_id(REGION), Description::new("A long stone hall."))
            .with_exit(Direction::North, place_id(STUDY))
            .with_exit(Direction::Up, place_id(LOFT))
            .with_visible_places(vec![place_id(STUDY), place_id(COURTYARD)]),
    )
}

#[test]
fn ids_round_trip_through_new_and_get() {
    assert_eq!(PlaceId::new(7).expect("non-zero literal").get(), 7);
    assert_eq!(RegionId::new(7).expect("non-zero literal").get(), 7);
}

#[test]
fn zero_names_no_place_and_no_region() {
    assert_eq!(PlaceId::new(0), None);
    assert_eq!(RegionId::new(0), None);
}

#[test]
fn parses_a_valid_slug() {
    let key = PlaceKey::parse("town_square-2").expect("a valid slug parses");
    assert_eq!(key.as_str(), "town_square-2");
    assert_eq!(key.to_string(), "town_square-2");
}

#[test]
fn rejects_empty_and_invalid_characters() {
    assert_eq!(PlaceKey::parse(""), Err(PlaceKeyError::Empty));
    assert_eq!(PlaceKey::parse("town square"), Err(PlaceKeyError::InvalidCharacter(' ')));
    assert_eq!(PlaceKey::parse("Town"), Err(PlaceKeyError::InvalidCharacter('T')));
    assert_eq!(PlaceKey::parse("café"), Err(PlaceKeyError::InvalidCharacter('é')));
}

#[test]
fn place_key_reports_the_first_invalid_character() {
    assert_eq!(PlaceKey::parse("aB C"), Err(PlaceKeyError::InvalidCharacter('B')));
}

#[test]
fn neighbor_returns_wired_exits() {
    let hall = hall();

    assert_eq!(hall.neighbor(Direction::North), Some(place_id(STUDY)));
    assert_eq!(hall.neighbor(Direction::Up), Some(place_id(LOFT)));
}

#[test]
fn neighbor_is_none_for_unwired_directions() {
    let hall = hall();

    assert_eq!(hall.neighbor(Direction::East), None);
    assert_eq!(hall.neighbor(Direction::South), None);
    assert_eq!(hall.neighbor(Direction::West), None);
    assert_eq!(hall.neighbor(Direction::Down), None);
}

#[test]
fn with_exit_replaces_a_previously_wired_exit() {
    let room = Place::Room(
        RoomData::new(place_id(HALL), region_id(REGION), Description::new("A long stone hall."))
            .with_exit(Direction::North, place_id(STUDY))
            .with_exit(Direction::North, place_id(LOFT)),
    );

    assert_eq!(room.neighbor(Direction::North), Some(place_id(LOFT)));
}

#[test]
fn visible_places_yields_the_authored_set() {
    let hall = hall();

    let visible: Vec<PlaceId> = hall.visible_places();

    assert_eq!(visible, vec![place_id(STUDY), place_id(COURTYARD)]);
}

#[test]
fn describe_returns_the_authored_text_independently_of_viewer() {
    let hall = hall();

    let to_alice = hall.describe(entity_id(1));
    let to_bob = hall.describe(entity_id(2));

    assert_eq!(to_alice.as_str(), "A long stone hall.");
    assert_eq!(to_alice, to_bob);
}

#[test]
fn id_and_region_return_the_constructed_values() {
    let hall = hall();

    assert_eq!(hall.id(), place_id(HALL));
    assert_eq!(hall.region(), region_id(REGION));
}

#[test]
fn occupants_joins_through_the_location_table() {
    let hall = hall();
    let goblin = entity_id(3);
    let mut locations = LocationOf::new();
    locations.place(goblin, hall.id());

    assert_eq!(hall.occupants(&locations), vec![goblin]);

    let empty = LocationOf::new();
    assert_eq!(hall.occupants(&empty).len(), 0);
}

#[test]
fn title_is_absent_by_default_and_set_by_with_title() {
    let untitled = hall();
    assert_eq!(untitled.title(), None);

    let titled = Place::Room(
        RoomData::new(place_id(HALL), region_id(REGION), Description::new("A long stone hall."))
            .with_title(Title::new("Great Hall")),
    );
    assert_eq!(titled.title().map(Title::as_str), Some("Great Hall"));
}

#[test]
fn with_title_replaces_a_previously_set_title() {
    let room = Place::Room(
        RoomData::new(place_id(HALL), region_id(REGION), Description::new("A long stone hall."))
            .with_title(Title::new("Old Name"))
            .with_title(Title::new("New Name")),
    );
    assert_eq!(room.title().map(Title::as_str), Some("New Name"));
}

#[test]
fn region_id_round_trips_through_new_and_get() {
    assert_eq!(RegionId::new(7).expect("non-zero literal").get(), 7);
}

#[test]
fn region_key_parses_a_valid_slug_and_round_trips_through_display() {
    let key = RegionKey::parse("misty_mountains-1").expect("a valid slug parses");
    assert_eq!(key.as_str(), "misty_mountains-1");
    assert_eq!(key.to_string(), "misty_mountains-1");
}

#[test]
fn region_key_rejects_empty_and_invalid_characters() {
    assert_eq!(RegionKey::parse(""), Err(RegionKeyError::Empty));
    assert_eq!(RegionKey::parse("misty mountains"), Err(RegionKeyError::InvalidCharacter(' ')));
    assert_eq!(RegionKey::parse("Region"), Err(RegionKeyError::InvalidCharacter('R')));
}
