use std::collections::HashMap;

use ferrodun::account::account::{AccountState, LoginError, RegisterError};
use ferrodun::db::accounts::{decide_registration, puppets_from_rows, InsertFailure};
use ferrodun::account::name::Username;
use ferrodun::arena::EntityArena;
use ferrodun::db::error::DbError;
use ferrodun::db::keys::{
    account_id_from_db, account_id_to_db, entity_key_from_db, entity_key_to_db, nonzero_from_db, nonzero_to_db,
    resolve_loaded,
};
use ferrodun::db::login::{decide_login, parse_puppet_name, parse_state, StoredAccount};
use ferrodun::db::place_map::PlaceMap;
use ferrodun::db::write_plan::{plan_write, KeyMap, RowWrite};
use ferrodun::entity::{EntityKey, TenantTag};
use ferrodun::place::id::PlaceId;
use ferrodun::place::key::PlaceKey;
use ferrodun::write_model::Effect;

fn place(value: u64) -> PlaceId {
    PlaceId::new(value).expect("test place id must be non-zero")
}

fn key(slug: &str) -> PlaceKey {
    PlaceKey::parse(slug).expect("test slug must be valid")
}

fn ekey(value: u64) -> EntityKey {
    EntityKey::new(value).expect("non-zero key")
}

// keys

#[test]
fn from_db_rejects_zero_and_negatives() {
    for corrupt in [0, -1, i64::MIN] {
        assert!(
            matches!(nonzero_from_db(corrupt), Err(DbError::InvalidId(got)) if got == corrupt),
            "a non-positive persisted id ({corrupt}) must surface as InvalidId"
        );
    }
}

#[test]
fn to_db_rejects_values_past_the_signed_range() {
    assert!(
        matches!(nonzero_to_db(u64::MAX), Err(DbError::KeyOutOfRange(got)) if got == u64::MAX),
        "a key beyond i64::MAX must surface as KeyOutOfRange"
    );
}

#[test]
fn round_trip_preserves_a_valid_key() {
    let key = ekey(42);
    let stored = entity_key_to_db(key).expect("a small key fits in i64");
    assert_eq!(entity_key_from_db(stored).expect("round-trips back"), key);
}

#[test]
fn the_signed_boundary_is_the_last_storable_key() {
    assert_eq!(nonzero_to_db(i64::MAX as u64), Ok(i64::MAX));
    assert_eq!(nonzero_to_db(i64::MAX as u64 + 1), Err(DbError::KeyOutOfRange(i64::MAX as u64 + 1)));
    assert_eq!(nonzero_from_db(i64::MAX), Ok(i64::MAX as u64));
    let id = account_id_from_db(5).expect("positive id");
    assert_eq!(id.get(), 5);
    assert_eq!(account_id_to_db(id), Ok(5));
    assert_eq!(account_id_from_db(0), Err(DbError::InvalidId(0)));
}

#[test]
fn resolve_loaded_distinguishes_corrupt_dangling_and_known_keys() {
    let mut arena = EntityArena::new(TenantTag::new(1).expect("tenant"));
    let id = arena.allocate().expect("alloc");
    let mut by_key = HashMap::new();
    by_key.insert(7u64, id);
    assert_eq!(resolve_loaded(&by_key, 7), Ok(id));
    assert_eq!(resolve_loaded(&by_key, 8), Err(DbError::DanglingReference(8)));
    assert_eq!(resolve_loaded(&by_key, -3), Err(DbError::InvalidId(-3)));
}

// place map

#[test]
fn translates_both_directions() {
    let map = PlaceMap::from_pairs(vec![(place(1), key("hall")), (place(2), key("study"))]);

    assert_eq!(map.id_of(&key("study")), Some(place(2)));
    assert_eq!(map.key_of(place(1)), Some(&key("hall")));
}

#[test]
fn misses_an_unknown_id_or_slug() {
    let map = PlaceMap::from_pairs(vec![(place(1), key("hall"))]);

    assert_eq!(map.id_of(&key("nowhere")), None);
    assert_eq!(map.key_of(place(9)), None);
}

#[test]
fn a_repeated_pair_keeps_the_last_one_seen() {
    let map = PlaceMap::from_pairs(vec![(place(1), key("hall")), (place(1), key("atrium"))]);
    assert_eq!(map.key_of(place(1)), Some(&key("atrium")));
    assert_eq!(map.id_of(&key("atrium")), Some(place(1)));
}

// login

fn user(name: &str) -> Username {
    Username::parse(name).expect("valid username")
}

fn row(id: i64, state: &str) -> Option<StoredAccount> {
    Some(StoredAccount { id, state: state.to_string() })
}

#[test]
fn login_refuses_an_unknown_user_and_a_bad_password() {
    assert_eq!(decide_login(&user("aldous"), None, true), Ok(Err(LoginError::UnknownUser)));
    assert_eq!(decide_login(&user("aldous"), row(1, "active"), false), Ok(Err(LoginError::BadPassword)));
}

#[test]
fn login_refuses_barred_states_with_their_own_reason() {
    assert_eq!(decide_login(&user("a"), row(1, "suspended"), true), Ok(Err(LoginError::Suspended)));
    assert_eq!(decide_login(&user("a"), row(1, "banned"), true), Ok(Err(LoginError::Banned)));
    assert_eq!(decide_login(&user("a"), row(1, "deleted"), true), Ok(Err(LoginError::UnknownUser)));
}

#[test]
fn login_grants_an_active_account() {
    let account = decide_login(&user("aldous"), row(3, "active"), true)
        .expect("no fault")
        .expect("granted");
    assert_eq!(account.id.get(), 3);
    assert_eq!(account.username, user("aldous"));
    assert_eq!(account.state, AccountState::Active);
}

#[test]
fn login_surfaces_corrupt_rows_as_faults() {
    assert_eq!(
        decide_login(&user("a"), row(1, "frozen"), true),
        Err(DbError::CorruptValue("account state \"frozen\"".to_string()))
    );
    assert_eq!(decide_login(&user("a"), row(0, "active"), true), Err(DbError::InvalidId(0)));
}

#[test]
fn persisted_text_columns_parse_or_report_corruption() {
    assert_eq!(parse_state("banned"), Ok(AccountState::Banned));
    assert_eq!(parse_state("x"), Err(DbError::CorruptValue("account state \"x\"".to_string())));
    assert_eq!(parse_puppet_name("hero").expect("valid").as_str(), "hero");
    assert_eq!(parse_puppet_name(""), Err(DbError::CorruptValue("puppet name \"\"".to_string())));
}

// write plan

#[test]
fn each_applied_effect_plans_its_row_write() {
    let mut arena = EntityArena::new(TenantTag::new(1).expect("tenant"));
    let chest = arena.allocate().expect("alloc");
    let sword = arena.allocate().expect("alloc");
    let mut keys = KeyMap::new();
    keys.insert(ekey(10), chest);
    keys.insert(ekey(11), sword);
    let places = PlaceMap::from_pairs(vec![(place(1), key("hall"))]);

    assert_eq!(
        plan_write(Effect::MoveTo { entity: sword, place: place(1) }, &keys, &places),
        Ok(RowWrite::UpsertLocation { entity_key: 11, place_key: "hall".to_string() })
    );
    assert_eq!(
        plan_write(Effect::ClearLocation { entity: sword }, &keys, &places),
        Ok(RowWrite::DeleteLocation { entity_key: 11 })
    );
    assert_eq!(
        plan_write(Effect::InventoryAdd { container: chest, item: sword }, &keys, &places),
        Ok(RowWrite::UpsertContainment { item_key: 11, container_key: 10 })
    );
    assert_eq!(
        plan_write(Effect::InventoryRemove { container: chest, item: sword }, &keys, &places),
        Ok(RowWrite::DeleteContainment { item_key: 11, container_key: 10 })
    );
    assert_eq!(
        plan_write(Effect::Teardown { entity: chest }, &keys, &places),
        Ok(RowWrite::DeleteEntity { entity_key: 10 })
    );
    assert_eq!(plan_write(Effect::Create, &keys, &places), Err(DbError::UnsupportedEffect));
}

#[test]
fn unmapped_handles_and_places_are_errors() {
    let mut arena = EntityArena::new(TenantTag::new(1).expect("tenant"));
    let mapped = arena.allocate().expect("alloc");
    let stray = arena.allocate().expect("alloc");
    let mut keys = KeyMap::new();
    keys.insert(ekey(10), mapped);
    let places = PlaceMap::from_pairs(vec![]);

    assert_eq!(
        plan_write(Effect::MoveTo { entity: mapped, place: place(1) }, &keys, &places),
        Err(DbError::PlaceNotMapped)
    );
    assert_eq!(plan_write(Effect::ClearLocation { entity: stray }, &keys, &places), Err(DbError::EntityNotMapped));
    assert_eq!(keys.key_of(stray), Err(DbError::EntityNotMapped));

    keys.remove(ekey(10), mapped);
    assert_eq!(keys.entity_id(ekey(10)), None);
    assert_eq!(keys.entity_key(mapped), None);
}

#[test]
fn key_map_translates_both_ways() {
    let mut arena = EntityArena::new(TenantTag::new(1).expect("tenant"));
    let id = arena.allocate().expect("alloc");
    let mut keys = KeyMap::new();
    keys.insert(ekey(99), id);
    assert_eq!(keys.entity_id(ekey(99)), Some(id));
    assert_eq!(keys.entity_key(id), Some(ekey(99)));
    assert_eq!(keys.key_of(id), Ok(ekey(99)));
}

#[test]
fn db_errors_carry_a_message() {
    assert!(!DbError::EntityNotMapped.message().is_empty());
    assert!(DbError::InvalidId(-4).message().contains("-4"));
}

// registration and puppets

#[test]
fn registration_maps_the_insert_outcome() {
    let account = decide_registration(user("aldous"), Ok(12)).expect("no fault").expect("registered");
    assert_eq!(account.id.get(), 12);
    assert_eq!(account.username, user("aldous"));
    assert_eq!(account.state, AccountState::Active);
    assert_eq!(decide_registration(user("aldous"), Err(InsertFailure::UniqueViolation)), Ok(Err(RegisterError::UsernameTaken)));
    assert_eq!(
        decide_registration(user("aldous"), Err(InsertFailure::Driver("disk full".to_string()))),
        Err(DbError::Sqlx("disk full".to_string()))
    );
    assert_eq!(decide_registration(user("aldous"), Ok(0)), Err(DbError::InvalidId(0)));
}

#[test]
fn puppet_rows_become_puppets_in_order_or_report_corruption() {
    let puppets = puppets_from_rows(&vec![(3, "hero".to_string()), (8, "sidekick".to_string())]).expect("valid rows");
    let summary: Vec<(u64, &str)> = puppets.iter().map(|p| (p.key.get(), p.name.as_str())).collect();
    assert_eq!(summary, vec![(3, "hero"), (8, "sidekick")]);
    assert_eq!(puppets_from_rows(&vec![]).expect("no rows"), vec![]);
    assert_eq!(
        puppets_from_rows(&vec![(3, "hero".to_string()), (4, "bad name".to_string())]),
        Err(DbError::CorruptValue("puppet name \"bad name\"".to_string()))
    );
    assert_eq!(puppets_from_rows(&vec![(-1, "hero".to_string())]), Err(DbError::InvalidId(-1)));
}
