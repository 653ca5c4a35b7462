use ferrodun::account::account::{AccountId, AccountState, LoginError, UnknownAccountState};
use ferrodun::account::credential::{Credential, CredentialError};
use ferrodun::account::name::{NameError, PuppetName, Username, MAX_LEN};
use ferrodun::account::puppet::Puppet;
use ferrodun::entity::EntityKey;

// account

#[test]
fn active_permits_login() {
    assert_eq!(AccountState::Active.login_rejection(), None);
}

#[test]
fn suspended_and_banned_reject_login_with_their_own_reason() {
    assert_eq!(AccountState::Suspended.login_rejection(), Some(LoginError::Suspended));
    assert_eq!(AccountState::Banned.login_rejection(), Some(LoginError::Banned));
}

#[test]
fn deleted_is_indistinguishable_from_unknown() {
    assert_eq!(
        AccountState::Deleted.login_rejection(),
        Some(LoginError::UnknownUser),
        "a soft-deleted account must not reveal it ever existed"
    );
}

#[test]
fn state_round_trips_through_its_column_token() {
    for state in [AccountState::Active, AccountState::Suspended, AccountState::Banned, AccountState::Deleted] {
        let token = state.as_str();
        assert_eq!(token.parse::<AccountState>(), Ok(state));
        assert_eq!(state.to_string(), token);
    }
}

#[test]
fn an_unknown_state_token_is_rejected() {
    assert_eq!("frozen".parse::<AccountState>(), Err(UnknownAccountState("frozen".to_owned())));
}

#[test]
fn state_tokens_are_the_lowercase_variant_names() {
    assert_eq!(AccountState::Active.as_str(), "active");
    assert_eq!(AccountState::Suspended.as_str(), "suspended");
    assert_eq!(AccountState::Banned.as_str(), "banned");
    assert_eq!(AccountState::Deleted.as_str(), "deleted");
    assert_eq!(AccountState::from_token("Active"), Err(UnknownAccountState("Active".to_owned())));
}

#[test]
fn account_id_is_never_zero() {
    assert_eq!(AccountId::new(0), None);
    assert_eq!(AccountId::new(9).expect("non-zero").get(), 9);
    assert_eq!(AccountId::new(9).expect("non-zero").to_string(), "9");
}

#[test]
fn account_state_login_rejection_is_reachable_publicly() {
    assert_eq!(AccountState::Active.login_rejection(), None);
    assert_eq!(
        AccountState::Deleted.login_rejection(),
        Some(LoginError::UnknownUser),
        "a soft-deleted account reads as unknown"
    );
}

// names

#[test]
fn parses_a_simple_name() {
    let name = Username::parse("aldous").expect("a lowercase name is valid");
    assert_eq!(name.as_str(), "aldous");
    assert_eq!(name.to_string(), "aldous");
}

#[test]
fn accepts_the_allowed_separators_and_digits() {
    for raw in ["o'brien", "rusty_knight", "mage-42", "Aldous7"] {
        assert!(Username::parse(raw).is_ok(), "{raw:?} should be valid");
    }
}

#[test]
fn name_rejects_an_empty_name() {
    assert_eq!(Username::parse(""), Err(NameError::Length { got: 0 }), "an empty name has no identity");
}

#[test]
fn rejects_a_name_past_the_length_cap() {
    let too_long = "a".repeat(MAX_LEN + 1);
    assert_eq!(Username::parse(&too_long), Err(NameError::Length { got: MAX_LEN + 1 }));
}

#[test]
fn accepts_a_name_at_the_length_cap() {
    let at_cap = "a".repeat(MAX_LEN);
    assert!(Username::parse(&at_cap).is_ok());
}

#[test]
fn rejects_whitespace_and_control_and_markup() {
    for ch in [' ', '\t', '\n', '{', '<', '\u{1b}'] {
        let raw = format!("ad{ch}ous");
        assert_eq!(Username::parse(&raw), Err(NameError::InvalidChar { ch }), "{ch:?} must be rejected");
    }
}

#[test]
fn puppet_name_shares_the_rule() {
    assert!(PuppetName::parse("Gandalf").is_ok());
    assert_eq!(PuppetName::parse(""), Err(NameError::Length { got: 0 }));
}

#[test]
fn length_counts_characters_not_bytes() {
    let wide = "é".repeat(20);
    assert_eq!(Username::parse(&wide), Err(NameError::InvalidChar { ch: 'é' }));
    let too_long_wide = "é".repeat(MAX_LEN + 1);
    assert_eq!(Username::parse(&too_long_wide), Err(NameError::Length { got: MAX_LEN + 1 }));
}

// puppet

#[test]
fn new_pairs_a_key_with_a_name() {
    let key = EntityKey::new(7).expect("non-zero key");
    let name = PuppetName::parse("hero").expect("valid name");
    let puppet = Puppet::new(key, name.clone());
    assert_eq!(puppet.key, key);
    assert_eq!(puppet.name, name);
}

// credential

#[test]
fn hash_then_verify_accepts_the_right_password() {
    let cred = Credential::hash("correct horse battery staple").expect("hashing succeeds");
    assert!(cred.verify("correct horse battery staple"));
}

#[test]
fn verify_rejects_the_wrong_password() {
    let cred = Credential::hash("hunter2").expect("hashing succeeds");
    assert!(!cred.verify("Hunter2"));
    assert!(!cred.verify(""));
}

#[test]
fn the_same_password_hashes_to_distinct_phc_strings() {
    let a = Credential::hash("same").expect("hashing succeeds");
    let b = Credential::hash("same").expect("hashing succeeds");
    assert_ne!(a.as_phc(), b.as_phc());
    assert!(a.verify("same") && b.verify("same"));
}

#[test]
fn from_phc_round_trips_as_phc_and_still_verifies() {
    let first = Credential::hash("rosebud").expect("hashing succeeds");
    let restored = Credential::from_phc(first.as_phc()).expect("a real PHC string parses");
    assert_eq!(restored.as_phc(), first.as_phc());
    assert!(restored.verify("rosebud"));
}

#[test]
fn from_phc_rejects_a_non_phc_string() {
    assert!(matches!(Credential::from_phc("not a hash"), Err(CredentialError::Malformed)));
}

#[test]
fn it_uses_the_argon2id_variant() {
    let cred = Credential::hash("x").expect("hashing succeeds");
    assert!(cred.as_phc().starts_with("$argon2id$"), "default hash must be argon2id, got {}", cred.as_phc());
}

#[test]
fn verify_phc_matches_a_stored_hash() {
    let stored = Credential::hash("swordfish").expect("hashing succeeds").as_phc().to_owned();
    assert!(Credential::verify_phc(&stored, "swordfish"));
    assert!(!Credential::verify_phc(&stored, "nope"));
}

#[test]
fn verify_phc_is_false_for_a_corrupt_stored_hash() {
    assert!(!Credential::verify_phc("$argon2id$garbage", "anything"));
}

#[test]
fn a_credential_round_trips_through_its_phc_string() {
    let cred = Credential::hash("correct-horse").expect("hashing succeeds");
    let restored = Credential::from_phc(cred.as_phc()).expect("its own PHC parses");
    assert!(restored.verify("correct-horse"), "the right password verifies");
    assert!(!restored.verify("wrong"), "the wrong password is refused");
    assert!(Credential::verify_phc(cred.as_phc(), "correct-horse"), "verify_phc matches a stored hash");
}

#[test]
fn hash_with_salt_is_deterministic_for_a_fixed_salt() {
    let a = Credential::hash_with_salt("pw", "c2FsdHNhbHRzYWx0").expect("hashing succeeds");
    let b = Credential::hash_with_salt("pw", "c2FsdHNhbHRzYWx0").expect("hashing succeeds");
    assert_eq!(a.as_phc(), b.as_phc());
    assert!(a.as_phc().starts_with("$argon2id$"));
    assert!(a.verify("pw"));
    assert!(!a.verify("pw2"));
}

#[test]
fn hash_with_salt_reports_a_bad_salt_as_a_hash_failure() {
    assert!(matches!(Credential::hash_with_salt("pw", "!"), Err(CredentialError::Hash)));
}
