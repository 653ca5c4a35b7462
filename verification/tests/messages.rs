use ferrodun::account::account::{AccountState, LoginError, RegisterError};
use ferrodun::account::credential::CredentialError;
use ferrodun::account::name::{NameError, Username};
use ferrodun::arena::ArenaError;
use ferrodun::cmd::cmdset::{CmdSetKey, CmdSetKeyError};
use ferrodun::cmd::command::{CommandName, CommandNameError, Switch, SwitchError};
use ferrodun::db::error::DbError;
use ferrodun::entity::{EntityIdError, EntityKey, Generation, TenantTag};
use ferrodun::locks::parser::parse;
use ferrodun::locks::resolve::ResolveError;
use ferrodun::place::key::{PlaceKey, PlaceKeyError};
use ferrodun::region::{RegionKey, RegionKeyError};
use ferrodun::text::color::{Color, ColorParseError};
use ferrodun::text::markup::MarkupDiagnostic;

#[test]
fn slug_errors_quote_the_offending_character() {
    assert_eq!(PlaceKey::parse("Town").unwrap_err().message(), "place key contains an invalid character 'T' (allowed: a-z, 0-9, '_', '-')");
    assert_eq!(PlaceKeyError::Empty.message(), "place key must not be empty");
    assert_eq!(RegionKey::parse("a b").unwrap_err().message(), "region key contains an invalid character ' ' (allowed: a-z, 0-9, '_', '-')");
    assert_eq!(RegionKeyError::Empty.message(), "region key must not be empty");
    assert_eq!(CmdSetKey::parse("x\n").unwrap_err().message(), "cmdset key contains an invalid character '\\n' (allowed: a-z, 0-9, '_', '-')");
    assert_eq!(CmdSetKeyError::Empty.message(), "cmdset key must not be empty");
    assert_eq!(CommandName::parse("Look").unwrap_err().message(), "command name contains an invalid character 'L' (allowed: a-z, 0-9, '_', '-')");
    assert_eq!(CommandNameError::Empty.message(), "command name must not be empty");
    assert_eq!(Switch::parse("Q").unwrap_err().message(), "switch contains an invalid character 'Q' (allowed: a-z, 0-9, '_', '-')");
    assert_eq!(SwitchError::Empty.message(), "switch must not be empty");
}

#[test]
fn name_errors_report_the_length_and_the_character() {
    assert_eq!(Username::parse("").unwrap_err().message(), "name must be 1\u{2013}32 characters, got 0");
    assert_eq!(NameError::InvalidChar { ch: '{' }.message(), "name contains an invalid character: '{'");
}

#[test]
fn identity_and_arena_errors_name_their_values() {
    assert_eq!(TenantTag::new(4096).unwrap_err().message(), "tenant tag 4096 exceeds the 12-bit maximum of 4095");
    assert_eq!(Generation::new(1048576).unwrap_err().message(), "generation 1048576 exceeds the 20-bit maximum of 1048575");
    let cross = ArenaError::CrossTenant { arena: TenantTag::new(1).unwrap(), handle: TenantTag::new(2).unwrap() };
    assert_eq!(cross.message(), "handle from tenant 2 used in tenant 1's arena");
    assert_eq!(ArenaError::StaleHandle.message(), "stale entity handle");
    assert_eq!(ArenaError::Exhausted.message(), "entity slot space exhausted");
    assert!(matches!(EntityIdError::TenantTagOutOfRange(5000), EntityIdError::TenantTagOutOfRange(5000)));
    assert_eq!(EntityKey::new(77).unwrap().to_string(), "77");
}

#[test]
fn color_and_markup_messages() {
    assert_eq!(Color::from_hex("1a").unwrap_err().message(), "color must start with '#'");
    assert_eq!(Color::from_hex("#abc").unwrap_err().message(), "color must be #rrggbb (6 hex digits), got 3");
    assert_eq!(Color::from_hex("#zz0000").unwrap_err().message(), "color contains a non-hex character 'z'");
    assert_eq!(ColorParseError::BadLength(12).message(), "color must be #rrggbb (6 hex digits), got 12");
    assert_eq!(MarkupDiagnostic::UnknownColor("ch\"art".to_string()).message(), "unknown color name \"ch\\\"art\"");
    assert_eq!(MarkupDiagnostic::DisallowedTag("say".to_string()).message(), "disallowed or unknown tag \"say\"");
    assert_eq!(MarkupDiagnostic::Malformed("unmatched {/}".to_string()).message(), "malformed markup: unmatched {/}");
}

#[test]
fn lock_errors_name_the_function() {
    assert_eq!(ResolveError::UnknownFunction { name: "wizard".to_string() }.message(), "unknown lock function `wizard`");
    assert_eq!(
        ResolveError::ArityMismatch { name: "perm".to_string(), expected: 1, found: 2 }.message(),
        "lock function `perm` takes 1 argument(s), got 2"
    );
    assert!(parse("x").unwrap_err().message().starts_with("lock parse error: "));
}

#[test]
fn account_and_persistence_messages() {
    assert_eq!(LoginError::UnknownUser.message(), "no such account");
    assert_eq!(LoginError::BadPassword.message(), "incorrect password");
    assert_eq!(LoginError::Suspended.message(), "account suspended");
    assert_eq!(LoginError::Banned.message(), "account banned");
    assert_eq!(RegisterError::UsernameTaken.message(), "username already taken");
    assert_eq!(CredentialError::Hash.message(), "failed to hash password");
    assert_eq!(CredentialError::Malformed.message(), "stored credential is malformed");
    assert_eq!(AccountState::from_token("frozen").unwrap_err().message(), "unknown account state: \"frozen\"");
    assert_eq!(DbError::InvalidId(-4).message(), "invalid persisted id: -4");
    assert_eq!(DbError::InvalidId(i64::MIN).message(), "invalid persisted id: -9223372036854775808");
    assert_eq!(DbError::KeyOutOfRange(u64::MAX).message(), "id out of range for storage: 18446744073709551615");
    assert_eq!(DbError::DanglingReference(12).message(), "dangling entity reference during load: entity_key 12");
    assert_eq!(
        DbError::LoadArenaExhausted { entity_key: EntityKey::new(5).unwrap(), source: ArenaError::Exhausted }.message(),
        "arena exhausted while loading entity_key 5"
    );
    assert_eq!(DbError::UnknownPlaceKey("hall".to_string()).message(), "location references unknown room slug: hall");
    assert_eq!(DbError::PlaceNotMapped.message(), "internal map inconsistency: a place handle has no durable slug");
    assert_eq!(DbError::EntityNotMapped.message(), "internal map inconsistency: a live entity has no persisted key");
    assert_eq!(DbError::Sqlx("boom".to_string()).message(), "database error: boom");
    assert_eq!(DbError::Migrate("m".to_string()).message(), "migration error: m");
    assert_eq!(DbError::BlockingTask("j".to_string()).message(), "background task failed: j");
    assert_eq!(DbError::CorruptValue("v".to_string()).message(), "corrupt persisted value: v");
    assert_eq!(DbError::UnsupportedEffect.message(), "unsupported effect variant");
}
