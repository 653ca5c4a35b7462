//! The login decision over a fetched account row, and the parsing of
//! persisted text columns.

use vstd::prelude::*;
use vstd::string::StringExecFns;
use crate::account::account::{Account, AccountId, AccountState, LoginError, login_rejection_spec, state_of_token};
use crate::account::name::{PuppetName, Username, validate_spec};
use crate::chars::{debug_quote, debug_str_of};
use super::error::{DbError, DbFault};
use super::keys::account_id_from_db;

verus! {

/// Parses a persisted `state` token; an unknown token is corruption.
pub fn parse_state(raw: &str) -> (r: Result<AccountState, DbError>)
    ensures
        match (r, state_of_token(raw@)) {
            (Ok(s), Some(t)) => s == t,
            (Err(e), None) => e@ == DbFault::CorruptValue("account state "@ + debug_str_of(raw@)),
            _ => false,
        },
{
    match AccountState::from_token(raw) {
        Ok(s) => Ok(s),
        Err(_) => {
            let mut m = "account state ".to_owned();
            m.append(debug_quote(raw).as_str());
            Err(DbError::CorruptValue(m))
        },
    }
}

/// Parses a persisted puppet name; a name that fails the name rule is
/// corruption.
pub fn parse_puppet_name(raw: &str) -> (r: Result<PuppetName, DbError>)
    ensures
        match (r, validate_spec(raw@)) {
            (Ok(n), Ok(())) => n@ == raw@,
            (Err(e), Err(_)) => e@ == DbFault::CorruptValue("puppet name "@ + debug_str_of(raw@)),
            _ => false,
        },
{
    match PuppetName::parse(raw) {
        Ok(n) => Ok(n),
        Err(_) => {
            let mut m = "puppet name ".to_owned();
            m.append(debug_quote(raw).as_str());
            Err(DbError::CorruptValue(m))
        },
    }
}

/// An account row as fetched for a login: its id and `state` columns.
#[derive(Debug, Clone, PartialEq, Eq)]
pub struct StoredAccount {
    /// The `accounts.id` column.
    pub id: i64,
    /// The `state` column.
    pub state: String,
}

/// A login decision over plain values.
pub enum LoginOutcome {
    Refused(LoginError),
    Granted { id: u64, username: Seq<char>, state: AccountState },
    Fault(DbFault),
}

/// The login outcome: an absent row is an unknown user; a password that did
/// not verify is refused next; then the stored state is parsed (an unknown
/// token is corruption) and a barred state refuses with its own reason;
/// otherwise the account is resolved (a non-positive id is corruption).
pub open spec fn login_spec(username: Seq<char>, row: Option<(i64, Seq<char>)>, verified: bool) -> LoginOutcome {
    match row {
        None => LoginOutcome::Refused(LoginError::UnknownUser),
        Some((id, state)) => if !verified {
            LoginOutcome::Refused(LoginError::BadPassword)
        } else {
            match state_of_token(state) {
                None => LoginOutcome::Fault(DbFault::CorruptValue("account state "@ + debug_str_of(state))),
                Some(s) => match login_rejection_spec(s) {
                    Some(why) => LoginOutcome::Refused(why),
                    None => if id > 0 {
                        LoginOutcome::Granted { id: id as u64, username, state: s }
                    } else {
                        LoginOutcome::Fault(DbFault::InvalidId(id))
                    },
                },
            }
        },
    }
}

/// A login result over plain values.
pub open spec fn login_view(r: Result<Result<Account, LoginError>, DbError>) -> LoginOutcome {
    match r {
        Ok(Ok(a)) => LoginOutcome::Granted { id: a.id@, username: a.username@, state: a.state },
        Ok(Err(why)) => LoginOutcome::Refused(why),
        Err(e) => LoginOutcome::Fault(e@),
    }
}

/// Decides a login over the fetched row and the outcome of verifying the
/// password against its stored credential.
pub fn decide_login(username: &Username, row: Option<StoredAccount>, verified: bool) -> (r: Result<
    Result<Account, LoginError>,
    DbError,
>)
    ensures
        login_view(r) == login_spec(
            username@,
            match row {
                Some(st) => Some((st.id, st.state@)),
                None => None,
            },
            verified,
        ),
{
    let row = match row {
        Some(row) => row,
        None => return Ok(Err(LoginError::UnknownUser)),
    };
    if !verified {
        return Ok(Err(LoginError::BadPassword));
    }
    let state = match parse_state(row.state.as_str()) {
        Ok(s) => s,
        Err(e) => return Err(e),
    };
    if let Some(rejection) = state.login_rejection() {
        return Ok(Err(rejection));
    }
    let id = match account_id_from_db(row.id) {
        Ok(id) => id,
        Err(e) => return Err(e),
    };
    Ok(Ok(Account { id, username: username.duplicate(), state }))
}

} // verus!
