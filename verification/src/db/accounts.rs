//! The decisions behind account and puppet persistence: what an insert of a
//! new account means, and the puppets a fetched list of rows describes.

use vstd::prelude::*;
use crate::account::account::{Account, AccountState, RegisterError};
use crate::account::name::{Username, validate_spec};
use crate::account::puppet::Puppet;
use crate::chars::debug_str_of;
use super::error::{DbError, DbFault};
use super::keys::{account_id_from_db, entity_key_from_db};
use super::login::parse_puppet_name;

verus! {

/// Why inserting an account row failed.
#[derive(Debug, Clone, PartialEq, Eq)]
pub enum InsertFailure {
    /// The username is already taken in this tenant.
    UniqueViolation,
    /// Any other driver failure, with its message.
    Driver(String),
}

/// A registration result over plain values: the new account's id and name,
/// a refusal, or a fault.
pub enum RegistrationModel {
    Registered { id: u64, username: Seq<char> },
    Refused(RegisterError),
    Fault(DbFault),
}

/// What an account insert means: the returned id (which must be positive)
/// names a new active account; a taken username is a refusal, not a fault.
pub open spec fn registration_spec(username: Seq<char>, inserted: Result<i64, InsertFailure>) -> RegistrationModel {
    match inserted {
        Ok(id) => if id > 0 {
            RegistrationModel::Registered { id: id as u64, username }
        } else {
            RegistrationModel::Fault(DbFault::InvalidId(id))
        },
        Err(InsertFailure::UniqueViolation) => RegistrationModel::Refused(RegisterError::UsernameTaken),
        Err(InsertFailure::Driver(m)) => RegistrationModel::Fault(DbFault::Sqlx(m@)),
    }
}

/// Decides a registration from the outcome of inserting its row. A new
/// account starts active.
pub fn decide_registration(username: Username, inserted: Result<i64, InsertFailure>) -> (r: Result<
    Result<Account, RegisterError>,
    DbError,
>)
    ensures
        match (r, registration_spec(username@, inserted)) {
            (Ok(Ok(a)), RegistrationModel::Registered { id, username: u }) => a.id@ == id && a.username@ == u
                && a.state == AccountState::Active,
            (Ok(Err(e)), RegistrationModel::Refused(f)) => e == f,
            (Err(e), RegistrationModel::Fault(f)) => e@ == f,
            _ => false,
        },
{
    match inserted {
        Ok(raw) => match account_id_from_db(raw) {
            Ok(id) => Ok(Ok(Account { id, username, state: AccountState::Active })),
            Err(e) => Err(e),
        },
        Err(InsertFailure::UniqueViolation) => Ok(Err(RegisterError::UsernameTaken)),
        Err(InsertFailure::Driver(m)) => Err(DbError::Sqlx(m)),
    }
}

/// The puppets that `(entity_key, name)` rows describe, in row order, or the
/// first corrupt row: a non-positive key, or a name breaking the name rule.
pub open spec fn puppets_spec(rows: Seq<(i64, Seq<char>)>) -> Result<Seq<(u64, Seq<char>)>, DbFault>
    decreases rows.len(),
{
    if rows.len() == 0 {
        Ok(Seq::empty())
    } else {
        match puppets_spec(rows.drop_last()) {
            Err(f) => Err(f),
            Ok(done) => {
                let (key, name) = rows.last();
                if key <= 0 {
                    Err(DbFault::InvalidId(key))
                } else if validate_spec(name) is Err {
                    Err(DbFault::CorruptValue("puppet name "@ + debug_str_of(name)))
                } else {
                    Ok(done.push((key as u64, name)))
                }
            },
        }
    }
}

/// The plain-value form of puppet rows.
pub open spec fn puppet_rows(v: Seq<(i64, String)>) -> Seq<(i64, Seq<char>)> {
    v.map_values(|r: (i64, String)| (r.0, r.1@))
}

/// The plain-value form of puppets.
pub open spec fn puppets_view(v: Seq<Puppet>) -> Seq<(u64, Seq<char>)> {
    v.map_values(|p: Puppet| (p.key@, p.name@))
}

/// Builds the puppets the fetched `(entity_key, name)` rows describe.
pub fn puppets_from_rows(rows: &Vec<(i64, String)>) -> (r: Result<Vec<Puppet>, DbError>)
    ensures
        match (r, puppets_spec(puppet_rows(rows@))) {
            (Ok(v), Ok(m)) => puppets_view(v@) == m,
            (Err(e), Err(f)) => e@ == f,
            _ => false,
        },
{
    let ghost all = puppet_rows(rows@);
    let mut out: Vec<Puppet> = Vec::new();
    let mut i: usize = 0;
    assert(all.take(0) =~= Seq::<(i64, Seq<char>)>::empty());
    assert(puppets_view(out@) =~= Seq::<(u64, Seq<char>)>::empty());
    while i < rows.len()
        invariant
            i <= rows@.len(),
            all == puppet_rows(rows@),
            puppets_spec(all.take(i as int)) == Ok::<Seq<(u64, Seq<char>)>, DbFault>(puppets_view(out@)),
        decreases rows@.len() - i,
    {
        let raw = rows[i].0;
        let text = &rows[i].1;
        assert(all.take(i + 1).drop_last() =~= all.take(i as int));
        assert(all.take(i + 1).last() == (raw, text@));
        let key = match entity_key_from_db(raw) {
            Ok(k) => k,
            Err(e) => {
                proof {
                    lemma_puppets_error_sticks(all, i + 1);
                }
                return Err(e);
            },
        };
        let name = match parse_puppet_name(text.as_str()) {
            Ok(n) => n,
            Err(e) => {
                proof {
                    lemma_puppets_error_sticks(all, i + 1);
                }
                return Err(e);
            },
        };
        let ghost before = puppets_view(out@);
        out.push(Puppet::new(key, name));
        assert(puppets_view(out@) =~= before.push((raw as u64, text@)));
        i = i + 1;
    }
    assert(all.take(rows@.len() as int) =~= all);
    Ok(out)
}

/// A corrupt row decides the result: once a prefix fails, every longer prefix
/// fails the same way.
proof fn lemma_puppets_error_sticks(rows: Seq<(i64, Seq<char>)>, k: int)
    requires
        0 <= k <= rows.len(),
        puppets_spec(rows.take(k)) is Err,
    ensures
        puppets_spec(rows) == puppets_spec(rows.take(k)),
    decreases rows.len() - k,
{
    if k < rows.len() {
        assert(rows.take(k + 1).drop_last() =~= rows.take(k));
        lemma_puppets_error_sticks(rows, k + 1);
    } else {
        assert(rows.take(k) =~= rows);
    }
}

} // verus!
