//! Account identity, lifecycle state, and login outcomes.

use vstd::prelude::*;
use crate::chars::{chars_eq, chars_of, debug_quote, debug_str_of, decimal_u64, decimal_spec, joined};
use super::name::Username;

verus! {

/// The durable identity of an account: its row id, never zero.
#[derive(Debug, Clone, Copy, PartialEq, Eq, Structural, PartialOrd, Ord, Hash)]
pub struct AccountId(u64);

impl View for AccountId {
    type V = u64;

    closed spec fn view(&self) -> u64 {
        self.0
    }
}

impl AccountId {
    #[verifier::type_invariant]
    spec fn nonzero(&self) -> bool {
        self.0 != 0
    }

    /// Wraps a row id; `None` for zero.
    pub fn new(value: u64) -> (r: Option<Self>)
        ensures
            value == 0 ==> r is None,
            value != 0 ==> (r matches Some(a) && a@ == value),
    {
        if value == 0 {
            None
        } else {
            Some(AccountId(value))
        }
    }

    /// The underlying row id, never zero.
    pub fn get(self) -> (r: u64)
        ensures
            r == self@,
            r != 0,
    {
        proof {
            use_type_invariant(&self);
        }
        self.0
    }

    /// The row id in decimal.
    pub fn to_string(&self) -> (r: String)
        ensures
            r@ == decimal_spec(self@ as nat),
    {
        decimal_u64(self.0)
    }
}

/// The lifecycle state of an account. `Suspended` (temporary) and `Banned`
/// (permanent) reject login; `Deleted` behaves as if the account does not
/// exist, so login surfaces the same outcome as an unknown user.
#[derive(Debug, Clone, Copy, PartialEq, Eq, Structural)]
pub enum AccountState {
    /// Normal, may log in.
    Active,
    /// Temporarily barred by an admin.
    Suspended,
    /// Permanently barred.
    Banned,
    /// Soft-deleted; treated as nonexistent at login.
    Deleted,
}

/// Why a login was refused. `UnknownUser` and `BadPassword` should read
/// identically to a player so neither confirms a username exists.
#[derive(Debug, Clone, Copy, PartialEq, Eq, Structural)]
pub enum LoginError {
    /// No account with that username.
    UnknownUser,
    /// The password did not match.
    BadPassword,
    /// The account is suspended.
    Suspended,
    /// The account is banned.
    Banned,
}

impl LoginError {
    /// The human-readable message for this error.
    pub fn message(&self) -> (r: String)
        ensures
            r@ == (match self {
                LoginError::UnknownUser => "no such account"@,
                LoginError::BadPassword => "incorrect password"@,
                LoginError::Suspended => "account suspended"@,
                LoginError::Banned => "account banned"@,
            }),
    {
        match self {
            LoginError::UnknownUser => "no such account".to_owned(),
            LoginError::BadPassword => "incorrect password".to_owned(),
            LoginError::Suspended => "account suspended".to_owned(),
            LoginError::Banned => "account banned".to_owned(),
        }
    }
}

/// Why a registration was refused.
#[derive(Debug, Clone, Copy, PartialEq, Eq, Structural)]
pub enum RegisterError {
    /// An account with that username already exists in this tenant.
    UsernameTaken,
}

impl RegisterError {
    /// The human-readable message for this error.
    pub fn message(&self) -> (r: String)
        ensures
            r@ == "username already taken"@,
    {
        "username already taken".to_owned()
    }
}

/// A `state` column value names no known [`AccountState`].
#[derive(Debug, Clone, PartialEq, Eq)]
pub struct UnknownAccountState(pub String);

/// The login outcome each state forces, or `None` if login may proceed.
pub open spec fn login_rejection_spec(s: AccountState) -> Option<LoginError> {
    match s {
        AccountState::Active => None,
        AccountState::Suspended => Some(LoginError::Suspended),
        AccountState::Banned => Some(LoginError::Banned),
        AccountState::Deleted => Some(LoginError::UnknownUser),
    }
}

/// The column token of each state.
pub open spec fn token_spec(s: AccountState) -> Seq<char> {
    match s {
        AccountState::Active => "active"@,
        AccountState::Suspended => "suspended"@,
        AccountState::Banned => "banned"@,
        AccountState::Deleted => "deleted"@,
    }
}

/// The state a column token names, if any.
pub open spec fn state_of_token(t: Seq<char>) -> Option<AccountState> {
    if t == "active"@ {
        Some(AccountState::Active)
    } else if t == "suspended"@ {
        Some(AccountState::Suspended)
    } else if t == "banned"@ {
        Some(AccountState::Banned)
    } else if t == "deleted"@ {
        Some(AccountState::Deleted)
    } else {
        None
    }
}

/// A state's token names that state.
pub proof fn lemma_token_round_trip(s: AccountState)
    ensures
        state_of_token(token_spec(s)) == Some(s),
{
    reveal_strlit("active");
    reveal_strlit("suspended");
    reveal_strlit("banned");
    reveal_strlit("deleted");
    assert("active"@ != "suspended"@ && "active"@ != "banned"@ && "active"@ != "deleted"@) by {
        assert("active"@.len() != "suspended"@.len());
        assert("active"@[0] != "banned"@[0]);
        assert("active"@.len() != "deleted"@.len());
    }
    assert("suspended"@ != "banned"@ && "suspended"@ != "deleted"@) by {
        assert("suspended"@.len() != "banned"@.len());
        assert("suspended"@.len() != "deleted"@.len());
    }
    assert("banned"@ != "deleted"@) by {
        assert("banned"@.len() != "deleted"@.len());
    }
}

impl AccountState {
    /// The login outcome this state forces, or `None` if login may proceed.
    pub fn login_rejection(self) -> (r: Option<LoginError>)
        ensures
            r == login_rejection_spec(self),
    {
        match self {
            AccountState::Active => None,
            AccountState::Suspended => Some(LoginError::Suspended),
            AccountState::Banned => Some(LoginError::Banned),
            AccountState::Deleted => Some(LoginError::UnknownUser),
        }
    }

    /// The canonical lowercase token stored in the `state` column.
    pub fn as_str(self) -> (r: &'static str)
        ensures
            r@ == token_spec(self),
    {
        match self {
            AccountState::Active => "active",
            AccountState::Suspended => "suspended",
            AccountState::Banned => "banned",
            AccountState::Deleted => "deleted",
        }
    }

    /// The column token, owned.
    pub fn to_string(&self) -> (r: String)
        ensures
            r@ == token_spec(*self),
    {
        self.as_str().to_owned()
    }

    /// The state a column token names; an unknown token is surfaced rather
    /// than coerced.
    pub fn from_token(raw: &str) -> (r: Result<Self, UnknownAccountState>)
        ensures
            match (r, state_of_token(raw@)) {
                (Ok(s), Some(t)) => s == t,
                (Err(e), None) => e.0@ == raw@,
                _ => false,
            },
    {
        let cs = chars_of(raw);
        let states = [AccountState::Active, AccountState::Suspended, AccountState::Banned, AccountState::Deleted];
        let mut k: usize = 0;
        while k < 4
            invariant
                cs@ == raw@,
                states@ == seq![AccountState::Active, AccountState::Suspended, AccountState::Banned, AccountState::Deleted],
                k <= 4,
                forall|q: int| 0 <= q < k ==> token_spec(#[trigger] states@[q]) != raw@,
            decreases 4 - k,
        {
            let t = chars_of(states[k].as_str());
            if chars_eq(&t, cs.as_slice()) {
                proof {
                    reveal_strlit("active");
                    reveal_strlit("suspended");
                    reveal_strlit("banned");
                    reveal_strlit("deleted");
                }
                return Ok(states[k]);
            }
            k = k + 1;
        }
        proof {
            assert(token_spec(states@[0]) != raw@);
            assert(token_spec(states@[1]) != raw@);
            assert(token_spec(states@[2]) != raw@);
            assert(token_spec(states@[3]) != raw@);
        }
        Err(UnknownAccountState(raw.to_owned()))
    }
}

impl std::str::FromStr for AccountState {
    type Err = UnknownAccountState;

    fn from_str(raw: &str) -> (r: Result<Self, Self::Err>)
        ensures
            match (r, state_of_token(raw@)) {
                (Ok(s), Some(t)) => s == t,
                (Err(e), None) => e.0@ == raw@,
                _ => false,
            },
    {
        AccountState::from_token(raw)
    }
}

impl UnknownAccountState {
    /// The human-readable message for this error.
    pub fn message(&self) -> (r: String)
        ensures
            r@ == "unknown account state: "@ + debug_str_of(self.0@),
    {
        joined("unknown account state: ", debug_quote(self.0.as_str()).as_str())
    }
}

/// A resolved account: enough to identify the player and gate login. It does
/// not carry the credential.
#[derive(Debug, Clone, PartialEq, Eq)]
pub struct Account {
    /// Durable identity.
    pub id: AccountId,
    /// Login name, unique within the tenant.
    pub username: Username,
    /// Lifecycle state.
    pub state: AccountState,
}

} // verus!
