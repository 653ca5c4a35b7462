//! Password credentials: argon2id hashing with a per-account salt.
//!
//! A [`Credential`] holds an argon2id PHC string — the standard
//! `$argon2id$...$salt$hash` encoding that embeds the algorithm, parameters
//! and a unique random salt, so the salt travels with the hash. Plaintext
//! never leaves this module.

use vstd::prelude::*;
use argon2::password_hash::{PasswordHash, Salt, SaltString};
use argon2::{Argon2, PasswordHasher, PasswordVerifier};
use rand_core::{OsRng, RngCore};

verus! {

/// `Argon2::hash_password` with the default (argon2id) parameters: the PHC
/// string of `password` hashed with the base64 salt `salt`, or `None` when
/// hashing fails.
pub uninterp spec fn argon2id_phc(password: Seq<char>, salt: Seq<char>) -> Option<Seq<char>>;

/// `PasswordHash::new`: whether `phc` parses as a PHC string.
pub uninterp spec fn phc_well_formed(phc: Seq<char>) -> bool;

/// `PasswordVerifier::verify_password` on the parsed `phc`: whether `password`
/// hashes, under the algorithm, parameters and salt `phc` records, to the
/// output `phc` records.
pub uninterp spec fn argon2_verifies(phc: Seq<char>, password: Seq<char>) -> bool;

/// `RngCore::try_fill_bytes` on the operating system's random source, for
/// `Salt::RECOMMENDED_LENGTH` bytes, encoded by `SaltString::encode_b64`: a
/// fresh random salt in base64, or `None` when the operating system cannot
/// supply randomness (or, never for this length, encoding fails). Nothing is
/// stated of the value, which is random.
#[verifier::external_body]
fn random_salt() -> (r: Option<String>) {
    let mut bytes = [0u8; Salt::RECOMMENDED_LENGTH];
    if OsRng.try_fill_bytes(&mut bytes).is_err() {
        return None;
    }
    match SaltString::encode_b64(&bytes) {
        Ok(salt) => Some(salt.as_str().to_owned()),
        Err(_) => None,
    }
}

/// `Argon2::default().hash_password` on the bytes of `password` with the
/// base64 salt `salt`, rendered as a PHC string. The result is the named
/// hash; a produced PHC string parses, and the same password verifies against
/// it (verification re-hashes with the recorded salt and parameters).
#[verifier::external_body]
fn argon2_hash(password: &str, salt: &str) -> (r: Option<String>)
    ensures
        match r {
            Some(h) => argon2id_phc(password@, salt@) == Some(h@) && phc_well_formed(h@) && argon2_verifies(h@, password@),
            None => argon2id_phc(password@, salt@) is None,
        },
{
    let salt = match Salt::from_b64(salt) {
        Ok(salt) => salt,
        Err(_) => return None,
    };
    match Argon2::default().hash_password(password.as_bytes(), salt) {
        Ok(hash) => Some(hash.to_string()),
        Err(_) => None,
    }
}

/// `PasswordHash::new`: whether `phc` parses as a PHC string.
#[verifier::external_body]
fn phc_parses(phc: &str) -> (r: bool)
    ensures
        r == phc_well_formed(phc@),
{
    PasswordHash::new(phc).is_ok()
}

/// `Argon2::default().verify_password` on the bytes of `password` against the
/// parsed `phc`: the named verification outcome.
#[verifier::external_body]
fn argon2_verify(phc: &str, password: &str) -> (r: bool)
    requires
        phc_well_formed(phc@),
    ensures
        r == argon2_verifies(phc@, password@),
{
    match PasswordHash::new(phc) {
        Ok(parsed) => Argon2::default().verify_password(password.as_bytes(), &parsed).is_ok(),
        Err(_) => false,
    }
}

/// Failures from constructing or parsing a [`Credential`]; opaque so that no
/// credential material is echoed.
#[derive(Debug, Clone, Copy, PartialEq, Eq, Structural)]
pub enum CredentialError {
    /// Hashing the password failed.
    Hash,
    /// A stored value was not a well-formed PHC string.
    Malformed,
}

impl CredentialError {
    /// The human-readable message for this error.
    pub fn message(&self) -> (r: String)
        ensures
            r@ == (match self {
                CredentialError::Hash => "failed to hash password"@,
                CredentialError::Malformed => "stored credential is malformed"@,
            }),
    {
        match self {
            CredentialError::Hash => "failed to hash password".to_owned(),
            CredentialError::Malformed => "stored credential is malformed".to_owned(),
        }
    }
}

/// A stored password credential: an argon2id PHC string with an embedded
/// per-account salt. Never compared: verification runs through argon2's own
/// check.
pub struct Credential(String);

impl View for Credential {
    type V = Seq<char>;

    closed spec fn view(&self) -> Seq<char> {
        self.0@
    }
}

/// What verifying `password` against the stored `phc` gives: a malformed
/// stored value verifies nothing.
pub open spec fn verify_spec(phc: Seq<char>, password: Seq<char>) -> bool {
    phc_well_formed(phc) && argon2_verifies(phc, password)
}

impl Credential {
    /// The credential of `password` under the base64 `salt`: the hash's PHC
    /// string, or [`CredentialError::Hash`] when hashing fails.
    pub fn hash_with_salt(password: &str, salt: &str) -> (r: Result<Self, CredentialError>)
        ensures
            match (r, argon2id_phc(password@, salt@)) {
                (Ok(c), Some(h)) => c@ == h,
                (Err(e), None) => e == CredentialError::Hash,
                _ => false,
            },
            r matches Ok(c) ==> verify_spec(c@, password@),
    {
        match argon2_hash(password, salt) {
            Some(phc) => Ok(Credential(phc)),
            None => Err(CredentialError::Hash),
        }
    }

    /// Hashes `password` with argon2id and a freshly generated random salt;
    /// [`CredentialError::Hash`] if no random salt can be drawn or the hash
    /// cannot be produced. The result verifies `password`.
    pub fn hash(password: &str) -> (r: Result<Self, CredentialError>)
        ensures
            r matches Ok(c) ==> verify_spec(c@, password@),
            r matches Err(e) ==> e == CredentialError::Hash,
    {
        match random_salt() {
            Some(salt) => Credential::hash_with_salt(password, salt.as_str()),
            None => Err(CredentialError::Hash),
        }
    }

    /// Reconstructs a credential from a stored PHC string, which is kept as
    /// given; [`CredentialError::Malformed`] if it does not parse.
    pub fn from_phc(phc: &str) -> (r: Result<Self, CredentialError>)
        ensures
            phc_well_formed(phc@) ==> (r matches Ok(c) && c@ == phc@),
            !phc_well_formed(phc@) ==> r == Err::<Self, CredentialError>(CredentialError::Malformed),
    {
        if !phc_parses(phc) {
            return Err(CredentialError::Malformed);
        }
        Ok(Credential(phc.to_owned()))
    }

    /// Whether `password` matches this credential; a malformed stored value
    /// verifies as `false`.
    pub fn verify(&self, password: &str) -> (r: bool)
        ensures
            r == verify_spec(self@, password@),
    {
        Credential::verify_phc(self.0.as_str(), password)
    }

    /// The PHC string for persistence.
    pub fn as_phc(&self) -> (r: &str)
        ensures
            r@ == self@,
    {
        self.0.as_str()
    }

    /// Verifies `password` against a stored PHC string in one step: `false`
    /// for a wrong password or a malformed stored value alike.
    pub fn verify_phc(phc: &str, password: &str) -> (r: bool)
        ensures
            r == verify_spec(phc@, password@),
    {
        if !phc_parses(phc) {
            return false;
        }
        argon2_verify(phc, password)
    }
}

/// A stored credential that verifies some password round-trips through its
/// PHC string: the string parses, so [`Credential::from_phc`] rebuilds it
/// unchanged, and the rebuilt credential verifies exactly the same passwords.
pub proof fn lemma_phc_round_trip(phc: Seq<char>, password: Seq<char>)
    requires
        verify_spec(phc, password),
    ensures
        phc_well_formed(phc),
        forall|p: Seq<char>| #[trigger] verify_spec(phc, p) == argon2_verifies(phc, p),
{
}

} // verus!
