//! Region identity. A region groups places — it is not itself a place — and,
//! like places and entities, has an ephemeral in-process handle and a durable
//! authored slug.

use vstd::prelude::*;
use crate::cmd::token::{first_invalid_spec, valid_token};
use crate::slug::{bad_slug_message, bad_slug_text, first_invalid_slug_char};

verus! {

/// The ephemeral in-process handle of a region; never zero, so an absent
/// region is `None`.
#[derive(Debug, Clone, Copy, PartialEq, Eq, Structural, PartialOrd, Ord, Hash)]
pub struct RegionId(u64);

impl View for RegionId {
    type V = u64;

    closed spec fn view(&self) -> u64 {
        self.0
    }
}

impl RegionId {
    /// The handles are exactly the non-zero values.
    #[verifier::type_invariant]
    spec fn nonzero(&self) -> bool {
        self.0 != 0
    }

    /// Wraps a region identifier value; `None` for zero.
    pub fn new(value: u64) -> (r: Option<Self>)
        ensures
            value == 0 ==> r is None,
            value != 0 ==> (r matches Some(p) && p@ == value),
    {
        if value == 0 {
            None
        } else {
            Some(RegionId(value))
        }
    }

    /// Returns the underlying identifier value, never zero.
    pub fn get(self) -> (r: u64)
        ensures
            r == self@,
            r != 0,
    {
        proof {
            use_type_invariant(&self);
        }
        self.0
    }
}

/// The durable identity of a region: a non-empty slug of lowercase ASCII
/// letters, digits, `_`, and `-`.
#[derive(Debug, Clone, PartialEq, Eq, PartialOrd, Ord, Hash)]
pub struct RegionKey(String);

impl View for RegionKey {
    type V = Seq<char>;

    closed spec fn view(&self) -> Seq<char> {
        self.0@
    }
}

/// The reason a slug could not be parsed into a [`RegionKey`].
#[derive(Debug, Clone, Copy, PartialEq, Eq, Structural)]
#[non_exhaustive]
pub enum RegionKeyError {
    /// The slug was empty.
    Empty,
    /// The slug contained a character outside `[a-z0-9_-]`; the first one.
    InvalidCharacter(char),
}

impl RegionKeyError {
    /// The human-readable message for this error.
    pub fn message(&self) -> (r: String)
        ensures
            r@ == (match *self {
                RegionKeyError::Empty => "region key must not be empty"@,
                RegionKeyError::InvalidCharacter(c) => bad_slug_message("region key"@, c),
            }),
    {
        match *self {
            RegionKeyError::Empty => "region key must not be empty".to_owned(),
            RegionKeyError::InvalidCharacter(c) => bad_slug_text("region key", c),
        }
    }
}

/// The result of parsing `s` as a region key, over plain values.
pub open spec fn region_key_spec(s: Seq<char>) -> Result<Seq<char>, RegionKeyError> {
    if s.len() == 0 {
        Err(RegionKeyError::Empty)
    } else {
        match first_invalid_spec(s) {
            Some(c) => Err(RegionKeyError::InvalidCharacter(c)),
            None => Ok(s),
        }
    }
}

impl RegionKey {
    /// Parses a slug into a [`RegionKey`]: it must be non-empty and drawn from
    /// `[a-z0-9_-]`.
    pub fn parse(value: &str) -> (r: Result<Self, RegionKeyError>)
        ensures
            r is Ok <==> valid_token(value@),
            match (r, region_key_spec(value@)) {
                (Ok(k), Ok(v)) => k@ == v,
                (Err(e), Err(f)) => e == f,
                _ => false,
            },
    {
        if value.is_empty() {
            return Err(RegionKeyError::Empty);
        }
        if let Some(bad) = first_invalid_slug_char(value) {
            return Err(RegionKeyError::InvalidCharacter(bad));
        }
        Ok(RegionKey(value.to_owned()))
    }

    /// Returns the slug text.
    pub fn as_str(&self) -> (r: &str)
        ensures
            r@ == self@,
    {
        self.0.as_str()
    }

    /// The slug text, owned.
    pub fn to_string(&self) -> (r: String)
        ensures
            r@ == self@,
    {
        self.0.clone()
    }
}

} // verus!
