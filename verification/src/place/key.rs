//! `PlaceKey`, the durable place identity: the human-authored slug that names
//! a place in world files and is persisted for an entity's location.

use vstd::prelude::*;
use crate::cmd::token::{first_invalid_spec, lemma_token_alphabet, valid_token};
use crate::slug::{bad_slug_message, bad_slug_text, first_invalid_slug_char};

verus! {

/// The durable identity of a place: a non-empty slug of lowercase ASCII
/// letters, digits, `_`, and `-`. [`PlaceKey::parse`] is the only
/// constructor, so an invalid slug is unrepresentable.
#[derive(Debug, Clone, PartialEq, Eq, PartialOrd, Ord, Hash)]
pub struct PlaceKey(String);

impl View for PlaceKey {
    type V = Seq<char>;

    closed spec fn view(&self) -> Seq<char> {
        self.0@
    }
}

/// The reason a slug could not be parsed into a [`PlaceKey`].
#[derive(Debug, Clone, Copy, PartialEq, Eq, Structural)]
#[non_exhaustive]
pub enum PlaceKeyError {
    /// The slug was empty.
    Empty,
    /// The slug contained a character outside `[a-z0-9_-]`; the first one.
    InvalidCharacter(char),
}

impl PlaceKeyError {
    /// The human-readable message for this error.
    pub fn message(&self) -> (r: String)
        ensures
            r@ == (match *self {
                PlaceKeyError::Empty => "place key must not be empty"@,
                PlaceKeyError::InvalidCharacter(c) => bad_slug_message("place key"@, c),
            }),
    {
        match *self {
            PlaceKeyError::Empty => "place key must not be empty".to_owned(),
            PlaceKeyError::InvalidCharacter(c) => bad_slug_text("place key", c),
        }
    }
}

/// The result of parsing `s` as a place key, over plain values.
pub open spec fn place_key_spec(s: Seq<char>) -> Result<Seq<char>, PlaceKeyError> {
    if s.len() == 0 {
        Err(PlaceKeyError::Empty)
    } else {
        match first_invalid_spec(s) {
            Some(c) => Err(PlaceKeyError::InvalidCharacter(c)),
            None => Ok(s),
        }
    }
}

impl PlaceKey {
    /// Parses a slug into a [`PlaceKey`]: it must be non-empty and drawn from
    /// `[a-z0-9_-]`.
    pub fn parse(value: &str) -> (r: Result<Self, PlaceKeyError>)
        ensures
            r is Ok <==> valid_token(value@),
            match (r, place_key_spec(value@)) {
                (Ok(k), Ok(v)) => k@ == v,
                (Err(e), Err(f)) => e == f,
                _ => false,
            },
    {
        if value.is_empty() {
            return Err(PlaceKeyError::Empty);
        }
        if let Some(bad) = first_invalid_slug_char(value) {
            return Err(PlaceKeyError::InvalidCharacter(bad));
        }
        Ok(PlaceKey(value.to_owned()))
    }

    /// Returns the slug text.
    pub fn as_str(&self) -> (r: &str)
        ensures
            r@ == self@,
    {
        self.0.as_str()
    }

    /// The slug text, owned.
    pub fn to_string(&self) -> (r: String)
        ensures
            r@ == self@,
    {
        self.0.clone()
    }
}

/// A slug is a place key exactly when it is non-empty and drawn from the
/// fixed characters `a`–`z`, `0`–`9`, `_`, `-`: the empty slug is `Empty`,
/// and one holding any other character (`.`, `/`, an upper-case letter) is
/// rejected with the first such character.
pub proof fn lemma_place_key_alphabet(s: Seq<char>)
    ensures
        s.len() == 0 ==> place_key_spec(s) == Err::<Seq<char>, PlaceKeyError>(PlaceKeyError::Empty),
        place_key_spec(s) is Ok <==> (s.len() > 0 && forall|k: int| 0 <= k < s.len() ==> {
            let c = #[trigger] s[k];
            ('a' <= c && c <= 'z') || ('0' <= c && c <= '9') || c == '_' || c == '-'
        }),
        place_key_spec(s) is Ok ==> place_key_spec(s) == Ok::<Seq<char>, PlaceKeyError>(s),
        forall|i: int| #![trigger s[i]]
            0 <= i < s.len() && !(('a' <= s[i] && s[i] <= 'z') || ('0' <= s[i] && s[i] <= '9') || s[i] == '_' || s[i]
                == '-') && (forall|k: int| 0 <= k < i ==> {
                let c = #[trigger] s[k];
                ('a' <= c && c <= 'z') || ('0' <= c && c <= '9') || c == '_' || c == '-'
            }) ==> place_key_spec(s) == Err::<Seq<char>, PlaceKeyError>(PlaceKeyError::InvalidCharacter(s[i])),
{
    lemma_token_alphabet(s);
}

} // verus!
