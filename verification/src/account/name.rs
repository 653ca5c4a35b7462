//! Validated name newtypes for the account domain: a [`Username`] identifies
//! an account within its tenant; a [`PuppetName`] names an in-world
//! character. Both share one rule — 1 to 32 characters from ASCII letters,
//! digits, `-`, `_` and `'` — so a name is parsed once, at the boundary.

use vstd::prelude::*;
use crate::chars::{chars_of, debug_char, debug_char_of, decimal, decimal_spec, joined};

verus! {

/// The least number of characters a name may have.
pub const MIN_LEN: usize = 1;

/// The most characters a name may have.
pub const MAX_LEN: usize = 32;

/// Rejected-name reasons, shared by both name newtypes.
#[derive(Debug, Clone, Copy, PartialEq, Eq, Structural)]
pub enum NameError {
    /// The name was empty or longer than [`MAX_LEN`] characters.
    Length {
        /// The offending length, in characters.
        got: usize,
    },
    /// The name contained a character outside the allowed alphabet.
    InvalidChar {
        /// The first disallowed character.
        ch: char,
    },
}

impl NameError {
    /// The human-readable message for this error.
    pub fn message(&self) -> (r: String)
        ensures
            r@ == (match *self {
                NameError::Length { got } => "name must be 1\u{2013}32 characters, got "@ + decimal_spec(got as nat),
                NameError::InvalidChar { ch } => "name contains an invalid character: "@ + debug_char_of(ch),
            }),
    {
        match *self {
            NameError::Length { got } => joined("name must be 1\u{2013}32 characters, got ", decimal(got).as_str()),
            NameError::InvalidChar { ch } => joined("name contains an invalid character: ", debug_char(ch).as_str()),
        }
    }
}

/// A character permitted in a name: ASCII alphanumeric or one of `-`, `_`,
/// `'` — no control characters, whitespace or markup.
pub open spec fn is_name_char(c: char) -> bool {
    ('a' <= c && c <= 'z') || ('A' <= c && c <= 'Z') || ('0' <= c && c <= '9') || c == '-' || c == '_' || c == '\''
}

/// `i` is the first position of `s` holding a disallowed character.
pub open spec fn is_first_bad(s: Seq<char>, i: int) -> bool {
    &&& 0 <= i < s.len()
    &&& !is_name_char(s[i])
    &&& forall|k: int| 0 <= k < i ==> is_name_char(#[trigger] s[k])
}

/// The outcome of validating `s`: the length is checked first, then the
/// characters.
pub open spec fn validate_spec(s: Seq<char>) -> Result<(), NameError> {
    if s.len() < MIN_LEN || s.len() > MAX_LEN {
        Err(NameError::Length { got: s.len() as usize })
    } else if exists|i: int| is_first_bad(s, i) {
        Err(NameError::InvalidChar { ch: s[choose|i: int| is_first_bad(s, i)] })
    } else {
        Ok(())
    }
}

fn is_allowed(ch: char) -> (r: bool)
    ensures
        r == is_name_char(ch),
{
    ('a' <= ch && ch <= 'z') || ('A' <= ch && ch <= 'Z') || ('0' <= ch && ch <= '9') || ch == '-' || ch == '_' || ch == '\''
}

/// Validates `raw` against the shared name rule.
fn validate(raw: &str) -> (r: Result<(), NameError>)
    ensures
        r == validate_spec(raw@),
{
    let cs = chars_of(raw);
    let len = cs.len();
    if len < MIN_LEN || len > MAX_LEN {
        return Err(NameError::Length { got: len });
    }
    let mut i: usize = 0;
    while i < len
        invariant
            cs@ == raw@,
            len == cs@.len(),
            MIN_LEN <= len <= MAX_LEN,
            i <= len,
            forall|k: int| 0 <= k < i ==> is_name_char(#[trigger] cs@[k]),
        decreases len - i,
    {
        if !is_allowed(cs[i]) {
            proof {
                assert(is_first_bad(raw@, i as int));
                let j = choose|j: int| is_first_bad(raw@, j);
                if j < i {
                    assert(is_name_char(cs@[j]));
                } else if j > i {
                    assert(is_name_char(raw@[i as int]));
                }
            }
            return Err(NameError::InvalidChar { ch: cs[i] });
        }
        i = i + 1;
    }
    assert(!exists|j: int| is_first_bad(raw@, j));
    Ok(())
}

/// An account's login name, unique within its tenant; stored and matched
/// case-sensitively.
#[derive(Debug, Clone, PartialEq, Eq, Hash)]
pub struct Username(String);

impl View for Username {
    type V = Seq<char>;

    closed spec fn view(&self) -> Seq<char> {
        self.0@
    }
}

impl Username {
    /// Parses `raw` into a [`Username`]: 1 to 32 characters from
    /// `[A-Za-z0-9_'-]`.
    pub fn parse(raw: &str) -> (r: Result<Self, NameError>)
        ensures
            match (r, validate_spec(raw@)) {
                (Ok(n), Ok(())) => n@ == raw@,
                (Err(e), Err(f)) => e == f,
                _ => false,
            },
    {
        match validate(raw) {
            Ok(()) => Ok(Username(raw.to_owned())),
            Err(e) => Err(e),
        }
    }

    /// The name as a string slice.
    pub fn as_str(&self) -> (r: &str)
        ensures
            r@ == self@,
    {
        self.0.as_str()
    }

    /// The name, owned.
    pub fn to_string(&self) -> (r: String)
        ensures
            r@ == self@,
    {
        self.0.clone()
    }

    /// A copy of this name.
    pub fn duplicate(&self) -> (r: Self)
        ensures
            r@ == self@,
    {
        Username(self.0.clone())
    }
}

/// The name of an in-world puppet owned by an account.
#[derive(Debug, Clone, PartialEq, Eq, Hash)]
pub struct PuppetName(String);

impl View for PuppetName {
    type V = Seq<char>;

    closed spec fn view(&self) -> Seq<char> {
        self.0@
    }
}

impl PuppetName {
    /// Parses `raw` into a [`PuppetName`] under the shared name rule.
    pub fn parse(raw: &str) -> (r: Result<Self, NameError>)
        ensures
            match (r, validate_spec(raw@)) {
                (Ok(n), Ok(())) => n@ == raw@,
                (Err(e), Err(f)) => e == f,
                _ => false,
            },
    {
        match validate(raw) {
            Ok(()) => Ok(PuppetName(raw.to_owned())),
            Err(e) => Err(e),
        }
    }

    /// The name as a string slice.
    pub fn as_str(&self) -> (r: &str)
        ensures
            r@ == self@,
    {
        self.0.as_str()
    }

    /// The name, owned.
    pub fn to_string(&self) -> (r: String)
        ensures
            r@ == self@,
    {
        self.0.clone()
    }
}

/// The name rule, checked against a fixed list of characters: a name is
/// accepted exactly when it has 1 to 32 characters, each an ASCII letter, an
/// ASCII digit, `-`, `_` or `'`; any other character (`.`, `@`, `!`, a space)
/// rejects it as `InvalidChar` carrying the first such character.
pub proof fn lemma_name_alphabet(s: Seq<char>)
    ensures
        validate_spec(s) is Ok <==> (1 <= s.len() <= 32 && forall|k: int| 0 <= k < s.len() ==> {
            let c = #[trigger] s[k];
            ('a' <= c && c <= 'z') || ('A' <= c && c <= 'Z') || ('0' <= c && c <= '9') || c == '-' || c == '_' || c
                == '\''
        }),
        forall|i: int| #![trigger s[i]]
            1 <= s.len() <= 32 && 0 <= i < s.len() && !(('a' <= s[i] && s[i] <= 'z') || ('A' <= s[i] && s[i] <= 'Z')
                || ('0' <= s[i] && s[i] <= '9') || s[i] == '-' || s[i] == '_' || s[i] == '\'') && (forall|k: int|
                0 <= k < i ==> {
                let c = #[trigger] s[k];
                ('a' <= c && c <= 'z') || ('A' <= c && c <= 'Z') || ('0' <= c && c <= '9') || c == '-' || c == '_'
                    || c == '\''
            }) ==> validate_spec(s) == Err::<(), NameError>(NameError::InvalidChar { ch: s[i] }),
{
    assert forall|i: int| #![trigger s[i]]
        1 <= s.len() <= 32 && 0 <= i < s.len() && !(('a' <= s[i] && s[i] <= 'z') || ('A' <= s[i] && s[i] <= 'Z') || (
        '0' <= s[i] && s[i] <= '9') || s[i] == '-' || s[i] == '_' || s[i] == '\'') && (forall|k: int|
            0 <= k < i ==> {
            let c = #[trigger] s[k];
            ('a' <= c && c <= 'z') || ('A' <= c && c <= 'Z') || ('0' <= c && c <= '9') || c == '-' || c == '_' || c
                == '\''
        }) implies validate_spec(s) == Err::<(), NameError>(NameError::InvalidChar { ch: s[i] }) by {
        assert(is_first_bad(s, i));
        let j = choose|j: int| is_first_bad(s, j);
        if j < i {
            assert(is_name_char(s[j]));
        } else if j > i {
            assert(is_name_char(s[i]));
        }
    }
    if !(forall|k: int| 0 <= k < s.len() ==> is_name_char(#[trigger] s[k])) {
        let k = choose|k: int| 0 <= k < s.len() && !is_name_char(#[trigger] s[k]);
        let i = first_bad_name_from(s, k);
        assert(is_first_bad(s, i));
    } else {
        assert(!exists|j: int| is_first_bad(s, j));
    }
}

/// The first position holding a disallowed character, given one at `k`.
proof fn first_bad_name_from(s: Seq<char>, k: int) -> (i: int)
    requires
        0 <= k < s.len(),
        !is_name_char(s[k]),
    ensures
        is_first_bad(s, i),
    decreases k,
{
    if forall|m: int| 0 <= m < k ==> is_name_char(#[trigger] s[m]) {
        k
    } else {
        let m = choose|m: int| 0 <= m < k && !is_name_char(#[trigger] s[m]);
        first_bad_name_from(s, m)
    }
}

} // verus!
