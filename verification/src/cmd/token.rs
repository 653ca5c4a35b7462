//! The shared command-token alphabet (command names, aliases, switches, set
//! keys): lowercase ASCII letters, ASCII digits, `_` and `-`.

use vstd::prelude::*;
use crate::chars::chars_of;

verus! {

/// Whether `c` belongs to the command-token alphabet `[a-z0-9_-]`.
pub open spec fn is_token_char(c: char) -> bool {
    ('a' <= c && c <= 'z') || ('0' <= c && c <= '9') || c == '_' || c == '-'
}

/// `i` is the position of the first character of `s` outside the alphabet.
pub open spec fn is_first_invalid(s: Seq<char>, i: int) -> bool {
    &&& 0 <= i < s.len()
    &&& !is_token_char(s[i])
    &&& forall|k: int| 0 <= k < i ==> is_token_char(#[trigger] s[k])
}

/// The first character of `s` outside the alphabet, if any.
pub open spec fn first_invalid_spec(s: Seq<char>) -> Option<char> {
    if exists|i: int| is_first_invalid(s, i) {
        Some(s[choose|i: int| is_first_invalid(s, i)])
    } else {
        None
    }
}

/// Every character of `s` is in the alphabet.
pub open spec fn all_token_chars(s: Seq<char>) -> bool {
    forall|k: int| 0 <= k < s.len() ==> is_token_char(#[trigger] s[k])
}

/// A token that parses: non-empty and drawn from the alphabet.
pub open spec fn valid_token(s: Seq<char>) -> bool {
    s.len() > 0 && all_token_chars(s)
}

/// Whether `c` belongs to the command-token alphabet.
pub fn is_token_char_exec(c: char) -> (r: bool)
    ensures
        r == is_token_char(c),
{
    ('a' <= c && c <= 'z') || ('0' <= c && c <= '9') || c == '_' || c == '-'
}

/// Returns the first character outside the command-token alphabet, or `None`
/// if every character is allowed.
pub fn first_invalid_token_char(value: &str) -> (r: Option<char>)
    ensures
        r == first_invalid_spec(value@),
        r is None <==> all_token_chars(value@),
{
    let cs = chars_of(value);
    let mut i: usize = 0;
    while i < cs.len()
        invariant
            cs@ == value@,
            i <= cs@.len(),
            forall|k: int| 0 <= k < i ==> is_token_char(#[trigger] cs@[k]),
        decreases cs@.len() - i,
    {
        if !is_token_char_exec(cs[i]) {
            proof {
                assert(is_first_invalid(value@, i as int));
                let j = choose|j: int| is_first_invalid(value@, j);
                if j < i {
                    assert(is_token_char(cs@[j]));
                } else if j > i {
                    assert(is_token_char(value@[i as int]));
                }
            }
            return Some(cs[i]);
        }
        i = i + 1;
    }
    proof {
        assert(!exists|j: int| is_first_invalid(value@, j));
    }
    None
}

/// The slug alphabet, checked against a fixed list of characters: a token is
/// valid exactly when it is non-empty and each of its characters is one of
/// `a`–`z`, `0`–`9`, `_`, `-`; any other character (`.`, `/`, an upper-case
/// letter, a space) is reported, and the one reported is the first such.
pub proof fn lemma_token_alphabet(s: Seq<char>)
    ensures
        valid_token(s) <==> (s.len() > 0 && forall|k: int| 0 <= k < s.len() ==> {
            let c = #[trigger] s[k];
            ('a' <= c && c <= 'z') || ('0' <= c && c <= '9') || c == '_' || c == '-'
        }),
        first_invalid_spec(s) is None <==> forall|k: int| 0 <= k < s.len() ==> {
            let c = #[trigger] s[k];
            ('a' <= c && c <= 'z') || ('0' <= c && c <= '9') || c == '_' || c == '-'
        },
        forall|i: int| #![trigger s[i]]
            0 <= i < s.len() && !(('a' <= s[i] && s[i] <= 'z') || ('0' <= s[i] && s[i] <= '9') || s[i] == '_' || s[i]
                == '-') && (forall|k: int| 0 <= k < i ==> {
                let c = #[trigger] s[k];
                ('a' <= c && c <= 'z') || ('0' <= c && c <= '9') || c == '_' || c == '-'
            }) ==> first_invalid_spec(s) == Some(s[i]),
{
    assert forall|i: int| #![trigger s[i]]
        0 <= i < s.len() && !(('a' <= s[i] && s[i] <= 'z') || ('0' <= s[i] && s[i] <= '9') || s[i] == '_' || s[i]
            == '-') && (forall|k: int| 0 <= k < i ==> {
            let c = #[trigger] s[k];
            ('a' <= c && c <= 'z') || ('0' <= c && c <= '9') || c == '_' || c == '-'
        }) implies first_invalid_spec(s) == Some(s[i]) by {
        assert(is_first_invalid(s, i));
        let j = choose|j: int| is_first_invalid(s, j);
        if j < i {
            assert(is_token_char(s[j]));
        } else if j > i {
            assert(is_token_char(s[i]));
        }
    }
    if !(forall|k: int| 0 <= k < s.len() ==> is_token_char(#[trigger] s[k])) {
        let k = choose|k: int| 0 <= k < s.len() && !is_token_char(#[trigger] s[k]);
        let i = first_bad_from(s, k);
        assert(is_first_invalid(s, i));
    } else {
        assert(!exists|j: int| is_first_invalid(s, j));
    }
}

/// The first position holding a character outside the alphabet, given one
/// at `k`.
proof fn first_bad_from(s: Seq<char>, k: int) -> (i: int)
    requires
        0 <= k < s.len(),
        !is_token_char(s[k]),
    ensures
        is_first_invalid(s, i),
    decreases k,
{
    if forall|m: int| 0 <= m < k ==> is_token_char(#[trigger] s[m]) {
        k
    } else {
        let m = choose|m: int| 0 <= m < k && !is_token_char(#[trigger] s[m]);
        first_bad_from(s, m)
    }
}

} // verus!
