//! Slug validation shared by the durable key types.

use vstd::prelude::*;
use vstd::string::StringExecFns;
use crate::chars::{debug_char, debug_char_of, joined};
use crate::cmd::token::{all_token_chars, first_invalid_spec, first_invalid_token_char};

verus! {

/// Returns the first character outside the slug alphabet `[a-z0-9_-]`, or
/// `None` if every character is allowed. Shared by the place and region keys
/// so their notion of a valid slug cannot drift apart; the alphabet is the
/// command-token alphabet.
pub fn first_invalid_slug_char(value: &str) -> (r: Option<char>)
    ensures
        r == first_invalid_spec(value@),
        r is None <==> all_token_chars(value@),
{
    first_invalid_token_char(value)
}

/// The message for a slug of the kind `what` that holds the disallowed
/// character `c`.
pub open spec fn bad_slug_message(what: Seq<char>, c: char) -> Seq<char> {
    what + " contains an invalid character "@ + debug_char_of(c) + " (allowed: a-z, 0-9, '_', '-')"@
}

/// Builds [`bad_slug_message`].
pub fn bad_slug_text(what: &str, c: char) -> (r: String)
    ensures
        r@ == bad_slug_message(what@, c),
{
    let mut s = joined(what, " contains an invalid character ");
    s.append(debug_char(c).as_str());
    s.append(" (allowed: a-z, 0-9, '_', '-')");
    s
}

} // verus!
