//! Character-level helpers shared by the parsers: turning text into a vector
//! of characters and back, and the character classes the grammars use.

use vstd::prelude::*;
use vstd::string::StringExecFns;

verus! {

/// `String::push`: appends one character.
#[verifier::external_body]
pub(crate) fn push_char(s: &mut String, c: char)
    ensures
        final(s)@ == old(s)@.push(c),
{
    s.push(c);
}

/// `<str as Debug>::fmt`: the quoted, escaped debug form of a string.
pub uninterp spec fn debug_str_of(s: Seq<char>) -> Seq<char>;

/// `format!("{s:?}")`: the quoted, escaped debug form of `s`.
#[verifier::external_body]
pub(crate) fn debug_quote(s: &str) -> (r: String)
    ensures
        r@ == debug_str_of(s@),
{
    format!("{s:?}")
}

/// `<char as Debug>::fmt`: the quoted, escaped debug form of a character.
pub uninterp spec fn debug_char_of(c: char) -> Seq<char>;

/// `format!("{c:?}")`: the quoted, escaped debug form of `c`.
#[verifier::external_body]
pub(crate) fn debug_char(c: char) -> (r: String)
    ensures
        r@ == debug_char_of(c),
{
    format!("{c:?}")
}

/// The characters of `s`, in order.
pub fn chars_of(s: &str) -> (r: Vec<char>)
    ensures
        r@ == s@,
{
    let mut out: Vec<char> = Vec::new();
    for c in it: s.chars()
        invariant
            out@ == it.seq().take(it.index() as int),
            it.seq() == s@,
    {
        out.push(c);
    }
    out
}

/// The string made of `cs[lo..hi]`.
pub fn string_of(cs: &Vec<char>, lo: usize, hi: usize) -> (r: String)
    requires
        lo <= hi <= cs@.len(),
    ensures
        r@ == cs@.subrange(lo as int, hi as int),
{
    let mut out = String::new();
    let mut i = lo;
    while i < hi
        invariant
            lo <= i <= hi <= cs@.len(),
            out@ == cs@.subrange(lo as int, i as int),
        decreases hi - i,
    {
        push_char(&mut out, cs[i]);
        i = i + 1;
        assert(out@ =~= cs@.subrange(lo as int, i as int));
    }
    out
}

/// Unicode `White_Space`: the characters `char::is_whitespace` accepts.
pub open spec fn is_space_spec(c: char) -> bool {
    ||| ('\u{9}' <= c && c <= '\u{d}')
    ||| c == ' '
    ||| c == '\u{85}'
    ||| c == '\u{a0}'
    ||| c == '\u{1680}'
    ||| ('\u{2000}' <= c && c <= '\u{200a}')
    ||| c == '\u{2028}'
    ||| c == '\u{2029}'
    ||| c == '\u{202f}'
    ||| c == '\u{205f}'
    ||| c == '\u{3000}'
}

/// Whether `c` is Unicode whitespace.
pub fn is_space(c: char) -> (r: bool)
    ensures
        r == is_space_spec(c),
{
    ('\u{9}' <= c && c <= '\u{d}') || c == ' ' || c == '\u{85}' || c == '\u{a0}'
        || c == '\u{1680}' || ('\u{2000}' <= c && c <= '\u{200a}') || c == '\u{2028}'
        || c == '\u{2029}' || c == '\u{202f}' || c == '\u{205f}' || c == '\u{3000}'
}

/// ASCII letters.
pub open spec fn is_ascii_alpha_spec(c: char) -> bool {
    ('a' <= c && c <= 'z') || ('A' <= c && c <= 'Z')
}

/// ASCII digits.
pub open spec fn is_ascii_digit_spec(c: char) -> bool {
    '0' <= c && c <= '9'
}

/// Whether two character vectors are equal.
pub fn chars_eq(a: &Vec<char>, b: &[char]) -> (r: bool)
    ensures
        r == (a@ == b@),
{
    if a.len() != b.len() {
        return false;
    }
    let mut i: usize = 0;
    while i < a.len()
        invariant
            a@.len() == b@.len(),
            i <= a@.len(),
            forall|k: int| 0 <= k < i ==> a@[k] == b@[k],
        decreases a@.len() - i,
    {
        if a[i] != b[i] {
            return false;
        }
        i = i + 1;
    }
    proof {
        assert(a@ =~= b@);
    }
    true
}

/// Whether two strings hold the same characters.
pub fn str_eq(a: &str, b: &str) -> (r: bool)
    ensures
        r == (a@ == b@),
{
    let ca = chars_of(a);
    let cb = chars_of(b);
    chars_eq(&ca, cb.as_slice())
}

/// `str::to_lowercase`: the Unicode lowercase mapping of a string.
pub uninterp spec fn lowercase_of(s: Seq<char>) -> Seq<char>;

/// `str::to_lowercase`: lowercases `s` by the Unicode case tables.
#[verifier::external_body]
pub(crate) fn to_lowercase(s: &str) -> (r: String)
    ensures
        r@ == lowercase_of(s@),
{
    s.to_lowercase()
}

/// The number of whitespace characters `s` starts with.
pub open spec fn leading_spaces(s: Seq<char>) -> nat
    decreases s.len(),
{
    if s.len() > 0 && is_space_spec(s[0]) {
        1 + leading_spaces(s.drop_first())
    } else {
        0
    }
}

/// The number of whitespace characters `s` ends with.
pub open spec fn trailing_spaces(s: Seq<char>) -> nat
    decreases s.len(),
{
    if s.len() > 0 && is_space_spec(s.last()) {
        1 + trailing_spaces(s.drop_last())
    } else {
        0
    }
}

/// The number of non-whitespace characters `s` starts with.
pub open spec fn word_len(s: Seq<char>) -> nat
    decreases s.len(),
{
    if s.len() > 0 && !is_space_spec(s[0]) {
        1 + word_len(s.drop_first())
    } else {
        0
    }
}

/// `s` without its leading whitespace.
pub open spec fn trim_start_spec(s: Seq<char>) -> Seq<char> {
    s.skip(leading_spaces(s) as int)
}

/// `s` without its leading and trailing whitespace (`str::trim`).
pub open spec fn trim_spec(s: Seq<char>) -> Seq<char> {
    let u = trim_start_spec(s);
    u.take(u.len() - trailing_spaces(u))
}

/// The bounds of `cs[lo..hi]` once its leading and trailing whitespace is
/// dropped: `cs[a..b]` is the trimmed text.
pub fn trim_bounds(cs: &Vec<char>, lo: usize, hi: usize) -> (r: (usize, usize))
    requires
        lo <= hi <= cs@.len(),
    ensures
        lo <= r.0 <= r.1 <= hi,
        cs@.subrange(r.0 as int, r.1 as int) == trim_spec(cs@.subrange(lo as int, hi as int)),
{
    let mut a = lo;
    while a < hi && is_space(cs[a])
        invariant
            lo <= a <= hi <= cs@.len(),
            leading_spaces(cs@.subrange(lo as int, hi as int)) == (a - lo) + leading_spaces(
                cs@.subrange(a as int, hi as int),
            ),
        decreases hi - a,
    {
        assert(cs@.subrange(a as int, hi as int).drop_first() =~= cs@.subrange(a + 1, hi as int));
        a = a + 1;
    }
    let ghost full = cs@.subrange(lo as int, hi as int);
    assert(full.skip(a - lo) =~= cs@.subrange(a as int, hi as int));
    let mut b = hi;
    while b > a && is_space(cs[b - 1])
        invariant
            lo <= a <= b <= hi <= cs@.len(),
            trailing_spaces(cs@.subrange(a as int, hi as int)) == (hi - b) + trailing_spaces(
                cs@.subrange(a as int, b as int),
            ),
        decreases b - a,
    {
        assert(cs@.subrange(a as int, b as int).drop_last() =~= cs@.subrange(a as int, b - 1));
        b = b - 1;
    }
    assert(cs@.subrange(a as int, hi as int).take(b - a) =~= cs@.subrange(a as int, b as int));
    (a, b)
}

/// The end of the first word of `cs[lo..hi]`: `cs[lo..r]` is its longest
/// prefix without whitespace.
pub fn word_end(cs: &Vec<char>, lo: usize, hi: usize) -> (r: usize)
    requires
        lo <= hi <= cs@.len(),
    ensures
        lo <= r <= hi,
        r - lo == word_len(cs@.subrange(lo as int, hi as int)),
{
    let mut k = lo;
    while k < hi && !is_space(cs[k])
        invariant
            lo <= k <= hi <= cs@.len(),
            word_len(cs@.subrange(lo as int, hi as int)) == (k - lo) + word_len(cs@.subrange(k as int, hi as int)),
        decreases hi - k,
    {
        assert(cs@.subrange(k as int, hi as int).drop_first() =~= cs@.subrange(k + 1, hi as int));
        k = k + 1;
    }
    k
}

/// `s` cut at every `sep`: the pieces between separators, in order (always at
/// least one, possibly empty).
pub open spec fn split_on(s: Seq<char>, sep: char) -> Seq<Seq<char>>
    decreases s.len(),
{
    if s.len() == 0 {
        seq![Seq::<char>::empty()]
    } else {
        let init = split_on(s.drop_last(), sep);
        if s.last() == sep {
            init.push(Seq::<char>::empty())
        } else {
            init.update(init.len() - 1, init.last().push(s.last()))
        }
    }
}

/// The plain-value forms of a list of character vectors.
pub open spec fn pieces_view(v: Seq<Vec<char>>) -> Seq<Seq<char>> {
    v.map_values(|p: Vec<char>| p@)
}

/// Cuts `cs` at every `sep`.
pub fn split_chars(cs: &Vec<char>, sep: char) -> (r: Vec<Vec<char>>)
    ensures
        r@.len() > 0,
        pieces_view(r@) == split_on(cs@, sep),
{
    let mut done: Vec<Vec<char>> = Vec::new();
    let mut cur: Vec<char> = Vec::new();
    let mut i: usize = 0;
    while i < cs.len()
        invariant
            i <= cs@.len(),
            pieces_view(done@).push(cur@) == split_on(cs@.take(i as int), sep),
        decreases cs@.len() - i,
    {
        let c = cs[i];
        let ghost before = pieces_view(done@).push(cur@);
        assert(cs@.take(i + 1).drop_last() =~= cs@.take(i as int));
        if c == sep {
            let piece = cur;
            done.push(piece);
            cur = Vec::new();
            assert(pieces_view(done@).push(cur@) =~= before.push(Seq::<char>::empty()));
        } else {
            cur.push(c);
            assert(pieces_view(done@).push(cur@) =~= before.update(before.len() - 1, before.last().push(c)));
        }
        i = i + 1;
    }
    assert(cs@.take(cs@.len() as int) =~= cs@);
    done.push(cur);
    done
}

/// Lexicographic order on character sequences by code point (the order of
/// `str`'s `Ord`, since UTF-8 preserves code-point order).
pub open spec fn lex_lt(a: Seq<char>, b: Seq<char>) -> bool
    decreases a.len(),
{
    if b.len() == 0 {
        false
    } else if a.len() == 0 {
        true
    } else if a[0] != b[0] {
        a[0] < b[0]
    } else {
        lex_lt(a.drop_first(), b.drop_first())
    }
}

/// No sequence precedes itself.
pub proof fn lemma_lex_irreflexive(a: Seq<char>)
    ensures
        !lex_lt(a, a),
    decreases a.len(),
{
    if a.len() > 0 {
        lemma_lex_irreflexive(a.drop_first());
    }
}

/// The order is transitive.
pub proof fn lemma_lex_transitive(a: Seq<char>, b: Seq<char>, c: Seq<char>)
    requires
        lex_lt(a, b),
        lex_lt(b, c),
    ensures
        lex_lt(a, c),
    decreases a.len(),
{
    if a.len() > 0 && b.len() > 0 && c.len() > 0 && a[0] == b[0] && b[0] == c[0] {
        lemma_lex_transitive(a.drop_first(), b.drop_first(), c.drop_first());
    }
}

/// Two different sequences are ordered one way or the other.
pub proof fn lemma_lex_total(a: Seq<char>, b: Seq<char>)
    requires
        a != b,
    ensures
        lex_lt(a, b) || lex_lt(b, a),
    decreases a.len(),
{
    if a.len() == 0 {
        if b.len() == 0 {
            assert(a =~= b);
        }
    } else if b.len() == 0 {
    } else if a[0] == b[0] {
        if a.drop_first() == b.drop_first() {
            assert(a =~= seq![a[0]] + a.drop_first());
            assert(b =~= seq![b[0]] + b.drop_first());
        }
        lemma_lex_total(a.drop_first(), b.drop_first());
    }
}

/// The order never holds both ways.
pub proof fn lemma_lex_asymmetric(a: Seq<char>, b: Seq<char>)
    requires
        lex_lt(a, b),
    ensures
        !lex_lt(b, a),
    decreases a.len(),
{
    if a.len() > 0 && b.len() > 0 && a[0] == b[0] {
        lemma_lex_asymmetric(a.drop_first(), b.drop_first());
    }
}

/// Whether `a` precedes `b` lexicographically.
pub fn lex_less(a: &Vec<char>, b: &Vec<char>) -> (r: bool)
    ensures
        r == lex_lt(a@, b@),
{
    let mut i: usize = 0;
    assert(a@.skip(0) =~= a@);
    assert(b@.skip(0) =~= b@);
    while i < a.len() && i < b.len()
        invariant
            i <= a@.len(),
            i <= b@.len(),
            lex_lt(a@, b@) == lex_lt(a@.skip(i as int), b@.skip(i as int)),
        decreases a@.len() - i,
    {
        assert(a@.skip(i as int)[0] == a@[i as int]);
        assert(b@.skip(i as int)[0] == b@[i as int]);
        if a[i] != b[i] {
            return a[i] < b[i];
        }
        assert(a@.skip(i as int).drop_first() =~= a@.skip(i + 1));
        assert(b@.skip(i as int).drop_first() =~= b@.skip(i + 1));
        i = i + 1;
    }
    i < b.len()
}

/// The decimal digit for `d` (0 to 9).
pub open spec fn digit_char(d: int) -> char {
    (d + '0' as int) as char
}

/// The decimal form of `n`, without leading zeros.
pub open spec fn decimal_spec(n: nat) -> Seq<char>
    decreases n,
{
    if n < 10 {
        seq![digit_char(n as int)]
    } else {
        decimal_spec(n / 10).push(digit_char((n % 10) as int))
    }
}

/// The decimal form of `n`.
pub fn decimal(n: usize) -> (r: String)
    ensures
        r@ == decimal_spec(n as nat),
    decreases n,
{
    let d = ((n % 10) as u32 + '0' as u32) as u8 as char;
    if n < 10 {
        let mut s = String::new();
        push_char(&mut s, d);
        assert(s@ =~= decimal_spec(n as nat));
        s
    } else {
        let mut s = decimal(n / 10);
        push_char(&mut s, d);
        s
    }
}

/// The decimal form of `n`.
pub fn decimal_u64(n: u64) -> (r: String)
    ensures
        r@ == decimal_spec(n as nat),
    decreases n,
{
    let d = ((n % 10) as u32 + '0' as u32) as u8 as char;
    if n < 10 {
        let mut s = String::new();
        push_char(&mut s, d);
        assert(s@ =~= decimal_spec(n as nat));
        s
    } else {
        let mut s = decimal_u64(n / 10);
        push_char(&mut s, d);
        s
    }
}

/// The decimal form of the signed `n`: a leading `-` for a negative value.
pub open spec fn signed_decimal_spec(n: int) -> Seq<char> {
    if n < 0 {
        seq!['-'] + decimal_spec((-n) as nat)
    } else {
        decimal_spec(n as nat)
    }
}

/// The decimal form of the signed `n`.
pub fn decimal_i64(n: i64) -> (r: String)
    ensures
        r@ == signed_decimal_spec(n as int),
{
    if n < 0 {
        let magnitude: u64 = if n == i64::MIN { 9223372036854775808u64 } else { (0 - n) as u64 };
        let mut s = String::new();
        push_char(&mut s, '-');
        s.append(decimal_u64(magnitude).as_str());
        assert(s@ =~= seq!['-'] + decimal_spec((-n) as nat));
        s
    } else {
        decimal_u64(n as u64)
    }
}

/// `prefix` followed by `tail`, as a new string.
pub fn joined(prefix: &str, tail: &str) -> (r: String)
    ensures
        r@ == prefix@ + tail@,
{
    let mut s = prefix.to_owned();
    s.append(tail);
    s
}

} // verus!
