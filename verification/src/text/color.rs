//! 24-bit color. Builders author colors in truecolor regardless of any
//! client's capability; narrowing to a terminal's tier happens at render time.

use vstd::prelude::*;
use crate::chars::{chars_of, debug_char, debug_char_of, decimal, decimal_spec, joined, push_char};

verus! {

/// A 24-bit RGB color.
#[derive(Debug, Clone, Copy, PartialEq, Eq, Structural, Hash)]
pub struct Color {
    r: u8,
    g: u8,
    b: u8,
}

impl View for Color {
    type V = (u8, u8, u8);

    closed spec fn view(&self) -> (u8, u8, u8) {
        (self.r, self.g, self.b)
    }
}

/// The reason a string could not be parsed into a [`Color`].
#[derive(Debug, Clone, Copy, PartialEq, Eq, Structural)]
#[non_exhaustive]
pub enum ColorParseError {
    /// The string did not start with `#`.
    MissingHash,
    /// The string was not exactly six hex digits after the `#`; their count.
    BadLength(usize),
    /// The string contained a character outside `[0-9a-fA-F]`; the first one.
    InvalidDigit(char),
}

impl ColorParseError {
    /// The human-readable message for this error.
    pub fn message(&self) -> (r: String)
        ensures
            r@ == (match *self {
                ColorParseError::MissingHash => "color must start with '#'"@,
                ColorParseError::BadLength(n) => "color must be #rrggbb (6 hex digits), got "@ + decimal_spec(n as nat),
                ColorParseError::InvalidDigit(c) => "color contains a non-hex character "@ + debug_char_of(c),
            }),
    {
        match *self {
            ColorParseError::MissingHash => "color must start with '#'".to_owned(),
            ColorParseError::BadLength(n) => joined("color must be #rrggbb (6 hex digits), got ", decimal(n).as_str()),
            ColorParseError::InvalidDigit(c) => joined("color contains a non-hex character ", debug_char(c).as_str()),
        }
    }
}

/// Whether `c` is an ASCII hex digit.
pub open spec fn is_hex_digit(c: char) -> bool {
    ('0' <= c && c <= '9') || ('a' <= c && c <= 'f') || ('A' <= c && c <= 'F')
}

/// The value of a hex digit.
pub open spec fn hex_value(c: char) -> int {
    if '0' <= c && c <= '9' {
        c as int - '0' as int
    } else if 'a' <= c && c <= 'f' {
        c as int - 'a' as int + 10
    } else {
        c as int - 'A' as int + 10
    }
}

/// The lowercase hex digit for `v` (0 to 15).
pub open spec fn hex_digit(v: int) -> char {
    if v < 10 {
        (v + '0' as int) as char
    } else {
        (v - 10 + 'a' as int) as char
    }
}

/// `i` is the first position of `s` holding a non-hex character.
pub open spec fn is_first_non_hex(s: Seq<char>, i: int) -> bool {
    &&& 0 <= i < s.len()
    &&& !is_hex_digit(s[i])
    &&& forall|k: int| 0 <= k < i ==> is_hex_digit(#[trigger] s[k])
}

/// The byte spelled by two hex digits.
pub open spec fn pair_value(hi: char, lo: char) -> int {
    16 * hex_value(hi) + hex_value(lo)
}

/// The result of parsing `s` as `#rrggbb`, over plain values: the hash is
/// checked first, then every digit, then the length.
pub open spec fn from_hex_spec(s: Seq<char>) -> Result<(u8, u8, u8), ColorParseError> {
    if s.len() == 0 || s[0] != '#' {
        Err(ColorParseError::MissingHash)
    } else {
        let d = s.drop_first();
        if exists|i: int| is_first_non_hex(d, i) {
            Err(ColorParseError::InvalidDigit(d[choose|i: int| is_first_non_hex(d, i)]))
        } else if d.len() != 6 {
            Err(ColorParseError::BadLength(d.len() as usize))
        } else {
            Ok((pair_value(d[0], d[1]) as u8, pair_value(d[2], d[3]) as u8, pair_value(d[4], d[5]) as u8))
        }
    }
}

/// The `#rrggbb` authoring form of a color, lowercase.
pub open spec fn hex_spec(c: (u8, u8, u8)) -> Seq<char> {
    seq![
        '#',
        hex_digit(c.0 as int / 16),
        hex_digit(c.0 as int % 16),
        hex_digit(c.1 as int / 16),
        hex_digit(c.1 as int % 16),
        hex_digit(c.2 as int / 16),
        hex_digit(c.2 as int % 16),
    ]
}

fn hex_value_exec(c: char) -> (r: u8)
    requires
        is_hex_digit(c),
    ensures
        r == hex_value(c),
{
    if '0' <= c && c <= '9' {
        (c as u32 - '0' as u32) as u8
    } else if 'a' <= c && c <= 'f' {
        (c as u32 - 'a' as u32 + 10) as u8
    } else {
        (c as u32 - 'A' as u32 + 10) as u8
    }
}

fn hex_digit_exec(v: u8) -> (r: char)
    requires
        v < 16,
    ensures
        r == hex_digit(v as int),
{
    if v < 10 {
        ((v as u32) + ('0' as u32)) as u8 as char
    } else {
        ((v as u32) - 10 + ('a' as u32)) as u8 as char
    }
}

impl Color {
    /// The color with the given components, over plain values.
    pub closed spec fn rgb_spec(r: u8, g: u8, b: u8) -> Self {
        Color { r, g, b }
    }

    /// A color from its red, green, and blue components.
    pub fn rgb(r: u8, g: u8, b: u8) -> (c: Self)
        ensures
            c == Color::rgb_spec(r, g, b),
            c@ == (r, g, b),
    {
        Color { r, g, b }
    }

    /// Colors with the same components are the same color.
    pub proof fn lemma_view_injective(self, other: Self)
        requires
            self@ == other@,
        ensures
            self == other,
    {
    }

    /// The red component.
    pub fn r(self) -> (v: u8)
        ensures
            v == self@.0,
    {
        self.r
    }

    /// The green component.
    pub fn g(self) -> (v: u8)
        ensures
            v == self@.1,
    {
        self.g
    }

    /// The blue component.
    pub fn b(self) -> (v: u8)
        ensures
            v == self@.2,
    {
        self.b
    }

    /// Parses a `#rrggbb` hex string into a [`Color`]: a missing `#` is
    /// reported first, then the first non-hex character, then a digit count
    /// other than six.
    pub fn from_hex(text: &str) -> (r: Result<Self, ColorParseError>)
        ensures
            match (r, from_hex_spec(text@)) {
                (Ok(c), Ok(v)) => c@ == v,
                (Err(e), Err(f)) => e == f,
                _ => false,
            },
    {
        let cs = chars_of(text);
        if cs.len() == 0 || cs[0] != '#' {
            return Err(ColorParseError::MissingHash);
        }
        let ghost d = cs@.drop_first();
        let mut i: usize = 1;
        while i < cs.len()
            invariant
                cs@ == text@,
                cs@.len() > 0 && cs@[0] == '#',
                d == cs@.drop_first(),
                1 <= i <= cs@.len(),
                forall|k: int| 0 <= k < i - 1 ==> is_hex_digit(#[trigger] d[k]),
            decreases cs@.len() - i,
        {
            let c = cs[i];
            if !(('0' <= c && c <= '9') || ('a' <= c && c <= 'f') || ('A' <= c && c <= 'F')) {
                proof {
                    assert(d[i - 1] == c);
                    assert(is_first_non_hex(d, i - 1));
                    let j = choose|j: int| is_first_non_hex(d, j);
                    if j < i - 1 {
                        assert(is_hex_digit(d[j]));
                    } else if j > i - 1 {
                        assert(is_hex_digit(d[i - 1]));
                    }
                }
                return Err(ColorParseError::InvalidDigit(c));
            }
            i = i + 1;
        }
        assert(!exists|j: int| is_first_non_hex(d, j));
        let n = cs.len() - 1;
        if n != 6 {
            return Err(ColorParseError::BadLength(n));
        }
        assert(forall|k: int| 0 <= k < 6 ==> d[k] == cs@[k + 1]);
        assert(is_hex_digit(d[0]) && is_hex_digit(d[1]) && is_hex_digit(d[2]));
        assert(is_hex_digit(d[3]) && is_hex_digit(d[4]) && is_hex_digit(d[5]));
        let r = hex_value_exec(cs[1]) * 16 + hex_value_exec(cs[2]);
        let g = hex_value_exec(cs[3]) * 16 + hex_value_exec(cs[4]);
        let b = hex_value_exec(cs[5]) * 16 + hex_value_exec(cs[6]);
        Ok(Color { r, g, b })
    }

    /// The canonical `#rrggbb` authoring form, lowercase.
    pub fn to_string(&self) -> (s: String)
        ensures
            s@ == hex_spec(self@),
    {
        let mut s = String::new();
        push_char(&mut s, '#');
        push_char(&mut s, hex_digit_exec(self.r / 16));
        push_char(&mut s, hex_digit_exec(self.r % 16));
        push_char(&mut s, hex_digit_exec(self.g / 16));
        push_char(&mut s, hex_digit_exec(self.g % 16));
        push_char(&mut s, hex_digit_exec(self.b / 16));
        push_char(&mut s, hex_digit_exec(self.b % 16));
        assert(s@ =~= hex_spec(self@));
        s
    }
}

proof fn lemma_digit_round_trip(v: int)
    requires
        0 <= v < 16,
    ensures
        is_hex_digit(hex_digit(v)),
        hex_value(hex_digit(v)) == v,
{
}

/// Parsing the authoring form of a color gives the color back.
pub proof fn lemma_hex_round_trip(c: (u8, u8, u8))
    ensures
        from_hex_spec(hex_spec(c)) == Ok::<(u8, u8, u8), ColorParseError>(c),
{
    let s = hex_spec(c);
    let d = s.drop_first();
    lemma_digit_round_trip(c.0 as int / 16);
    lemma_digit_round_trip(c.0 as int % 16);
    lemma_digit_round_trip(c.1 as int / 16);
    lemma_digit_round_trip(c.1 as int % 16);
    lemma_digit_round_trip(c.2 as int / 16);
    lemma_digit_round_trip(c.2 as int % 16);
    assert(forall|k: int| 0 <= k < d.len() ==> is_hex_digit(#[trigger] d[k]));
    assert(!exists|i: int| is_first_non_hex(d, i));
    assert(pair_value(d[0], d[1]) == c.0);
    assert(pair_value(d[2], d[3]) == c.1);
    assert(pair_value(d[4], d[5]) == c.2);
}

} // verus!
