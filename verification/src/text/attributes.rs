//! Text attribute flags: bold, italic, underline, blink-equivalent and
//! reverse, packed into a single byte. The bit order of the flags is the
//! canonical emission order.

use vstd::prelude::*;

verus! {

/// A set of text attributes.
///
/// Flags are combined with [`union`](Attributes::union) and tested with
/// [`contains`](Attributes::contains).
#[derive(Debug, Clone, Copy, PartialEq, Eq, Structural, Hash)]
pub struct Attributes(u8);

impl View for Attributes {
    type V = u8;

    closed spec fn view(&self) -> u8 {
        self.0
    }
}

impl Default for Attributes {
    /// No attributes.
    fn default() -> (r: Self)
        ensures
            r@ == 0,
    {
        Attributes(0)
    }
}

impl Attributes {
    /// The union of two flag sets, over plain values.
    pub closed spec fn union_spec(self, other: Self) -> Self {
        Attributes(self.0 | other.0)
    }

    /// The union's bits are the bitwise or of the operands' bits.
    pub proof fn lemma_union_bits(self, other: Self)
        ensures
            self.union_spec(other)@ == self@ | other@,
    {
    }

    /// Sets with the same bits are the same set.
    pub proof fn lemma_bits_injective(self, other: Self)
        requires
            self@ == other@,
        ensures
            self == other,
    {
    }

    /// The empty flag set, over plain values.
    pub closed spec fn none_spec() -> Self {
        Attributes(0)
    }

    /// The single-flag sets' bits: bold 1, italic 2, underline 4.
    pub proof fn lemma_flag_bits()
        ensures
            Attributes::bold_spec()@ == 1,
            Attributes::italic_spec()@ == 2,
            Attributes::underline_spec()@ == 4,
    {
    }

    /// The empty set has no bits.
    pub proof fn lemma_none_bits()
        ensures
            Attributes::none_spec()@ == 0,
    {
    }

    /// No attributes.
    pub fn none() -> (r: Self)
        ensures
            r == Attributes::none_spec(),
            r@ == 0,
    {
        Attributes(0)
    }

    /// The bold flag, over plain values.
    pub closed spec fn bold_spec() -> Self {
        Attributes(1)
    }

    /// Bold / increased intensity.
    pub fn bold() -> (r: Self)
        ensures
            r == Attributes::bold_spec(),
            r@ == 1,
    {
        Attributes(1)
    }

    /// The italic flag, over plain values.
    pub closed spec fn italic_spec() -> Self {
        Attributes(2)
    }

    /// Italic.
    pub fn italic() -> (r: Self)
        ensures
            r == Attributes::italic_spec(),
            r@ == 2,
    {
        Attributes(2)
    }

    /// The underline flag, over plain values.
    pub closed spec fn underline_spec() -> Self {
        Attributes(4)
    }

    /// Underline.
    pub fn underline() -> (r: Self)
        ensures
            r == Attributes::underline_spec(),
            r@ == 4,
    {
        Attributes(4)
    }

    /// Blink (or a client's blink-equivalent).
    pub fn blink() -> (r: Self)
        ensures
            r@ == 8,
    {
        Attributes(8)
    }

    /// Reverse video (swap foreground and background).
    pub fn reverse() -> (r: Self)
        ensures
            r@ == 16,
    {
        Attributes(16)
    }

    /// Returns the union of `self` and `other`.
    pub fn union(self, other: Self) -> (r: Self)
        ensures
            r == self.union_spec(other),
            r@ == self@ | other@,
    {
        Attributes(self.0 | other.0)
    }

    /// Returns the union of `self` and `other` (the same as
    /// [`union`](Attributes::union)).
    pub fn insert(self, other: Self) -> (r: Self)
        ensures
            r == self.union_spec(other),
            r@ == self@ | other@,
    {
        Attributes(self.0 | other.0)
    }

    /// Returns `true` if every flag in `other` is set in `self`.
    pub fn contains(self, other: Self) -> (r: bool)
        ensures
            r == (self@ & other@ == other@),
    {
        self.0 & other.0 == other.0
    }

    /// Returns `true` if no attribute is set.
    pub fn is_empty(self) -> (r: bool)
        ensures
            r == (self@ == 0),
    {
        self.0 == 0
    }
}

/// A union holds every flag of both operands, holds nothing else, and adding
/// a flag twice changes nothing.
pub proof fn lemma_union_laws(a: Attributes, b: Attributes, c: Attributes)
    ensures
        a.union_spec(b)@ & a@ == a@,
        a.union_spec(b)@ & b@ == b@,
        a.union_spec(b) == b.union_spec(a),
        a.union_spec(b).union_spec(c) == a.union_spec(b.union_spec(c)),
        a.union_spec(a) == a,
        (c@ & a@ == a@ && c@ & b@ == b@) ==> c@ & a.union_spec(b)@ == a.union_spec(b)@,
{
    let x = a@;
    let y = b@;
    let z = c@;
    assert((x | y) & x == x) by (bit_vector);
    assert((x | y) & y == y) by (bit_vector);
    assert(x | y == y | x) by (bit_vector);
    assert((x | y) | z == x | (y | z)) by (bit_vector);
    assert(x | x == x) by (bit_vector);
    assert((z & x == x && z & y == y) ==> z & (x | y) == (x | y)) by (bit_vector);
    a.union_spec(b).lemma_union_bits(c);
    a.lemma_union_bits(b);
    b.lemma_union_bits(a);
    b.lemma_union_bits(c);
    a.lemma_union_bits(b.union_spec(c));
    a.lemma_union_bits(a);
    a.union_spec(b).lemma_bits_injective(b.union_spec(a));
    a.union_spec(b).union_spec(c).lemma_bits_injective(a.union_spec(b.union_spec(c)));
    a.union_spec(a).lemma_bits_injective(a);
}

} // verus!
