//! Place identifiers: the ephemeral in-process handle of a place.

use vstd::prelude::*;

verus! {

/// The ephemeral in-process handle of a place: a dense, 1-based handle minted
/// when the world is loaded, so an absent neighbour or exit is `None`, never a
/// meaningless id `0`.
#[derive(Debug, Clone, Copy, PartialEq, Eq, Structural, PartialOrd, Ord, Hash)]
pub struct PlaceId(u64);

impl View for PlaceId {
    type V = u64;

    closed spec fn view(&self) -> u64 {
        self.0
    }
}

impl PlaceId {
    /// The handles are exactly the non-zero values.
    #[verifier::type_invariant]
    spec fn nonzero(&self) -> bool {
        self.0 != 0
    }

    /// Wraps a place identifier value; `None` for zero.
    pub fn new(value: u64) -> (r: Option<Self>)
        ensures
            value == 0 ==> r is None,
            value != 0 ==> (r matches Some(p) && p@ == value),
    {
        if value == 0 {
            None
        } else {
            Some(PlaceId(value))
        }
    }

    /// Returns the underlying identifier value, never zero.
    pub fn get(self) -> (r: u64)
        ensures
            r == self@,
            r != 0,
    {
        proof {
            use_type_invariant(&self);
        }
        self.0
    }

    /// Handles with the same value are the same handle.
    pub proof fn lemma_view_injective(self, other: Self)
        requires
            self@ == other@,
        ensures
            self == other,
    {
    }
}

} // verus!
