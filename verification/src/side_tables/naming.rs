//! The naming side-table: the keywords each entity answers to.

use vstd::prelude::*;
use crate::chars::{lowercase_of, to_lowercase};
use crate::entity::EntityId;

verus! {

/// A single lookup keyword an entity answers to (e.g. `sword`, `goblin`),
/// lowercased on construction so command-argument matching is
/// case-insensitive without re-casing at every comparison.
#[derive(Debug, Clone, PartialEq, Eq, Hash)]
pub struct Keyword(String);

impl View for Keyword {
    type V = Seq<char>;

    closed spec fn view(&self) -> Seq<char> {
        self.0@
    }
}

impl Keyword {
    /// Wraps `text` as a keyword, lowercased for case-insensitive matching.
    pub fn new(text: &str) -> (r: Self)
        ensures
            r@ == lowercase_of(text@),
    {
        Keyword(to_lowercase(text))
    }

    /// The normalized (lowercased) keyword text.
    pub fn as_str(&self) -> (r: &str)
        ensures
            r@ == self@,
    {
        self.0.as_str()
    }
}

/// The plain-value forms of a list of keywords.
pub open spec fn keywords_view(v: Seq<Keyword>) -> Seq<Seq<char>> {
    v.map_values(|k: Keyword| k@)
}

/// The keywords each entity answers to: a dense table keyed by slot.
///
/// Pure storage: liveness is the arena's concern. The table records the
/// keywords as given; matching and disambiguation live in the command layer.
#[derive(Debug)]
pub struct Naming {
    by_slot: Vec<Vec<Keyword>>,
}

impl Naming {
    /// The keywords the entity at slot `s` answers to.
    pub closed spec fn names(&self, s: u32) -> Seq<Seq<char>> {
        if (s as int) < self.by_slot@.len() {
            keywords_view(self.by_slot@[s as int]@)
        } else {
            Seq::empty()
        }
    }

    /// Creates an empty naming table.
    pub fn new() -> (r: Self)
        ensures
            forall|s: u32| #[trigger] r.names(s) == Seq::<Seq<char>>::empty(),
    {
        Naming { by_slot: Vec::new() }
    }

    /// Sets `entity`'s keywords, replacing any previously set list.
    pub fn set(&mut self, entity: EntityId, keywords: Vec<Keyword>)
        ensures
            forall|s: u32| s != entity.slot_spec() ==> #[trigger] final(self).names(s) == old(self).names(s),
            entity.slot_spec() as int == usize::MAX ==> final(self).names(entity.slot_spec()) == old(self).names(
                entity.slot_spec(),
            ),
            (entity.slot_spec() as int) < usize::MAX ==> final(self).names(entity.slot_spec()) == keywords_view(
                keywords@,
            ),
    {
        let index = match entity.slot().to_index() {
            Some(index) => index,
            None => return,
        };
        if index >= self.by_slot.len() {
            let len = match index.checked_add(1) {
                Some(len) => len,
                None => return,
            };
            while self.by_slot.len() < len
                invariant
                    self.by_slot@.len() <= len,
                    forall|s: u32| #[trigger] self.names(s) == old(self).names(s),
                decreases len - self.by_slot@.len(),
            {
                let ghost before = *self;
                self.by_slot.push(Vec::new());
                assert forall|s: u32| #[trigger] self.names(s) == before.names(s) by {
                    if (s as int) == before.by_slot@.len() {
                        assert(keywords_view(self.by_slot@[s as int]@) =~= Seq::<Seq<char>>::empty());
                    }
                }
            }
        }
        let ghost grown = *self;
        self.by_slot.set(index, keywords);
        assert forall|s: u32| s != entity.slot_spec() implies #[trigger] self.names(s) == old(self).names(s) by {
            assert(grown.names(s) == old(self).names(s));
        }
    }

    /// Drops every keyword for `entity`, so a reused slot inherits no stale
    /// keywords. A no-op for an unnamed or unknown entity.
    pub fn clear(&mut self, entity: EntityId)
        ensures
            forall|s: u32| s != entity.slot_spec() ==> #[trigger] final(self).names(s) == old(self).names(s),
            final(self).names(entity.slot_spec()) == Seq::<Seq<char>>::empty(),
    {
        let index = match entity.slot().to_index() {
            Some(index) => index,
            None => return,
        };
        if index < self.by_slot.len() {
            self.by_slot.set(index, Vec::new());
            assert(self.names(entity.slot_spec()) =~= Seq::<Seq<char>>::empty());
        }
    }

    /// The keywords `entity` answers to. Empty for an unnamed or unknown
    /// entity.
    pub fn keywords(&self, entity: EntityId) -> (r: &[Keyword])
        ensures
            keywords_view(r@) == self.names(entity.slot_spec()),
    {
        let index = match entity.slot().to_index() {
            Some(index) => index,
            None => return &[],
        };
        if index < self.by_slot.len() {
            self.by_slot[index].as_slice()
        } else {
            let r: &[Keyword] = &[];
            assert(keywords_view(r@) =~= Seq::<Seq<char>>::empty());
            r
        }
    }
}

} // verus!
