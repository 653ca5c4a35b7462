//! The mapping between a room's durable slug and its in-process handle.
//!
//! The database persists a location by its durable slug; the in-memory world
//! addresses places by the handle minted at world load. A `PlaceMap`,
//! supplied by the world loader, bridges the two.

use std::collections::HashMap;
use vstd::prelude::*;
use crate::place::id::PlaceId;
use crate::place::key::PlaceKey;
use crate::chars::str_eq;

verus! {

/// `j` holds the last pair whose handle is `id`.
pub open spec fn is_last_id(pairs: Seq<(PlaceId, Seq<char>)>, id: PlaceId, j: int) -> bool {
    &&& 0 <= j < pairs.len()
    &&& pairs[j].0 == id
    &&& forall|q: int| j < q < pairs.len() ==> (#[trigger] pairs[q]).0 != id
}

/// `j` holds the last pair whose slug is `key`.
pub open spec fn is_last_key(pairs: Seq<(PlaceId, Seq<char>)>, key: Seq<char>, j: int) -> bool {
    &&& 0 <= j < pairs.len()
    &&& pairs[j].1 == key
    &&& forall|q: int| j < q < pairs.len() ==> (#[trigger] pairs[q]).1 != key
}

/// The slug of `id`: that of the last pair naming it.
pub open spec fn key_of_spec(pairs: Seq<(PlaceId, Seq<char>)>, id: PlaceId) -> Option<Seq<char>> {
    if exists|j: int| is_last_id(pairs, id, j) {
        Some(pairs[choose|j: int| is_last_id(pairs, id, j)].1)
    } else {
        None
    }
}

/// The handle of `key`: that of the last pair naming it.
pub open spec fn id_of_spec(pairs: Seq<(PlaceId, Seq<char>)>, key: Seq<char>) -> Option<PlaceId> {
    if exists|j: int| is_last_key(pairs, key, j) {
        Some(pairs[choose|j: int| is_last_key(pairs, key, j)].0)
    } else {
        None
    }
}

/// `j` holds the last pair whose handle has the value `u`.
spec fn is_last_value(pairs: Seq<(PlaceId, Seq<char>)>, u: u64, j: int) -> bool {
    &&& 0 <= j < pairs.len()
    &&& pairs[j].0@ == u
    &&& forall|q: int| j < q < pairs.len() ==> (#[trigger] pairs[q]).0@ != u
}

/// `index` maps the value of each handle among `pairs` to the position of its
/// last pair, and holds nothing else.
spec fn indexes(pairs: Seq<(PlaceId, Seq<char>)>, index: Map<u64, usize>) -> bool {
    &&& forall|u: u64| #[trigger] index.contains_key(u) ==> is_last_value(pairs, u, index[u] as int)
    &&& forall|j: int| 0 <= j < pairs.len() ==> index.contains_key(#[trigger] pairs[j].0@)
}

/// A bidirectional map between durable slugs and in-process handles for one
/// loaded world; a repeated handle or slug keeps the last pair seen. Handles
/// are looked up through an index by the handle's value.
#[derive(Debug, Clone)]
pub struct PlaceMap {
    pairs: Vec<(PlaceId, PlaceKey)>,
    by_id: HashMap<u64, usize>,
}

/// The plain-value form of the pairs.
pub open spec fn pairs_view(v: Seq<(PlaceId, PlaceKey)>) -> Seq<(PlaceId, Seq<char>)> {
    v.map_values(|p: (PlaceId, PlaceKey)| (p.0, p.1@))
}

impl PlaceMap {
    /// The index covers the pairs.
    pub closed spec fn wf(&self) -> bool {
        indexes(pairs_view(self.pairs@), self.by_id@)
    }

    /// The pairs, in the order given.
    pub closed spec fn pairs_spec(&self) -> Seq<(PlaceId, Seq<char>)> {
        pairs_view(self.pairs@)
    }

    /// Builds a map from `(PlaceId, PlaceKey)` pairs.
    pub fn from_pairs(pairs: Vec<(PlaceId, PlaceKey)>) -> (r: Self)
        ensures
            r.wf(),
            r.pairs_spec() == pairs_view(pairs@),
    {
        broadcast use vstd::std_specs::hash::group_hash_axioms;

        let ghost pv = pairs_view(pairs@);
        let mut by_id: HashMap<u64, usize> = HashMap::new();
        let mut i: usize = 0;
        while i < pairs.len()
            invariant
                pv == pairs_view(pairs@),
                i <= pairs@.len(),
                indexes(pv.take(i as int), by_id@),
            decreases pairs@.len() - i,
        {
            let u = pairs[i].0.get();
            let ghost before = by_id@;
            let ghost t = pv.take(i + 1);
            by_id.insert(u, i);
            proof {
                assert(pv[i as int].0@ == u);
                assert(t.drop_last() =~= pv.take(i as int));
                assert forall|w: u64| #[trigger] by_id@.contains_key(w) implies is_last_value(t, w, by_id@[w] as int) by {
                    if w != u {
                        let k = before[w] as int;
                        assert(is_last_value(pv.take(i as int), w, k));
                        assert(t[k] == pv.take(i as int)[k]);
                        assert forall|q: int| k < q < t.len() implies (#[trigger] t[q]).0@ != w by {
                            if q < i {
                                assert(t[q] == pv.take(i as int)[q]);
                            }
                        }
                    }
                }
                assert forall|j: int| 0 <= j < t.len() implies by_id@.contains_key(#[trigger] t[j].0@) by {
                    if j < i {
                        assert(t[j] == pv.take(i as int)[j]);
                    }
                }
            }
            i = i + 1;
        }
        proof {
            assert(pv.take(pairs@.len() as int) =~= pv);
        }
        PlaceMap { pairs, by_id }
    }

    /// The durable slug of a handle, if it names a known room.
    pub fn key_of(&self, id: PlaceId) -> (r: Option<&PlaceKey>)
        requires
            self.wf(),
        ensures
            match r {
                Some(k) => key_of_spec(self.pairs_spec(), id) == Some(k@),
                None => key_of_spec(self.pairs_spec(), id) is None,
            },
    {
        broadcast use vstd::std_specs::hash::group_hash_axioms;

        let ghost pv = self.pairs_spec();
        match self.by_id.get(&id.get()) {
            Some(j) => {
                let j = *j;
                proof {
                    assert(is_last_value(pv, id@, j as int));
                    assert(pv[j as int] == (self.pairs@[j as int].0, self.pairs@[j as int].1@));
                    pv[j as int].0.lemma_view_injective(id);
                    assert forall|q: int| j < q < pv.len() implies (#[trigger] pv[q]).0 != id by {
                        assert(pv[q].0@ != id@);
                    }
                    assert(is_last_id(pv, id, j as int));
                    let c = choose|c: int| is_last_id(pv, id, c);
                    if c < j {
                        assert(pv[j as int].0 == id);
                    } else if c > j {
                        assert(pv[c].0 != id);
                    }
                }
                Some(&self.pairs[j].1)
            },
            None => {
                proof {
                    if exists|c: int| is_last_id(pv, id, c) {
                        let c = choose|c: int| is_last_id(pv, id, c);
                        assert(self.by_id@.contains_key(pv[c].0@));
                    }
                }
                None
            },
        }
    }

    /// The handle of a durable slug, if it names a known room.
    pub fn id_of(&self, key: &PlaceKey) -> (r: Option<PlaceId>)
        ensures
            r == id_of_spec(self.pairs_spec(), key@),
    {
        let ghost pv = self.pairs_spec();
        let mut j: usize = self.pairs.len();
        while j > 0
            invariant
                pv == pairs_view(self.pairs@),
                j <= self.pairs@.len(),
                forall|q: int| j <= q < pv.len() ==> (#[trigger] pv[q]).1 != key@,
            decreases j,
        {
            j = j - 1;
            assert(pv[j as int] == (self.pairs@[j as int].0, self.pairs@[j as int].1@));
            if str_eq(self.pairs[j].1.as_str(), key.as_str()) {
                proof {
                    assert(is_last_key(pv, key@, j as int));
                    let c = choose|c: int| is_last_key(pv, key@, c);
                    if c < j {
                        assert(pv[j as int].1 == key@);
                    } else if c > j {
                        assert(pv[c].1 != key@);
                    }
                }
                return Some(self.pairs[j].0);
            }
        }
        assert(!exists|c: int| is_last_key(pv, key@, c));
        None
    }
}

/// For one-to-one pairs the map works both ways: each pair's handle maps
/// to its slug and back.
pub proof fn lemma_maps_both_ways(pairs: Seq<(PlaceId, Seq<char>)>, i: int)
    requires
        0 <= i < pairs.len(),
        forall|a: int, b: int| 0 <= a < b < pairs.len() ==> (#[trigger] pairs[a]).0 != (#[trigger] pairs[b]).0,
        forall|a: int, b: int| 0 <= a < b < pairs.len() ==> (#[trigger] pairs[a]).1 != (#[trigger] pairs[b]).1,
    ensures
        key_of_spec(pairs, pairs[i].0) == Some(pairs[i].1),
        id_of_spec(pairs, pairs[i].1) == Some(pairs[i].0),
{
    assert(is_last_id(pairs, pairs[i].0, i));
    assert(is_last_key(pairs, pairs[i].1, i));
    let c = choose|c: int| is_last_id(pairs, pairs[i].0, c);
    if c != i {
        if c < i {
            assert(pairs[c].0 != pairs[i].0);
        } else {
            assert(pairs[i].0 != pairs[c].0);
        }
    }
    let d = choose|d: int| is_last_key(pairs, pairs[i].1, d);
    if d != i {
        if d < i {
            assert(pairs[d].1 != pairs[i].1);
        } else {
            assert(pairs[i].1 != pairs[d].1);
        }
    }
}

} // verus!
