//! A small map from names to copyable values, kept as a vector of entries in
//! which each name appears once.

use vstd::prelude::*;
use crate::chars::str_eq;

verus! {

/// The map a list of entries denotes: later entries override earlier ones.
pub open spec fn pairs_map<V>(s: Seq<(String, V)>) -> Map<Seq<char>, V>
    decreases s.len(),
{
    if s.len() == 0 {
        Map::empty()
    } else {
        pairs_map(s.drop_last()).insert(s.last().0@, s.last().1)
    }
}

/// `j` holds the last entry named `k`.
pub open spec fn is_last_of<V>(s: Seq<(String, V)>, k: Seq<char>, j: int) -> bool {
    &&& 0 <= j < s.len()
    &&& s[j].0@ == k
    &&& forall|q: int| j < q < s.len() ==> (#[trigger] s[q]).0@ != k
}

proof fn lemma_last_entry<V>(s: Seq<(String, V)>, k: Seq<char>, j: int)
    requires
        is_last_of(s, k, j),
    ensures
        pairs_map(s).contains_key(k),
        pairs_map(s)[k] == s[j].1,
    decreases s.len(),
{
    if j < s.len() - 1 {
        assert(s[s.len() - 1].0@ != k);
        let d = s.drop_last();
        assert forall|q: int| j < q < d.len() implies (#[trigger] d[q]).0@ != k by {
            assert(d[q] == s[q]);
        }
        lemma_last_entry(d, k, j);
    }
}

proof fn lemma_no_entry<V>(s: Seq<(String, V)>, k: Seq<char>)
    requires
        forall|q: int| 0 <= q < s.len() ==> (#[trigger] s[q]).0@ != k,
    ensures
        !pairs_map(s).contains_key(k),
    decreases s.len(),
{
    if s.len() > 0 {
        let d = s.drop_last();
        assert forall|q: int| 0 <= q < d.len() implies (#[trigger] d[q]).0@ != k by {
            assert(d[q] == s[q]);
        }
        assert(s[s.len() - 1].0@ != k);
        lemma_no_entry(d, k);
    }
}

proof fn lemma_update_last<V>(s: Seq<(String, V)>, k: Seq<char>, j: int, v: V)
    requires
        is_last_of(s, k, j),
    ensures
        pairs_map(s.update(j, (s[j].0, v))) == pairs_map(s).insert(k, v),
    decreases s.len(),
{
    let u = s.update(j, (s[j].0, v));
    let d = s.drop_last();
    if j == s.len() - 1 {
        assert(u.drop_last() =~= d);
        assert(pairs_map(u) =~= pairs_map(s).insert(k, v));
    } else {
        assert forall|q: int| j < q < d.len() implies (#[trigger] d[q]).0@ != k by {
            assert(d[q] == s[q]);
        }
        lemma_update_last(d, k, j, v);
        assert(u.drop_last() =~= d.update(j, (d[j].0, v)));
        assert(s.last().0@ != k);
        assert(pairs_map(u) =~= pairs_map(s).insert(k, v));
    }
}

/// A map from names to values.
#[derive(Debug, Clone, PartialEq, Eq)]
pub struct NameMap<V> {
    entries: Vec<(String, V)>,
}

impl<V: Copy> NameMap<V> {
    /// The names held and the value each maps to.
    pub closed spec fn map(&self) -> Map<Seq<char>, V> {
        pairs_map(self.entries@)
    }

    /// An empty map.
    pub fn new() -> (r: Self)
        ensures
            r.map() == Map::<Seq<char>, V>::empty(),
    {
        NameMap { entries: Vec::new() }
    }

    /// The position of the last entry named `name`.
    fn find(&self, name: &str) -> (r: Option<usize>)
        ensures
            match r {
                Some(j) => is_last_of(self.entries@, name@, j as int),
                None => forall|j: int| 0 <= j < self.entries@.len() ==> (#[trigger] self.entries@[j]).0@ != name@,
            },
    {
        let mut j: usize = self.entries.len();
        while j > 0
            invariant
                j <= self.entries@.len(),
                forall|q: int| j <= q < self.entries@.len() ==> (#[trigger] self.entries@[q]).0@ != name@,
            decreases j,
        {
            j = j - 1;
            if str_eq(self.entries[j].0.as_str(), name) {
                return Some(j);
            }
        }
        None
    }

    /// The value for `name`, if any.
    pub fn get(&self, name: &str) -> (r: Option<V>)
        ensures
            r == (if self.map().contains_key(name@) { Some(self.map()[name@]) } else { None::<V> }),
    {
        match self.find(name) {
            Some(j) => {
                proof {
                    lemma_last_entry(self.entries@, name@, j as int);
                }
                Some(self.entries[j].1)
            },
            None => {
                proof {
                    lemma_no_entry(self.entries@, name@);
                }
                None
            },
        }
    }

    /// Defines or overrides the value for `name`.
    pub fn insert(&mut self, name: String, val: V)
        ensures
            final(self).map() == old(self).map().insert(name@, val),
    {
        match self.find(name.as_str()) {
            Some(j) => {
                let key = self.entries[j].0.clone();
                proof {
                    lemma_update_last(self.entries@, name@, j as int, val);
                }
                let ghost o = self.entries@;
                self.entries.set(j, (key, val));
                assert(self.entries@ =~= o.update(j as int, (o[j as int].0, val)));
            },
            None => {
                let ghost o = self.entries@;
                self.entries.push((name, val));
                assert(self.entries@.drop_last() =~= o);
            },
        }
    }
}

} // verus!
