//! The location side-table: which place each entity occupies, plus a reverse
//! occupant index (place → the entities in it).

use std::collections::HashMap;
use vstd::prelude::*;
use crate::entity::EntityId;
use crate::place::id::PlaceId;

verus! {

/// `l` without the entries whose slot is `s`, order kept.
pub open spec fn without_slot(l: Seq<EntityId>, s: u32) -> Seq<EntityId>
    decreases l.len(),
{
    if l.len() == 0 {
        l
    } else if l.last().slot_spec() == s {
        without_slot(l.drop_last(), s)
    } else {
        without_slot(l.drop_last(), s).push(l.last())
    }
}

pub proof fn lemma_without_slot_members(l: Seq<EntityId>, s: u32)
    ensures
        forall|e: EntityId|
            #![trigger without_slot(l, s).contains(e)]
            #![trigger l.contains(e)]
            without_slot(l, s).contains(e) <==> (l.contains(e) && e.slot_spec() != s),
        without_slot(l, s).len() <= l.len(),
    decreases l.len(),
{
    if l.len() > 0 {
        let d = l.drop_last();
        lemma_without_slot_members(d, s);
        let wd = without_slot(d, s);
        assert forall|e: EntityId|
            #![trigger without_slot(l, s).contains(e)]
            #![trigger l.contains(e)]
            without_slot(l, s).contains(e) <==> (l.contains(e) && e.slot_spec() != s) by {
            if l.contains(e) && e.slot_spec() != s {
                let k = choose|k: int| 0 <= k < l.len() && l[k] == e;
                if k < l.len() - 1 {
                    assert(d[k] == e);
                    assert(d.contains(e));
                    assert(wd.contains(e));
                    let m = choose|m: int| 0 <= m < wd.len() && wd[m] == e;
                    if l.last().slot_spec() != s {
                        assert(wd.push(l.last())[m] == e);
                    }
                } else {
                    assert(without_slot(l, s) == wd.push(l.last()));
                    assert(wd.push(l.last())[wd.len() as int] == e);
                }
            }
            if without_slot(l, s).contains(e) {
                if l.last().slot_spec() != s {
                    let w = wd.push(l.last());
                    let k = choose|k: int| 0 <= k < w.len() && w[k] == e;
                    if k < w.len() - 1 {
                        assert(wd[k] == e);
                        assert(wd.contains(e));
                        assert(d.contains(e));
                        let m = choose|m: int| 0 <= m < d.len() && d[m] == e;
                        assert(d[m] == l[m]);
                    } else {
                        assert(l[l.len() - 1] == e);
                    }
                } else {
                    assert(wd.contains(e));
                    assert(d.contains(e));
                    let m = choose|m: int| 0 <= m < d.len() && d[m] == e;
                    assert(d[m] == l[m]);
                }
            }
        }
    } else {
        assert forall|e: EntityId| without_slot(l, s).contains(e) <==> (l.contains(e) && e.slot_spec() != s) by {
            assert(without_slot(l, s) == l);
            assert(!l.contains(e));
        }
    }
}

/// No two entries of `l` share a slot.
pub open spec fn slots_distinct(l: Seq<EntityId>) -> bool {
    forall|a: int, b: int| 0 <= a < l.len() && 0 <= b < l.len() && a != b ==> (#[trigger] l[a]).slot_spec() != (#[trigger] l[b]).slot_spec()
}

/// The occupant lists after `s` leaves `prev` (its previous place, if any):
/// it is dropped from that list, and a list left empty is pruned.
pub open spec fn remove_occupant_spec(occ: Map<PlaceId, Seq<EntityId>>, prev: Option<PlaceId>, s: u32) -> Map<PlaceId, Seq<EntityId>> {
    match prev {
        None => occ,
        Some(p) => if occ.contains_key(p) {
            let l = without_slot(occ[p], s);
            if l.len() == 0 {
                occ.remove(p)
            } else {
                occ.insert(p, l)
            }
        } else {
            occ
        },
    }
}

/// The occupant lists after `e` arrives at `at`: appended to its list.
pub open spec fn add_occupant_spec(occ: Map<PlaceId, Seq<EntityId>>, at: PlaceId, e: EntityId) -> Map<PlaceId, Seq<EntityId>> {
    occ.insert(at, (if occ.contains_key(at) { occ[at] } else { Seq::empty() }).push(e))
}

/// The place `s` occupied, if any.
pub open spec fn prev_of(fw: Map<u32, PlaceId>, s: u32) -> Option<PlaceId> {
    if fw.contains_key(s) {
        Some(fw[s])
    } else {
        None
    }
}

/// The forward table and the reverse index agree: each listed occupant of
/// `p` is located at `p`; each located entity is listed at its place; no list
/// holds a slot twice; and no list is empty.
pub open spec fn consistent(fw: Map<u32, PlaceId>, occ: Map<PlaceId, Seq<EntityId>>) -> bool {
    &&& forall|p: PlaceId, x: EntityId|
        #![trigger occ[p].contains(x)]
        occ.contains_key(p) && occ[p].contains(x) ==> fw.contains_key(x.slot_spec()) && fw[x.slot_spec()] == p
    &&& forall|s: u32|
        #[trigger] fw.contains_key(s) ==> occ.contains_key(fw[s]) && exists|x: EntityId|
            #[trigger] occ[fw[s]].contains(x) && x.slot_spec() == s
    &&& forall|p: PlaceId| #[trigger] occ.contains_key(p) ==> slots_distinct(occ[p]) && occ[p].len() > 0
}

proof fn lemma_push_distinct(w: Seq<EntityId>, x: EntityId)
    requires
        slots_distinct(w),
        forall|y: EntityId| #[trigger] w.contains(y) ==> y.slot_spec() != x.slot_spec(),
    ensures
        slots_distinct(w.push(x)),
{
    let v = w.push(x);
    assert forall|a: int, b: int| 0 <= a < v.len() && 0 <= b < v.len() && a != b implies (#[trigger] v[a]).slot_spec() != (#[trigger] v[b]).slot_spec() by {
        if a == w.len() {
            assert(w.contains(v[b]));
        } else if b == w.len() {
            assert(w.contains(v[a]));
        } else {
            assert(v[a] == w[a] && v[b] == w[b]);
        }
    }
}

proof fn lemma_without_slot_distinct(l: Seq<EntityId>, s: u32)
    requires
        slots_distinct(l),
    ensures
        slots_distinct(without_slot(l, s)),
    decreases l.len(),
{
    if l.len() > 0 {
        let d = l.drop_last();
        assert(slots_distinct(d)) by {
            assert forall|a: int, b: int| 0 <= a < d.len() && 0 <= b < d.len() && a != b implies (#[trigger] d[a]).slot_spec() != (#[trigger] d[b]).slot_spec() by {
                assert(d[a] == l[a] && d[b] == l[b]);
            }
        }
        lemma_without_slot_distinct(d, s);
        if l.last().slot_spec() != s {
            lemma_without_slot_members(d, s);
            assert forall|y: EntityId| #[trigger] without_slot(d, s).contains(y) implies y.slot_spec() != l.last().slot_spec() by {
                assert(d.contains(y));
                let k = choose|k: int| 0 <= k < d.len() && d[k] == y;
                assert(l[k] == y);
                assert(l[l.len() - 1] == l.last());
            }
            lemma_push_distinct(without_slot(d, s), l.last());
        }
    }
}

/// Placing keeps the two halves in agreement: moving the entity at slot `s`
/// to `at` drops it from its previous place's list and appends it to the list
/// of `at`, which leaves it listed exactly once, at its new place.
pub proof fn lemma_place_keeps_consistent(fw: Map<u32, PlaceId>, occ: Map<PlaceId, Seq<EntityId>>, at: PlaceId, e: EntityId)
    requires
        consistent(fw, occ),
    ensures
        consistent(
            fw.insert(e.slot_spec(), at),
            add_occupant_spec(remove_occupant_spec(occ, prev_of(fw, e.slot_spec()), e.slot_spec()), at, e),
        ),
{
    let s = e.slot_spec();
    let prev = prev_of(fw, s);
    let occ1 = remove_occupant_spec(occ, prev, s);
    let occ2 = add_occupant_spec(occ1, at, e);
    let fw2 = fw.insert(s, at);
    // What the removal leaves: every surviving member was there before, and
    // none of them sits at slot `s`.
    assert forall|q: PlaceId, x: EntityId| occ1.contains_key(q) && #[trigger] occ1[q].contains(x) implies occ.contains_key(q)
        && occ[q].contains(x) && x.slot_spec() != s by {
        match prev {
            Some(p) => {
                if q == p && occ.contains_key(p) {
                    lemma_without_slot_members(occ[p], s);
                } else {
                    assert(occ[q] == occ1[q]);
                    if x.slot_spec() == s {
                        assert(fw[x.slot_spec()] == q);
                    }
                }
            },
            None => {
                assert(occ[q] == occ1[q]);
            },
        }
    }
    assert forall|q: PlaceId| #[trigger] occ1.contains_key(q) implies slots_distinct(occ1[q]) && occ1[q].len() > 0 by {
        match prev {
            Some(p) => {
                if q == p && occ.contains_key(p) {
                    lemma_without_slot_distinct(occ[p], s);
                }
            },
            None => {},
        }
    }
    // Agreement, first half.
    assert forall|q: PlaceId, x: EntityId| occ2.contains_key(q) && #[trigger] occ2[q].contains(x) implies fw2.contains_key(
        x.slot_spec(),
    ) && fw2[x.slot_spec()] == q by {
        if q == at {
            let base = if occ1.contains_key(at) { occ1[at] } else { Seq::empty() };
            let k = choose|k: int| 0 <= k < occ2[q].len() && occ2[q][k] == x;
            if k < base.len() {
                assert(base[k] == x);
                assert(occ1[at].contains(x));
            }
        } else {
            assert(occ1[q].contains(x));
        }
    }
    // Agreement, second half.
    assert forall|t: u32| #[trigger] fw2.contains_key(t) implies occ2.contains_key(fw2[t]) && exists|x: EntityId|
        #[trigger] occ2[fw2[t]].contains(x) && x.slot_spec() == t by {
        if t == s {
            assert(occ2[at][occ2[at].len() - 1] == e);
            assert(occ2[at].contains(e));
        } else {
            let q = fw[t];
            let x = choose|x: EntityId| #[trigger] occ[q].contains(x) && x.slot_spec() == t;
            let survives = match prev {
                Some(p) => if q == p {
                    lemma_without_slot_members(occ[p], s);
                    assert(without_slot(occ[p], s).contains(x));
                    assert(without_slot(occ[p], s).len() > 0);
                    true
                } else {
                    true
                },
                None => true,
            };
            assert(occ1.contains_key(q) && occ1[q].contains(x));
            if q == at {
                let k = choose|k: int| 0 <= k < occ1[at].len() && occ1[at][k] == x;
                assert(occ2[at][k] == x);
                assert(occ2[q].contains(x));
            } else {
                assert(occ2[q] == occ1[q]);
            }
        }
    }
    assert forall|q: PlaceId| #[trigger] occ2.contains_key(q) implies slots_distinct(occ2[q]) && occ2[q].len() > 0 by {
        if q == at {
            let base = if occ1.contains_key(at) { occ1[at] } else { Seq::empty() };
            assert forall|y: EntityId| #[trigger] base.contains(y) implies y.slot_spec() != e.slot_spec() by {
                assert(occ1[at].contains(y));
            }
            lemma_push_distinct(base, e);
        }
    }
}

/// Removing keeps the two halves in agreement: the entity at slot `s` leaves
/// both the forward table and its place's list.
pub proof fn lemma_remove_keeps_consistent(fw: Map<u32, PlaceId>, occ: Map<PlaceId, Seq<EntityId>>, s: u32)
    requires
        consistent(fw, occ),
    ensures
        consistent(fw.remove(s), remove_occupant_spec(occ, prev_of(fw, s), s)),
{
    let prev = prev_of(fw, s);
    let occ1 = remove_occupant_spec(occ, prev, s);
    let fw1 = fw.remove(s);
    assert forall|q: PlaceId, x: EntityId| occ1.contains_key(q) && #[trigger] occ1[q].contains(x) implies occ.contains_key(q)
        && occ[q].contains(x) && x.slot_spec() != s by {
        match prev {
            Some(p) => {
                if q == p && occ.contains_key(p) {
                    lemma_without_slot_members(occ[p], s);
                } else {
                    assert(occ[q] == occ1[q]);
                    if x.slot_spec() == s {
                        assert(fw[x.slot_spec()] == q);
                    }
                }
            },
            None => {
                assert(occ[q] == occ1[q]);
            },
        }
    }
    assert forall|q: PlaceId| #[trigger] occ1.contains_key(q) implies slots_distinct(occ1[q]) && occ1[q].len() > 0 by {
        match prev {
            Some(p) => {
                if q == p && occ.contains_key(p) {
                    lemma_without_slot_distinct(occ[p], s);
                }
            },
            None => {},
        }
    }
    assert forall|t: u32| #[trigger] fw1.contains_key(t) implies occ1.contains_key(fw1[t]) && exists|x: EntityId|
        #[trigger] occ1[fw1[t]].contains(x) && x.slot_spec() == t by {
        let q = fw[t];
        assert(t != s);
        assert(fw1[t] == q);
        assert(fw.contains_key(t));
        let x = choose|x: EntityId| #[trigger] occ[q].contains(x) && x.slot_spec() == t;
        match prev {
            Some(p) => if q == p {
                lemma_without_slot_members(occ[p], s);
                assert(without_slot(occ[p], s).contains(x));
                assert(without_slot(occ[p], s).len() > 0);
            } else {
                assert(occ1[q] == occ[q]);
            },
            None => {},
        }
        assert(occ1[q].contains(x));
    }
}

/// The location of every resident entity: a dense forward table (slot → the
/// place it occupies) plus a reverse occupant index (place → the entities in
/// it, keyed by the place's value), kept in lockstep by
/// [`place`](LocationOf::place) and [`remove`](LocationOf::remove).
#[derive(Debug)]
pub struct LocationOf {
    by_slot: Vec<Option<PlaceId>>,
    occupants: HashMap<u64, Vec<EntityId>>,
}

/// A copy of a list of handles.
pub fn copy_ids(v: &Vec<EntityId>) -> (r: Vec<EntityId>)
    ensures
        r@ == v@,
{
    let mut out: Vec<EntityId> = Vec::new();
    let mut i: usize = 0;
    while i < v.len()
        invariant
            i <= v@.len(),
            out@ == v@.take(i as int),
        decreases v@.len() - i,
    {
        out.push(v[i]);
        i = i + 1;
        assert(out@ =~= v@.take(i as int));
    }
    assert(v@.take(v@.len() as int) =~= v@);
    out
}

impl LocationOf {
    /// The place each located slot occupies.
    pub closed spec fn forward(&self) -> Map<u32, PlaceId> {
        Map::new(
            |s: u32| (s as int) < self.by_slot@.len() && self.by_slot@[s as int] is Some,
            |s: u32| self.by_slot@[s as int]->Some_0,
        )
    }

    /// The occupants of each place, in arrival order.
    pub closed spec fn occupancy(&self) -> Map<PlaceId, Seq<EntityId>> {
        Map::new(
            |p: PlaceId| self.occupants@.contains_key(p@),
            |p: PlaceId| self.occupants@[p@]@,
        )
    }

    /// The two halves agree.
    pub open spec fn wf(&self) -> bool {
        consistent(self.forward(), self.occupancy())
    }

    /// Creates an empty location table.
    pub fn new() -> (r: Self)
        ensures
            r.wf(),
            r.forward() == Map::<u32, PlaceId>::empty(),
            r.occupancy() == Map::<PlaceId, Seq<EntityId>>::empty(),
    {
        let r = LocationOf { by_slot: Vec::new(), occupants: HashMap::new() };
        assert(r.forward() =~= Map::<u32, PlaceId>::empty());
        assert(r.occupancy() =~= Map::<PlaceId, Seq<EntityId>>::empty());
        r
    }

    /// Sets the occupant list of `place` to `list`.
    fn set_entry(&mut self, place: PlaceId, list: Vec<EntityId>)
        ensures
            final(self).occupancy() == old(self).occupancy().insert(place, list@),
            final(self).by_slot == old(self).by_slot,
    {
        broadcast use vstd::std_specs::hash::group_hash_axioms;
        let ghost occ = self.occupancy();
        let ghost l = list@;
        self.occupants.insert(place.get(), list);
        assert forall|p: PlaceId| #[trigger] self.occupancy().contains_key(p) == occ.insert(place, l).contains_key(p)
            && (self.occupancy().contains_key(p) ==> self.occupancy()[p] == occ.insert(place, l)[p]) by {
            if p@ == place@ {
                p.lemma_view_injective(place);
            }
        }
        assert(self.occupancy() =~= occ.insert(place, l));
    }

    /// Drops the occupant list of `place`.
    fn drop_entry(&mut self, place: PlaceId)
        ensures
            final(self).occupancy() == old(self).occupancy().remove(place),
            final(self).by_slot == old(self).by_slot,
    {
        broadcast use vstd::std_specs::hash::group_hash_axioms;
        let ghost occ = self.occupancy();
        let key = place.get();
        self.occupants.remove(&key);
        assert forall|p: PlaceId| #[trigger] self.occupancy().contains_key(p) == occ.remove(place).contains_key(p) by {
            if p@ == place@ {
                p.lemma_view_injective(place);
            }
        }
        assert(self.occupancy() =~= occ.remove(place));
    }

    /// The occupant list of `place`, if it has one.
    fn entry_of(&self, place: PlaceId) -> (r: Option<&Vec<EntityId>>)
        ensures
            match r {
                Some(l) => self.occupancy().contains_key(place) && self.occupancy()[place] == l@,
                None => !self.occupancy().contains_key(place),
            },
    {
        broadcast use vstd::std_specs::hash::group_hash_axioms;
        let key = place.get();
        self.occupants.get(&key)
    }

    /// Removes the occupant sitting in `place` at `slot`, pruning the place's
    /// list when it empties. Matches by slot, not full handle: a slot occupies
    /// at most one place at a time, so this stays correct across slot reuse.
    fn remove_occupant(&mut self, place: PlaceId, slot: u32)
        ensures
            final(self).occupancy() == remove_occupant_spec(old(self).occupancy(), Some(place), slot),
            final(self).by_slot == old(self).by_slot,
    {
        let list = match self.entry_of(place) {
            Some(list) => list,
            None => return,
        };
        let ghost l = list@;
        let mut kept: Vec<EntityId> = Vec::new();
        let mut i: usize = 0;
        while i < list.len()
            invariant
                l == list@,
                i <= l.len(),
                kept@ == without_slot(l.take(i as int), slot),
            decreases l.len() - i,
        {
            let x = list[i];
            assert(l.take(i + 1).drop_last() =~= l.take(i as int));
            if x.slot().get() != slot {
                kept.push(x);
            }
            i = i + 1;
        }
        assert(l.take(l.len() as int) =~= l);
        if kept.len() == 0 {
            self.drop_entry(place);
        } else {
            self.set_entry(place, kept);
        }
    }

    /// Appends `entity` to the occupant list of `at`.
    fn add_occupant(&mut self, at: PlaceId, entity: EntityId)
        ensures
            final(self).occupancy() == add_occupant_spec(old(self).occupancy(), at, entity),
            final(self).by_slot == old(self).by_slot,
    {
        let mut list = match self.entry_of(at) {
            Some(list) => copy_ids(list),
            None => Vec::new(),
        };
        list.push(entity);
        self.set_entry(at, list);
    }

    /// Places `entity` at `at`, replacing any previous location: the entity
    /// first leaves its previous place's occupant list, so the reverse index
    /// stays consistent as entities move.
    pub fn place(&mut self, entity: EntityId, at: PlaceId)
        requires
            old(self).wf(),
        ensures
            final(self).wf(),
            entity.slot_spec() as int == usize::MAX ==> final(self).forward() == old(self).forward()
                && final(self).occupancy() == old(self).occupancy(),
            (entity.slot_spec() as int) < usize::MAX ==> final(self).forward() == old(self).forward().insert(
                entity.slot_spec(),
                at,
            ) && final(self).occupancy() == add_occupant_spec(
                remove_occupant_spec(old(self).occupancy(), prev_of(old(self).forward(), entity.slot_spec()), entity.slot_spec()),
                at,
                entity,
            ),
    {
        let slot = entity.slot().get();
        let index = match entity.slot().to_index() {
            Some(index) => index,
            None => return,
        };
        if index >= self.by_slot.len() {
            let len = match index.checked_add(1) {
                Some(len) => len,
                None => return,
            };
            let ghost fw0 = self.forward();
            while self.by_slot.len() < len
                invariant
                    self.by_slot@.len() <= len,
                    self.forward() == fw0,
                    self.occupants == old(self).occupants,
                decreases len - self.by_slot@.len(),
            {
                self.by_slot.push(None);
                assert(self.forward() =~= fw0);
            }
        }
        let ghost fw = self.forward();
        let ghost occ = self.occupancy();
        assert(fw == old(self).forward());
        let previous = self.by_slot[index];
        assert(previous == prev_of(fw, slot));
        self.by_slot.set(index, Some(at));
        assert(self.forward() =~= fw.insert(slot, at));
        if let Some(p) = previous {
            self.remove_occupant(p, slot);
        }
        self.add_occupant(at, entity);
        proof {
            lemma_place_keeps_consistent(fw, occ, at, entity);
        }
    }

    /// Removes `entity` from wherever it is, clearing its location and its
    /// reverse-index entry. A no-op if the entity has no location.
    pub fn remove(&mut self, entity: EntityId)
        requires
            old(self).wf(),
        ensures
            final(self).wf(),
            final(self).forward() == old(self).forward().remove(entity.slot_spec()),
            final(self).occupancy() == remove_occupant_spec(
                old(self).occupancy(),
                prev_of(old(self).forward(), entity.slot_spec()),
                entity.slot_spec(),
            ),
    {
        let slot = entity.slot().get();
        let ghost fw = self.forward();
        let ghost occ = self.occupancy();
        proof {
            lemma_remove_keeps_consistent(fw, occ, slot);
        }
        let index = match entity.slot().to_index() {
            Some(index) => index,
            None => return,
        };
        if index >= self.by_slot.len() {
            assert(fw.remove(slot) =~= fw);
            return;
        }
        let previous = self.by_slot[index];
        match previous {
            None => {
                assert(fw.remove(slot) =~= fw);
            },
            Some(p) => {
                self.by_slot.set(index, None);
                assert(self.forward() =~= fw.remove(slot));
                self.remove_occupant(p, slot);
            },
        }
    }

    /// The place `entity` currently occupies, or `None` if it has no location.
    pub fn location(&self, entity: EntityId) -> (r: Option<PlaceId>)
        ensures
            r == prev_of(self.forward(), entity.slot_spec()),
    {
        let index = match entity.slot().to_index() {
            Some(index) => index,
            None => return None,
        };
        if index < self.by_slot.len() {
            self.by_slot[index]
        } else {
            None
        }
    }

    /// The entities currently in `place`, in arrival order. Empty for a place
    /// no entity occupies.
    pub fn occupants(&self, place: PlaceId) -> (r: Vec<EntityId>)
        ensures
            r@ == (if self.occupancy().contains_key(place) { self.occupancy()[place] } else { Seq::<EntityId>::empty() }),
    {
        match self.entry_of(place) {
            Some(list) => copy_ids(list),
            None => Vec::new(),
        }
    }
}

} // verus!
