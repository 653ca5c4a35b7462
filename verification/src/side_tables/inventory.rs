//! The inventory side-table: which entities each container holds.

use vstd::prelude::*;
use crate::entity::EntityId;
use super::location::{copy_ids, lemma_without_slot_members, without_slot};

verus! {

/// The entities each container holds: a dense table keyed by the container's
/// slot.
///
/// This table only records containment. Cross-container exclusivity and the
/// location-versus-inventory relationship are the mutation layer's concern.
#[derive(Debug)]
pub struct Inventory {
    by_slot: Vec<Vec<EntityId>>,
}

/// `l` holds an entity at slot `s`.
pub open spec fn holds_slot(l: Seq<EntityId>, s: u32) -> bool {
    exists|i: int| 0 <= i < l.len() && (#[trigger] l[i]).slot_spec() == s
}

impl Inventory {
    /// The items the container at slot `s` holds, in insertion order.
    pub closed spec fn held(&self, s: u32) -> Seq<EntityId> {
        if (s as int) < self.by_slot@.len() {
            self.by_slot@[s as int]@
        } else {
            Seq::empty()
        }
    }

    /// Creates an empty inventory table.
    pub fn new() -> (r: Self)
        ensures
            forall|s: u32| #[trigger] r.held(s) == Seq::<EntityId>::empty(),
    {
        Inventory { by_slot: Vec::new() }
    }

    fn grow_to(&mut self, index: usize) -> (ok: bool)
        ensures
            forall|s: u32| #[trigger] final(self).held(s) == old(self).held(s),
            ok <==> index < usize::MAX,
            ok ==> index < final(self).by_slot@.len(),
    {
        if index >= self.by_slot.len() {
            let len = match index.checked_add(1) {
                Some(len) => len,
                None => return false,
            };
            while self.by_slot.len() < len
                invariant
                    self.by_slot@.len() <= len,
                    forall|s: u32| #[trigger] self.held(s) == old(self).held(s),
                decreases len - self.by_slot@.len(),
            {
                let ghost before = *self;
                self.by_slot.push(Vec::new());
                assert forall|s: u32| #[trigger] self.held(s) == before.held(s) by {
                    if (s as int) == before.by_slot@.len() {
                        assert(self.by_slot@[s as int]@ =~= Seq::<EntityId>::empty());
                    }
                }
            }
        }
        true
    }

    /// Adds `item` to `container`'s inventory. A no-op if an item at the same
    /// slot is already there (an entity cannot be in one container twice).
    pub fn insert(&mut self, container: EntityId, item: EntityId)
        ensures
            forall|s: u32| s != container.slot_spec() ==> #[trigger] final(self).held(s) == old(self).held(s),
            container.slot_spec() as int == usize::MAX ==> final(self).held(container.slot_spec()) == old(self).held(
                container.slot_spec(),
            ),
            (container.slot_spec() as int) < usize::MAX ==> final(self).held(container.slot_spec()) == (if holds_slot(
                old(self).held(container.slot_spec()),
                item.slot_spec(),
            ) {
                old(self).held(container.slot_spec())
            } else {
                old(self).held(container.slot_spec()).push(item)
            }),
    {
        let slot = container.slot().get();
        let index = match container.slot().to_index() {
            Some(index) => index,
            None => return,
        };
        if !self.grow_to(index) {
            return;
        }
        let ghost mid = *self;
        let mut k: usize = 0;
        let n = self.by_slot[index].len();
        while k < n
            invariant
                index < self.by_slot@.len(),
                index as int == slot as int,
                slot == container.slot_spec(),
                index < usize::MAX,
                *self == mid,
                forall|s: u32| #[trigger] mid.held(s) == old(self).held(s),
                n == self.by_slot@[index as int]@.len(),
                k <= n,
                forall|q: int| 0 <= q < k ==> (#[trigger] self.by_slot@[index as int]@[q]).slot_spec() != item.slot_spec(),
            decreases n - k,
        {
            if self.by_slot[index][k].slot().get() == item.slot().get() {
                assert(self.held(slot)[k as int] == self.by_slot@[index as int]@[k as int]);
                assert(holds_slot(self.held(slot), item.slot_spec()));
                assert(mid.held(slot) == old(self).held(slot));
                return;
            }
            k = k + 1;
        }
        proof {
            if holds_slot(self.held(slot), item.slot_spec()) {
                let q = choose|q: int| 0 <= q < self.held(slot).len() && (#[trigger] self.held(slot)[q]).slot_spec() == item.slot_spec();
                assert(self.by_slot@[index as int]@[q] == self.held(slot)[q]);
            }
        }
        let mut list = copy_ids(&self.by_slot[index]);
        list.push(item);
        self.by_slot.set(index, list);
        assert forall|s: u32| s != slot implies #[trigger] self.held(s) == old(self).held(s) by {
            assert(mid.held(s) == old(self).held(s));
        }
    }

    /// Removes every item at `item`'s slot from `container`'s inventory. A
    /// no-op if absent.
    pub fn remove(&mut self, container: EntityId, item: EntityId)
        ensures
            forall|s: u32| s != container.slot_spec() ==> #[trigger] final(self).held(s) == old(self).held(s),
            final(self).held(container.slot_spec()) == without_slot(old(self).held(container.slot_spec()), item.slot_spec()),
    {
        let index = match container.slot().to_index() {
            Some(index) => index,
            None => return,
        };
        if index >= self.by_slot.len() {
            return;
        }
        let ghost l = self.by_slot@[index as int]@;
        let mut kept: Vec<EntityId> = Vec::new();
        let mut i: usize = 0;
        while i < self.by_slot[index].len()
            invariant
                index < self.by_slot@.len(),
                l == self.by_slot@[index as int]@,
                i <= l.len(),
                kept@ == without_slot(l.take(i as int), item.slot_spec()),
            decreases l.len() - i,
        {
            let x = self.by_slot[index][i];
            assert(l.take(i + 1).drop_last() =~= l.take(i as int));
            if x.slot().get() != item.slot().get() {
                kept.push(x);
            }
            i = i + 1;
        }
        assert(l.take(l.len() as int) =~= l);
        self.by_slot.set(index, kept);
    }

    /// Drops every item `container` holds, so a freed slot carries no
    /// contents into its next tenant. A no-op for an empty or unknown
    /// container.
    pub fn clear(&mut self, container: EntityId)
        ensures
            forall|s: u32| s != container.slot_spec() ==> #[trigger] final(self).held(s) == old(self).held(s),
            final(self).held(container.slot_spec()) == Seq::<EntityId>::empty(),
    {
        let index = match container.slot().to_index() {
            Some(index) => index,
            None => return,
        };
        if index < self.by_slot.len() {
            self.by_slot.set(index, Vec::new());
            assert(self.held(container.slot_spec()) =~= Seq::<EntityId>::empty());
        }
    }

    /// The entities in `container`, in insertion order. Empty for an empty or
    /// unknown container.
    pub fn contents(&self, container: EntityId) -> (r: Vec<EntityId>)
        ensures
            r@ == self.held(container.slot_spec()),
    {
        let index = match container.slot().to_index() {
            Some(index) => index,
            None => return Vec::new(),
        };
        if index < self.by_slot.len() {
            copy_ids(&self.by_slot[index])
        } else {
            Vec::new()
        }
    }
}

/// No two items of `l` share a slot.
pub open spec fn distinct_slots(l: Seq<EntityId>) -> bool {
    forall|i: int, j: int| #![trigger l[i], l[j]] 0 <= i < j < l.len() ==> l[i].slot_spec() != l[j].slot_spec()
}

/// An entity cannot be in one container twice: inserting into a list whose
/// items have distinct slots (as every list built by [`Inventory::insert`]
/// from an empty one has) keeps them distinct.
pub proof fn lemma_insert_keeps_slots_distinct(l: Seq<EntityId>, item: EntityId)
    requires
        distinct_slots(l),
    ensures
        distinct_slots(if holds_slot(l, item.slot_spec()) { l } else { l.push(item) }),
{
    if !holds_slot(l, item.slot_spec()) {
        let n = l.push(item);
        assert forall|i: int, j: int| #![trigger n[i], n[j]] 0 <= i < j < n.len() implies n[i].slot_spec() != n[j].slot_spec() by {
            if j == l.len() {
                assert(n[i] == l[i]);
                if l[i].slot_spec() == item.slot_spec() {
                    assert(holds_slot(l, item.slot_spec()));
                }
            } else {
                assert(n[i] == l[i] && n[j] == l[j]);
            }
        }
    }
}

/// Removing every item at a slot keeps the remaining items' slots distinct.
pub proof fn lemma_remove_keeps_slots_distinct(l: Seq<EntityId>, s: u32)
    requires
        distinct_slots(l),
    ensures
        distinct_slots(without_slot(l, s)),
    decreases l.len(),
{
    if l.len() > 0 {
        let d = l.drop_last();
        assert(distinct_slots(d)) by {
            assert forall|i: int, j: int| #![trigger d[i], d[j]] 0 <= i < j < d.len() implies d[i].slot_spec() != d[j].slot_spec() by {
                assert(d[i] == l[i] && d[j] == l[j]);
            }
        }
        lemma_remove_keeps_slots_distinct(d, s);
        if l.last().slot_spec() != s {
            let w = without_slot(d, s);
            lemma_without_slot_members(d, s);
            let n = w.push(l.last());
            assert forall|i: int, j: int| #![trigger n[i], n[j]] 0 <= i < j < n.len() implies n[i].slot_spec() != n[j].slot_spec() by {
                if j == w.len() {
                    assert(n[i] == w[i]);
                    assert(w.contains(w[i]));
                    assert(d.contains(w[i]));
                    let k = choose|k: int| 0 <= k < d.len() && d[k] == w[i];
                    assert(l[k] == d[k]);
                    assert(l[k].slot_spec() != l[l.len() - 1].slot_spec());
                } else {
                    assert(n[i] == w[i] && n[j] == w[j]);
                }
            }
        }
    }
}

} // verus!
