//! A cache of shared values that does not keep them alive.
//!
//! Each slot counts the holders of its value. A slot without holders is
//! dead: it stays until the next lookup of its key finds it, and is removed
//! then. A live slot is never replaced, so that all holders of a key share
//! one value.

use vstd::prelude::*;
use crate::text::chars_of;
use crate::text::lemma_position;
use crate::text::lemma_position_bounds;
use crate::text::position;
use crate::text::same;

verus! {

/// One slot of a cache as mathematical values.
pub struct SlotView<V> {
    pub key: Seq<char>,
    pub value: V,
    pub holders: nat,
}

/// The keys of the slots, in their order.
pub open spec fn keys<V>(slots: Seq<SlotView<V>>) -> Seq<Seq<char>> {
    slots.map_values(|s: SlotView<V>| s.key)
}

/// Index of the slot of `key`, or `slots.len()` if there is none.
pub open spec fn find<V>(slots: Seq<SlotView<V>>, key: Seq<char>) -> int {
    position(keys(slots), key)
}

/// No two slots have the same key.
pub open spec fn distinct<V>(slots: Seq<SlotView<V>>) -> bool {
    forall|i: int, j: int| 0 <= i < j < slots.len() ==> slots[i].key != slots[j].key
}

/// A holder count with one more holder. The count stops at the largest
/// number it can hold.
pub open spec fn bump(holders: nat) -> nat {
    if holders < u64::MAX {
        holders + 1
    } else {
        holders
    }
}

/// The slot that a lookup of `key` hands out: the slot of that key, if it is
/// alive.
pub open spec fn hit<V>(slots: Seq<SlotView<V>>, key: Seq<char>) -> Option<int> {
    let i = find(slots, key);
    if 0 <= i < slots.len() && slots[i].holders > 0 {
        Some(i)
    } else {
        None
    }
}

/// The slots after a lookup of `key`: a live slot has one more holder, a
/// dead one is gone.
pub open spec fn after_get<V>(slots: Seq<SlotView<V>>, key: Seq<char>) -> Seq<SlotView<V>> {
    let i = find(slots, key);
    if 0 <= i < slots.len() {
        if slots[i].holders > 0 {
            slots.update(i, SlotView { holders: bump(slots[i].holders), ..slots[i] })
        } else {
            slots.remove(i)
        }
    } else {
        slots
    }
}

/// The slots after `value` was offered for `key`: a live slot of that key
/// keeps its value and has one more holder; a dead one takes the value in,
/// with one holder; without a slot of that key a new one is added at the end.
pub open spec fn after_add<V>(slots: Seq<SlotView<V>>, key: Seq<char>, value: V) -> Seq<
    SlotView<V>,
> {
    let i = find(slots, key);
    if 0 <= i < slots.len() {
        if slots[i].holders > 0 {
            slots.update(i, SlotView { holders: bump(slots[i].holders), ..slots[i] })
        } else {
            slots.update(i, SlotView { key, value, holders: 1 })
        }
    } else {
        slots.push(SlotView { key, value, holders: 1 })
    }
}

/// The slots after one holder of `key` let go.
pub open spec fn after_release<V>(slots: Seq<SlotView<V>>, key: Seq<char>) -> Seq<SlotView<V>> {
    let i = find(slots, key);
    if 0 <= i < slots.len() && slots[i].holders > 0 {
        slots.update(i, SlotView { holders: (slots[i].holders - 1) as nat, ..slots[i] })
    } else {
        slots
    }
}

/// Where `find` points, and that it points at the only slot of the key.
pub proof fn lemma_find<V>(slots: Seq<SlotView<V>>, key: Seq<char>)
    ensures
        0 <= find(slots, key) <= slots.len(),
        find(slots, key) < slots.len() ==> slots[find(slots, key)].key == key,
        forall|j: int| 0 <= j < find(slots, key) ==> slots[j].key != key,
        distinct(slots) ==> forall|j: int|
            0 <= j < slots.len() && j != find(slots, key) ==> slots[j].key != key,
{
    lemma_position_bounds(keys(slots), key);
    let p = find(slots, key);
    assert forall|j: int| 0 <= j < p implies slots[j].key != key by {
        assert(keys(slots)[j] == slots[j].key);
    }
    if p < slots.len() {
        assert(keys(slots)[p] == slots[p].key);
    }
}

/// All holders of a key share one value: what was offered for a key, or what
/// was there alive before, is what every later lookup hands out, for as long
/// as the slot has a holder.
pub proof fn lemma_one_value<V>(slots: Seq<SlotView<V>>, key: Seq<char>, value: V)
    requires
        distinct(slots),
    ensures
        hit(after_add(slots, key, value), key) == Some(find(slots, key)),
        after_add(slots, key, value)[find(slots, key)].value == match hit(slots, key) {
            Some(i) => slots[i].value,
            None => value,
        },
        hit(slots, key) matches Some(i) ==> hit(after_get(slots, key), key) == Some(i)
            && after_get(slots, key)[i].value == slots[i].value,
{
    lemma_find(slots, key);
    let p = find(slots, key);
    let added = after_add(slots, key, value);
    assert forall|j: int| 0 <= j < p implies keys(added)[j] != key by {
        assert(added[j] == slots[j]);
    }
    assert(keys(added)[p] == key);
    lemma_position(keys(added), key, p);
    if hit(slots, key) is Some {
        let got = after_get(slots, key);
        assert forall|j: int| 0 <= j < p implies keys(got)[j] != key by {
            assert(got[j] == slots[j]);
        }
        assert(keys(got)[p] == key);
        lemma_position(keys(got), key, p);
    }
}

/// A dead slot is gone after the next lookup of its key, and the lookup
/// hands out nothing.
pub proof fn lemma_dead_is_evicted<V>(slots: Seq<SlotView<V>>, key: Seq<char>)
    requires
        distinct(slots),
        find(slots, key) < slots.len(),
        slots[find(slots, key)].holders == 0,
    ensures
        hit(slots, key) is None,
        after_get(slots, key) == slots.remove(find(slots, key)),
        find(after_get(slots, key), key) == after_get(slots, key).len(),
        forall|j: int| 0 <= j < after_get(slots, key).len() ==> after_get(slots, key)[j].key != key,
{
    lemma_find(slots, key);
    let p = find(slots, key);
    let got = after_get(slots, key);
    assert forall|j: int| 0 <= j < got.len() implies got[j].key != key by {
        if j < p {
            assert(got[j] == slots[j]);
        } else {
            assert(got[j] == slots[j + 1]);
        }
    }
    assert forall|j: int| 0 <= j < got.len() implies keys(got)[j] != key by {
        assert(keys(got)[j] == got[j].key);
    }
    lemma_position(keys(got), key, got.len() as int);
}

/// Lookups, offers and releases keep the keys distinct.
pub proof fn lemma_distinct_kept<V>(slots: Seq<SlotView<V>>, key: Seq<char>, value: V)
    requires
        distinct(slots),
    ensures
        distinct(after_get(slots, key)),
        distinct(after_add(slots, key, value)),
        distinct(after_release(slots, key)),
{
    lemma_find(slots, key);
    let p = find(slots, key);
    let got = after_get(slots, key);
    assert forall|i: int, j: int| 0 <= i < j < got.len() implies got[i].key != got[j].key by {
        if p < slots.len() && slots[p].holders == 0 {
            let a = if i < p {
                i
            } else {
                i + 1
            };
            let b = if j < p {
                j
            } else {
                j + 1
            };
            assert(got[i] == slots[a] && got[j] == slots[b]);
        } else {
            assert(got[i].key == slots[i].key && got[j].key == slots[j].key);
        }
    }
    let added = after_add(slots, key, value);
    assert forall|i: int, j: int| 0 <= i < j < added.len() implies added[i].key != added[j].key by {
        if p < slots.len() {
            assert(added[i].key == slots[i].key && added[j].key == slots[j].key);
        } else if j < slots.len() {
            assert(added[i] == slots[i] && added[j] == slots[j]);
        } else {
            assert(added[i] == slots[i]);
        }
    }
    let freed = after_release(slots, key);
    assert forall|i: int, j: int| 0 <= i < j < freed.len() implies freed[i].key != freed[j].key by {
        assert(freed[i].key == slots[i].key && freed[j].key == slots[j].key);
    }
}

struct Slot<V> {
    key: String,
    value: V,
    holders: u64,
}

impl<V> Slot<V> {
    spec fn model(self) -> SlotView<V> {
        SlotView { key: self.key@, value: self.value, holders: self.holders as nat }
    }
}

/// A cache from names to shared values, with a holder count per value.
pub struct WeakCache<V> {
    slots: Vec<Slot<V>>,
}

impl<V> WeakCache<V> {
    #[verifier::type_invariant]
    spec fn keys_distinct(self) -> bool {
        distinct(self.slots@.map_values(|s: Slot<V>| s.model()))
    }

    /// The slots, in the order in which their keys came in.
    pub closed spec fn slots(&self) -> Seq<SlotView<V>> {
        self.slots@.map_values(|s: Slot<V>| s.model())
    }

    /// An empty cache.
    pub fn new() -> (cache: WeakCache<V>)
        ensures
            cache.slots() == Seq::<SlotView<V>>::empty(),
            distinct(cache.slots()),
    {
        WeakCache { slots: Vec::new() }
    }

    /// How many slots there are, dead ones included.
    pub fn len(&self) -> (n: usize)
        ensures
            n == self.slots().len(),
            distinct(self.slots()),
    {
        proof {
            use_type_invariant(self);
        }
        self.slots.len()
    }

    /// The value in slot `i`.
    pub fn value(&self, i: usize) -> (value: &V)
        requires
            i < self.slots().len(),
        ensures
            *value == self.slots()[i as int].value,
    {
        &self.slots[i].value
    }

    /// The key of slot `i`.
    pub fn key(&self, i: usize) -> (key: &str)
        requires
            i < self.slots().len(),
        ensures
            key@ == self.slots()[i as int].key,
    {
        self.slots[i].key.as_str()
    }

    /// How many holders slot `i` has.
    pub fn holders(&self, i: usize) -> (n: u64)
        requires
            i < self.slots().len(),
        ensures
            n == self.slots()[i as int].holders,
    {
        self.slots[i].holders
    }

    /// Index of the slot of `key`, or `len()` if there is none.
    pub fn find(&self, key: &str) -> (i: usize)
        ensures
            i == find(self.slots(), key@),
            i <= self.slots().len(),
    {
        let wanted = chars_of(key);
        let ghost all = self.slots();
        let mut i: usize = 0;
        while i < self.slots.len()
            invariant
                i <= self.slots.len(),
                all == self.slots(),
                wanted@ == key@,
                forall|j: int| 0 <= j < i ==> keys(all)[j] != key@,
            decreases self.slots.len() - i,
        {
            let held = chars_of(self.slots[i].key.as_str());
            assert(keys(all)[i as int] == self.slots@[i as int].key@);
            if same(&held, &wanted) {
                proof {
                    lemma_position(keys(all), key@, i as int);
                }
                return i;
            }
            i += 1;
        }
        proof {
            lemma_position(keys(all), key@, i as int);
        }
        i
    }

    /// Looks `key` up. A live slot gets one more holder and its index is
    /// handed out; a dead slot is removed.
    pub fn get(&mut self, key: &str) -> (found: Option<usize>)
        ensures
            final(self).slots() == after_get(old(self).slots(), key@),
            distinct(old(self).slots()),
            distinct(final(self).slots()),
            match found {
                Some(i) => hit(old(self).slots(), key@) == Some(i as int),
                None => hit(old(self).slots(), key@) is None,
            },
    {
        proof {
            use_type_invariant(&*self);
        }
        let ghost before = self.slots();
        proof {
            lemma_find(before, key@);
        }
        let i = self.find(key);
        if i < self.slots.len() {
            let mut slots: Vec<Slot<V>> = Vec::new();
            std::mem::swap(&mut self.slots, &mut slots);
            let slot = slots.remove(i);
            proof {
                lemma_distinct_kept(before, key@, slot.value);
            }
            if slot.holders > 0 {
                let holders = if slot.holders < u64::MAX {
                    slot.holders + 1
                } else {
                    slot.holders
                };
                slots.insert(i, Slot { key: slot.key, value: slot.value, holders });
                assert(slots@.map_values(|s: Slot<V>| s.model()) =~= after_get(before, key@));
                self.slots = slots;
                Some(i)
            } else {
                assert(slots@.map_values(|s: Slot<V>| s.model()) =~= after_get(before, key@));
                self.slots = slots;
                None
            }
        } else {
            None
        }
    }

    /// Offers `value` for `key` and takes hold of what the key stands for
    /// from now on: the value that is there alive, else the one offered.
    /// Hands out the index of the slot.
    pub fn add(&mut self, key: &str, value: V) -> (i: usize)
        ensures
            final(self).slots() == after_add(old(self).slots(), key@, value),
            distinct(old(self).slots()),
            distinct(final(self).slots()),
            i == find(old(self).slots(), key@),
            i < final(self).slots().len(),
    {
        proof {
            use_type_invariant(&*self);
        }
        let ghost before = self.slots();
        proof {
            lemma_find(before, key@);
            lemma_distinct_kept(before, key@, value);
        }
        let i = self.find(key);
        let mut slots: Vec<Slot<V>> = Vec::new();
        std::mem::swap(&mut self.slots, &mut slots);
        if i < slots.len() {
            let slot = slots.remove(i);
            let kept = if slot.holders > 0 {
                let holders = if slot.holders < u64::MAX {
                    slot.holders + 1
                } else {
                    slot.holders
                };
                Slot { key: slot.key, value: slot.value, holders }
            } else {
                Slot { key: slot.key, value, holders: 1 }
            };
            slots.insert(i, kept);
        } else {
            slots.push(Slot { key: String::from_str(key), value, holders: 1 });
        }
        assert(slots@.map_values(|s: Slot<V>| s.model()) =~= after_add(before, key@, value));
        self.slots = slots;
        i
    }

    /// Lets go of one hold on `key`.
    pub fn release(&mut self, key: &str)
        ensures
            final(self).slots() == after_release(old(self).slots(), key@),
            distinct(old(self).slots()),
            distinct(final(self).slots()),
    {
        proof {
            use_type_invariant(&*self);
        }
        let ghost before = self.slots();
        proof {
            lemma_find(before, key@);
        }
        let i = self.find(key);
        if i < self.slots.len() {
            let mut slots: Vec<Slot<V>> = Vec::new();
            std::mem::swap(&mut self.slots, &mut slots);
            let slot = slots.remove(i);
            let holders = if slot.holders > 0 {
                slot.holders - 1
            } else {
                0
            };
            proof {
                lemma_distinct_kept(before, key@, slot.value);
            }
            slots.insert(i, Slot { key: slot.key, value: slot.value, holders });
            assert(slots@.map_values(|s: Slot<V>| s.model()) =~= after_release(before, key@));
            self.slots = slots;
        }
    }
}

} // verus!
