//! Which keys an edge carries most of: a space-saving sketch of fixed size.
//!
//! An edge whose traffic is spread evenly and one whose traffic is nearly all
//! of one key look the same in every aggregate. The sketch tells them apart at
//! a fixed cost, with an error bounded by the smallest count it retains.

use vstd::prelude::*;

verus! {

/// Keys a [`TopK`] retains.
pub const TOPK: usize = 16;

/// A retained key and its count.
pub type KeyCount = (u64, u64);

/// The key is retained.
pub open spec fn retained(slots: Seq<KeyCount>, key: u64) -> bool {
    exists|i: int| 0 <= i < slots.len() && (#[trigger] slots[i]).0 == key
}

/// Where a retained key is.
pub open spec fn slot_of(slots: Seq<KeyCount>, key: u64) -> int {
    choose|i: int| 0 <= i < slots.len() && (#[trigger] slots[i]).0 == key
}

/// Slot `i` is the first of the smallest counts.
pub open spec fn is_first_min(slots: Seq<KeyCount>, i: int) -> bool {
    &&& 0 <= i < slots.len()
    &&& forall|j: int| 0 <= j < slots.len() ==> slots[i].1 <= (#[trigger] slots[j]).1
    &&& forall|j: int| 0 <= j < i ==> slots[i].1 < (#[trigger] slots[j]).1
}

/// The first of the smallest counts.
pub open spec fn min_slot(slots: Seq<KeyCount>) -> int {
    choose|i: int| is_first_min(slots, i)
}

/// No key is retained twice.
pub open spec fn distinct_keys(slots: Seq<KeyCount>) -> bool {
    forall|i: int, j: int|
        0 <= i < j < slots.len() ==> (#[trigger] slots[i]).0 != (#[trigger] slots[j]).0
}

/// The sum of the retained counts.
pub open spec fn sum_slots(slots: Seq<KeyCount>) -> nat
    decreases slots.len(),
{
    if slots.len() == 0 {
        0
    } else {
        sum_slots(slots.drop_last()) + slots.last().1 as nat
    }
}

/// The largest retained count.
pub open spec fn max_count(slots: Seq<KeyCount>) -> nat
    decreases slots.len(),
{
    if slots.len() == 0 {
        0
    } else {
        let rest = max_count(slots.drop_last());
        if rest < slots.last().1 {
            slots.last().1 as nat
        } else {
            rest
        }
    }
}

/// The slots after one more event with that key. A new key takes a free slot,
/// or evicts the smallest count and inherits it, so that a key that has taken
/// over is reached whatever came first.
pub open spec fn after_observe(slots: Seq<KeyCount>, key: u64) -> Seq<KeyCount> {
    if retained(slots, key) {
        let i = slot_of(slots, key);
        slots.update(i, (key, (slots[i].1 + 1) as u64))
    } else if slots.len() < TOPK {
        slots.push((key, 1))
    } else {
        let i = min_slot(slots);
        slots.update(i, (key, (slots[i].1 + 1) as u64))
    }
}

/// The slots after a count of another sketch has been taken in.
pub open spec fn after_merge_one(slots: Seq<KeyCount>, key: u64, count: u64) -> Seq<KeyCount> {
    if retained(slots, key) {
        let i = slot_of(slots, key);
        slots.update(i, (key, (slots[i].1 + count) as u64))
    } else if slots.len() < TOPK {
        slots.push((key, count))
    } else {
        let i = min_slot(slots);
        if slots[i].1 < count {
            slots.update(i, (key, (slots[i].1 + count) as u64))
        } else {
            slots
        }
    }
}

/// The slots after all counts of another sketch have been taken in.
pub open spec fn after_merge(slots: Seq<KeyCount>, other: Seq<KeyCount>) -> Seq<KeyCount>
    decreases other.len(),
{
    if other.len() == 0 {
        slots
    } else {
        after_merge_one(after_merge(slots, other.drop_last()), other.last().0, other.last().1)
    }
}

/// Space-saving sketch of the most frequent keys.
#[derive(Clone, Debug)]
pub struct TopK {
    slots: Vec<KeyCount>,
    total: u64,
}

pub(crate) proof fn lemma_sum_update(slots: Seq<KeyCount>, i: int, v: KeyCount)
    requires
        0 <= i < slots.len(),
    ensures
        sum_slots(slots.update(i, v)) == sum_slots(slots) - slots[i].1 + v.1,
        slots[i].1 <= sum_slots(slots),
    decreases slots.len(),
{
    if i == slots.len() - 1 {
        assert(slots.update(i, v).drop_last() =~= slots.drop_last());
    } else {
        lemma_sum_update(slots.drop_last(), i, v);
        assert(slots.update(i, v).drop_last() =~= slots.drop_last().update(i, v));
    }
}

proof fn lemma_first_min_is_unique(slots: Seq<KeyCount>, a: int, b: int)
    requires
        is_first_min(slots, a),
        is_first_min(slots, b),
    ensures
        a == b,
{
    if a < b {
        assert(slots[b].1 < slots[a].1);
        assert(slots[a].1 <= slots[b].1);
    } else if b < a {
        assert(slots[a].1 < slots[b].1);
        assert(slots[b].1 <= slots[a].1);
    }
}

proof fn lemma_max_below_sum(slots: Seq<KeyCount>)
    ensures
        max_count(slots) <= sum_slots(slots),
    decreases slots.len(),
{
    if slots.len() > 0 {
        lemma_max_below_sum(slots.drop_last());
    }
}

impl Default for TopK {
    fn default() -> (t: TopK)
        ensures
            t.wf(),
            t.slots().len() == 0,
            t.observed() == 0,
    {
        TopK { slots: Vec::new(), total: 0 }
    }
}

impl TopK {
    /// The retained keys with their counts.
    pub closed spec fn slots(&self) -> Seq<KeyCount> {
        self.slots@
    }

    /// The events that carried a key.
    pub closed spec fn observed(&self) -> nat {
        self.total as nat
    }

    /// No more keys than slots, none of them twice, and no more counted than
    /// observed.
    pub open spec fn wf(&self) -> bool {
        &&& self.slots().len() <= TOPK
        &&& distinct_keys(self.slots())
        &&& sum_slots(self.slots()) <= self.observed()
    }

    fn find(&self, key: u64) -> (at: Option<usize>)
        requires
            distinct_keys(self.slots()),
        ensures
            at is Some <==> retained(self.slots(), key),
            at matches Some(i) ==> i < self.slots().len() && i == slot_of(self.slots(), key),
    {
        let mut i: usize = 0;
        while i < self.slots.len()
            invariant
                i <= self.slots@.len(),
                distinct_keys(self.slots()),
                forall|k: int| 0 <= k < i ==> (#[trigger] self.slots@[k]).0 != key,
            decreases self.slots@.len() - i,
        {
            if self.slots[i].0 == key {
                proof {
                    let there = slot_of(self.slots(), key);
                    assert(self.slots@[i as int].0 == key);
                    assert(self.slots@[there].0 == key);
                }
                return Some(i);
            }
            i = i + 1;
        }
        None
    }

    fn smallest(&self) -> (at: usize)
        requires
            self.slots().len() > 0,
        ensures
            at == min_slot(self.slots()),
            is_first_min(self.slots(), at as int),
    {
        let mut at: usize = 0;
        let mut i: usize = 1;
        while i < self.slots.len()
            invariant
                at < i <= self.slots@.len(),
                forall|k: int| 0 <= k < i ==> self.slots@[at as int].1 <= (#[trigger] self.slots@[k]).1,
                forall|k: int| 0 <= k < at ==> self.slots@[at as int].1 < (#[trigger] self.slots@[k]).1,
            decreases self.slots@.len() - i,
        {
            if self.slots[i].1 < self.slots[at].1 {
                at = i;
            }
            i = i + 1;
        }
        proof {
            assert(is_first_min(self.slots(), at as int));
            lemma_first_min_is_unique(self.slots(), at as int, min_slot(self.slots()));
        }
        at
    }

    pub fn observe(&mut self, key: u64)
        requires
            old(self).wf(),
            old(self).observed() < u64::MAX,
        ensures
            final(self).wf(),
            final(self).slots() == after_observe(old(self).slots(), key),
            final(self).observed() == old(self).observed() + 1,
            old(self).observed() == sum_slots(old(self).slots()) ==> final(self).observed()
                == sum_slots(final(self).slots()),
    {
        self.total = self.total + 1;
        let ghost was = self.slots@;
        match self.find(key) {
            Some(i) => {
                let count: u64 = self.slots[i].1;
                proof {
                    lemma_sum_update(was, i as int, (key, (count + 1) as u64));
                }
                self.slots.set(i, (key, count + 1));
            },
            None => if self.slots.len() < TOPK {
                self.slots.push((key, 1));
                assert(self.slots@.drop_last() =~= was);
            } else {
                let i: usize = self.smallest();
                let count: u64 = self.slots[i].1;
                proof {
                    lemma_sum_update(was, i as int, (key, (count + 1) as u64));
                }
                self.slots.set(i, (key, count + 1));
            },
        }
    }

    /// Takes in the counts of another sketch, and all that it has observed.
    pub fn merge(&mut self, other: &TopK)
        requires
            old(self).wf(),
            other.wf(),
            old(self).observed() + other.observed() <= u64::MAX,
        ensures
            final(self).wf(),
            final(self).slots() == after_merge(old(self).slots(), other.slots()),
            final(self).observed() == old(self).observed() + other.observed(),
    {
        let mut n: usize = 0;
        assert(other.slots@.take(0) =~= Seq::<KeyCount>::empty());
        while n < other.slots.len()
            invariant
                n <= other.slots@.len(),
                other.wf(),
                self.slots@.len() <= TOPK,
                distinct_keys(self.slots@),
                self.total == old(self).total,
                self.slots@ == after_merge(old(self).slots(), other.slots@.take(n as int)),
                sum_slots(self.slots@) <= old(self).observed() + sum_slots(
                    other.slots@.take(n as int),
                ),
                old(self).observed() + other.observed() <= u64::MAX,
            decreases other.slots@.len() - n,
        {
            let (key, count) = other.slots[n];
            let ghost was = self.slots@;
            proof {
                assert(other.slots@.take(n + 1).drop_last() =~= other.slots@.take(n as int));
                lemma_prefix_sum(other.slots@, n + 1);
            }
            match self.find(key) {
                Some(i) => {
                    let mine: u64 = self.slots[i].1;
                    proof {
                        lemma_sum_update(was, i as int, (key, (mine + count) as u64));
                    }
                    self.slots.set(i, (key, mine + count));
                },
                None => if self.slots.len() < TOPK {
                    self.slots.push((key, count));
                    assert(self.slots@.drop_last() =~= was);
                } else {
                    let i: usize = self.smallest();
                    let mine: u64 = self.slots[i].1;
                    if mine < count {
                        proof {
                            lemma_sum_update(was, i as int, (key, (mine + count) as u64));
                        }
                        self.slots.set(i, (key, mine + count));
                    }
                },
            }
            n = n + 1;
        }
        assert(other.slots@.take(n as int) =~= other.slots@);
        self.total = self.total + other.total;
    }

    /// The count of the busiest key and the events it is a share of. Both are
    /// zero where no event carried a key: that is no evidence of skew.
    pub fn top_share(&self) -> (share: (u64, u64))
        requires
            self.wf(),
        ensures
            share.0 == max_count(self.slots()),
            share.1 == self.observed(),
            share.0 <= share.1,
    {
        let mut top: u64 = 0;
        let mut i: usize = 0;
        while i < self.slots.len()
            invariant
                i <= self.slots@.len(),
                top == max_count(self.slots@.take(i as int)),
            decreases self.slots@.len() - i,
        {
            assert(self.slots@.take(i + 1).drop_last() =~= self.slots@.take(i as int));
            if top < self.slots[i].1 {
                top = self.slots[i].1;
            }
            i = i + 1;
        }
        proof {
            assert(self.slots@.take(i as int) =~= self.slots@);
            lemma_max_below_sum(self.slots@);
        }
        (top, self.total)
    }
}

proof fn lemma_prefix_sum(slots: Seq<KeyCount>, n: int)
    requires
        0 <= n <= slots.len(),
    ensures
        sum_slots(slots.take(n)) <= sum_slots(slots),
    decreases slots.len() - n,
{
    if n < slots.len() {
        lemma_prefix_sum(slots, n + 1);
        assert(slots.take(n + 1).drop_last() =~= slots.take(n));
    } else {
        assert(slots.take(n) =~= slots);
    }
}

/// How often a key was observed.
pub open spec fn frequency(keys: Seq<u64>, key: u64) -> nat
    decreases keys.len(),
{
    if keys.len() == 0 {
        0
    } else {
        frequency(keys.drop_last(), key) + if keys.last() == key {
            1nat
        } else {
            0nat
        }
    }
}

/// The slots after the keys have been observed one by one.
pub open spec fn sketch_of(keys: Seq<u64>) -> Seq<KeyCount>
    decreases keys.len(),
{
    if keys.len() == 0 {
        Seq::empty()
    } else {
        after_observe(sketch_of(keys.drop_last()), keys.last())
    }
}

/// The smallest retained count of a full sketch; a sketch with room left has
/// lost nothing.
pub open spec fn slack(slots: Seq<KeyCount>) -> nat {
    if slots.len() < TOPK {
        0
    } else {
        slots[min_slot(slots)].1 as nat
    }
}

pub(crate) proof fn lemma_has_min(slots: Seq<KeyCount>) -> (at: int)
    requires
        slots.len() > 0,
    ensures
        is_first_min(slots, at),
        at == min_slot(slots),
    decreases slots.len(),
{
    let at = lemma_some_min(slots);
    lemma_first_min_is_unique(slots, at, min_slot(slots));
    at
}

proof fn lemma_some_min(slots: Seq<KeyCount>) -> (at: int)
    requires
        slots.len() > 0,
    ensures
        is_first_min(slots, at),
    decreases slots.len(),
{
    let last = slots.len() - 1;
    if last == 0 {
        0
    } else {
        let rest = slots.drop_last();
        let before = lemma_some_min(rest);
        if slots[last].1 < slots[before].1 {
            assert forall|j: int| 0 <= j < slots.len() implies slots[last].1 <= (
            #[trigger] slots[j]).1 by {
                if j < last {
                    assert(rest[before].1 <= rest[j].1);
                }
            }
            assert forall|j: int| 0 <= j < last implies slots[last].1 < (#[trigger] slots[j]).1 by {
                assert(rest[before].1 <= rest[j].1);
            }
            last
        } else {
            assert forall|j: int| 0 <= j < slots.len() implies slots[before].1 <= (
            #[trigger] slots[j]).1 by {
                if j < last {
                    assert(rest[before].1 <= rest[j].1);
                }
            }
            assert forall|j: int| 0 <= j < before implies slots[before].1 < (
            #[trigger] slots[j]).1 by {
                assert(rest[before].1 < rest[j].1);
            }
            before
        }
    }
}

/// Law: a count is never below how often its key was observed, and above it by
/// no more than the smallest retained count; a key that is not retained was
/// observed no more often than that.
pub proof fn law_sketch_error_is_bounded(keys: Seq<u64>, key: u64)
    requires
        keys.len() <= u64::MAX,
    ensures
        sketch_of(keys).len() <= TOPK,
        distinct_keys(sketch_of(keys)),
        sum_slots(sketch_of(keys)) == keys.len(),
        retained(sketch_of(keys), key) ==> {
            let count = sketch_of(keys)[slot_of(sketch_of(keys), key)].1;
            frequency(keys, key) <= count <= frequency(keys, key) + slack(sketch_of(keys))
        },
        !retained(sketch_of(keys), key) ==> frequency(keys, key) <= slack(sketch_of(keys)),
    decreases keys.len(),
{
    if keys.len() > 0 {
        let rest = keys.drop_last();
        let new = keys.last();
        let was = sketch_of(rest);
        let now = sketch_of(keys);
        law_sketch_error_is_bounded(rest, key);
        law_sketch_error_is_bounded(rest, new);
        if was.len() >= TOPK {
            lemma_has_min(was);
        }
        if now.len() >= TOPK {
            lemma_has_min(now);
        }
        let at = if retained(was, new) {
            slot_of(was, new)
        } else if was.len() < TOPK {
            was.len() as int
        } else {
            min_slot(was)
        };
        if at < was.len() {
            lemma_sum_update(was, at, (new, (was[at].1 + 1) as u64));
        } else {
            assert(now.drop_last() =~= was);
        }
        assert(now[at].0 == new);
        // the smallest count does not shrink
        assert(slack(was) <= slack(now)) by {
            if was.len() >= TOPK {
                let m2 = min_slot(now);
                assert(was[min_slot(was)].1 <= was[m2].1);
            }
        }
        if key == new {
            assert(retained(now, key));
            let there = slot_of(now, key);
            assert(now[there].0 == key);
            assert(there == at);
        } else if retained(was, key) {
            let old_at = slot_of(was, key);
            assert(was[old_at].0 == key);
            if old_at == at {
                // evicted: it had the smallest count
                assert(!retained(was, new));
                assert(!retained(now, key)) by {
                    if retained(now, key) {
                        let there = slot_of(now, key);
                        assert(now[there].0 == key);
                        assert(there != at);
                        assert(was[there].0 == key);
                    }
                }
            } else {
                assert(now[old_at] == was[old_at]);
                assert(retained(now, key));
                let there = slot_of(now, key);
                assert(now[there].0 == key);
                assert(there == old_at);
            }
        } else {
            assert(!retained(now, key)) by {
                if retained(now, key) {
                    let there = slot_of(now, key);
                    assert(now[there].0 == key);
                    assert(there != at);
                    assert(was[there].0 == key);
                }
            }
        }
    }
}

} // verus!
