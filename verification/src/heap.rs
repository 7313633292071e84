//! The regions of one subscriber group, ordered by resolved timestamp, so
//! that those that lag most come out first.

use vstd::prelude::*;
use crate::seqs::{first_index, is_first, lemma_first_index, lemma_first_index_absent, lemma_first_index_found};
use crate::timestamp::TimeStamp;

verus! {

/// A region and the timestamp up to which it is resolved.
#[derive(Clone, Copy, Debug, PartialEq, Eq, Structural)]
pub struct ResolvedRegion {
    pub region_id: u64,
    pub resolved_ts: TimeStamp,
}

/// A priority queue of regions by resolved timestamp, least first. Among
/// regions with the same timestamp the one pushed first comes out first.
///
/// Its view is the sequence of its entries in the order in which they
/// come out, which is ascending by timestamp.
#[derive(Debug, Default, PartialEq, Eq)]
pub struct ResolvedRegionHeap {
    heap: Vec<ResolvedRegion>,
}

impl View for ResolvedRegionHeap {
    type V = Seq<ResolvedRegion>;

    closed spec fn view(&self) -> Seq<ResolvedRegion> {
        self.heap@
    }
}

impl Clone for ResolvedRegionHeap {
    fn clone(&self) -> (r: ResolvedRegionHeap)
        ensures
            r@ == self@,
    {
        proof {
            use_type_invariant(self);
        }
        let mut entries: Vec<ResolvedRegion> = Vec::with_capacity(self.heap.len());
        let mut i: usize = 0;
        while i < self.heap.len()
            invariant
                i <= self.heap.len(),
                entries@ == self.heap@.take(i as int),
            decreases self.heap.len() - i,
        {
            entries.push(self.heap[i]);
            assert(self.heap@.take(i + 1) =~= self.heap@.take(i as int).push(self.heap@[i as int]));
            i += 1;
        }
        assert(self.heap@.take(self.heap.len() as int) =~= self.heap@);
        ResolvedRegionHeap { heap: entries }
    }
}

/// The entries are in ascending order of timestamp.
pub open spec fn sorted(s: Seq<ResolvedRegion>) -> bool {
    forall|i: int, j: int| 0 <= i <= j < s.len() ==> s[i].resolved_ts.0 <= s[j].resolved_ts.0
}

/// Tells the entries with a timestamp greater than `ts` from the others.
pub open spec fn later_than(ts: TimeStamp) -> spec_fn(ResolvedRegion) -> bool {
    |x: ResolvedRegion| x.resolved_ts.0 > ts.0
}

/// The queue after `r` has gone in: before the first entry with a greater
/// timestamp, or at the end if there is none.
pub open spec fn spec_push(s: Seq<ResolvedRegion>, r: ResolvedRegion) -> Seq<ResolvedRegion> {
    match first_index(s, later_than(r.resolved_ts)) {
        Some(i) => s.insert(i, r),
        None => s.push(r),
    }
}

/// The least timestamp among `s`, and the greatest timestamp there is
/// where `s` is empty.
pub open spec fn min_resolved_ts(s: Seq<ResolvedRegion>) -> u64
    decreases s.len(),
{
    if s.len() == 0 {
        u64::MAX
    } else {
        let m = min_resolved_ts(s.drop_last());
        if m > s.last().resolved_ts.0 {
            s.last().resolved_ts.0
        } else {
            m
        }
    }
}

/// The region ids of `s`, each once, in the order of their first
/// occurrence.
pub open spec fn distinct_regions(s: Seq<ResolvedRegion>) -> Seq<u64>
    decreases s.len(),
{
    if s.len() == 0 {
        Seq::empty()
    } else {
        let d = distinct_regions(s.drop_last());
        if d.contains(s.last().region_id) {
            d
        } else {
            d.push(s.last().region_id)
        }
    }
}

/// How many entries a pop of `count` takes out of a queue of `len`.
pub open spec fn popped_len(len: nat, count: usize) -> int {
    if count <= len {
        count as int
    } else {
        len as int
    }
}

/// Tells whether `x` occurs in `v`.
pub fn contains_id(v: &Vec<u64>, x: u64) -> (r: bool)
    ensures
        r == v@.contains(x),
{
    let mut i: usize = 0;
    while i < v.len()
        invariant
            i <= v.len(),
            forall|j: int| 0 <= j < i ==> v@[j] != x,
        decreases v.len() - i,
    {
        if v[i] == x {
            return true;
        }
        i += 1;
    }
    false
}

impl ResolvedRegionHeap {
    #[verifier::type_invariant]
    spec fn in_order(&self) -> bool {
        sorted(self.heap@)
    }

    pub fn new() -> (r: ResolvedRegionHeap)
        ensures
            r@ == Seq::<ResolvedRegion>::empty(),
    {
        ResolvedRegionHeap { heap: Vec::new() }
    }

    pub fn len(&self) -> (r: usize)
        ensures
            r == self@.len(),
    {
        self.heap.len()
    }

    pub fn is_empty(&self) -> (r: bool)
        ensures
            r == (self@.len() == 0),
    {
        self.heap.len() == 0
    }

    /// The entry that comes out first, if there is one: no entry has a
    /// lesser timestamp.
    pub fn peek(&self) -> (r: Option<ResolvedRegion>)
        ensures
            r == if self@.len() > 0 {
                Some(self@[0])
            } else {
                None
            },
            sorted(self@),
    {
        proof {
            use_type_invariant(self);
        }
        if self.heap.len() > 0 {
            Some(self.heap[0])
        } else {
            None
        }
    }

    /// Puts a region with its resolved timestamp into the queue.
    pub fn push(&mut self, region_id: u64, resolved_ts: TimeStamp)
        ensures
            final(self)@ == spec_push(old(self)@, ResolvedRegion { region_id, resolved_ts }),
            sorted(final(self)@),
    {
        proof {
            use_type_invariant(&*self);
        }
        let entry = ResolvedRegion { region_id, resolved_ts };
        let ghost p = later_than(resolved_ts);
        let mut i: usize = self.heap.len();
        while i > 0 && self.heap[i - 1].resolved_ts.0 > resolved_ts.0
            invariant
                i <= self.heap.len(),
                self.heap@ == old(self).heap@,
                forall|j: int| i <= j < self.heap.len() ==> self.heap@[j].resolved_ts.0 > resolved_ts.0,
            decreases i,
        {
            i -= 1;
        }
        proof {
            assert forall|j: int| 0 <= j < i implies !p(#[trigger] self.heap@[j]) by {
                assert(self.heap@[j].resolved_ts.0 <= self.heap@[i - 1].resolved_ts.0);
            }
            if i < self.heap.len() {
                assert(is_first(self.heap@, p, i as int));
                lemma_first_index_found(self.heap@, p, i as int);
            } else {
                lemma_first_index_absent(self.heap@, p);
            }
            lemma_push_sorted(self.heap@, entry);
        }
        let mut entries: Vec<ResolvedRegion> = Vec::new();
        std::mem::swap(&mut self.heap, &mut entries);
        if i < entries.len() {
            entries.insert(i, entry);
        } else {
            entries.push(entry);
        }
        self.heap = entries;
    }

    /// Takes the `count` regions with the least resolved timestamps out
    /// of the queue, or all if there are fewer, and returns the least of
    /// their timestamps with their ids. Where nothing comes out, the
    /// timestamp is the greatest there is.
    pub fn pop(&mut self, count: usize) -> (r: (TimeStamp, Vec<u64>))
        ensures
            r.0.0 == min_resolved_ts(old(self)@.take(popped_len(old(self)@.len(), count))),
            r.1@ == distinct_regions(old(self)@.take(popped_len(old(self)@.len(), count))),
            final(self)@ == old(self)@.skip(popped_len(old(self)@.len(), count)),
            sorted(final(self)@),
    {
        proof {
            use_type_invariant(&*self);
            lemma_pop_sorted(self.heap@, count);
        }
        let k = if count <= self.heap.len() {
            count
        } else {
            self.heap.len()
        };
        let mut min_ts: u64 = u64::MAX;
        let mut outliers: Vec<u64> = Vec::new();
        let mut i: usize = 0;
        while i < k
            invariant
                i <= k <= self.heap.len(),
                self.heap@ == old(self).heap@,
                min_ts == min_resolved_ts(self.heap@.take(i as int)),
                outliers@ == distinct_regions(self.heap@.take(i as int)),
            decreases k - i,
        {
            let entry = self.heap[i];
            assert(self.heap@.take(i + 1).drop_last() =~= self.heap@.take(i as int));
            if !contains_id(&outliers, entry.region_id) {
                outliers.push(entry.region_id);
            }
            if min_ts > entry.resolved_ts.0 {
                min_ts = entry.resolved_ts.0;
            }
            i += 1;
        }
        let mut entries: Vec<ResolvedRegion> = Vec::new();
        std::mem::swap(&mut self.heap, &mut entries);
        let rest = entries.split_off(k);
        self.heap = rest;
        (TimeStamp(min_ts), outliers)
    }
}

/// Pushing keeps the queue in order.
pub proof fn lemma_push_sorted(s: Seq<ResolvedRegion>, r: ResolvedRegion)
    requires
        sorted(s),
    ensures
        sorted(spec_push(s, r)),
        spec_push(s, r).to_multiset() == s.to_multiset().insert(r),
{
    let p = later_than(r.resolved_ts);
    lemma_first_index(s, p);
    broadcast use vstd::seq_lib::group_to_multiset_ensures;
    match first_index(s, p) {
        Some(i) => {
            let t = s.insert(i, r);
            assert forall|a: int, b: int| 0 <= a <= b < t.len() implies t[a].resolved_ts.0
                <= t[b].resolved_ts.0 by {
                if a < i {
                    assert(!p(s[a]));
                }
                if b > i {
                    assert(s[i].resolved_ts.0 <= s[b - 1].resolved_ts.0);
                }
            }
        },
        None => {
            let t = s.push(r);
            assert forall|a: int, b: int| 0 <= a <= b < t.len() implies t[a].resolved_ts.0
                <= t[b].resolved_ts.0 by {
                if a < s.len() {
                    assert(!p(s[a]));
                }
            }
        },
    }
}

/// The least timestamp of a sequence is no greater than any of its
/// timestamps, and it is one of them unless the sequence is empty.
pub proof fn lemma_min_resolved_ts(s: Seq<ResolvedRegion>)
    ensures
        forall|i: int| 0 <= i < s.len() ==> min_resolved_ts(s) <= (#[trigger] s[i]).resolved_ts.0,
        s.len() > 0 ==> exists|i: int| 0 <= i < s.len() && min_resolved_ts(s) == s[i].resolved_ts.0,
        s.len() == 0 ==> min_resolved_ts(s) == u64::MAX,
    decreases s.len(),
{
    if s.len() > 0 {
        let t = s.drop_last();
        lemma_min_resolved_ts(t);
        assert forall|i: int| 0 <= i < s.len() implies min_resolved_ts(s) <= (#[trigger] s[i]).resolved_ts.0 by {
            if i < t.len() {
                assert(t[i] == s[i]);
            }
        }
        if min_resolved_ts(t) > s.last().resolved_ts.0 || t.len() == 0 {
            assert(min_resolved_ts(s) == s[s.len() - 1].resolved_ts.0);
        } else {
            let i = choose|i: int| 0 <= i < t.len() && min_resolved_ts(t) == t[i].resolved_ts.0;
            assert(t[i] == s[i]);
        }
    }
}

/// What comes out of a queue in order: the least timestamp is that of the
/// first entry, and no entry that stays has a lesser timestamp than one
/// that left.
pub proof fn lemma_pop_sorted(s: Seq<ResolvedRegion>, count: usize)
    requires
        sorted(s),
    ensures
        sorted(s.skip(popped_len(s.len(), count))),
        0 < count && 0 < s.len() ==> min_resolved_ts(s.take(popped_len(s.len(), count)))
            == s[0].resolved_ts.0,
        forall|i: int, j: int|
            0 <= i < popped_len(s.len(), count) <= j < s.len() ==> s[i].resolved_ts.0
                <= s[j].resolved_ts.0,
{
    let k = popped_len(s.len(), count);
    let t = s.take(k);
    lemma_min_resolved_ts(t);
    if 0 < count && 0 < s.len() {
        assert(t[0] == s[0]);
        let i = choose|i: int| 0 <= i < t.len() && min_resolved_ts(t) == t[i].resolved_ts.0;
        assert(t[i] == s[i]);
    }
}

/// The ids that come out are those of the entries taken, none twice.
pub proof fn lemma_distinct_regions(s: Seq<ResolvedRegion>)
    ensures
        distinct_regions(s).no_duplicates(),
        forall|id: u64|
            distinct_regions(s).contains(id) <==> exists|i: int|
                0 <= i < s.len() && (#[trigger] s[i]).region_id == id,
    decreases s.len(),
{
    if s.len() > 0 {
        let t = s.drop_last();
        let d = distinct_regions(t);
        lemma_distinct_regions(t);
        assert forall|id: u64|
            distinct_regions(s).contains(id) <==> exists|i: int|
                0 <= i < s.len() && (#[trigger] s[i]).region_id == id by {
            if distinct_regions(s).contains(id) {
                if d.contains(id) {
                    let i = choose|i: int| 0 <= i < t.len() && (#[trigger] t[i]).region_id == id;
                    assert(s[i].region_id == id);
                } else {
                    let j = choose|j: int|
                        0 <= j < distinct_regions(s).len() && distinct_regions(s)[j] == id;
                    if j < d.len() {
                        assert(d[j] == id);
                    }
                    assert(s[s.len() - 1].region_id == id);
                }
            }
            if exists|i: int| 0 <= i < s.len() && (#[trigger] s[i]).region_id == id {
                let i = choose|i: int| 0 <= i < s.len() && (#[trigger] s[i]).region_id == id;
                if i < t.len() {
                    assert(t[i].region_id == id);
                    assert(d.contains(id));
                    let j = choose|j: int| 0 <= j < d.len() && d[j] == id;
                    assert(distinct_regions(s)[j] == id);
                } else {
                    if d.contains(id) {
                        let j = choose|j: int| 0 <= j < d.len() && d[j] == id;
                        assert(distinct_regions(s)[j] == id);
                    } else {
                        assert(distinct_regions(s)[d.len() as int] == id);
                    }
                }
            }
        }
    }
}

} // verus!
