//! Keys are byte strings, ordered byte by byte.

use vstd::prelude::*;

verus! {

/// Whether `a` comes before `b` in the order of byte strings: at the first
/// position where they differ `a` has the smaller byte, or `a` is a proper
/// prefix of `b`.
pub open spec fn bytes_lt(a: Seq<u8>, b: Seq<u8>) -> bool
    decreases a.len(),
{
    if b.len() == 0 {
        false
    } else if a.len() == 0 {
        true
    } else if a[0] != b[0] {
        a[0] < b[0]
    } else {
        bytes_lt(a.drop_first(), b.drop_first())
    }
}

/// `a` comes before `b`, or equals it.
pub open spec fn bytes_le(a: Seq<u8>, b: Seq<u8>) -> bool {
    a == b || bytes_lt(a, b)
}

/// With a common prefix of length `n` taken off both, the order is the same.
proof fn lemma_bytes_lt_skip(a: Seq<u8>, b: Seq<u8>, n: int)
    requires
        0 <= n <= a.len(),
        n <= b.len(),
        a.take(n) == b.take(n),
    ensures
        bytes_lt(a, b) == bytes_lt(a.skip(n), b.skip(n)),
    decreases n,
{
    if n == 0 {
        assert(a.skip(0) =~= a);
        assert(b.skip(0) =~= b);
    } else {
        assert(a[0] == a.take(n)[0]);
        assert(b[0] == b.take(n)[0]);
        let a1 = a.drop_first();
        let b1 = b.drop_first();
        assert(a1.take(n - 1) =~= a.take(n).drop_first());
        assert(b1.take(n - 1) =~= b.take(n).drop_first());
        lemma_bytes_lt_skip(a1, b1, n - 1);
        assert(a1.skip(n - 1) =~= a.skip(n));
        assert(b1.skip(n - 1) =~= b.skip(n));
    }
}

/// Tells whether two keys hold the same bytes.
pub fn key_eq(a: &Vec<u8>, b: &Vec<u8>) -> (r: bool)
    ensures
        r == (a@ == b@),
{
    if a.len() != b.len() {
        return false;
    }
    let mut i: usize = 0;
    while i < a.len()
        invariant
            i <= a.len(),
            a.len() == b.len(),
            a@.take(i as int) == b@.take(i as int),
        decreases a.len() - i,
    {
        if a[i] != b[i] {
            return false;
        }
        assert(a@.take(i + 1) =~= a@.take(i as int).push(a@[i as int]));
        assert(b@.take(i + 1) =~= b@.take(i as int).push(b@[i as int]));
        i += 1;
    }
    assert(a@ =~= a@.take(a.len() as int));
    assert(b@ =~= b@.take(b.len() as int));
    true
}

/// Tells whether key `a` comes before key `b`.
pub fn key_lt(a: &Vec<u8>, b: &Vec<u8>) -> (r: bool)
    ensures
        r == bytes_lt(a@, b@),
{
    let mut i: usize = 0;
    while i < a.len() && i < b.len()
        invariant
            i <= a.len(),
            i <= b.len(),
            a@.take(i as int) == b@.take(i as int),
        decreases a.len() - i,
    {
        if a[i] != b[i] {
            proof {
                lemma_bytes_lt_skip(a@, b@, i as int);
            }
            return a[i] < b[i];
        }
        assert(a@.take(i + 1) =~= a@.take(i as int).push(a@[i as int]));
        assert(b@.take(i + 1) =~= b@.take(i as int).push(b@[i as int]));
        i += 1;
    }
    proof {
        lemma_bytes_lt_skip(a@, b@, i as int);
    }
    i < b.len()
}

/// A copy of a key.
pub fn key_clone(a: &Vec<u8>) -> (r: Vec<u8>)
    ensures
        r@ == a@,
{
    let mut r: Vec<u8> = Vec::with_capacity(a.len());
    let mut i: usize = 0;
    while i < a.len()
        invariant
            i <= a.len(),
            r@ == a@.take(i as int),
        decreases a.len() - i,
    {
        r.push(a[i]);
        assert(a@.take(i + 1) =~= a@.take(i as int).push(a@[i as int]));
        i += 1;
    }
    assert(a@ =~= a@.take(a.len() as int));
    r
}

/// The keys that a subscription watches: those from `start_key` on and
/// before `end_key`. An empty `end_key` stands for no upper bound.
#[derive(Clone, Debug, PartialEq, Eq, Default)]
pub struct ObservedRange {
    pub start_key: Vec<u8>,
    pub end_key: Vec<u8>,
}

pub struct ObservedRangeView {
    pub start_key: Seq<u8>,
    pub end_key: Seq<u8>,
}

impl View for ObservedRange {
    type V = ObservedRangeView;

    open spec fn view(&self) -> ObservedRangeView {
        ObservedRangeView { start_key: self.start_key@, end_key: self.end_key@ }
    }
}

impl ObservedRangeView {
    pub open spec fn contains(self, key: Seq<u8>) -> bool {
        bytes_le(self.start_key, key) && (self.end_key.len() == 0 || bytes_lt(key, self.end_key))
    }

    /// The range that holds every key.
    pub open spec fn all() -> ObservedRangeView {
        ObservedRangeView { start_key: Seq::empty(), end_key: Seq::empty() }
    }
}

impl ObservedRange {
    /// The range from `start_key` on and before `end_key`.
    pub fn new(start_key: Vec<u8>, end_key: Vec<u8>) -> (r: ObservedRange)
        ensures
            r@ == (ObservedRangeView { start_key: start_key@, end_key: end_key@ }),
    {
        ObservedRange { start_key, end_key }
    }

    /// The range that holds every key.
    pub fn all() -> (r: ObservedRange)
        ensures
            r@ == ObservedRangeView::all(),
    {
        ObservedRange { start_key: Vec::new(), end_key: Vec::new() }
    }

    pub fn contains(&self, key: &Vec<u8>) -> (r: bool)
        ensures
            r == self@.contains(key@),
    {
        if key_lt(key, &self.start_key) {
            proof {
                lemma_bytes_order(key@, self.start_key@);
            }
            return false;
        }
        proof {
            lemma_bytes_order(key@, self.start_key@);
        }
        self.end_key.len() == 0 || key_lt(key, &self.end_key)
    }

    pub fn duplicate(&self) -> (r: ObservedRange)
        ensures
            r@ == self@,
    {
        ObservedRange { start_key: key_clone(&self.start_key), end_key: key_clone(&self.end_key) }
    }
}

/// Of two byte strings exactly one holds: the first comes before the
/// second, they are equal, or the second comes before the first.
pub proof fn lemma_bytes_order(a: Seq<u8>, b: Seq<u8>)
    ensures
        bytes_lt(a, b) ==> !bytes_lt(b, a) && a != b,
        !bytes_lt(a, b) ==> bytes_le(b, a),
    decreases a.len(),
{
    if a.len() == 0 || b.len() == 0 {
        if a.len() == 0 && b.len() == 0 {
            assert(a =~= b);
        }
    } else if a[0] != b[0] {
    } else {
        lemma_bytes_order(a.drop_first(), b.drop_first());
        if a.drop_first() == b.drop_first() {
            assert(a.len() == b.len()) by {
                assert(a.drop_first().len() == b.drop_first().len());
            }
            assert forall|i: int| 0 <= i < a.len() implies a[i] == b[i] by {
                if i > 0 {
                    assert(a.drop_first()[i - 1] == b.drop_first()[i - 1]);
                }
            }
            assert(a =~= b);
        }
        if a == b {
            assert(a.drop_first() == b.drop_first());
        }
    }
}

/// Every key lies in the range without bounds.
pub proof fn lemma_all_contains(key: Seq<u8>)
    ensures
        ObservedRangeView::all().contains(key),
{
    if key.len() == 0 {
        assert(key =~= Seq::<u8>::empty());
    }
}

} // verus!
