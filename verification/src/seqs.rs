//! Sequences as the model of the engine's tables: element-wise views and
//! the position of the first element that satisfies a predicate.

use vstd::prelude::*;

verus! {

/// The views of the elements of `s`, in order.
pub open spec fn views<T: View>(s: Seq<T>) -> Seq<T::V> {
    Seq::new(s.len(), |i: int| s[i]@)
}

/// `i` is the position of the first element of `s` that satisfies `p`.
pub open spec fn is_first<T>(s: Seq<T>, p: spec_fn(T) -> bool, i: int) -> bool {
    &&& 0 <= i < s.len()
    &&& p(s[i])
    &&& forall|j: int| 0 <= j < i ==> !p(#[trigger] s[j])
}

/// The position of the first element of `s` that satisfies `p`, if any.
pub open spec fn first_index<T>(s: Seq<T>, p: spec_fn(T) -> bool) -> Option<int> {
    if exists|i: int| is_first(s, p, i) {
        Some(choose|i: int| is_first(s, p, i))
    } else {
        None
    }
}

/// A first position is the only one.
pub proof fn lemma_first_index_found<T>(s: Seq<T>, p: spec_fn(T) -> bool, i: int)
    requires
        is_first(s, p, i),
    ensures
        first_index(s, p) == Some(i),
{
    let k = choose|k: int| is_first(s, p, k);
    assert(is_first(s, p, k));
    if k < i {
        assert(!p(s[k]));
    } else if i < k {
        assert(!p(s[i]));
    }
}

/// Where no element satisfies `p` there is no first position.
pub proof fn lemma_first_index_absent<T>(s: Seq<T>, p: spec_fn(T) -> bool)
    requires
        forall|j: int| 0 <= j < s.len() ==> !p(#[trigger] s[j]),
    ensures
        first_index(s, p) == None::<int>,
{
    if exists|i: int| is_first(s, p, i) {
        let k = choose|k: int| is_first(s, p, k);
        assert(!p(s[k]));
    }
}

/// What `first_index` returns, spelled out.
pub proof fn lemma_first_index<T>(s: Seq<T>, p: spec_fn(T) -> bool)
    ensures
        match first_index(s, p) {
            Some(i) => is_first(s, p, i),
            None => forall|j: int| 0 <= j < s.len() ==> !p(#[trigger] s[j]),
        },
{
    if exists|i: int| is_first(s, p, i) {
    } else {
        assert forall|j: int| 0 <= j < s.len() implies !p(#[trigger] s[j]) by {
            if p(s[j]) {
                lemma_some_first(s, p, j);
            }
        }
    }
}

/// Where some element satisfies `p`, one of them is the first.
pub proof fn lemma_some_first<T>(s: Seq<T>, p: spec_fn(T) -> bool, j: int)
    requires
        0 <= j < s.len(),
        p(s[j]),
    ensures
        exists|i: int| is_first(s, p, i),
    decreases j,
{
    if exists|k: int| 0 <= k < j && p(s[k]) {
        let k = choose|k: int| 0 <= k < j && p(s[k]);
        lemma_some_first(s, p, k);
    } else {
        assert(is_first(s, p, j));
    }
}

/// Changing an element without changing whether it satisfies `p` leaves
/// the first position as it is.
pub proof fn lemma_first_index_update<T>(s: Seq<T>, p: spec_fn(T) -> bool, i: int, x: T)
    requires
        0 <= i < s.len(),
        p(x) == p(s[i]),
    ensures
        first_index(s.update(i, x), p) == first_index(s, p),
{
    let t = s.update(i, x);
    lemma_first_index(s, p);
    match first_index(s, p) {
        Some(k) => {
            assert(is_first(t, p, k)) by {
                assert forall|j: int| 0 <= j < k implies !p(#[trigger] t[j]) by {
                    if j != i {
                        assert(t[j] == s[j]);
                    }
                    assert(!p(s[j]));
                }
                if k != i {
                    assert(t[k] == s[k]);
                }
            }
            lemma_first_index_found(t, p, k);
        },
        None => {
            assert forall|j: int| 0 <= j < t.len() implies !p(#[trigger] t[j]) by {
                if j != i {
                    assert(t[j] == s[j]);
                }
                assert(!p(s[j]));
            }
            lemma_first_index_absent(t, p);
        },
    }
}

/// Taking out an element that does not satisfy `p` leaves the first
/// element that does as it is, one place further to the front if it came
/// after the one taken out.
pub proof fn lemma_first_index_remove<T>(s: Seq<T>, p: spec_fn(T) -> bool, i: int)
    requires
        0 <= i < s.len(),
        !p(s[i]),
    ensures
        match first_index(s, p) {
            Some(k) => first_index(s.remove(i), p) == Some(
                if k < i {
                    k
                } else {
                    k - 1
                },
            ) && k != i,
            None => first_index(s.remove(i), p) == None::<int>,
        },
{
    let t = s.remove(i);
    lemma_first_index(s, p);
    assert forall|j: int| 0 <= j < t.len() implies #[trigger] t[j] == s[if j < i {
        j
    } else {
        j + 1
    }] by {}
    match first_index(s, p) {
        Some(k) => {
            let k1 = if k < i {
                k
            } else {
                k - 1
            };
            assert(is_first(t, p, k1)) by {
                assert(t[k1] == s[k]);
                assert forall|j: int| 0 <= j < k1 implies !p(#[trigger] t[j]) by {
                    let j0 = if j < i {
                        j
                    } else {
                        j + 1
                    };
                    assert(t[j] == s[j0]);
                    assert(!p(s[j0]));
                }
            }
            lemma_first_index_found(t, p, k1);
        },
        None => {
            assert forall|j: int| 0 <= j < t.len() implies !p(#[trigger] t[j]) by {
                let j0 = if j < i {
                    j
                } else {
                    j + 1
                };
                assert(t[j] == s[j0]);
                assert(!p(s[j0]));
            }
            lemma_first_index_absent(t, p);
        },
    }
}

} // verus!
