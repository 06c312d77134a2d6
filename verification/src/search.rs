//! Finding the first element of a sequence that satisfies a predicate, as
//! `Iterator::position` and `Iterator::find` do.
use vstd::prelude::*;

verus! {

/// The index of the first element of `s` that satisfies `p`, or `s.len()`.
pub open spec fn first_where<T>(s: Seq<T>, p: spec_fn(T) -> bool) -> int
    decreases s.len(),
{
    if s.len() == 0 {
        0
    } else if p(s[0]) {
        0
    } else {
        1 + first_where(s.drop_first(), p)
    }
}

/// The first element of `s` that satisfies `p`, as `Iterator::find` gives it.
pub open spec fn find_first<T>(s: Seq<T>, p: spec_fn(T) -> bool) -> Option<T> {
    let i = first_where(s, p);
    if i < s.len() {
        Some(s[i])
    } else {
        None
    }
}

pub proof fn lemma_first_where<T>(s: Seq<T>, p: spec_fn(T) -> bool, i: int)
    requires
        0 <= i <= s.len(),
        forall|k: int| 0 <= k < i ==> !p(#[trigger] s[k]),
        i == s.len() || p(s[i]),
    ensures
        first_where(s, p) == i,
    decreases i,
{
    if i > 0 {
        let t = s.drop_first();
        assert(!p(s[0]));
        assert forall|k: int| 0 <= k < i - 1 implies !p(#[trigger] t[k]) by {
            assert(t[k] == s[k + 1]);
        }
        if i < s.len() {
            assert(t[i - 1] == s[i]);
        }
        lemma_first_where(t, p, i - 1);
    }
}

/// The index is in range; when it is below the length it points at an
/// element that satisfies `p`, and no earlier element does.
pub proof fn lemma_first_where_bounds<T>(s: Seq<T>, p: spec_fn(T) -> bool)
    ensures
        0 <= first_where(s, p) <= s.len(),
        first_where(s, p) < s.len() ==> p(s[first_where(s, p)]),
        forall|k: int| 0 <= k < first_where(s, p) ==> !p(#[trigger] s[k]),
    decreases s.len(),
{
    if s.len() > 0 && !p(s[0]) {
        let t = s.drop_first();
        lemma_first_where_bounds(t, p);
        assert forall|k: int| 0 <= k < first_where(s, p) implies !p(#[trigger] s[k]) by {
            if k > 0 {
                assert(s[k] == t[k - 1]);
            }
        }
    }
}

/// When no index is found, no element satisfies `p`.
pub proof fn lemma_first_where_none<T>(s: Seq<T>, p: spec_fn(T) -> bool)
    requires
        first_where(s, p) == s.len(),
    ensures
        forall|k: int| 0 <= k < s.len() ==> !p(#[trigger] s[k]),
{
    lemma_first_where_bounds(s, p);
}

/// Appending an element moves the first match only when there was none.
pub proof fn lemma_first_where_push<T>(s: Seq<T>, x: T, p: spec_fn(T) -> bool)
    ensures
        first_where(s, p) < s.len() ==> first_where(s.push(x), p) == first_where(s, p),
        first_where(s, p) == s.len() ==> first_where(s.push(x), p) == if p(x) {
            s.len() as int
        } else {
            s.len() as int + 1
        },
{
    lemma_first_where_bounds(s, p);
    let t = s.push(x);
    let i = first_where(s, p);
    assert forall|k: int| 0 <= k < i implies !p(#[trigger] t[k]) by {
        assert(t[k] == s[k]);
    }
    if i < s.len() {
        assert(t[i] == s[i]);
        lemma_first_where(t, p, i);
    } else {
        assert(t[s.len() as int] == x);
        if p(x) {
            lemma_first_where(t, p, s.len() as int);
        } else {
            assert forall|k: int| 0 <= k < s.len() + 1 implies !p(#[trigger] t[k]) by {
                if k < s.len() {
                    assert(t[k] == s[k]);
                }
            }
            lemma_first_where(t, p, s.len() as int + 1);
        }
    }
}

/// Two sequences of one length whose elements satisfy a predicate at the
/// same places have their first match at the same place.
pub proof fn lemma_first_where_same<T>(a: Seq<T>, b: Seq<T>, p: spec_fn(T) -> bool)
    requires
        a.len() == b.len(),
        forall|j: int| 0 <= j < a.len() ==> p(#[trigger] a[j]) == p(b[j]),
    ensures
        first_where(a, p) == first_where(b, p),
{
    lemma_first_where_bounds(a, p);
    let i = first_where(a, p);
    assert forall|k: int| 0 <= k < i implies !p(#[trigger] b[k]) by {
        assert(p(a[k]) == p(b[k]));
    }
    if i < a.len() {
        assert(p(a[i]) == p(b[i]));
    }
    lemma_first_where(b, p, i);
}

} // verus!
