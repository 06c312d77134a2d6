//! Ordering by keys: the lexicographic order of texts (which for UTF-8 is the
//! order `String`'s `Ord` uses), and the stable sort the tools list things in.
use vstd::prelude::*;
use vstd::multiset::Multiset;

verus! {

/// Lexicographic order on sequences of numbers.
pub open spec fn lex_lt(a: Seq<int>, b: Seq<int>) -> bool
    decreases a.len(),
{
    if a.len() == 0 {
        b.len() > 0
    } else if b.len() == 0 {
        false
    } else if a[0] != b[0] {
        a[0] < b[0]
    } else {
        lex_lt(a.drop_first(), b.drop_first())
    }
}

/// A text as the sequence of its code points. Comparing these
/// lexicographically orders texts the way `str`'s `Ord` does, since UTF-8
/// preserves the order of code points.
pub open spec fn text_key(s: Seq<char>) -> Seq<int> {
    s.map_values(|c: char| c as int)
}

/// Lexicographic order on sequences of keys, as tuples of texts compare.
pub open spec fn key_lt(a: Seq<Seq<int>>, b: Seq<Seq<int>>) -> bool
    decreases a.len(),
{
    if a.len() == 0 {
        b.len() > 0
    } else if b.len() == 0 {
        false
    } else if a[0] != b[0] {
        lex_lt(a[0], b[0])
    } else {
        key_lt(a.drop_first(), b.drop_first())
    }
}

pub proof fn lemma_lex_irreflexive(a: Seq<int>)
    ensures
        !lex_lt(a, a),
    decreases a.len(),
{
    if a.len() > 0 {
        lemma_lex_irreflexive(a.drop_first());
    }
}

pub proof fn lemma_lex_transitive(a: Seq<int>, b: Seq<int>, c: Seq<int>)
    requires
        lex_lt(a, b),
        lex_lt(b, c),
    ensures
        lex_lt(a, c),
    decreases a.len(),
{
    if a.len() > 0 && b.len() > 0 && c.len() > 0 {
        if a[0] == b[0] && b[0] == c[0] {
            lemma_lex_transitive(a.drop_first(), b.drop_first(), c.drop_first());
        }
    }
}

pub proof fn lemma_lex_total(a: Seq<int>, b: Seq<int>)
    ensures
        a == b || lex_lt(a, b) || lex_lt(b, a),
    decreases a.len(),
{
    if a.len() > 0 && b.len() > 0 && a[0] == b[0] {
        lemma_lex_total(a.drop_first(), b.drop_first());
        if a.drop_first() == b.drop_first() {
            assert(a =~= seq![a[0]] + a.drop_first());
            assert(b =~= seq![b[0]] + b.drop_first());
        }
    } else if a.len() == 0 && b.len() == 0 {
        assert(a =~= b);
    }
}

pub proof fn lemma_key_irreflexive(a: Seq<Seq<int>>)
    ensures
        !key_lt(a, a),
    decreases a.len(),
{
    if a.len() > 0 {
        lemma_key_irreflexive(a.drop_first());
    }
}

pub proof fn lemma_key_transitive(a: Seq<Seq<int>>, b: Seq<Seq<int>>, c: Seq<Seq<int>>)
    requires
        key_lt(a, b),
        key_lt(b, c),
    ensures
        key_lt(a, c),
    decreases a.len(),
{
    if a.len() > 0 && b.len() > 0 && c.len() > 0 {
        if a[0] == b[0] && b[0] == c[0] {
            lemma_key_transitive(a.drop_first(), b.drop_first(), c.drop_first());
        } else if a[0] != b[0] && b[0] != c[0] {
            lemma_lex_transitive(a[0], b[0], c[0]);
            if a[0] == c[0] {
                lemma_lex_irreflexive(a[0]);
                lemma_lex_transitive(a[0], b[0], a[0]);
            }
        }
    }
}

pub proof fn lemma_key_total(a: Seq<Seq<int>>, b: Seq<Seq<int>>)
    ensures
        a == b || key_lt(a, b) || key_lt(b, a),
    decreases a.len(),
{
    if a.len() > 0 && b.len() > 0 {
        if a[0] == b[0] {
            lemma_key_total(a.drop_first(), b.drop_first());
            if a.drop_first() == b.drop_first() {
                assert(a =~= seq![a[0]] + a.drop_first());
                assert(b =~= seq![b[0]] + b.drop_first());
            }
        } else {
            lemma_lex_total(a[0], b[0]);
        }
    } else if a.len() == 0 && b.len() == 0 {
        assert(a =~= b);
    }
}

/// Whether `a` comes strictly before `b` in the order of texts.
pub fn text_lt(a: &[char], b: &[char]) -> (r: bool)
    ensures
        r == lex_lt(text_key(a@), text_key(b@)),
{
    let mut i: usize = 0;
    assert(a@.skip(0) =~= a@);
    assert(b@.skip(0) =~= b@);
    while i < a.len() && i < b.len()
        invariant
            i <= a@.len(),
            i <= b@.len(),
            forall|k: int| 0 <= k < i ==> a@[k] == b@[k],
            lex_lt(text_key(a@), text_key(b@)) == lex_lt(
                text_key(a@.skip(i as int)),
                text_key(b@.skip(i as int)),
            ),
        decreases a.len() - i,
    {
        if a[i] != b[i] {
            proof {
                let ka = text_key(a@.skip(i as int));
                let kb = text_key(b@.skip(i as int));
                assert(ka[0] == a@[i as int] as int);
                assert(kb[0] == b@[i as int] as int);
                assert(a@[i as int] as int != b@[i as int] as int);
            }
            return a[i] < b[i];
        }
        proof {
            let ka = text_key(a@.skip(i as int));
            let kb = text_key(b@.skip(i as int));
            assert(ka.drop_first() =~= text_key(a@.skip(i + 1)));
            assert(kb.drop_first() =~= text_key(b@.skip(i + 1)));
        }
        i += 1;
    }
    assert(text_key(a@.skip(i as int)).len() == a@.len() - i);
    assert(text_key(b@.skip(i as int)).len() == b@.len() - i);
    i < b.len()
}

/// Things that a list is ordered by: a key, compared as [`key_lt`] orders keys.
pub trait Ranked {
    spec fn rank(&self) -> Seq<Seq<int>>;

    fn before(&self, other: &Self) -> (r: bool)
        ensures
            r == key_lt(self.rank(), other.rank()),
    ;
}

/// Where a stable insertion puts `x` into the ordered `s`: after every element
/// it does not come before.
pub open spec fn insert_pos<T: Ranked>(s: Seq<T>, x: T) -> int
    decreases s.len(),
{
    if s.len() == 0 {
        0
    } else if !key_lt(x.rank(), s.last().rank()) {
        s.len() as int
    } else {
        insert_pos(s.drop_last(), x)
    }
}

pub open spec fn insert_sorted<T: Ranked>(s: Seq<T>, x: T) -> Seq<T> {
    s.insert(insert_pos(s, x), x)
}

/// The stable sort by rank: what `slice::sort_by` gives with a comparison of
/// the ranks.
pub open spec fn sorted_by_rank<T: Ranked>(s: Seq<T>) -> Seq<T>
    decreases s.len(),
{
    if s.len() == 0 {
        s
    } else {
        insert_sorted(sorted_by_rank(s.drop_last()), s.last())
    }
}

/// No element comes before an element earlier in the sequence.
pub open spec fn is_ordered<T: Ranked>(s: Seq<T>) -> bool {
    forall|i: int, j: int| 0 <= i < j < s.len() ==> !key_lt(#[trigger] s[j].rank(), #[trigger] s[i].rank())
}

pub proof fn lemma_insert_pos_bounds<T: Ranked>(s: Seq<T>, x: T)
    ensures
        0 <= insert_pos(s, x) <= s.len(),
    decreases s.len(),
{
    if s.len() > 0 && key_lt(x.rank(), s.last().rank()) {
        lemma_insert_pos_bounds(s.drop_last(), x);
    }
}

proof fn lemma_insert_pos_facts<T: Ranked>(s: Seq<T>, x: T)
    ensures
        forall|k: int| insert_pos(s, x) <= k < s.len() ==> key_lt(x.rank(), #[trigger] s[k].rank()),
        insert_pos(s, x) > 0 ==> !key_lt(x.rank(), s[insert_pos(s, x) - 1].rank()),
    decreases s.len(),
{
    lemma_insert_pos_bounds(s, x);
    if s.len() > 0 && key_lt(x.rank(), s.last().rank()) {
        let t = s.drop_last();
        lemma_insert_pos_facts(t, x);
        lemma_insert_pos_bounds(t, x);
        assert forall|k: int| insert_pos(s, x) <= k < s.len() implies key_lt(x.rank(), #[trigger] s[k].rank()) by {
            if k < s.len() - 1 {
                assert(s[k] == t[k]);
            }
        }
        if insert_pos(s, x) > 0 {
            assert(s[insert_pos(s, x) - 1] == t[insert_pos(t, x) - 1]);
        }
    }
}

proof fn lemma_not_lt_transitive(a: Seq<Seq<int>>, b: Seq<Seq<int>>, c: Seq<Seq<int>>)
    requires
        !key_lt(b, a),
        !key_lt(c, b),
    ensures
        !key_lt(c, a),
{
    if key_lt(c, a) {
        lemma_key_total(a, b);
        lemma_key_total(b, c);
        if a == b {
        } else if b == c {
        } else {
            lemma_key_transitive(a, b, c);
            lemma_key_transitive(c, a, b);
        }
    }
}

/// Inserting into an ordered sequence keeps it ordered.
pub proof fn lemma_insert_ordered<T: Ranked>(s: Seq<T>, x: T)
    requires
        is_ordered(s),
    ensures
        is_ordered(insert_sorted(s, x)),
{
    let p = insert_pos(s, x);
    lemma_insert_pos_bounds(s, x);
    lemma_insert_pos_facts(s, x);
    let r = insert_sorted(s, x);
    assert(r.len() == s.len() + 1);
    assert forall|i: int, j: int| 0 <= i < j < r.len() implies !key_lt(#[trigger] r[j].rank(), #[trigger] r[i].rank()) by {
        if j < p {
            assert(r[i] == s[i] && r[j] == s[j]);
        } else if j == p {
            assert(r[j] == x);
            assert(r[i] == s[i]);
            // s[i] is not after s[p - 1], which is not after x
            if i < p - 1 {
                assert(!key_lt(s[p - 1].rank(), s[i].rank()));
            } else {
                lemma_key_irreflexive(s[i].rank());
            }
            lemma_not_lt_transitive(s[i].rank(), s[p - 1].rank(), x.rank());
        } else if i > p {
            assert(r[i] == s[i - 1] && r[j] == s[j - 1]);
        } else if i == p {
            assert(r[i] == x && r[j] == s[j - 1]);
            lemma_key_total(x.rank(), s[j - 1].rank());
            if key_lt(s[j - 1].rank(), x.rank()) {
                lemma_key_transitive(x.rank(), s[j - 1].rank(), x.rank());
                lemma_key_irreflexive(x.rank());
            }
        } else {
            assert(r[i] == s[i] && r[j] == s[j - 1]);
        }
    }
}

/// The stable sort orders by rank.
pub proof fn lemma_sorted_is_ordered<T: Ranked>(s: Seq<T>)
    ensures
        is_ordered(sorted_by_rank(s)),
    decreases s.len(),
{
    if s.len() > 0 {
        lemma_sorted_is_ordered(s.drop_last());
        lemma_insert_ordered(sorted_by_rank(s.drop_last()), s.last());
    }
}

/// The stable sort keeps every element, as many times as it occurs.
pub proof fn lemma_sorted_is_permutation<T: Ranked>(s: Seq<T>)
    ensures
        sorted_by_rank(s).to_multiset() == s.to_multiset(),
    decreases s.len(),
{
    broadcast use vstd::seq_lib::group_seq_properties;
    if s.len() > 0 {
        let t = sorted_by_rank(s.drop_last());
        lemma_sorted_is_permutation(s.drop_last());
        lemma_insert_pos_bounds(t, s.last());
        assert(s =~= s.drop_last().push(s.last()));
    } else {
        assert(s.to_multiset() =~= Multiset::empty());
    }
}

pub proof fn lemma_sorted_len<T: Ranked>(s: Seq<T>)
    ensures
        sorted_by_rank(s).len() == s.len(),
    decreases s.len(),
{
    if s.len() > 0 {
        lemma_sorted_len(s.drop_last());
        lemma_insert_pos_bounds(sorted_by_rank(s.drop_last()), s.last());
    }
}

/// Sorts by rank, keeping equally ranked elements in their order.
pub fn stable_sort<T: Ranked>(v: Vec<T>) -> (r: Vec<T>)
    ensures
        r@ == sorted_by_rank(v@),
{
    let ghost orig = v@;
    assert(orig.len() == v.len());
    let mut rest = v;
    let mut out: Vec<T> = Vec::new();
    let mut k: usize = 0;
    assert(orig.take(0) =~= Seq::<T>::empty());
    assert(orig.skip(0) =~= orig);
    while rest.len() > 0
        invariant
            k <= orig.len(),
            orig.len() <= usize::MAX,
            rest@.len() + k == orig.len(),
            rest@ == orig.skip(k as int),
            out@ == sorted_by_rank(orig.take(k as int)),
        decreases rest.len(),
    {
        let x = rest.remove(0);
        assert(x == orig[k as int]);
        proof {
            lemma_insert_pos_bounds(out@, x);
            lemma_sorted_len(orig.take(k as int));
        }
        let mut j: usize = out.len();
        assert(out@.take(j as int) =~= out@);
        while j > 0 && x.before(&out[j - 1])
            invariant
                j <= out@.len(),
                insert_pos(out@, x) == insert_pos(out@.take(j as int), x),
            decreases j,
        {
            proof {
                let t = out@.take(j as int);
                assert(t.last() == out@[j - 1]);
                assert(t.drop_last() =~= out@.take(j - 1));
            }
            j -= 1;
        }
        proof {
            let t = out@.take(j as int);
            if j > 0 {
                assert(t.last() == out@[j - 1]);
            }
            assert(insert_pos(t, x) == j);
            assert(orig.take(k + 1).drop_last() =~= orig.take(k as int));
            assert(orig.take(k + 1).last() == x);
        }
        out.insert(j, x);
        assert(orig.skip(k + 1) =~= orig.skip(k as int).drop_first());
        k += 1;
    }
    assert(orig.take(k as int) =~= orig);
    out
}

} // verus!
