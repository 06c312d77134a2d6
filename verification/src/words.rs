//! Slicing text into pieces: trimming, splitting on a separator, lines and
//! whitespace-separated words, prefixes and substrings.
use vstd::prelude::*;
use crate::text::{is_whitespace, whitespace_char, views, ascii_lower, ascii_upper, lower_char, upper_char};

verus! {

/// The characters of `s` from index `a` up to `b`.
pub fn slice_vec(s: &[char], a: usize, b: usize) -> (r: Vec<char>)
    requires
        a <= b <= s@.len(),
    ensures
        r@ == s@.subrange(a as int, b as int),
{
    let mut r: Vec<char> = Vec::new();
    let mut i = a;
    while i < b
        invariant
            a <= i <= b <= s@.len(),
            r@ == s@.subrange(a as int, i as int),
        decreases b - i,
    {
        r.push(s[i]);
        assert(s@.subrange(a as int, i + 1) =~= s@.subrange(a as int, i as int).push(s@[i as int]));
        i += 1;
    }
    r
}

/// Appends the characters of `t` to `v`.
pub fn extend(v: &mut Vec<char>, t: &[char])
    ensures
        final(v)@ == old(v)@ + t@,
{
    let ghost start = v@;
    let mut i: usize = 0;
    while i < t.len()
        invariant
            i <= t@.len(),
            v@ == start + t@.take(i as int),
        decreases t.len() - i,
    {
        v.push(t[i]);
        assert(t@.take(i as int + 1) =~= t@.take(i as int).push(t@[i as int]));
        i += 1;
    }
    assert(t@.take(t@.len() as int) =~= t@);
}

/// Whether two character sequences are equal.
pub fn same(a: &[char], b: &[char]) -> (r: bool)
    ensures
        r == (a@ == b@),
{
    if a.len() != b.len() {
        return false;
    }
    let mut i: usize = 0;
    while i < a.len()
        invariant
            i <= a@.len() == b@.len(),
            forall|k: int| 0 <= k < i ==> a@[k] == b@[k],
        decreases a.len() - i,
    {
        if a[i] != b[i] {
            return false;
        }
        i += 1;
    }
    assert(a@ =~= b@);
    true
}

// -------------------------------------------------------------- trimming

pub open spec fn trim_start(s: Seq<char>) -> Seq<char>
    decreases s.len(),
{
    if s.len() > 0 && is_whitespace(s[0]) {
        trim_start(s.drop_first())
    } else {
        s
    }
}

pub open spec fn trim_end(s: Seq<char>) -> Seq<char>
    decreases s.len(),
{
    if s.len() > 0 && is_whitespace(s.last()) {
        trim_end(s.drop_last())
    } else {
        s
    }
}

/// `str::trim`: without leading and trailing white space.
pub open spec fn trim(s: Seq<char>) -> Seq<char> {
    trim_end(trim_start(s))
}

proof fn lemma_trim_start_skip(s: Seq<char>, i: int)
    requires
        0 <= i <= s.len(),
        forall|k: int| 0 <= k < i ==> is_whitespace(#[trigger] s[k]),
    ensures
        trim_start(s) == trim_start(s.skip(i)),
    decreases i,
{
    if i > 0 {
        assert(is_whitespace(s[0]));
        let t = s.drop_first();
        assert forall|k: int| 0 <= k < i - 1 implies is_whitespace(#[trigger] t[k]) by {
            assert(t[k] == s[k + 1]);
        }
        lemma_trim_start_skip(t, i - 1);
        assert(t.skip(i - 1) =~= s.skip(i));
    } else {
        assert(s.skip(0) =~= s);
    }
}

proof fn lemma_trim_end_take(s: Seq<char>, j: int)
    requires
        0 <= j <= s.len(),
        forall|k: int| j <= k < s.len() ==> is_whitespace(#[trigger] s[k]),
    ensures
        trim_end(s) == trim_end(s.take(j)),
    decreases s.len() - j,
{
    if j < s.len() {
        assert(is_whitespace(s.last()));
        let t = s.drop_last();
        lemma_trim_end_take(t, j);
        assert(t.take(j) =~= s.take(j));
    } else {
        assert(s.take(j) =~= s);
    }
}

pub fn trim_start_vec(s: &[char]) -> (r: Vec<char>)
    ensures
        r@ == trim_start(s@),
{
    let mut i: usize = 0;
    while i < s.len() && whitespace_char(s[i])
        invariant
            i <= s@.len(),
            forall|k: int| 0 <= k < i ==> is_whitespace(#[trigger] s@[k]),
        decreases s.len() - i,
    {
        i += 1;
    }
    proof {
        lemma_trim_start_skip(s@, i as int);
        assert(s@.skip(i as int) =~= s@.subrange(i as int, s@.len() as int));
    }
    slice_vec(s, i, s.len())
}

pub fn trim_end_vec(s: &[char]) -> (r: Vec<char>)
    ensures
        r@ == trim_end(s@),
{
    let mut j: usize = s.len();
    while j > 0 && whitespace_char(s[j - 1])
        invariant
            j <= s@.len(),
            forall|k: int| j <= k < s@.len() ==> is_whitespace(#[trigger] s@[k]),
        decreases j,
    {
        j -= 1;
    }
    proof {
        lemma_trim_end_take(s@, j as int);
        assert(s@.take(j as int) =~= s@.subrange(0, j as int));
    }
    slice_vec(s, 0, j)
}

pub fn trim_vec(s: &[char]) -> (r: Vec<char>)
    ensures
        r@ == trim(s@),
{
    let t = trim_start_vec(s);
    trim_end_vec(t.as_slice())
}

// ------------------------------------------------------------- prefixes

pub open spec fn starts_with(s: Seq<char>, p: Seq<char>) -> bool {
    p.len() <= s.len() && s.take(p.len() as int) == p
}

pub open spec fn ends_with(s: Seq<char>, p: Seq<char>) -> bool {
    p.len() <= s.len() && s.skip(s.len() - p.len()) == p
}

pub open spec fn strip_prefix(s: Seq<char>, p: Seq<char>) -> Option<Seq<char>> {
    if starts_with(s, p) {
        Some(s.skip(p.len() as int))
    } else {
        None
    }
}

pub fn starts_with_vec(s: &[char], p: &[char]) -> (r: bool)
    ensures
        r == starts_with(s@, p@),
{
    if p.len() > s.len() {
        return false;
    }
    let mut i: usize = 0;
    while i < p.len()
        invariant
            i <= p@.len() <= s@.len(),
            forall|k: int| 0 <= k < i ==> s@[k] == p@[k],
        decreases p.len() - i,
    {
        if s[i] != p[i] {
            assert(s@.take(p@.len() as int)[i as int] != p@[i as int]);
            return false;
        }
        i += 1;
    }
    assert(s@.take(p@.len() as int) =~= p@);
    true
}

pub fn ends_with_vec(s: &[char], p: &[char]) -> (r: bool)
    ensures
        r == ends_with(s@, p@),
{
    if p.len() > s.len() {
        return false;
    }
    let off = s.len() - p.len();
    let mut i: usize = 0;
    while i < p.len()
        invariant
            i <= p@.len() <= s@.len(),
            off == s@.len() - p@.len(),
            off + p@.len() == s@.len(),
            s@.len() == s.len(),
            forall|k: int| 0 <= k < i ==> s@[off + k] == p@[k],
        decreases p.len() - i,
    {
        if s[off + i] != p[i] {
            assert(s@.skip(off as int)[i as int] != p@[i as int]);
            return false;
        }
        i += 1;
    }
    assert(s@.skip(off as int) =~= p@);
    true
}

pub fn strip_prefix_vec(s: &[char], p: &[char]) -> (r: Option<Vec<char>>)
    ensures
        match r {
            Some(v) => strip_prefix(s@, p@) == Some(v@),
            None => strip_prefix(s@, p@) is None,
        },
{
    if starts_with_vec(s, p) {
        let v = slice_vec(s, p.len(), s.len());
        assert(v@ =~= s@.skip(p@.len() as int));
        Some(v)
    } else {
        None
    }
}

/// `str::contains` for a pattern string.
pub open spec fn contains_at(s: Seq<char>, p: Seq<char>, i: int) -> bool {
    0 <= i && i + p.len() <= s.len() && s.subrange(i, i + p.len()) == p
}

pub open spec fn contains(s: Seq<char>, p: Seq<char>) -> bool {
    exists|i: int| contains_at(s, p, i)
}

/// Where `p` first occurs in `s` at or after `i`, as `str::find` looks.
pub open spec fn first_at(s: Seq<char>, p: Seq<char>, i: int) -> Option<int>
    decreases s.len() + 1 - i,
{
    if i < 0 || i + p.len() > s.len() {
        None
    } else if contains_at(s, p, i) {
        Some(i)
    } else {
        first_at(s, p, i + 1)
    }
}

/// `str::split_once` with a text separator: the parts before and after its
/// first occurrence.
pub open spec fn split_once_str(s: Seq<char>, p: Seq<char>) -> Option<(Seq<char>, Seq<char>)> {
    match first_at(s, p, 0) {
        Some(i) => Some((s.take(i), s.skip(i + p.len()))),
        None => None,
    }
}

fn matches_at(s: &[char], p: &[char], i: usize) -> (r: bool)
    requires
        i + p@.len() <= s@.len(),
    ensures
        r == contains_at(s@, p@, i as int),
{
    let mut j: usize = 0;
    while j < p.len()
        invariant
            i + p@.len() <= s@.len(),
            s@.len() == s.len(),
            p@.len() == p.len(),
            j <= p@.len(),
            forall|k: int| 0 <= k < j ==> s@[i + k] == p@[k],
        decreases p.len() - j,
    {
        if s[i + j] != p[j] {
            assert(!contains_at(s@, p@, i as int)) by {
                if s@.subrange(i as int, i + p@.len()) == p@ {
                    assert(s@.subrange(i as int, i + p@.len())[j as int] == s@[i + j]);
                }
            }
            return false;
        }
        j += 1;
    }
    assert(s@.subrange(i as int, i + p@.len()) =~= p@);
    true
}

pub fn split_once_str_vec(s: &[char], p: &[char]) -> (r: Option<(Vec<char>, Vec<char>)>)
    ensures
        match r {
            Some((a, b)) => split_once_str(s@, p@) == Some((a@, b@)),
            None => split_once_str(s@, p@) is None,
        },
{
    if p.len() > s.len() {
        return None;
    }
    if p.len() == 0 {
        assert(s@.subrange(0, 0) =~= p@);
        assert(contains_at(s@, p@, 0));
        let b = slice_vec(s, 0, s.len());
        assert(s@.take(0) =~= Seq::<char>::empty());
        assert(b@ =~= s@.skip(0));
        return Some((Vec::new(), b));
    }
    let last = s.len() - p.len();
    let mut i: usize = 0;
    while i <= last
        invariant
            1 <= p@.len() <= s@.len(),
            last == s@.len() - p@.len(),
            i <= last + 1,
            first_at(s@, p@, 0) == first_at(s@, p@, i as int),
        decreases s.len() - i,
    {
        if matches_at(s, p, i) {
            let a = slice_vec(s, 0, i);
            let b = slice_vec(s, i + p.len(), s.len());
            assert(a@ =~= s@.take(i as int));
            assert(b@ =~= s@.skip(i + p@.len()));
            return Some((a, b));
        }
        i += 1;
    }
    None
}

pub fn contains_vec(s: &[char], p: &[char]) -> (r: bool)
    ensures
        r == contains(s@, p@),
{
    if p.len() > s.len() {
        assert forall|i: int| !contains_at(s@, p@, i) by {}
        return false;
    }
    let mut i: usize = 0;
    let last = s.len() - p.len();
    while i <= last
        invariant
            p@.len() <= s@.len(),
            last == s@.len() - p@.len(),
            i <= last + 1,
            forall|k: int| 0 <= k < i ==> !contains_at(s@, p@, k),
        decreases s.len() - i,
    {
        let mut j: usize = 0;
        let mut ok = true;
        while j < p.len()
            invariant
                i + p@.len() <= s@.len(),
                s@.len() == s.len(),
                j <= p@.len(),
                ok == (forall|k: int| 0 <= k < j ==> s@[i + k] == p@[k]),
            decreases p.len() - j,
        {
            if s[i + j] != p[j] {
                ok = false;
            }
            j += 1;
        }
        if ok {
            assert(s@.subrange(i as int, i + p@.len()) =~= p@);
            assert(contains_at(s@, p@, i as int));
            return true;
        }
        assert(!contains_at(s@, p@, i as int)) by {
            let k = choose|k: int| 0 <= k < p@.len() && s@[i + k] != p@[k];
            if s@.subrange(i as int, i + p@.len()) == p@ {
                assert(s@.subrange(i as int, i + p@.len())[k] == s@[i + k]);
            }
        }
        i += 1;
    }
    assert forall|k: int| !contains_at(s@, p@, k) by {}
    false
}

// -------------------------------------------------------- separator splits

/// The position of the first `c` in `s`, when there is one.
pub open spec fn first_index(s: Seq<char>, c: char) -> int {
    choose|i: int| 0 <= i < s.len() && s[i] == c && forall|k: int| 0 <= k < i ==> s[k] != c
}

/// `str::split_once` with a character pattern.
pub open spec fn split_once(s: Seq<char>, c: char) -> Option<(Seq<char>, Seq<char>)> {
    if s.contains(c) {
        let i = first_index(s, c);
        Some((s.take(i), s.skip(i + 1)))
    } else {
        None
    }
}

pub fn find_char(s: &[char], c: char) -> (r: Option<usize>)
    ensures
        match r {
            Some(i) => s@.contains(c) && i == first_index(s@, c) && i < s@.len() && s@[i as int]
                == c && forall|k: int| 0 <= k < i ==> s@[k] != c,
            None => !s@.contains(c),
        },
{
    let mut i: usize = 0;
    while i < s.len()
        invariant
            i <= s@.len(),
            forall|k: int| 0 <= k < i ==> s@[k] != c,
        decreases s.len() - i,
    {
        if s[i] == c {
            proof {
                let j = first_index(s@, c);
                assert(0 <= j < s@.len() && s@[j] == c && forall|k: int| 0 <= k < j ==> s@[k] != c);
                assert(j == i);
            }
            return Some(i);
        }
        i += 1;
    }
    None
}

pub fn split_once_vec(s: &[char], c: char) -> (r: Option<(Vec<char>, Vec<char>)>)
    ensures
        match r {
            Some((a, b)) => split_once(s@, c) == Some((a@, b@)),
            None => split_once(s@, c) is None,
        },
{
    match find_char(s, c) {
        Some(i) => {
            assert(i < s.len());
            let a = slice_vec(s, 0, i);
            let b = slice_vec(s, i + 1, s.len());
            assert(a@ =~= s@.take(i as int));
            assert(b@ =~= s@.skip(i + 1));
            Some((a, b))
        },
        None => None,
    }
}

/// The position of the first white-space character of `s`.
pub open spec fn first_ws_index(s: Seq<char>) -> int {
    choose|i: int|
        0 <= i < s.len() && is_whitespace(s[i]) && forall|k: int|
            0 <= k < i ==> !is_whitespace(#[trigger] s[k])
}

pub open spec fn has_ws(s: Seq<char>) -> bool {
    exists|i: int| 0 <= i < s.len() && is_whitespace(#[trigger] s[i])
}

/// `str::split_once(char::is_whitespace)`.
pub open spec fn split_once_ws(s: Seq<char>) -> Option<(Seq<char>, Seq<char>)> {
    if has_ws(s) {
        let i = first_ws_index(s);
        Some((s.take(i), s.skip(i + 1)))
    } else {
        None
    }
}

pub fn split_once_ws_vec(s: &[char]) -> (r: Option<(Vec<char>, Vec<char>)>)
    ensures
        match r {
            Some((a, b)) => split_once_ws(s@) == Some((a@, b@)),
            None => split_once_ws(s@) is None,
        },
{
    let mut i: usize = 0;
    while i < s.len()
        invariant
            i <= s@.len(),
            forall|k: int| 0 <= k < i ==> !is_whitespace(#[trigger] s@[k]),
        decreases s.len() - i,
    {
        if whitespace_char(s[i]) {
            proof {
                assert(has_ws(s@));
                let j = first_ws_index(s@);
                assert(0 <= j < s@.len() && is_whitespace(s@[j]) && forall|k: int|
                    0 <= k < j ==> !is_whitespace(#[trigger] s@[k]));
                if j < i {
                    assert(!is_whitespace(s@[j]));
                }
                if i < j {
                    assert(!is_whitespace(s@[i as int]));
                }
            }
            let a = slice_vec(s, 0, i);
            let b = slice_vec(s, i + 1, s.len());
            assert(a@ =~= s@.take(i as int));
            assert(b@ =~= s@.skip(i + 1));
            return Some((a, b));
        }
        i += 1;
    }
    None
}

/// `str::split` with a character pattern.
pub open spec fn split(s: Seq<char>, c: char) -> Seq<Seq<char>>
    decreases s.len(),
{
    if s.len() == 0 {
        seq![Seq::<char>::empty()]
    } else {
        let p = split(s.drop_last(), c);
        if s.last() == c {
            p.push(Seq::<char>::empty())
        } else {
            p.update(p.len() - 1, p.last().push(s.last()))
        }
    }
}

pub proof fn lemma_split_nonempty(s: Seq<char>, c: char)
    ensures
        split(s, c).len() >= 1,
    decreases s.len(),
{
    if s.len() > 0 {
        lemma_split_nonempty(s.drop_last(), c);
    }
}

pub fn split_vec(s: &[char], c: char) -> (r: Vec<Vec<char>>)
    ensures
        views(r@) == split(s@, c),
{
    let mut done: Vec<Vec<char>> = Vec::new();
    let mut cur: Vec<char> = Vec::new();
    let mut i: usize = 0;
    assert(s@.take(0) =~= Seq::<char>::empty());
    assert(views(done@).push(cur@) =~= split(s@.take(0), c));
    while i < s.len()
        invariant
            i <= s@.len(),
            views(done@).push(cur@) == split(s@.take(i as int), c),
        decreases s.len() - i,
    {
        let ghost before = s@.take(i as int);
        assert(s@.take(i + 1).drop_last() =~= before);
        proof {
            lemma_split_nonempty(before, c);
        }
        if s[i] == c {
            let piece = cur;
            done.push(piece);
            cur = Vec::new();
            assert(views(done@).push(cur@) =~= split(s@.take(i + 1), c));
        } else {
            cur.push(s[i]);
            assert(views(done@).push(cur@) =~= split(s@.take(i + 1), c));
        }
        i += 1;
    }
    assert(s@.take(s@.len() as int) =~= s@);
    done.push(cur);
    assert(views(done@) =~= split(s@, c));
    done
}

/// Splitting text with no separator in it gives the text itself.
pub proof fn lemma_split_free(a: Seq<char>, c: char)
    requires
        !a.contains(c),
    ensures
        split(a, c) == seq![a],
    decreases a.len(),
{
    if a.len() > 0 {
        assert(a.drop_last().len() < a.len());
        assert(!a.drop_last().contains(c)) by {
            if a.drop_last().contains(c) {
                let i = choose|i: int| 0 <= i < a.drop_last().len() && a.drop_last()[i] == c;
                assert(a[i] == c);
            }
        }
        lemma_split_free(a.drop_last(), c);
        assert(a.last() != c) by {
            assert(a[a.len() - 1] == a.last());
        }
        assert(a.drop_last().push(a.last()) =~= a);
        assert(seq![a.drop_last()].update(0, a.drop_last().push(a.last())) =~= seq![a]);
    } else {
        assert(a =~= Seq::<char>::empty());
    }
}

/// Splitting at a separator splits each side on its own.
pub proof fn lemma_split_join(a: Seq<char>, b: Seq<char>, c: char)
    ensures
        split(a + seq![c] + b, c) == split(a, c) + split(b, c),
    decreases b.len(),
{
    let s = a + seq![c] + b;
    lemma_split_nonempty(a, c);
    if b.len() == 0 {
        assert(s.drop_last() =~= a);
        assert(s.last() == c);
        assert(split(a, c).push(Seq::<char>::empty()) =~= split(a, c) + split(b, c));
    } else {
        let b0 = b.drop_last();
        lemma_split_join(a, b0, c);
        lemma_split_nonempty(b0, c);
        assert(s.drop_last() =~= a + seq![c] + b0);
        assert(s.last() == b.last());
        let p = split(a, c);
        let q = split(b0, c);
        if b.last() == c {
            assert((p + q).push(Seq::<char>::empty()) =~= p + q.push(Seq::<char>::empty()));
        } else {
            let pq = p + q;
            assert(pq.update(pq.len() - 1, pq.last().push(b.last())) =~= p + q.update(
                q.len() - 1,
                q.last().push(b.last()),
            ));
        }
    }
}

/// A character pushed onto text that lacks some character, and is not that
/// character, leaves the text lacking it.
pub proof fn lemma_push_lacks(a: Seq<char>, ch: char, x: char)
    requires
        !a.contains(x),
        ch != x,
    ensures
        !a.push(ch).contains(x),
{
    if a.push(ch).contains(x) {
        let i = choose|i: int| 0 <= i < a.push(ch).len() && a.push(ch)[i] == x;
        if i < a.len() {
            assert(a[i] == x);
        }
    }
}

/// The pieces of a split never hold the separator, nor a character that the
/// text does not hold.
pub proof fn lemma_split_pieces(s: Seq<char>, c: char, x: char)
    ensures
        forall|i: int| 0 <= i < split(s, c).len() ==> !(#[trigger] split(s, c)[i]).contains(c),
        !s.contains(x) ==> forall|i: int| 0 <= i < split(s, c).len() ==> !(#[trigger] split(s, c)[i]).contains(x),
    decreases s.len(),
{
    if s.len() > 0 {
        let t = s.drop_last();
        lemma_split_pieces(t, c, x);
        lemma_split_nonempty(t, c);
        let p = split(t, c);
        if !s.contains(x) {
            assert(!t.contains(x)) by {
                if t.contains(x) {
                    let i = choose|i: int| 0 <= i < t.len() && t[i] == x;
                    assert(s[i] == x);
                }
            }
            assert(s.last() != x) by {
                assert(s[s.len() - 1] == s.last());
            }
        }
        let e = Seq::<char>::empty();
        assert(!e.contains(c) && !e.contains(x));
        if s.last() != c {
            lemma_push_lacks(p.last(), s.last(), c);
            if !s.contains(x) {
                lemma_push_lacks(p.last(), s.last(), x);
            }
        }
        assert forall|i: int| 0 <= i < split(s, c).len() implies !(#[trigger] split(s, c)[i]).contains(c) && (
        !s.contains(x) ==> !split(s, c)[i].contains(x)) by {
            if i < p.len() - 1 {
                assert(split(s, c)[i] == p[i]);
            } else if i == p.len() - 1 {
                if s.last() == c {
                    assert(split(s, c)[i] == p[i]);
                }
            }
        }
    }
}

/// Splitting lines joined with line feeds gives the lines back, when none
/// holds a line feed.
pub proof fn lemma_split_of_join(ls: Seq<Seq<char>>)
    requires
        ls.len() > 0,
        forall|i: int| 0 <= i < ls.len() ==> !(#[trigger] ls[i]).contains('\n'),
    ensures
        split(join(ls, "\n"@), '\n') == ls,
    decreases ls.len(),
{
    reveal_strlit("\n");
    if ls.len() == 1 {
        lemma_split_free(ls[0], '\n');
        assert(seq![ls[0]] =~= ls);
    } else {
        let a = ls.drop_last();
        assert forall|i: int| 0 <= i < a.len() implies !(#[trigger] a[i]).contains('\n') by {
            assert(a[i] == ls[i]);
        }
        lemma_split_of_join(a);
        assert(ls.last() == ls[ls.len() - 1]);
        lemma_split_join(join(a, "\n"@), ls.last(), '\n');
        lemma_split_free(ls.last(), '\n');
        assert(join(a, "\n"@) + seq!['\n'] + ls.last() =~= join(ls, "\n"@));
        assert(a + seq![ls.last()] =~= ls);
    }
}

/// Text written as lines each ended by a line feed reads back as those lines,
/// each less a carriage return at its end, when no line holds a line feed.
pub proof fn lemma_lines_of_written(ls: Seq<Seq<char>>)
    requires
        ls.len() > 0,
        forall|i: int| 0 <= i < ls.len() ==> !(#[trigger] ls[i]).contains('\n'),
    ensures
        lines(join(ls, "\n"@).push('\n')) == ls.map_values(|l: Seq<char>| strip_cr(l)),
{
    lemma_split_of_join(ls);
    let j = join(ls, "\n"@);
    let e = Seq::<char>::empty();
    lemma_split_join(j, e, '\n');
    assert(j + seq!['\n'] + e =~= j.push('\n'));
    let p = split(j.push('\n'), '\n');
    assert(p == ls + seq![e]);
    assert(p.drop_last() =~= ls);
}

/// Text written as lines each ended by a line feed reads back as the same
/// lines, when no line holds a line feed or a carriage return.
pub proof fn lemma_lines_of_joined(ls: Seq<Seq<char>>)
    requires
        ls.len() > 0,
        forall|i: int| 0 <= i < ls.len() ==> !(#[trigger] ls[i]).contains('\n') && !ls[i].contains('\r'),
    ensures
        lines(join(ls, "\n"@).push('\n')) == ls,
{
    lemma_lines_of_written(ls);
    assert forall|i: int| 0 <= i < ls.len() implies strip_cr(#[trigger] ls[i]) == ls[i] by {
        if ls[i].len() > 0 && ls[i].last() == '\r' {
            assert(ls[i][ls[i].len() - 1] == '\r');
        }
    }
    assert(ls.map_values(|l: Seq<char>| strip_cr(l)) =~= ls);
}

proof fn lemma_trim_start_drop_last(s: Seq<char>)
    requires
        s.len() > 0,
    ensures
        trim_start(s).len() == 0 ==> trim_start(s.drop_last()).len() == 0,
        trim_start(s).len() > 0 ==> trim_start(s).last() == s.last() && trim_start(s.drop_last())
            == trim_start(s).drop_last(),
    decreases s.len(),
{
    if is_whitespace(s[0]) {
        if s.len() == 1 {
            assert(s.drop_first().len() == 0);
            assert(trim_start(s) == trim_start(s.drop_first()));
            assert(s.drop_last().len() == 0);
            assert(trim_start(s.drop_last()) == s.drop_last());
        } else {
            let t = s.drop_first();
            lemma_trim_start_drop_last(t);
            assert(s.drop_last().drop_first() =~= t.drop_last());
            assert(s.drop_last()[0] == s[0]);
            assert(trim_start(s.drop_last()) == trim_start(t.drop_last()));
            assert(trim_start(s) == trim_start(t));
            assert(t.last() == s.last());
        }
    } else if s.len() > 1 {
        assert(s.drop_last()[0] == s[0]);
    }
}

/// Trimming a line gives the same whether or not a carriage return at its end
/// was taken away first.
pub proof fn lemma_trim_strip_cr(l: Seq<char>)
    ensures
        trim(strip_cr(l)) == trim(l),
{
    if l.len() > 0 && l.last() == '\r' {
        lemma_trim_start_drop_last(l);
        let a = trim_start(l);
        if a.len() > 0 {
            assert(is_whitespace(a.last()));
        }
    }
}

/// Trimming text that neither starts nor ends with white space leaves it.
pub proof fn lemma_trim_noop(s: Seq<char>)
    requires
        s.len() > 0 ==> !is_whitespace(s[0]) && !is_whitespace(s.last()),
    ensures
        trim(s) == s,
{
}

/// A line with a carriage return before its line feed loses the return.
pub open spec fn strip_cr(l: Seq<char>) -> Seq<char> {
    if l.len() > 0 && l.last() == '\r' {
        l.drop_last()
    } else {
        l
    }
}

/// `str::lines`: split at `\n` or `\r\n`; a final line ending is optional.
pub open spec fn lines(s: Seq<char>) -> Seq<Seq<char>> {
    let p = split(s, '\n');
    let body = p.drop_last().map_values(|l: Seq<char>| strip_cr(l));
    if p.last().len() == 0 {
        body
    } else {
        body.push(p.last())
    }
}

pub fn lines_vec(s: &[char]) -> (r: Vec<Vec<char>>)
    ensures
        views(r@) == lines(s@),
{
    let p = split_vec(s, '\n');
    proof {
        lemma_split_nonempty(s@, '\n');
    }
    let n = p.len();
    let ghost sp = split(s@, '\n');
    let mut r: Vec<Vec<char>> = Vec::new();
    let mut i: usize = 0;
    while i + 1 < n
        invariant
            n == p@.len() >= 1,
            views(p@) == sp,
            i <= n - 1,
            views(r@) == sp.take(i as int).map_values(|l: Seq<char>| strip_cr(l)),
        decreases n - i,
    {
        let l = &p[i];
        let stripped = if l.len() > 0 && l[l.len() - 1] == '\r' {
            slice_vec(l.as_slice(), 0, l.len() - 1)
        } else {
            slice_vec(l.as_slice(), 0, l.len())
        };
        assert(sp[i as int] == l@);
        assert(stripped@ =~= strip_cr(sp[i as int]));
        r.push(stripped);
        assert(sp.take(i + 1).map_values(|l: Seq<char>| strip_cr(l)) =~= sp.take(i as int).map_values(
            |l: Seq<char>| strip_cr(l),
        ).push(strip_cr(sp[i as int])));
        assert(views(r@) =~= sp.take(i + 1).map_values(|l: Seq<char>| strip_cr(l)));
        i += 1;
    }
    assert(sp.take(i as int) =~= sp.drop_last());
    let last = &p[n - 1];
    assert(last@ == sp.last());
    if last.len() > 0 {
        let l = slice_vec(last.as_slice(), 0, last.len());
        assert(l@ =~= last@);
        r.push(l);
        assert(views(r@) =~= lines(s@));
    }
    r
}

/// `str::split_whitespace`: the non-empty runs between white space.
pub open spec fn words(s: Seq<char>) -> Seq<Seq<char>>
    decreases s.len(),
{
    if s.len() == 0 {
        Seq::empty()
    } else {
        let w = words(s.drop_last());
        let c = s.last();
        if is_whitespace(c) {
            w
        } else if s.len() >= 2 && !is_whitespace(s[s.len() - 2]) {
            w.update(w.len() - 1, w.last().push(c))
        } else {
            w.push(seq![c])
        }
    }
}

pub proof fn lemma_words_tail(s: Seq<char>)
    ensures
        s.len() > 0 && !is_whitespace(s.last()) ==> words(s).len() >= 1,
    decreases s.len(),
{
    if s.len() > 1 {
        lemma_words_tail(s.drop_last());
    }
}

/// A run of characters other than white space, after text that is empty or
/// ends in white space, is one more word.
pub proof fn lemma_words_run(x: Seq<char>, b: Seq<char>)
    requires
        x.len() == 0 || is_whitespace(x.last()),
        b.len() > 0,
        forall|i: int| 0 <= i < b.len() ==> !is_whitespace(#[trigger] b[i]),
    ensures
        words(x + b) == words(x).push(b),
    decreases b.len(),
{
    let s = x + b;
    assert(s.last() == b[b.len() - 1]);
    if b.len() == 1 {
        assert(s.drop_last() =~= x);
        if s.len() >= 2 {
            assert(s[s.len() - 2] == x.last());
        }
        assert(seq![s.last()] =~= b);
    } else {
        let b0 = b.drop_last();
        assert forall|i: int| 0 <= i < b0.len() implies !is_whitespace(#[trigger] b0[i]) by {
            assert(b0[i] == b[i]);
        }
        lemma_words_run(x, b0);
        assert(s.drop_last() =~= x + b0);
        assert(s[s.len() - 2] == b[b.len() - 2]);
        let w = words(x).push(b0);
        assert(w.last() == b0);
        assert(b0.push(s.last()) =~= b);
        assert(w.update(w.len() - 1, w.last().push(s.last())) =~= words(x).push(b));
    }
}

pub fn words_vec(s: &[char]) -> (r: Vec<Vec<char>>)
    ensures
        views(r@) == words(s@),
{
    let mut done: Vec<Vec<char>> = Vec::new();
    let mut cur: Vec<char> = Vec::new();
    let mut i: usize = 0;
    assert(s@.take(0) =~= Seq::<char>::empty());
    while i < s.len()
        invariant
            i <= s@.len(),
            cur@.len() == 0 ==> views(done@) == words(s@.take(i as int)),
            cur@.len() > 0 ==> views(done@).push(cur@) == words(s@.take(i as int)),
            cur@.len() > 0 <==> (i > 0 && !is_whitespace(s@[i - 1])),
        decreases s.len() - i,
    {
        let ghost before = s@.take(i as int);
        assert(s@.take(i + 1).drop_last() =~= before);
        assert(s@.take(i + 1).last() == s@[i as int]);
        if whitespace_char(s[i]) {
            if cur.len() > 0 {
                let piece = cur;
                done.push(piece);
                cur = Vec::new();
            }
            assert(views(done@) =~= words(s@.take(i + 1)));
        } else {
            if cur.len() > 0 {
                assert(s@.take(i + 1)[i - 1] == s@[i - 1]);
                proof {
                    lemma_words_tail(before);
                }
            }
            let ghost old_cur = cur@;
            cur.push(s[i]);
            proof {
                let t = s@.take(i + 1);
                assert(!is_whitespace(t.last()));
                if old_cur.len() > 0 {
                    assert(t.len() >= 2 && !is_whitespace(t[t.len() - 2]));
                    let w = words(before);
                    assert(w == views(done@).push(old_cur));
                    assert(words(t) == w.update(w.len() - 1, w.last().push(t.last())));
                    assert(views(done@).push(cur@) =~= w.update(w.len() - 1, w.last().push(t.last())));
                } else {
                    assert(!(t.len() >= 2 && !is_whitespace(t[t.len() - 2])));
                    assert(words(t) == words(before).push(seq![t.last()]));
                    assert(cur@ =~= seq![t.last()]);
                    assert(views(done@).push(cur@) =~= words(before).push(seq![t.last()]));
                }
            }
        }
        i += 1;
    }
    assert(s@.take(s@.len() as int) =~= s@);
    if cur.len() > 0 {
        done.push(cur);
    }
    assert(views(done@) =~= words(s@));
    done
}

/// `[T]::join` of character sequences with a separator.
pub open spec fn join(pieces: Seq<Seq<char>>, sep: Seq<char>) -> Seq<char>
    decreases pieces.len(),
{
    if pieces.len() == 0 {
        Seq::empty()
    } else if pieces.len() == 1 {
        pieces[0]
    } else {
        join(pieces.drop_last(), sep) + sep + pieces.last()
    }
}

pub fn join_vec(pieces: &Vec<Vec<char>>, sep: &[char]) -> (r: Vec<char>)
    ensures
        r@ == join(views(pieces@), sep@),
{
    let mut r: Vec<char> = Vec::new();
    let mut i: usize = 0;
    while i < pieces.len()
        invariant
            i <= pieces@.len(),
            r@ == join(views(pieces@).take(i as int), sep@),
        decreases pieces.len() - i,
    {
        let ghost vs = views(pieces@);
        assert(vs.take(i + 1).drop_last() =~= vs.take(i as int));
        if i > 0 {
            extend(&mut r, sep);
        }
        extend(&mut r, pieces[i].as_slice());
        assert(vs.take(i + 1).last() == pieces@[i as int]@);
        assert(i == 0 ==> r@ =~= join(vs.take(i + 1), sep@));
        i += 1;
    }
    assert(views(pieces@).take(pieces@.len() as int) =~= views(pieces@));
    r
}

// ------------------------------------------------------------------ case

/// `str::eq_ignore_ascii_case`.
pub open spec fn eq_ignore_ascii_case(a: Seq<char>, b: Seq<char>) -> bool {
    a.len() == b.len() && forall|i: int| 0 <= i < a.len() ==> ascii_lower(a[i]) == ascii_lower(b[i])
}

pub fn eq_ignore_ascii_case_vec(a: &[char], b: &[char]) -> (r: bool)
    ensures
        r == eq_ignore_ascii_case(a@, b@),
{
    if a.len() != b.len() {
        return false;
    }
    let mut i: usize = 0;
    while i < a.len()
        invariant
            i <= a@.len() == b@.len(),
            forall|k: int| 0 <= k < i ==> ascii_lower(a@[k]) == ascii_lower(b@[k]),
        decreases a.len() - i,
    {
        if lower_char(a[i]) != lower_char(b[i]) {
            return false;
        }
        i += 1;
    }
    true
}

/// `str::to_ascii_uppercase`.
pub open spec fn to_ascii_upper(s: Seq<char>) -> Seq<char> {
    s.map_values(|c: char| ascii_upper(c))
}

pub fn ascii_upper_vec(s: &[char]) -> (r: Vec<char>)
    ensures
        r@ == to_ascii_upper(s@),
{
    let mut r: Vec<char> = Vec::new();
    let mut i: usize = 0;
    while i < s.len()
        invariant
            i <= s@.len(),
            r@ == to_ascii_upper(s@.take(i as int)),
        decreases s.len() - i,
    {
        r.push(upper_char(s[i]));
        assert(to_ascii_upper(s@.take(i + 1)) =~= to_ascii_upper(s@.take(i as int)).push(
            ascii_upper(s@[i as int]),
        ));
        i += 1;
    }
    assert(s@.take(s@.len() as int) =~= s@);
    r
}


// ---------------------------------------------------------- bounded split

/// `str::splitn(n, c)`: at most `n` pieces, the last holding the rest.
pub open spec fn splitn(s: Seq<char>, n: nat, c: char) -> Seq<Seq<char>>
    decreases n,
{
    if n <= 1 {
        seq![s]
    } else {
        match split_once(s, c) {
            None => seq![s],
            Some((a, b)) => seq![a] + splitn(b, (n - 1) as nat, c),
        }
    }
}

pub fn splitn_vec(s: &[char], n: usize, c: char) -> (r: Vec<Vec<char>>)
    requires
        n >= 1,
    ensures
        views(r@) == splitn(s@, n as nat, c),
{
    let mut out: Vec<Vec<char>> = Vec::new();
    let mut rest = slice_vec(s, 0, s.len());
    assert(rest@ =~= s@);
    let mut k: usize = n;
    let mut done = false;
    while k > 1 && !done
        invariant
            1 <= k <= n,
            done ==> split_once(rest@, c) is None,
            views(out@) + splitn(rest@, k as nat, c) == splitn(s@, n as nat, c),
        decreases 2 * k + if done { 0int } else { 1int },
    {
        match split_once_vec(rest.as_slice(), c) {
            None => {
                done = true;
            },
            Some((a, b)) => {
                let ghost before = views(out@);
                let ghost tail = splitn(b@, (k - 1) as nat, c);
                assert(splitn(rest@, k as nat, c) == seq![a@] + tail);
                out.push(a);
                assert(views(out@) =~= before.push(a@));
                assert(views(out@) + tail =~= before + (seq![a@] + tail));
                rest = b;
                k -= 1;
            },
        }
    }
    let ghost before = views(out@);
    assert(splitn(rest@, k as nat, c) == seq![rest@]);
    out.push(rest);
    assert(views(out@) =~= before.push(rest@));
    assert(views(out@) =~= before + seq![rest@]);
    out
}

} // verus!
