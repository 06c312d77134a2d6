//! Rectangles that panels have claimed, one lease per owner: the text a claim
//! is stored as, when a lease is still good, and the single rectangle the
//! overlay has to get out of the way of.
//!
//! A single shared file could not describe two panels, or the same panel on two
//! monitors, and a vanished panel left its claim behind for good. Each claim is
//! therefore its own renewable lease carrying the process that made it.
use vstd::prelude::*;
use crate::arith::{sat, imin, imax, sat_add, sat_sub, min_i32, max_i32};
use crate::camlink::positioning::{Placement, parse_rect, parse_rect_spec, rect_to_position};
use crate::numbers::{nat_chars, nat_text, parse_u32, parse_u32_spec};
use crate::rect_text::rect_text;
use crate::text::{
    chars_of, string_of, views, is_ascii_alphanumeric, ascii_alphanumeric_char,
};
use crate::words::{extend, lines, lines_vec, same, words, words_vec};

verus! {

/// How long a claim stays good without being renewed, in milliseconds.
pub const LEASE_MILLIS: u64 = 15000;

/// A character kept in an owner's file name; anything else becomes `_`.
pub open spec fn name_char(c: char) -> char {
    if is_ascii_alphanumeric(c) || c == '.' || c == '-' || c == '_' {
        c
    } else {
        '_'
    }
}

/// The file name for an owner: every character outside `[A-Za-z0-9._-]`
/// replaced, so it cannot escape the directory, and "panel" when empty.
pub open spec fn safe_name_spec(owner: Seq<char>) -> Seq<char> {
    if owner.len() == 0 {
        "panel"@
    } else {
        owner.map_values(|c: char| name_char(c))
    }
}

/// Keep an owner id to something that cannot escape the directory.
pub fn safe_name(owner: &str) -> (r: String)
    ensures
        r@ == safe_name_spec(owner@),
{
    let s = chars_of(owner);
    if s.len() == 0 {
        return String::from_str("panel");
    }
    let mut v: Vec<char> = Vec::new();
    let mut i: usize = 0;
    while i < s.len()
        invariant
            i <= s@.len(),
            s@ == owner@,
            v@ == s@.take(i as int).map_values(|c: char| name_char(c)),
        decreases s.len() - i,
    {
        let c = s[i];
        let kept = if ascii_alphanumeric_char(c) || c == '.' || c == '-' || c == '_' {
            c
        } else {
            '_'
        };
        v.push(kept);
        assert(s@.take(i + 1).map_values(|c: char| name_char(c)) =~= s@.take(i as int).map_values(
            |c: char| name_char(c),
        ).push(name_char(c)));
        i += 1;
    }
    assert(s@.take(s@.len() as int) =~= s@);
    string_of(v.as_slice())
}

/// How a claim names the process it follows: its pid and, when known, its
/// start time, so that a reused pid does not keep a dead claim alive.
pub open spec fn identity_spec(pid: u32, start: Option<u64>) -> Seq<char> {
    match start {
        Some(s) => nat_text(pid as nat) + " "@ + nat_text(s as nat),
        None => nat_text(pid as nat),
    }
}

/// The identity line of a claim.
pub fn identity(pid: u32, start: Option<u64>) -> (r: String)
    ensures
        r@ == identity_spec(pid, start),
{
    let mut v = nat_chars(pid as u64);
    match start {
        Some(s) => {
            extend(&mut v, chars_of(" ").as_slice());
            extend(&mut v, nat_chars(s).as_slice());
        },
        None => {},
    }
    string_of(v.as_slice())
}

/// The text a claim is stored as: the rectangle, the owner's identity and the
/// monotonic time it was issued at, one per line.
pub open spec fn claim_body_spec(rect: Placement, identity: Seq<char>, issued: u64) -> Seq<char> {
    rect_text(rect.x as int, rect.y as int, rect.w as int, rect.h as int) + "\n"@ + identity
        + "\n"@ + nat_text(issued as nat) + "\n"@
}

/// The text of a claim.
pub fn claim_body(rect: &Placement, identity: &str, issued: u64) -> (r: String)
    ensures
        r@ == claim_body_spec(*rect, identity@, issued),
{
    let mut v = chars_of(rect_to_position(rect).as_str());
    extend(&mut v, chars_of("\n").as_slice());
    extend(&mut v, chars_of(identity).as_slice());
    extend(&mut v, chars_of("\n").as_slice());
    extend(&mut v, nat_chars(issued).as_slice());
    extend(&mut v, chars_of("\n").as_slice());
    string_of(v.as_slice())
}

/// Text that holds neither a line feed nor a carriage return.
pub open spec fn one_line(t: Seq<char>) -> bool {
    !t.contains('\n') && !t.contains('\r')
}

proof fn lemma_concat_one_line(a: Seq<char>, b: Seq<char>)
    requires
        one_line(a),
        one_line(b),
    ensures
        one_line(a + b),
{
    let ab = a + b;
    if ab.contains('\n') || ab.contains('\r') {
        let i = choose|i: int| 0 <= i < ab.len() && (ab[i] == '\n' || ab[i] == '\r');
        if i < a.len() {
            assert(ab[i] == a[i]);
        } else {
            assert(ab[i] == b[i - a.len()]);
        }
    }
}

proof fn lemma_digits_one_line(t: Seq<char>)
    requires
        crate::numbers::all_digits(t),
    ensures
        one_line(t),
{
    if t.contains('\n') || t.contains('\r') {
        let i = choose|i: int| 0 <= i < t.len() && (t[i] == '\n' || t[i] == '\r');
        assert(crate::text::is_digit(t[i]));
    }
}

proof fn lemma_rect_text_one_line(x: int, y: int, w: int, h: int)
    ensures
        one_line(rect_text(x, y, w, h)),
{
    reveal_strlit("rect:");
    reveal_strlit(",");
    assert(one_line("rect:"@));
    assert(one_line(","@));
    assert forall|n: int| one_line(#[trigger] crate::numbers::int_text(n)) by {
        if n < 0 {
            crate::numbers::lemma_nat_text((-n) as nat);
            lemma_digits_one_line(crate::numbers::nat_text((-n) as nat));
            assert(one_line(seq!['-']));
            lemma_concat_one_line(seq!['-'], crate::numbers::nat_text((-n) as nat));
        } else {
            crate::numbers::lemma_nat_text(n as nat);
            lemma_digits_one_line(crate::numbers::nat_text(n as nat));
        }
    }
    let xi = crate::numbers::int_text(x);
    let yi = crate::numbers::int_text(y);
    let wi = crate::numbers::int_text(w);
    let hi = crate::numbers::int_text(h);
    lemma_concat_one_line("rect:"@, xi);
    lemma_concat_one_line("rect:"@ + xi, ","@);
    lemma_concat_one_line("rect:"@ + xi + ","@, yi);
    lemma_concat_one_line("rect:"@ + xi + ","@ + yi, ","@);
    lemma_concat_one_line("rect:"@ + xi + ","@ + yi + ","@, wi);
    lemma_concat_one_line("rect:"@ + xi + ","@ + yi + ","@ + wi, ","@);
    lemma_concat_one_line("rect:"@ + xi + ","@ + yi + ","@ + wi + ","@, hi);
}

/// A claim reads back as it was written: the rectangle, the owner's
/// identity and the issue time, for a rectangle that can be persisted and
/// an identity on one line.
pub proof fn lemma_claim_round_trip(rect: Placement, identity: Seq<char>, issued: u64)
    requires
        rect.w > 0,
        rect.h > 0,
        crate::arith::fits_i32(rect.x + rect.w),
        crate::arith::fits_i32(rect.y + rect.h),
        one_line(identity),
    ensures
        claim_spec(claim_body_spec(rect, identity, issued)) == Some((rect, identity, Some(nat_text(issued as nat)))),
{
    reveal_strlit("\n");
    let r = rect_text(rect.x as int, rect.y as int, rect.w as int, rect.h as int);
    let n = nat_text(issued as nat);
    lemma_rect_text_one_line(rect.x as int, rect.y as int, rect.w as int, rect.h as int);
    crate::numbers::lemma_nat_text(issued as nat);
    lemma_digits_one_line(n);
    let ls = seq![r, identity, n];
    assert(ls.drop_last() =~= seq![r, identity]);
    assert(seq![r, identity].drop_last() =~= seq![r]);
    let j2 = crate::words::join(seq![r, identity], "\n"@);
    assert(crate::words::join(seq![r], "\n"@) == r);
    assert(j2 == r + "\n"@ + identity);
    assert(crate::words::join(ls, "\n"@) == j2 + "\n"@ + n);
    assert(crate::words::join(ls, "\n"@).push('\n') =~= claim_body_spec(rect, identity, issued));
    assert forall|i: int| 0 <= i < ls.len() implies !(#[trigger] ls[i]).contains('\n') && !ls[i].contains('\r') by {
        if i == 0 {
            assert(ls[i] == r);
        } else if i == 1 {
            assert(ls[i] == identity);
        } else {
            assert(ls[i] == n);
        }
    }
    crate::words::lemma_lines_of_joined(ls);
    crate::camlink::positioning::lemma_rect_round_trip(rect);
}

/// A stored claim as read back: its rectangle and owner line, and the issue
/// time line when there is one. A claim without a readable rectangle or an
/// owner line is no claim.
pub open spec fn claim_spec(text: Seq<char>) -> Option<(Placement, Seq<char>, Option<Seq<char>>)> {
    let ls = lines(text);
    if ls.len() >= 2 && parse_rect_spec(ls[0]) is Some {
        Some((parse_rect_spec(ls[0]).unwrap(), ls[1], if ls.len() >= 3 {
            Some(ls[2])
        } else {
            None
        }))
    } else {
        None
    }
}

/// Reads a stored claim.
pub fn read_claim(text: &str) -> (r: Option<(Placement, String, Option<String>)>)
    ensures
        match r {
            Some((rect, owner, issued)) => claim_spec(text@) == Some((rect, owner@, match issued {
                Some(i) => Some(i@),
                None => None,
            })),
            None => claim_spec(text@) is None,
        },
{
    let ls = lines_vec(chars_of(text).as_slice());
    if ls.len() < 2 {
        return None;
    }
    assert(views(ls@)[0] == ls@[0]@ && views(ls@)[1] == ls@[1]@);
    let first = string_of(ls[0].as_slice());
    match parse_rect(first.as_str()) {
        Some(rect) => {
            let owner = string_of(ls[1].as_slice());
            let issued = if ls.len() >= 3 {
                assert(views(ls@)[2] == ls@[2]@);
                Some(string_of(ls[2].as_slice()))
            } else {
                None
            };
            Some((rect, owner, issued))
        },
        None => None,
    }
}

/// The owner line of a claim: a pid, then optionally the start time the
/// process must still have.
pub open spec fn owner_spec(line: Seq<char>) -> Option<(u32, Option<Seq<char>>)> {
    let w = words(line);
    if w.len() >= 1 && parse_u32_spec(w[0]) is Some {
        Some((parse_u32_spec(w[0]).unwrap(), if w.len() >= 2 {
            Some(w[1])
        } else {
            None
        }))
    } else {
        None
    }
}

/// The identity a claim records reads back as the process it names: its
/// pid, and its start time as written.
pub proof fn lemma_owner_round_trip(pid: u32, start: Option<u64>)
    ensures
        owner_spec(identity_spec(pid, start)) == Some((pid, match start {
            Some(s) => Some(nat_text(s as nat)),
            None => None,
        })),
{
    reveal_strlit(" ");
    let p = nat_text(pid as nat);
    crate::numbers::lemma_nat_text(pid as nat);
    crate::numbers::lemma_nat_text_parses(pid as nat);
    assert(forall|i: int| 0 <= i < p.len() ==> !crate::text::is_whitespace(#[trigger] p[i])) by {
        assert forall|i: int| 0 <= i < p.len() implies !crate::text::is_whitespace(#[trigger] p[i]) by {
            assert(crate::text::is_digit(p[i]));
        }
    }
    let e = Seq::<char>::empty();
    crate::words::lemma_words_run(e, p);
    assert(e + p =~= p);
    assert(words(e) =~= Seq::<Seq<char>>::empty());
    match start {
        Some(st) => {
            let q = nat_text(st as nat);
            crate::numbers::lemma_nat_text(st as nat);
            assert forall|i: int| 0 <= i < q.len() implies !crate::text::is_whitespace(#[trigger] q[i]) by {
                assert(crate::text::is_digit(q[i]));
            }
            let ps = p + " "@;
            assert(ps.drop_last() =~= p);
            assert(ps.last() == ' ');
            assert(words(ps) == words(p));
            crate::words::lemma_words_run(ps, q);
            assert(identity_spec(pid, start) == ps + q);
            assert(words(ps + q) =~= seq![p, q]);
        },
        None => {
            assert(words(p) =~= seq![p]);
        },
    }
}

/// Reads the owner line of a claim.
pub fn read_owner(line: &str) -> (r: Option<(u32, Option<String>)>)
    ensures
        match r {
            Some((pid, start)) => owner_spec(line@) == Some((pid, match start {
                Some(s) => Some(s@),
                None => None,
            })),
            None => owner_spec(line@) is None,
        },
{
    let w = words_vec(chars_of(line).as_slice());
    if w.len() < 1 {
        return None;
    }
    assert(views(w@)[0] == w@[0]@);
    match parse_u32(w[0].as_slice()) {
        Some(pid) => {
            let start = if w.len() >= 2 {
                assert(views(w@)[1] == w@[1]@);
                Some(string_of(w[1].as_slice()))
            } else {
                None
            };
            Some((pid, start))
        },
        None => None,
    }
}

/// Whether the start time a claim recorded is the one the process has now.
pub fn start_matches(wanted: &str, actual: u64) -> (r: bool)
    ensures
        r == (wanted@ == nat_text(actual as nat)),
{
    same(chars_of(wanted).as_slice(), nat_chars(actual).as_slice())
}

/// Whether a lease issued at `issued` is still good at `now`, both on the
/// monotonic clock in milliseconds.
pub fn lease_fresh(issued: u64, now: u64) -> (r: bool)
    ensures
        r == (issued <= now && now - issued <= LEASE_MILLIS),
{
    issued <= now && now - issued <= LEASE_MILLIS
}

/// Whether a lease is still good by the monotonic clock: known only when the
/// clock could be read and the claim's issue time reads as a number.
pub fn fresh(issued: Option<&str>, now: Option<u64>) -> (r: Option<bool>)
    ensures
        match (issued, now) {
            (Some(i), Some(n)) => match crate::numbers::parse_u64_spec(i@) {
                Some(t) => r == Some(t <= n && n - t <= LEASE_MILLIS),
                None => r is None,
            },
            _ => r is None,
        },
{
    match (issued, now) {
        (Some(i), Some(n)) => match crate::numbers::parse_u64(chars_of(i).as_slice()) {
            Some(t) => Some(lease_fresh(t, n)),
            None => None,
        },
        _ => None,
    }
}

/// Whether the process a claim follows still runs: with a recorded start
/// time, when the process has that start time now; without one, when the
/// process exists.
pub fn alive(wanted: &Option<String>, actual_start: Option<u64>, exists: bool) -> (r: bool)
    ensures
        r == match wanted {
            Some(w) => actual_start matches Some(a) && w@ == nat_text(a as nat),
            None => exists,
        },
{
    match wanted {
        Some(w) => match actual_start {
            Some(a) => start_matches(w.as_str(), a),
            None => false,
        },
        None => exists,
    }
}

/// Whether a lease is still good by the age of its file, for a claim written
/// without an issue time.
pub fn lease_fresh_by_age(age_millis: u128) -> (r: bool)
    ensures
        r == (age_millis <= LEASE_MILLIS),
{
    age_millis <= LEASE_MILLIS as u128
}

/// Whether the overlay and a claim overlap, with their far edges saturated.
pub open spec fn blocks(o: Placement, b: Placement) -> bool {
    &&& o.x < sat(b.x + b.w)
    &&& b.x < sat(o.x + o.w)
    &&& o.y < sat(b.y + b.h)
    &&& b.y < sat(o.y + o.h)
}

/// The edges (left, top, right, bottom) of the smallest box around every
/// claim in `s` that the overlay overlaps.
pub open spec fn bounds_of(o: Placement, s: Seq<Placement>) -> Option<(int, int, int, int)>
    decreases s.len(),
{
    if s.len() == 0 {
        None
    } else {
        let rest = bounds_of(o, s.drop_last());
        let b = s.last();
        if blocks(o, b) {
            match rest {
                None => Some((b.x as int, b.y as int, sat(b.x + b.w), sat(b.y + b.h))),
                Some((l, t, r, bt)) => Some(
                    (imin(l, b.x as int), imin(t, b.y as int), imax(r, sat(b.x + b.w)), imax(bt, sat(b.y + b.h))),
                ),
            }
        } else {
            rest
        }
    }
}

/// The single rectangle to dodge: the bounding box of every claim the overlay
/// overlaps, its size saturated.
pub open spec fn obstruction_spec(o: Placement, s: Seq<Placement>) -> Option<Placement> {
    match bounds_of(o, s) {
        None => None,
        Some((l, t, r, b)) => Some(
            Placement { x: l as i32, y: t as i32, w: sat(r - l) as i32, h: sat(b - t) as i32 },
        ),
    }
}

proof fn lemma_bounds_range(o: Placement, s: Seq<Placement>)
    ensures
        bounds_of(o, s) matches Some((l, t, r, b)) ==> i32::MIN <= l <= i32::MAX && i32::MIN <= t
            <= i32::MAX && i32::MIN <= r <= i32::MAX && i32::MIN <= b <= i32::MAX,
    decreases s.len(),
{
    if s.len() > 0 {
        lemma_bounds_range(o, s.drop_last());
    }
}

/// Every claim the overlay overlaps lies inside the bounds.
pub proof fn lemma_bounds_cover(o: Placement, s: Seq<Placement>, k: int)
    requires
        0 <= k < s.len(),
        blocks(o, s[k]),
    ensures
        bounds_of(o, s) matches Some((l, t, r, b)) && l <= s[k].x && t <= s[k].y && sat(s[k].x
            + s[k].w) <= r && sat(s[k].y + s[k].h) <= b,
    decreases s.len(),
{
    if k < s.len() - 1 {
        assert(s.drop_last()[k] == s[k]);
        lemma_bounds_cover(o, s.drop_last(), k);
    }
}

/// The single rectangle to dodge among the live claims: the bounding box of
/// every claim that the overlay actually overlaps. Dodging each in turn could
/// bounce the overlay between two panels without ever clearing either.
pub fn obstruction(overlay: &Placement, claims: &[Placement]) -> (r: Option<Placement>)
    ensures
        r == obstruction_spec(*overlay, claims@),
{
    let o = *overlay;
    let mut acc: Option<(i32, i32, i32, i32)> = None;
    let mut i: usize = 0;
    while i < claims.len()
        invariant
            i <= claims@.len(),
            o == *overlay,
            match acc {
                None => bounds_of(o, claims@.take(i as int)) is None,
                Some((l, t, r, b)) => bounds_of(o, claims@.take(i as int)) == Some(
                    (l as int, t as int, r as int, b as int),
                ),
            },
        decreases claims.len() - i,
    {
        let b = claims[i];
        assert(claims@.take(i + 1).drop_last() =~= claims@.take(i as int));
        assert(claims@.take(i + 1).last() == b);
        let right = sat_add(b.x, b.w);
        let bottom = sat_add(b.y, b.h);
        if o.x < right && b.x < sat_add(o.x, o.w) && o.y < bottom && b.y < sat_add(o.y, o.h) {
            acc = match acc {
                None => Some((b.x, b.y, right, bottom)),
                Some((l, t, r, bt)) => Some(
                    (min_i32(l, b.x), min_i32(t, b.y), max_i32(r, right), max_i32(bt, bottom)),
                ),
            };
        }
        i += 1;
    }
    assert(claims@.take(claims@.len() as int) =~= claims@);
    match acc {
        None => None,
        Some((l, t, r, b)) => Some(Placement { x: l, y: t, w: sat_sub(r, l), h: sat_sub(b, t) }),
    }
}

/// The bounding box covers every claim the overlay overlaps: it starts at or
/// before each one and, unless its size saturated, reaches at least as far.
pub proof fn lemma_obstruction_covers(o: Placement, s: Seq<Placement>, k: int)
    requires
        0 <= k < s.len(),
        blocks(o, s[k]),
    ensures
        obstruction_spec(o, s) matches Some(p) && p.x <= s[k].x && p.y <= s[k].y && (p.w
            == i32::MAX || sat(s[k].x + s[k].w) <= p.x + p.w) && (p.h == i32::MAX || sat(s[k].y
            + s[k].h) <= p.y + p.h),
{
    lemma_bounds_cover(o, s, k);
    lemma_bounds_range(o, s);
}

/// Without an overlapped claim there is nothing to dodge.
pub proof fn lemma_obstruction_none(o: Placement, s: Seq<Placement>)
    requires
        forall|k: int| 0 <= k < s.len() ==> !blocks(o, #[trigger] s[k]),
    ensures
        obstruction_spec(o, s) is None,
    decreases s.len(),
{
    if s.len() > 0 {
        assert(!blocks(o, s[s.len() - 1]));
        assert forall|k: int| 0 <= k < s.drop_last().len() implies !blocks(o, #[trigger] s.drop_last()[k]) by {
            assert(s.drop_last()[k] == s[k]);
        }
        lemma_obstruction_none(o, s.drop_last());
    }
}

} // verus!
