//! The small geometry texts the overlay reads and writes: the persisted
//! "rect:X,Y,W,H", slurp's "X,Y WxH" and a panel's "WxH".
use vstd::prelude::*;
use crate::text::{chars_of, string_of, is_whitespace, is_digit};
use crate::words::{
    extend, split, split_vec, split_once, split_once_vec, split_once_ws, split_once_ws_vec,
    strip_prefix, strip_prefix_vec, trim, trim_vec, lemma_split_join, lemma_split_free,
    lemma_split_nonempty, lemma_trim_noop,
};
use crate::numbers::{parse_i32, parse_i32_spec, int_chars, int_text, lemma_int_text_parses, lemma_nat_text, all_digits, nat_text};

verus! {

/// The value of a field that reads as an `i32` once trimmed.
pub open spec fn field(p: Seq<char>) -> Option<i32> {
    parse_i32_spec(trim(p))
}

/// The four comma-separated numbers after "rect:", when there are exactly
/// four and each reads as an `i32`.
pub open spec fn rect_fields(s: Seq<char>) -> Option<(i32, i32, i32, i32)> {
    match strip_prefix(s, "rect:"@) {
        Some(rest) => {
            let p = split(rest, ',');
            if p.len() == 4 && (forall|i: int| 0 <= i < 4 ==> (#[trigger] field(p[i])) is Some) {
                Some((field(p[0])->0, field(p[1])->0, field(p[2])->0, field(p[3])->0))
            } else {
                None
            }
        },
        None => None,
    }
}

/// The persisted text of a rectangle.
pub open spec fn rect_text(x: int, y: int, w: int, h: int) -> Seq<char> {
    "rect:"@ + int_text(x) + ","@ + int_text(y) + ","@ + int_text(w) + ","@ + int_text(h)
}

/// Reads the fields of a persisted "rect:X,Y,W,H".
pub fn rect_fields_of(position: &str) -> (r: Option<(i32, i32, i32, i32)>)
    ensures
        r == rect_fields(position@),
{
    let s = chars_of(position);
    let prefix = chars_of("rect:");
    let rest = match strip_prefix_vec(s.as_slice(), prefix.as_slice()) {
        Some(v) => v,
        None => return None,
    };
    assert(prefix@ == "rect:"@);
    assert(strip_prefix(position@, "rect:"@) == Some(rest@));
    let parts = split_vec(rest.as_slice(), ',');
    let ghost p = split(rest@, ',');
    assert(parts@.len() == p.len());
    let mut vals: Vec<i32> = Vec::new();
    let mut i: usize = 0;
    while i < parts.len()
        invariant
            i <= parts@.len(),
            crate::text::views(parts@) == p,
            p == split(rest@, ','),
            strip_prefix(position@, "rect:"@) == Some(rest@),
            vals@.len() == i,
            forall|k: int| 0 <= k < i ==> #[trigger] field(p[k]) == Some(vals@[k]),
        decreases parts.len() - i,
    {
        let t = trim_vec(parts[i].as_slice());
        assert(parts@[i as int]@ == p[i as int]);
        match parse_i32(t.as_slice()) {
            Some(v) => vals.push(v),
            None => {
                assert(field(p[i as int]) is None);
                assert(rect_fields(position@) is None) by {
                    if p.len() == 4 {
                        assert(!(forall|k: int| 0 <= k < 4 ==> (#[trigger] field(p[k])) is Some));
                    }
                }
                return None;
            },
        }
        i += 1;
    }
    if vals.len() != 4 {
        return None;
    }
    assert(forall|i: int| 0 <= i < 4 ==> (#[trigger] field(p[i])) is Some);
    Some((vals[0], vals[1], vals[2], vals[3]))
}

/// Writes the persisted text of a rectangle.
pub fn render_rect(x: i32, y: i32, w: i32, h: i32) -> (r: String)
    ensures
        r@ == rect_text(x as int, y as int, w as int, h as int),
{
    let mut v = chars_of("rect:");
    extend(&mut v, int_chars(x as i64).as_slice());
    extend(&mut v, chars_of(",").as_slice());
    extend(&mut v, int_chars(y as i64).as_slice());
    extend(&mut v, chars_of(",").as_slice());
    extend(&mut v, int_chars(w as i64).as_slice());
    extend(&mut v, chars_of(",").as_slice());
    extend(&mut v, int_chars(h as i64).as_slice());
    assert(v@ =~= rect_text(x as int, y as int, w as int, h as int));
    string_of(v.as_slice())
}

/// The text of an integer has no commas and no white space, so it reads back
/// as a field.
pub proof fn lemma_int_field(n: i32)
    ensures
        !int_text(n as int).contains(','),
        field(int_text(n as int)) == Some(n),
{
    let t = int_text(n as int);
    let m: nat = if n < 0 { (-n) as nat } else { n as nat };
    lemma_nat_text(m);
    assert forall|i: int| 0 <= i < t.len() implies t[i] == '-' || is_digit(#[trigger] t[i]) by {
        if n < 0 {
            if i > 0 {
                assert(t[i] == nat_text(m)[i - 1]);
            }
        }
    }
    assert(!t.contains(',')) by {
        if t.contains(',') {
            let i = choose|i: int| 0 <= i < t.len() && t[i] == ',';
            assert(t[i] == '-' || is_digit(t[i]));
        }
    }
    assert(t.len() > 0);
    assert(t[0] == '-' || is_digit(t[0]));
    assert(t[t.len() - 1] == '-' || is_digit(t[t.len() - 1]));
    lemma_trim_noop(t);
    lemma_int_text_parses(n as int);
}

proof fn lemma_rect_rest_split(x: i32, y: i32, w: i32, h: i32)
    ensures
        split(
            int_text(x as int) + ","@ + int_text(y as int) + ","@ + int_text(w as int) + ","@
                + int_text(h as int),
            ',',
        ) == seq![int_text(x as int), int_text(y as int), int_text(w as int), int_text(h as int)],
{
    let tx = int_text(x as int);
    let ty = int_text(y as int);
    let tw = int_text(w as int);
    let th = int_text(h as int);
    reveal_strlit(",");
    lemma_int_field(x);
    lemma_int_field(y);
    lemma_int_field(w);
    lemma_int_field(h);
    lemma_split_free(tx, ',');
    lemma_split_free(ty, ',');
    lemma_split_free(tw, ',');
    lemma_split_free(th, ',');
    let tail2 = tw + seq![','] + th;
    let tail3 = ty + seq![','] + tail2;
    assert(","@ =~= seq![',']);
    assert(tx + ","@ + ty + ","@ + tw + ","@ + th =~= tx + seq![','] + tail3);
    lemma_split_join(tw, th, ',');
    lemma_split_join(ty, tail2, ',');
    lemma_split_join(tx, tail3, ',');
    assert(split(tx + seq![','] + tail3, ',') =~= seq![tx, ty, tw, th]);
}

/// Reading back the persisted text of a rectangle gives its four numbers.
pub proof fn lemma_rect_text_fields(x: i32, y: i32, w: i32, h: i32)
    ensures
        rect_fields(rect_text(x as int, y as int, w as int, h as int)) == Some((x, y, w, h)),
{
    let s = rect_text(x as int, y as int, w as int, h as int);
    let rest = int_text(x as int) + ","@ + int_text(y as int) + ","@ + int_text(w as int) + ","@
        + int_text(h as int);
    let pre = "rect:"@;
    assert(s =~= pre + rest);
    assert((pre + rest).take(pre.len() as int) =~= pre);
    assert((pre + rest).skip(pre.len() as int) =~= rest);
    assert(strip_prefix(s, pre) == Some(rest));
    lemma_rect_rest_split(x, y, w, h);
    lemma_int_field(x);
    lemma_int_field(y);
    lemma_int_field(w);
    lemma_int_field(h);
    let p = split(rest, ',');
    assert(p[0] == int_text(x as int));
    assert(p[1] == int_text(y as int));
    assert(p[2] == int_text(w as int));
    assert(p[3] == int_text(h as int));
    assert(forall|i: int| 0 <= i < 4 ==> (#[trigger] field(p[i])) is Some);
}

/// The two numbers of a "WxH" size.
pub open spec fn size_fields(text: Seq<char>) -> Option<(i32, i32)> {
    match split_once(trim(text), 'x') {
        Some((a, b)) => match (field(a), field(b)) {
            (Some(w), Some(h)) => Some((w, h)),
            _ => None,
        },
        None => None,
    }
}

pub fn size_fields_of(text: &str) -> (r: Option<(i32, i32)>)
    ensures
        r == size_fields(text@),
{
    let t = trim_vec(chars_of(text).as_slice());
    match split_once_vec(t.as_slice(), 'x') {
        Some((a, b)) => {
            let w = parse_i32(trim_vec(a.as_slice()).as_slice());
            let h = parse_i32(trim_vec(b.as_slice()).as_slice());
            match (w, h) {
                (Some(w), Some(h)) => Some((w, h)),
                _ => None,
            }
        },
        None => None,
    }
}

/// The four numbers of slurp's "X,Y WxH".
pub open spec fn geometry_fields(g: Seq<char>) -> Option<(i32, i32, i32, i32)> {
    match split_once_ws(trim(g)) {
        Some((origin, size)) => match (split_once(origin, ','), split_once(size, 'x')) {
            (Some((x, y)), Some((w, h))) => match (field(x), field(y), field(w), field(h)) {
                (Some(x), Some(y), Some(w), Some(h)) => Some((x, y, w, h)),
                _ => None,
            },
            _ => None,
        },
        None => None,
    }
}

pub fn geometry_fields_of(geometry: &str) -> (r: Option<(i32, i32, i32, i32)>)
    ensures
        r == geometry_fields(geometry@),
{
    let t = trim_vec(chars_of(geometry).as_slice());
    let (origin, size) = match split_once_ws_vec(t.as_slice()) {
        Some(p) => p,
        None => return None,
    };
    let (xs, ys) = match split_once_vec(origin.as_slice(), ',') {
        Some(p) => p,
        None => return None,
    };
    let (ws, hs) = match split_once_vec(size.as_slice(), 'x') {
        Some(p) => p,
        None => return None,
    };
    let x = parse_i32(trim_vec(xs.as_slice()).as_slice());
    let y = parse_i32(trim_vec(ys.as_slice()).as_slice());
    let w = parse_i32(trim_vec(ws.as_slice()).as_slice());
    let h = parse_i32(trim_vec(hs.as_slice()).as_slice());
    match (x, y, w, h) {
        (Some(x), Some(y), Some(w), Some(h)) => Some((x, y, w, h)),
        _ => None,
    }
}

} // verus!
