//! What each light command decides: the change it sends, how a scan is
//! folded into the cache, and how the lights' answers are reported.
use vstd::prelude::*;
use crate::keylight::config::{Cache, Light};
use crate::keylight::light::{LightPatch, LightState, kelvin_of, kelvin_to_mired, mired_of, mired_to_kelvin};
use crate::numbers::{nat_chars, nat_text, parse_i64, parse_i64_spec, parse_u32, parse_u32_spec};
use crate::order::{lemma_sorted_is_permutation, sorted_by_rank, stable_sort};
use crate::text::{chars_of, string_of};
use crate::words::{eq_ignore_ascii_case, eq_ignore_ascii_case_vec, extend, same};

verus! {

/// How the lights' answers are reported.
pub struct Out {
    pub json: bool,
}

/// One light in the JSON listing.
#[derive(Debug)]
pub struct Row {
    pub name: String,
    pub ip: String,
    pub reachable: bool,
    pub on: bool,
    pub brightness: u8,
    pub kelvin: u32,
}

/// One line of the text listing, to standard error when `err` is set.
#[derive(Debug)]
pub struct Line {
    pub err: bool,
    pub text: String,
}

/// What a listing prints.
pub enum Report {
    Rows(Vec<Row>),
    Lines(Vec<Line>),
}

/// Whether a light answered and, if so, its state.
pub open spec fn answered(s: Result<LightState, String>) -> Option<LightState> {
    match s {
        Ok(st) => Some(st),
        Err(_) => None,
    }
}

/// The JSON row for a light: its state when it answered, else unreachable
/// with everything off.
pub open spec fn row_matches(r: Row, l: Light, s: Result<LightState, String>) -> bool {
    &&& r.name@ == l.name@
    &&& r.ip@ == l.ip@
    &&& match s {
        Ok(st) => r.reachable && r.on == (st.on == 1) && r.brightness == st.brightness && r.kelvin
            == kelvin_of(st.temperature),
        Err(_) => !r.reachable && !r.on && r.brightness == 0 && r.kelvin == 0,
    }
}

/// The text line for a light that answered.
pub open spec fn state_line(l: Light, st: LightState) -> Seq<char> {
    l.name@ + "\t"@ + l.ip@ + "\t"@ + (if st.on == 1 {
        "on"@
    } else {
        "off"@
    }) + "\tbr="@ + nat_text(st.brightness as nat) + "\tk="@ + nat_text(kelvin_of(st.temperature) as nat)
}

/// The text line for a light that did not answer.
pub open spec fn unreachable_line(l: Light) -> Seq<char> {
    l.name@ + "\t"@ + l.ip@ + "\tunreachable"@
}

/// The lines for the lights, paired with their answers: a state line for an
/// answer, else the error (to standard error) and an unreachable line.
pub open spec fn text_lines(ls: Seq<Light>, ss: Seq<Result<LightState, String>>) -> Seq<(bool, Seq<char>)>
    decreases ls.len(),
{
    if ls.len() == 0 || ss.len() == 0 {
        Seq::empty()
    } else {
        let rest = text_lines(ls.drop_last(), ss.take(ls.len() - 1));
        if ls.len() > ss.len() {
            text_lines(ls.take(ss.len() as int), ss)
        } else {
            match ss[ls.len() - 1] {
                Ok(st) => rest.push((false, state_line(ls.last(), st))),
                Err(e) => rest.push((true, e@)).push((false, unreachable_line(ls.last()))),
            }
        }
    }
}

pub open spec fn lines_view(v: Seq<Line>) -> Seq<(bool, Seq<char>)> {
    v.map_values(|l: Line| (l.err, l.text@))
}

fn row_for(l: &Light, s: &Result<LightState, String>) -> (r: Row)
    ensures
        row_matches(r, *l, *s),
{
    match s {
        Ok(st) => Row {
            name: l.name.clone(),
            ip: l.ip.clone(),
            reachable: true,
            on: st.on == 1,
            brightness: st.brightness,
            kelvin: mired_to_kelvin(st.temperature),
        },
        Err(_) => Row {
            name: l.name.clone(),
            ip: l.ip.clone(),
            reachable: false,
            on: false,
            brightness: 0,
            kelvin: 0,
        },
    }
}

fn state_text(l: &Light, st: &LightState) -> (r: String)
    ensures
        r@ == state_line(*l, *st),
{
    let mut v = chars_of(l.name.as_str());
    extend(&mut v, chars_of("\t").as_slice());
    extend(&mut v, chars_of(l.ip.as_str()).as_slice());
    extend(&mut v, chars_of("\t").as_slice());
    if st.on == 1 {
        extend(&mut v, chars_of("on").as_slice());
    } else {
        extend(&mut v, chars_of("off").as_slice());
    }
    extend(&mut v, chars_of("\tbr=").as_slice());
    extend(&mut v, nat_chars(st.brightness as u64).as_slice());
    extend(&mut v, chars_of("\tk=").as_slice());
    extend(&mut v, nat_chars(mired_to_kelvin(st.temperature) as u64).as_slice());
    string_of(v.as_slice())
}

fn unreachable_text(l: &Light) -> (r: String)
    ensures
        r@ == unreachable_line(*l),
{
    let mut v = chars_of(l.name.as_str());
    extend(&mut v, chars_of("\t").as_slice());
    extend(&mut v, chars_of(l.ip.as_str()).as_slice());
    extend(&mut v, chars_of("\tunreachable").as_slice());
    string_of(v.as_slice())
}

impl Out {
    /// The listing of lights with their answers, paired in order (as far as
    /// both go): one JSON row per light, or the text lines.
    pub fn emit(&self, lights: &[Light], states: &[Result<LightState, String>]) -> (r: Report)
        ensures
            self.json ==> (r matches Report::Rows(rows) && rows@.len() == if lights@.len()
                <= states@.len() {
                lights@.len()
            } else {
                states@.len()
            } && forall|i: int| 0 <= i < rows@.len() ==> row_matches(#[trigger] rows@[i], lights@[i], states@[i])),
            !self.json ==> (r matches Report::Lines(ls) && lines_view(ls@) == text_lines(lights@, states@)),
    {
        let n = if lights.len() <= states.len() {
            lights.len()
        } else {
            states.len()
        };
        if self.json {
            let mut rows: Vec<Row> = Vec::new();
            let mut i: usize = 0;
            while i < n
                invariant
                    i <= n,
                    n <= lights@.len(),
                    n <= states@.len(),
                    rows@.len() == i,
                    forall|k: int| 0 <= k < i ==> row_matches(#[trigger] rows@[k], lights@[k], states@[k]),
                decreases n - i,
            {
                rows.push(row_for(&lights[i], &states[i]));
                i += 1;
            }
            return Report::Rows(rows);
        }
        let ghost ls = lights@.take(n as int);
        let ghost ss = states@.take(n as int);
        proof {
            lemma_text_lines_trim(lights@, states@);
        }
        let mut out: Vec<Line> = Vec::new();
        let mut i: usize = 0;
        while i < n
            invariant
                i <= n,
                n <= lights@.len(),
                n <= states@.len(),
                ls == lights@.take(n as int),
                ss == states@.take(n as int),
                lines_view(out@) == text_lines(ls.take(i as int), ss.take(i as int)),
            decreases n - i,
        {
            let ghost before = lines_view(out@);
            proof {
                assert(ls.take(i + 1).drop_last() =~= ls.take(i as int));
                assert(ss.take(i + 1).take(i as int) =~= ss.take(i as int));
                assert(ls.take(i + 1).last() == lights@[i as int]);
                assert(ss.take(i + 1)[i as int] == states@[i as int]);
            }
            match &states[i] {
                Ok(st) => {
                    out.push(Line { err: false, text: state_text(&lights[i], st) });
                    assert(lines_view(out@) =~= before.push((false, state_line(lights@[i as int], *st))));
                },
                Err(e) => {
                    out.push(Line { err: true, text: e.clone() });
                    out.push(Line { err: false, text: unreachable_text(&lights[i]) });
                    assert(lines_view(out@) =~= before.push((true, e@)).push(
                        (false, unreachable_line(lights@[i as int])),
                    ));
                },
            }
            i += 1;
        }
        assert(ls.take(n as int) =~= ls);
        assert(ss.take(n as int) =~= ss);
        Report::Lines(out)
    }
}

proof fn lemma_text_lines_trim(ls: Seq<Light>, ss: Seq<Result<LightState, String>>)
    ensures
        text_lines(ls, ss) == text_lines(
            ls.take(if ls.len() <= ss.len() { ls.len() as int } else { ss.len() as int }),
            ss.take(if ls.len() <= ss.len() { ls.len() as int } else { ss.len() as int }),
        ),
{
    let n = if ls.len() <= ss.len() { ls.len() as int } else { ss.len() as int };
    if ls.len() <= ss.len() {
        assert(ls.take(n) =~= ls);
        if ls.len() > 0 {
            assert(ss.take(n).take(ls.len() - 1) =~= ss.take(ls.len() - 1));
            assert(ls.take(n).drop_last() =~= ls.drop_last());
        }
        lemma_text_lines_prefix(ls, ss, ss.take(n));
    } else {
        assert(ss.take(n) =~= ss);
    }
}

/// Only as many answers as there are lights matter.
proof fn lemma_text_lines_prefix(ls: Seq<Light>, ss: Seq<Result<LightState, String>>, tt: Seq<Result<LightState, String>>)
    requires
        ls.len() <= ss.len(),
        ls.len() <= tt.len(),
        forall|i: int| 0 <= i < ls.len() ==> ss[i] == tt[i],
    ensures
        text_lines(ls, ss) == text_lines(ls, tt),
    decreases ls.len(),
{
    if ls.len() > 0 {
        let m = ls.len() - 1;
        lemma_text_lines_prefix(ls.drop_last(), ss.take(m), tt.take(m));
        assert(ss[m] == tt[m]);
    }
}

/// Whether two lights are the same device: by hardware address (in any case)
/// when both have one, else by IP address.
pub open spec fn same_light_spec(a: Light, b: Light) -> bool {
    if a.mac@.len() > 0 && b.mac@.len() > 0 {
        eq_ignore_ascii_case(a.mac@, b.mac@)
    } else {
        a.ip@ == b.ip@
    }
}

pub fn same_light(a: &Light, b: &Light) -> (r: bool)
    ensures
        r == same_light_spec(*a, *b),
{
    let am = chars_of(a.mac.as_str());
    let bm = chars_of(b.mac.as_str());
    if am.len() > 0 && bm.len() > 0 {
        return eq_ignore_ascii_case_vec(am.as_slice(), bm.as_slice());
    }
    same(chars_of(a.ip.as_str()).as_slice(), chars_of(b.ip.as_str()).as_slice())
}

/// A copy of a light.
pub fn duplicate(l: &Light) -> (r: Light)
    ensures
        r == *l,
{
    Light { name: l.name.clone(), ip: l.ip.clone(), port: l.port, mac: l.mac.clone() }
}

/// Whether a light is the same device as one in the list.
pub open spec fn known(ls: Seq<Light>, o: Light) -> bool {
    exists|i: int| 0 <= i < ls.len() && same_light_spec(#[trigger] ls[i], o)
}

/// The lights after folding in the cached lights, and the cached lights
/// that were kept: a cached light that no listed light matches is kept.
pub open spec fn fold_cached(found: Seq<Light>, cached: Seq<Light>) -> (Seq<Light>, Seq<Light>)
    decreases cached.len(),
{
    if cached.len() == 0 {
        (found, Seq::empty())
    } else {
        let (ls, kept) = fold_cached(found, cached.drop_last());
        let o = cached.last();
        if known(ls, o) {
            (ls, kept)
        } else {
            (ls.push(o), kept.push(o))
        }
    }
}

fn is_known(ls: &Vec<Light>, o: &Light) -> (r: bool)
    ensures
        r == known(ls@, *o),
{
    let mut i: usize = 0;
    while i < ls.len()
        invariant
            i <= ls@.len(),
            forall|k: int| 0 <= k < i ==> !same_light_spec(#[trigger] ls@[k], *o),
        decreases ls.len() - i,
    {
        if same_light(&ls[i], o) {
            return true;
        }
        i += 1;
    }
    false
}

proof fn lemma_fold_cached(found: Seq<Light>, cached: Seq<Light>)
    ensures
        fold_cached(found, cached).0.len() >= found.len(),
        forall|i: int| 0 <= i < found.len() ==> #[trigger] fold_cached(found, cached).0[i] == found[i],
        forall|k: int| 0 <= k < cached.len() ==> known(fold_cached(found, cached).0, #[trigger] cached[k]),
    decreases cached.len(),
{
    if cached.len() > 0 {
        let c = cached.drop_last();
        lemma_fold_cached(found, c);
        let ls = fold_cached(found, c).0;
        let o = cached.last();
        assert forall|k: int| 0 <= k < cached.len() implies known(fold_cached(found, cached).0, #[trigger] cached[k]) by {
            if k < c.len() {
                assert(cached[k] == c[k]);
                assert(known(ls, c[k]));
                let j = choose|j: int| 0 <= j < ls.len() && same_light_spec(#[trigger] ls[j], c[k]);
                if !known(ls, o) {
                    assert(ls.push(o)[j] == ls[j]);
                }
            } else {
                assert(cached[k] == o);
                if !known(ls, o) {
                    assert(ls.push(o)[ls.len() as int] == o);
                    assert(same_light_spec(o, o));
                }
            }
        }
        assert forall|i: int| 0 <= i < found.len() implies #[trigger] fold_cached(found, cached).0[i] == found[i] by {
            if !known(ls, o) {
                assert(ls.push(o)[i] == ls[i]);
            }
        }
    }
}

/// A scan merged into the cache keeps every light the scan found; without
/// pruning it also keeps, for every cached light, a light that is the same
/// device: a light that is asleep during one scan is not dropped from the
/// rig.
pub proof fn lemma_merge_keeps(found: Seq<Light>, cached: Seq<Light>)
    ensures
        forall|i: int| 0 <= i < found.len() ==> sorted_by_rank(fold_cached(found, cached).0).contains(#[trigger] found[i]),
        forall|i: int| 0 <= i < found.len() ==> sorted_by_rank(found).contains(#[trigger] found[i]),
        forall|k: int| 0 <= k < cached.len() ==> known(sorted_by_rank(fold_cached(found, cached).0), #[trigger] cached[k]),
{
    broadcast use vstd::seq_lib::group_to_multiset_ensures;
    let ls = fold_cached(found, cached).0;
    let sorted = sorted_by_rank(ls);
    lemma_fold_cached(found, cached);
    lemma_sorted_is_permutation(ls);
    lemma_sorted_is_permutation(found);
    assert forall|i: int| 0 <= i < found.len() implies sorted.contains(#[trigger] found[i]) by {
        assert(ls[i] == found[i]);
        assert(ls.contains(found[i]));
        assert(ls.to_multiset().count(found[i]) > 0);
    }
    assert forall|i: int| 0 <= i < found.len() implies sorted_by_rank(found).contains(#[trigger] found[i]) by {
        assert(found.contains(found[i]));
        assert(found.to_multiset().count(found[i]) > 0);
    }
    assert forall|k: int| 0 <= k < cached.len() implies known(sorted, #[trigger] cached[k]) by {
        assert(known(ls, cached[k]));
        let j = choose|j: int| 0 <= j < ls.len() && same_light_spec(#[trigger] ls[j], cached[k]);
        let x = ls[j];
        assert(ls.contains(x));
        assert(ls.to_multiset().count(x) > 0);
        assert(sorted.contains(x));
        let j2 = choose|j2: int| 0 <= j2 < sorted.len() && sorted[j2] == x;
        assert(same_light_spec(sorted[j2], cached[k]));
    }
}

/// Folds a scan into the cache: unless pruning, a cached light that the scan
/// did not find keeps its entry, so one scan at a bad moment cannot drop it
/// from the rig. The lights come back listed by name, with the cached lights
/// that were kept.
pub fn merge(found: Vec<Light>, cached: Vec<Light>, prune: bool) -> (r: (Cache, Vec<Light>))
    ensures
        prune ==> r.0.lights@ == sorted_by_rank(found@) && r.1@.len() == 0,
        !prune ==> r.0.lights@ == sorted_by_rank(fold_cached(found@, cached@).0) && r.1@ == fold_cached(
            found@,
            cached@,
        ).1,
{
    let mut lights = found;
    let mut kept: Vec<Light> = Vec::new();
    if !prune {
        let ghost f = lights@;
        let mut i: usize = 0;
        while i < cached.len()
            invariant
                i <= cached@.len(),
                (lights@, kept@) == fold_cached(f, cached@.take(i as int)),
            decreases cached.len() - i,
        {
            assert(cached@.take(i + 1).drop_last() =~= cached@.take(i as int));
            assert(cached@.take(i + 1).last() == cached@[i as int]);
            if !is_known(&lights, &cached[i]) {
                kept.push(duplicate(&cached[i]));
                lights.push(duplicate(&cached[i]));
            }
            i += 1;
        }
        assert(cached@.take(cached@.len() as int) =~= cached@);
    }
    (Cache { lights: stable_sort(lights) }, kept)
}

/// The change `set` sends: power on or off as asked, brightness held to at
/// most 100, temperature converted to mireds.
pub fn set_patch(on: bool, off: bool, brightness: Option<u8>, temp: Option<u32>) -> (r: LightPatch)
    ensures
        r.on == (if on {
            Some(1u8)
        } else if off {
            Some(0u8)
        } else {
            None
        }),
        r.brightness == match brightness {
            Some(b) => Some(if b <= 100 {
                b
            } else {
                100u8
            }),
            None => None,
        },
        r.temperature == match temp {
            Some(k) => Some(mired_of(k) as u16),
            None => None::<u16>,
        },
{
    LightPatch {
        on: if on {
            Some(1)
        } else if off {
            Some(0)
        } else {
            None
        },
        brightness: match brightness {
            Some(b) => Some(if b <= 100 {
                b
            } else {
                100
            }),
            None => None,
        },
        temperature: match temp {
            Some(k) => Some(kelvin_to_mired(k)),
            None => None,
        },
    }
}

/// The power a toggle sets: off if any light answered as on, else on.
pub open spec fn any_on(ss: Seq<Result<LightState, String>>) -> bool {
    exists|i: int| 0 <= i < ss.len() && (#[trigger] ss[i] matches Ok(st) && st.on == 1)
}

pub fn toggled_power(probes: &[Result<LightState, String>]) -> (r: u8)
    ensures
        r == (if any_on(probes@) {
            0u8
        } else {
            1u8
        }),
{
    let mut i: usize = 0;
    while i < probes.len()
        invariant
            i <= probes@.len(),
            forall|k: int| 0 <= k < i ==> !(#[trigger] probes@[k] matches Ok(st) && st.on == 1),
        decreases probes.len() - i,
    {
        match &probes[i] {
            Ok(st) => {
                if st.on == 1 {
                    return 0;
                }
            },
            Err(_) => {},
        }
        i += 1;
    }
    1
}

/// Whether a click must rediscover before toggling: no light was selected, or
/// one of them did not answer.
pub fn needs_rediscovery(probes: &[Result<LightState, String>]) -> (r: bool)
    ensures
        r == (probes@.len() == 0 || exists|i: int| 0 <= i < probes@.len() && #[trigger] probes@[i] is Err),
{
    if probes.len() == 0 {
        return true;
    }
    let mut i: usize = 0;
    while i < probes.len()
        invariant
            i <= probes@.len(),
            forall|k: int| 0 <= k < i ==> !(#[trigger] probes@[k] is Err),
        decreases probes.len() - i,
    {
        if probes[i].is_err() {
            return true;
        }
        i += 1;
    }
    false
}

/// A command fails only when every light it addressed failed.
pub fn exit_status(results: &[Result<LightState, String>]) -> (r: i32)
    ensures
        r == (if forall|i: int| 0 <= i < results@.len() ==> #[trigger] results@[i] is Err {
            1i32
        } else {
            0i32
        }),
{
    let mut i: usize = 0;
    while i < results.len()
        invariant
            i <= results@.len(),
            forall|k: int| 0 <= k < i ==> #[trigger] results@[k] is Err,
        decreases results.len() - i,
    {
        if results[i].is_ok() {
            return 0;
        }
        i += 1;
    }
    1
}

/// A level as the user gives it: an absolute value, or an offset (`+N` or
/// `-N`) from the light's current value.
#[derive(Debug, Clone, Copy, PartialEq, Eq, Structural)]
pub enum Level {
    To(u32),
    By(i64),
}

/// How a level reads: with a sign it is an offset, else an absolute value.
pub open spec fn level_spec(v: Seq<char>) -> Option<Level> {
    if v.len() > 0 && (v[0] == '+' || v[0] == '-') {
        match parse_i64_spec(v) {
            Some(d) => Some(Level::By(d)),
            None => None,
        }
    } else {
        match parse_u32_spec(v) {
            Some(n) => Some(Level::To(n)),
            None => None,
        }
    }
}

pub fn parse_level(value: &str) -> (r: Option<Level>)
    ensures
        r == level_spec(value@),
{
    let v = chars_of(value);
    if v.len() > 0 && (v[0] == '+' || v[0] == '-') {
        match parse_i64(v.as_slice()) {
            Some(d) => Some(Level::By(d)),
            None => None,
        }
    } else {
        match parse_u32(v.as_slice()) {
            Some(n) => Some(Level::To(n)),
            None => None,
        }
    }
}

/// The brightness a level gives a light now at `current`: the level, or
/// the current value moved by the offset, always within 0 to 100.
pub open spec fn brightness_spec(level: Level, current: u8) -> int {
    let v = match level {
        Level::To(n) => n as int,
        Level::By(d) => current + d,
    };
    if v < 0 {
        0
    } else if v > 100 {
        100
    } else {
        v
    }
}

pub fn brightness_for(level: Level, current: u8) -> (r: u8)
    ensures
        r as int == brightness_spec(level, current),
        r <= 100,
{
    match level {
        Level::To(n) => if n > 100 {
            100
        } else {
            n as u8
        },
        Level::By(d) => {
            if d < -1000 {
                0
            } else if d > 1000 {
                100
            } else {
                let v: i64 = current as i64 + d;
                if v < 0 {
                    0
                } else if v > 100 {
                    100
                } else {
                    v as u8
                }
            }
        },
    }
}

/// The temperature, in mireds, a level gives a light now at `current`
/// mireds: the level in kelvin, or the current kelvin moved by the offset
/// (not below zero), converted as [`kelvin_to_mired`] does.
pub open spec fn temperature_spec(level: Level, current: u16) -> int {
    let k = match level {
        Level::To(n) => n as int,
        Level::By(d) => {
            let v = kelvin_of(current) + d;
            if v < 0 {
                0
            } else if v > u32::MAX {
                u32::MAX as int
            } else {
                v
            }
        },
    };
    mired_of(k as u32)
}

pub fn temperature_for(level: Level, current: u16) -> (r: u16)
    ensures
        r as int == temperature_spec(level, current),
        143 <= r <= 344,
{
    match level {
        Level::To(n) => kelvin_to_mired(n),
        Level::By(d) => {
            let now = mired_to_kelvin(current) as i64;
            let k: u32 = if d < -4294967295 {
                0
            } else if d > 4294967295 {
                4294967295
            } else {
                let v: i64 = now + d;
                if v < 0 {
                    0
                } else if v > 4294967295 {
                    4294967295
                } else {
                    v as u32
                }
            };
            kelvin_to_mired(k)
        },
    }
}

} // verus!
