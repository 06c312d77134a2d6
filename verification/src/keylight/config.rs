//! The lights the tool knows about, as cached on disk: what makes a cached
//! light acceptable, how many may be kept, and how a target picks lights.
use vstd::prelude::*;
use vstd::utf8::encode_utf8;
use crate::net::{ipv4_valid, is_ipv4, mac_chars, mac_chars_ok};
use crate::numbers::{nat_chars, nat_text};
use crate::order::{Ranked, key_lt, text_key, text_lt};
use crate::search::{first_where, lemma_first_where};
use crate::text::{chars_of, control_char, is_control, lowercase, lowercase_of, string_of, utf8_len_exceeds};
use crate::words::{contains, contains_vec, eq_ignore_ascii_case, eq_ignore_ascii_case_vec, extend, same};

verus! {

/// At most this many lights are cached.
pub const MAX_LIGHTS: usize = 32;

/// A light's display name is at most this many bytes.
pub const MAX_NAME_BYTES: usize = 128;

/// A light's hardware address is at most this many bytes.
pub const MAX_MAC_BYTES: usize = 64;

/// A light on the network.
#[derive(Debug, Clone)]
pub struct Light {
    pub name: String,
    pub ip: String,
    pub port: u16,
    pub mac: String,
}

/// The address of one of a light's HTTP endpoints.
pub open spec fn url_spec(l: Light, path: Seq<char>) -> Seq<char> {
    "http://"@ + l.ip@ + ":"@ + nat_text(l.port as nat) + path
}

/// Why a cached light is refused, checked in this order: its name is empty
/// or too long, its name holds a control character, its address is not an
/// IPv4 address, its port is zero, or its hardware address is too long or
/// holds anything but hex digits and separators.
pub open spec fn light_problem(l: Light) -> Option<Seq<char>> {
    if l.name@.len() == 0 || encode_utf8(l.name@).len() > MAX_NAME_BYTES {
        Some("invalid display name length"@)
    } else if exists|i: int| 0 <= i < l.name@.len() && is_control(#[trigger] l.name@[i]) {
        Some("display name contains control characters"@)
    } else if !is_ipv4(l.ip@) {
        Some("invalid IPv4 address"@)
    } else if l.port == 0 {
        Some("invalid port"@)
    } else if encode_utf8(l.mac@).len() > MAX_MAC_BYTES || !mac_chars(l.mac@) {
        Some("invalid MAC address"@)
    } else {
        None
    }
}

pub open spec fn valid_light(l: Light) -> bool {
    light_problem(l) is None
}

fn has_control(s: &[char]) -> (r: bool)
    ensures
        r == exists|i: int| 0 <= i < s@.len() && is_control(#[trigger] s@[i]),
{
    let mut i: usize = 0;
    while i < s.len()
        invariant
            i <= s@.len(),
            forall|k: int| 0 <= k < i ==> !is_control(#[trigger] s@[k]),
        decreases s.len() - i,
    {
        if control_char(s[i]) {
            return true;
        }
        i += 1;
    }
    false
}

impl Light {
    /// The address of one of the light's HTTP endpoints.
    pub fn url(&self, path: &str) -> (r: String)
        ensures
            r@ == url_spec(*self, path@),
    {
        let mut v = chars_of("http://");
        extend(&mut v, chars_of(self.ip.as_str()).as_slice());
        extend(&mut v, chars_of(":").as_slice());
        extend(&mut v, nat_chars(self.port as u64).as_slice());
        extend(&mut v, chars_of(path).as_slice());
        string_of(v.as_slice())
    }

    /// Whether the light may be cached, and if not, why.
    pub fn validate(&self) -> (r: Result<(), &'static str>)
        ensures
            match r {
                Ok(()) => light_problem(*self) is None,
                Err(e) => light_problem(*self) == Some(e@),
            },
    {
        let name = chars_of(self.name.as_str());
        if name.len() == 0 || utf8_len_exceeds(name.as_slice(), MAX_NAME_BYTES) {
            return Err("invalid display name length");
        }
        if has_control(name.as_slice()) {
            return Err("display name contains control characters");
        }
        if !ipv4_valid(chars_of(self.ip.as_str()).as_slice()) {
            return Err("invalid IPv4 address");
        }
        if self.port == 0 {
            return Err("invalid port");
        }
        let mac = chars_of(self.mac.as_str());
        if utf8_len_exceeds(mac.as_slice(), MAX_MAC_BYTES) || !mac_chars_ok(mac.as_slice()) {
            return Err("invalid MAC address");
        }
        Ok(())
    }
}

/// Lights are listed by name.
impl Ranked for Light {
    open spec fn rank(&self) -> Seq<Seq<int>> {
        seq![text_key(self.name@)]
    }

    fn before(&self, other: &Self) -> (r: bool) {
        let a = chars_of(self.name.as_str());
        let b = chars_of(other.name.as_str());
        let r = text_lt(a.as_slice(), b.as_slice());
        proof {
            let x = self.rank();
            let y = other.rank();
            assert(x[0] == text_key(a@));
            assert(y[0] == text_key(b@));
            assert(x.drop_first() =~= Seq::<Seq<int>>::empty());
            assert(y.drop_first() =~= Seq::<Seq<int>>::empty());
            assert(!key_lt(x.drop_first(), y.drop_first()));
            if x[0] == y[0] {
                crate::order::lemma_lex_irreflexive(x[0]);
            }
        }
        r
    }
}

/// The cache of known lights.
#[derive(Debug, Clone)]
pub struct Cache {
    pub lights: Vec<Light>,
}

impl Default for Cache {
    fn default() -> (r: Cache)
        ensures
            r.lights@.len() == 0,
    {
        Cache { lights: Vec::new() }
    }
}

/// The acceptable lights of a sequence, in order.
pub open spec fn valid_only(s: Seq<Light>) -> Seq<Light>
    decreases s.len(),
{
    if s.len() == 0 {
        s
    } else if valid_light(s.last()) {
        valid_only(s.drop_last()).push(s.last())
    } else {
        valid_only(s.drop_last())
    }
}

/// At most the first `MAX_LIGHTS` of a sequence.
pub open spec fn capped<T>(s: Seq<T>) -> Seq<T> {
    if s.len() > MAX_LIGHTS {
        s.take(MAX_LIGHTS as int)
    } else {
        s
    }
}

/// A cache read from disk, cut down to what may be cached: the acceptable
/// lights, at most `MAX_LIGHTS` of them.
pub fn bounded(cache: Cache) -> (r: Cache)
    ensures
        r.lights@ == capped(valid_only(cache.lights@)),
{
    let ghost orig = cache.lights@;
    assert(orig.len() == cache.lights.len());
    let mut rest = cache.lights;
    let mut out: Vec<Light> = Vec::new();
    let mut k: usize = 0;
    assert(orig.take(0) =~= Seq::<Light>::empty());
    assert(orig.skip(0) =~= orig);
    while rest.len() > 0
        invariant
            k <= orig.len(),
            orig.len() <= usize::MAX,
            rest@.len() + k == orig.len(),
            rest@ == orig.skip(k as int),
            out@ == capped(valid_only(orig.take(k as int))),
        decreases rest.len(),
    {
        let l = rest.remove(0);
        assert(l == orig[k as int]);
        assert(orig.take(k + 1).drop_last() =~= orig.take(k as int));
        assert(orig.take(k + 1).last() == l);
        let ok = l.validate().is_ok();
        if ok && out.len() < MAX_LIGHTS {
            out.push(l);
        }
        proof {
            let v = valid_only(orig.take(k as int));
            if ok && v.len() < MAX_LIGHTS {
                assert(capped(v.push(l)) =~= v.push(l));
            } else if ok {
                assert(capped(v.push(l)) =~= capped(v));
            }
        }
        assert(orig.skip(k + 1) =~= orig.skip(k as int).drop_first());
        k += 1;
    }
    assert(orig.take(k as int) =~= orig);
    Cache { lights: out }
}

/// Whether a light would be refused.
pub open spec fn refused() -> spec_fn(Light) -> bool {
    |l: Light| light_problem(l) is Some
}

/// Why a cache may not be written: too many lights, or the first light that
/// would be refused.
pub open spec fn cache_problem(s: Seq<Light>) -> Option<Seq<char>> {
    if s.len() > MAX_LIGHTS {
        Some("too many lights"@)
    } else {
        let k = first_where(s, refused());
        if k < s.len() {
            light_problem(s[k])
        } else {
            None
        }
    }
}

/// Whether a cache may be written, and if not, why.
pub fn validate_cache(cache: &Cache) -> (r: Result<(), &'static str>)
    ensures
        match r {
            Ok(()) => cache_problem(cache.lights@) is None,
            Err(e) => cache_problem(cache.lights@) == Some(e@),
        },
{
    if cache.lights.len() > MAX_LIGHTS {
        return Err("too many lights");
    }
    let mut i: usize = 0;
    while i < cache.lights.len()
        invariant
            i <= cache.lights@.len(),
            cache.lights@.len() <= MAX_LIGHTS,
            forall|k: int| 0 <= k < i ==> !refused()(#[trigger] cache.lights@[k]),
        decreases cache.lights.len() - i,
    {
        match cache.lights[i].validate() {
            Err(e) => {
                proof {
                    lemma_first_where(cache.lights@, refused(), i as int);
                }
                return Err(e);
            },
            Ok(()) => {},
        }
        i += 1;
    }
    proof {
        lemma_first_where(cache.lights@, refused(), i as int);
    }
    Ok(())
}

proof fn lemma_valid_only(s: Seq<Light>)
    ensures
        valid_only(s).len() <= s.len(),
        forall|i: int| 0 <= i < valid_only(s).len() ==> valid_light(#[trigger] valid_only(s)[i]),
    decreases s.len(),
{
    if s.len() > 0 {
        let t = s.drop_last();
        lemma_valid_only(t);
        if valid_light(s.last()) {
            assert forall|i: int| 0 <= i < valid_only(s).len() implies valid_light(#[trigger] valid_only(s)[i]) by {
                if i < valid_only(t).len() {
                    assert(valid_only(s)[i] == valid_only(t)[i]);
                }
            }
        }
    }
}

/// A cache as it is loaded can always be written back: it holds at most
/// `MAX_LIGHTS` lights and none that would be refused.
pub proof fn lemma_loaded_cache_saves(s: Seq<Light>)
    ensures
        capped(valid_only(s)).len() <= MAX_LIGHTS,
        cache_problem(capped(valid_only(s))) is None,
{
    lemma_valid_only(s);
    let c = capped(valid_only(s));
    assert forall|k: int| 0 <= k < c.len() implies !refused()(#[trigger] c[k]) by {
        assert(c[k] == valid_only(s)[k]);
        assert(valid_light(valid_only(s)[k]));
    }
    lemma_first_where(c, refused(), c.len() as int);
}

/// The lights of `s` at the indices that `keep` holds for, in order.
pub open spec fn pick(s: Seq<Light>, keep: spec_fn(int) -> bool) -> Seq<Light>
    decreases s.len(),
{
    if s.len() == 0 {
        s
    } else if keep(s.len() - 1) {
        pick(s.drop_last(), keep).push(s.last())
    } else {
        pick(s.drop_last(), keep)
    }
}

/// A light the target names exactly: by its lower-cased name, its address,
/// or its hardware address in any case.
pub open spec fn exact_match(s: Seq<Light>, names: Seq<Seq<char>>, target: Seq<char>, needle: Seq<char>) -> spec_fn(int) -> bool {
    |i: int| names[i] == needle || s[i].ip@ == target || eq_ignore_ascii_case(s[i].mac@, target)
}

/// A light whose lower-cased name contains the lower-cased target.
pub open spec fn partial_match(names: Seq<Seq<char>>, needle: Seq<char>) -> spec_fn(int) -> bool {
    |i: int| contains(names[i], needle)
}

/// The lights a target picks, given the lower-cased target and lower-cased
/// names: every light for "all"; else every light it names exactly, when
/// there is one; else every light whose name contains it.
pub open spec fn select_spec(s: Seq<Light>, names: Seq<Seq<char>>, target: Seq<char>, needle: Seq<char>) -> Seq<Light> {
    if target == "all"@ {
        s
    } else if exists|i: int| 0 <= i < s.len() && #[trigger] exact_match(s, names, target, needle)(i) {
        pick(s, exact_match(s, names, target, needle))
    } else {
        pick(s, partial_match(names, needle))
    }
}

/// Whether a light is one of `s` that `keep` holds for.
pub open spec fn picked_from(s: Seq<Light>, keep: spec_fn(int) -> bool, x: Light) -> bool {
    exists|i: int| 0 <= i < s.len() && keep(i) && #[trigger] s[i] == x
}

proof fn lemma_pick_members(s: Seq<Light>, keep: spec_fn(int) -> bool)
    ensures
        forall|j: int| 0 <= j < pick(s, keep).len() ==> picked_from(s, keep, #[trigger] pick(s, keep)[j]),
    decreases s.len(),
{
    if s.len() > 0 {
        let t = s.drop_last();
        lemma_pick_members(t, keep);
        let p = pick(s, keep);
        let q = pick(t, keep);
        assert forall|j: int| 0 <= j < p.len() implies picked_from(s, keep, #[trigger] p[j]) by {
            if j < q.len() {
                assert(p[j] == q[j]);
                assert(picked_from(t, keep, q[j]));
                let i = choose|i: int| 0 <= i < t.len() && keep(i) && #[trigger] t[i] == q[j];
                assert(s[i] == t[i]);
            } else {
                assert(p[j] == s.last());
                assert(s[s.len() - 1] == s.last());
            }
        }
    }
}

/// A target that names some light exactly picks only lights it names
/// exactly: a light called "Key" can be addressed even when "Key Light"
/// also exists.
pub proof fn lemma_exact_wins(s: Seq<Light>, names: Seq<Seq<char>>, target: Seq<char>, needle: Seq<char>)
    requires
        target != "all"@,
        exists|i: int| 0 <= i < s.len() && #[trigger] exact_match(s, names, target, needle)(i),
    ensures
        forall|j: int| 0 <= j < select_spec(s, names, target, needle).len() ==> picked_from(
            s,
            exact_match(s, names, target, needle),
            #[trigger] select_spec(s, names, target, needle)[j],
        ),
{
    lemma_pick_members(s, exact_match(s, names, target, needle));
}

/// The lights with their lower-cased names, side by side.
pub open spec fn with_names(s: Seq<Light>, names: Seq<Seq<char>>) -> Seq<(Light, Seq<char>)> {
    Seq::new(s.len(), |i: int| (s[i], names[i]))
}

proof fn lemma_pick_by_pair(s: Seq<Light>, names: Seq<Seq<char>>, f: spec_fn((Light, Seq<char>)) -> bool)
    requires
        names.len() == s.len(),
    ensures
        pick(s, |i: int| f((s[i], names[i]))) == with_names(s, names).filter(f).map_values(
            |p: (Light, Seq<char>)| p.0,
        ),
    decreases s.len(),
{
    reveal(Seq::filter);
    let keep = |i: int| f((s[i], names[i]));
    let z = with_names(s, names);
    if s.len() > 0 {
        let t = s.drop_last();
        let tn = names.drop_last();
        lemma_pick_by_pair(t, tn, f);
        assert(with_names(t, tn) =~= z.drop_last());
        lemma_pick_same(t, |i: int| f((t[i], tn[i])), keep);
        assert(z.last() == (s.last(), names[s.len() - 1]));
        let zf = z.drop_last().filter(f);
        if f(z.last()) {
            assert(z.filter(f) == zf.push(z.last()));
            assert(zf.push(z.last()).map_values(|p: (Light, Seq<char>)| p.0) =~= zf.map_values(
                |p: (Light, Seq<char>)| p.0,
            ).push(s.last()));
        } else {
            assert(z.filter(f) == zf);
        }
    } else {
        assert(z.filter(f) =~= Seq::<(Light, Seq<char>)>::empty());
    }
}

proof fn lemma_pick_same(s: Seq<Light>, a: spec_fn(int) -> bool, b: spec_fn(int) -> bool)
    requires
        forall|i: int| 0 <= i < s.len() ==> #[trigger] a(i) == b(i),
    ensures
        pick(s, a) == pick(s, b),
    decreases s.len(),
{
    if s.len() > 0 {
        lemma_pick_same(s.drop_last(), a, b);
    }
}

/// Whether `needle` occurs somewhere in `n`, as a run of its characters.
pub open spec fn occurs_in(needle: Seq<char>, n: Seq<char>) -> bool {
    exists|k: int| 0 <= k && k + needle.len() <= n.len() && #[trigger] n.subrange(k, k + needle.len()) == needle
}

/// When no light is named exactly by the target (its lower-cased name, its
/// address or its hardware address), the target picks, in cache order, every
/// light whose lower-cased name holds the lower-cased target somewhere in it.
pub proof fn lemma_select_by_substring(s: Seq<Light>, names: Seq<Seq<char>>, target: Seq<char>, needle: Seq<char>)
    requires
        names.len() == s.len(),
        target != "all"@,
        forall|i: int|
            0 <= i < s.len() ==> #[trigger] names[i] != needle && s[i].ip@ != target && !eq_ignore_ascii_case(
                s[i].mac@,
                target,
            ),
    ensures
        select_spec(s, names, target, needle) == with_names(s, names).filter(
            |p: (Light, Seq<char>)| occurs_in(needle, p.1),
        ).map_values(|p: (Light, Seq<char>)| p.0),
{
    let f = |p: (Light, Seq<char>)| occurs_in(needle, p.1);
    assert(!exists|i: int| 0 <= i < s.len() && #[trigger] exact_match(s, names, target, needle)(i)) by {
        assert forall|i: int| 0 <= i < s.len() implies !#[trigger] exact_match(s, names, target, needle)(i) by {
            assert(names[i] != needle);
        }
    }
    assert forall|i: int| 0 <= i < s.len() implies #[trigger] partial_match(names, needle)(i) == occurs_in(
        needle,
        names[i],
    ) by {
        if contains(names[i], needle) {
            let k = choose|k: int| crate::words::contains_at(names[i], needle, k);
            assert(names[i].subrange(k, k + needle.len()) == needle);
        }
        if occurs_in(needle, names[i]) {
            let k = choose|k: int|
                0 <= k && k + needle.len() <= names[i].len() && #[trigger] names[i].subrange(k, k + needle.len())
                    == needle;
            assert(crate::words::contains_at(names[i], needle, k));
        }
    }
    lemma_pick_same(s, partial_match(names, needle), |i: int| f((s[i], names[i])));
    lemma_pick_by_pair(s, names, f);
}

/// Whether a target names a light exactly: by its lower-cased name (given as
/// `name`), its address, or its hardware address in any case.
pub open spec fn names_exactly(l: Light, name: Seq<char>, target: Seq<char>, needle: Seq<char>) -> bool {
    name == needle || l.ip@ == target || eq_ignore_ascii_case(l.mac@, target)
}

/// "all" picks every light.
pub proof fn lemma_select_all(s: Seq<Light>, names: Seq<Seq<char>>, needle: Seq<char>)
    ensures
        select_spec(s, names, "all"@, needle) == s,
{
}

/// When the target names some light exactly, it picks, in cache order,
/// every light it names exactly, and no other.
pub proof fn lemma_select_exact(s: Seq<Light>, names: Seq<Seq<char>>, target: Seq<char>, needle: Seq<char>, i: int)
    requires
        names.len() == s.len(),
        target != "all"@,
        0 <= i < s.len(),
        names_exactly(s[i], names[i], target, needle),
    ensures
        select_spec(s, names, target, needle) == with_names(s, names).filter(
            |p: (Light, Seq<char>)| names_exactly(p.0, p.1, target, needle),
        ).map_values(|p: (Light, Seq<char>)| p.0),
{
    assert(exact_match(s, names, target, needle)(i));
    let f = |p: (Light, Seq<char>)| names_exactly(p.0, p.1, target, needle);
    assert forall|j: int| 0 <= j < s.len() implies #[trigger] exact_match(s, names, target, needle)(j) == f(
        (s[j], names[j]),
    ) by {}
    lemma_pick_same(s, exact_match(s, names, target, needle), |i: int| f((s[i], names[i])));
    lemma_pick_by_pair(s, names, f);
}

/// The lights that are referred to.
pub open spec fn derefs<'a>(v: Seq<&'a Light>) -> Seq<Light> {
    v.map_values(|l: &'a Light| *l)
}

fn pick_lights<'a>(lights: &'a Vec<Light>, flags: &Vec<bool>, keep: Ghost<spec_fn(int) -> bool>) -> (r: Vec<&'a Light>)
    requires
        flags@.len() == lights@.len(),
        forall|i: int| 0 <= i < flags@.len() ==> flags@[i] == (keep@)(i),
    ensures
        derefs(r@) == pick(lights@, keep@),
{
    let mut r: Vec<&'a Light> = Vec::new();
    let mut i: usize = 0;
    while i < lights.len()
        invariant
            i <= lights@.len(),
            flags@.len() == lights@.len(),
            forall|i: int| 0 <= i < flags@.len() ==> flags@[i] == (keep@)(i),
            derefs(r@) == pick(lights@.take(i as int), keep@),
        decreases lights.len() - i,
    {
        let ghost t = lights@.take(i + 1);
        assert(t.drop_last() =~= lights@.take(i as int));
        assert(t.last() == lights@[i as int]);
        if flags[i] {
            r.push(&lights[i]);
        }
        assert(derefs(r@) =~= pick(t, keep@));
        i += 1;
    }
    assert(lights@.take(lights@.len() as int) =~= lights@);
    r
}

/// The lights a target picks, from the lower-cased target and the
/// lower-cased name of each light (in the cache's order). An exact name,
/// address or hardware address wins outright, so a light called "Key" can be
/// addressed even when "Key Light" also exists; substring matching is only
/// the fallback.
pub fn select_among<'a>(cache: &'a Cache, target: &str, needle: &str, names: &Vec<String>) -> (r: Vec<&'a Light>)
    requires
        names@.len() == cache.lights@.len(),
    ensures
        derefs(r@) == select_spec(cache.lights@, names@.map_values(|n: String| n@), target@, needle@),
{
    let ghost s = cache.lights@;
    let ghost ns = names@.map_values(|n: String| n@);
    let t = chars_of(target);
    let nd = chars_of(needle);
    if same(t.as_slice(), chars_of("all").as_slice()) {
        let all: Vec<bool> = vec_of_true(cache.lights.len());
        let r = pick_lights(&cache.lights, &all, Ghost(|i: int| true));
        proof {
            lemma_pick_all(s);
        }
        return r;
    }
    let mut exact: Vec<bool> = Vec::new();
    let mut partial: Vec<bool> = Vec::new();
    let mut any = false;
    let mut i: usize = 0;
    while i < cache.lights.len()
        invariant
            i <= s.len(),
            s == cache.lights@,
            names@.len() == s.len(),
            ns == names@.map_values(|n: String| n@),
            t@ == target@,
            nd@ == needle@,
            exact@.len() == i,
            partial@.len() == i,
            forall|k: int| 0 <= k < i ==> exact@[k] == exact_match(s, ns, target@, needle@)(k),
            forall|k: int| 0 <= k < i ==> partial@[k] == partial_match(ns, needle@)(k),
            any == exists|k: int| 0 <= k < i && #[trigger] exact_match(s, ns, target@, needle@)(k),
        decreases s.len() - i,
    {
        let l = &cache.lights[i];
        let name = chars_of(names[i].as_str());
        assert(ns[i as int] == names@[i as int]@);
        let e = same(name.as_slice(), nd.as_slice()) || same(chars_of(l.ip.as_str()).as_slice(), t.as_slice())
            || eq_ignore_ascii_case_vec(chars_of(l.mac.as_str()).as_slice(), t.as_slice());
        assert(name@ == ns[i as int]);
        assert(e == exact_match(s, ns, target@, needle@)(i as int));
        exact.push(e);
        partial.push(contains_vec(name.as_slice(), nd.as_slice()));
        any = any || e;
        i += 1;
    }
    if any {
        pick_lights(&cache.lights, &exact, Ghost(exact_match(s, ns, target@, needle@)))
    } else {
        pick_lights(&cache.lights, &partial, Ghost(partial_match(ns, needle@)))
    }
}

fn vec_of_true(n: usize) -> (r: Vec<bool>)
    ensures
        r@.len() == n,
        forall|i: int| 0 <= i < n ==> r@[i],
{
    let mut r: Vec<bool> = Vec::new();
    while r.len() < n
        invariant
            r@.len() <= n,
            forall|i: int| 0 <= i < r@.len() ==> r@[i],
        decreases n - r@.len(),
    {
        r.push(true);
    }
    r
}

proof fn lemma_pick_all(s: Seq<Light>)
    ensures
        pick(s, |i: int| true) == s,
    decreases s.len(),
{
    if s.len() > 0 {
        lemma_pick_all(s.drop_last());
        assert(s.drop_last().push(s.last()) =~= s);
    }
}

/// The lights a target picks (see [`select_among`]), lower-casing the target
/// and the names with `str::to_lowercase`.
pub fn select<'a>(cache: &'a Cache, target: &str) -> (r: Vec<&'a Light>)
    ensures
        derefs(r@) == select_spec(
            cache.lights@,
            cache.lights@.map_values(|l: Light| lowercase_of(l.name@)),
            target@,
            lowercase_of(target@),
        ),
{
    let needle = lowercase(target);
    let mut names: Vec<String> = Vec::new();
    let mut i: usize = 0;
    while i < cache.lights.len()
        invariant
            i <= cache.lights@.len(),
            names@.len() == i,
            forall|k: int| 0 <= k < i ==> #[trigger] names@[k]@ == lowercase_of(cache.lights@[k].name@),
        decreases cache.lights.len() - i,
    {
        names.push(lowercase(cache.lights[i].name.as_str()));
        i += 1;
    }
    assert(names@.map_values(|n: String| n@) =~= cache.lights@.map_values(|l: Light| lowercase_of(l.name@)));
    select_among(cache, target, needle.as_str(), &names)
}

} // verus!
