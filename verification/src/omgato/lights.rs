//! The panel's lights: naming and ordering them by hardware address, the
//! snapshot the undo history keeps, the commands that restore one, and the
//! levels that bring every light to the same setting.
use vstd::prelude::*;
use crate::net::mac_chars;
use crate::numbers::{nat_chars, nat_text};
use crate::omgato::state::{Snap, copy_snap, snap_view, snap_views};
use crate::order::{
    Ranked, key_lt, lex_lt, lemma_lex_irreflexive, lemma_lex_total, sorted_by_rank, stable_sort,
    text_key, text_lt,
};
use crate::search::{find_first, first_where, lemma_first_where};
use crate::text::{chars_of, debug_text, hex_digit_char, is_hex_digit, string_of, string_views, strings_of, views};
use crate::words::{eq_ignore_ascii_case, eq_ignore_ascii_case_vec, extend, join, join_vec, same, split, split_vec, trim, trim_vec};

verus! {

/// A light as the light controller lists it.
#[derive(Debug)]
pub struct Row {
    pub name: String,
    pub ip: String,
    pub mac: String,
    pub reachable: bool,
    pub on: bool,
    pub brightness: u8,
    pub kelvin: u32,
}

/// A light as the panel shows it: with the name the user gave it.
#[derive(Debug)]
pub struct Light {
    pub name: String,
    pub display: String,
    pub ip: String,
    pub mac: String,
    pub reachable: bool,
    pub on: bool,
    pub brightness: u8,
    pub kelvin: u32,
}

/// Whether a key is a hardware address: it has a colon and holds only hex
/// digits and colons.
pub open spec fn is_mac_spec(k: Seq<char>) -> bool {
    k.contains(':') && forall|i: int| 0 <= i < k.len() ==> (is_hex_digit(#[trigger] k[i]) || k[i] == ':')
}

pub fn is_mac(key: &str) -> (r: bool)
    ensures
        r == is_mac_spec(key@),
{
    let k = chars_of(key);
    let mut colon = false;
    let mut i: usize = 0;
    while i < k.len()
        invariant
            i <= k@.len(),
            k@ == key@,
            forall|j: int| 0 <= j < i ==> (is_hex_digit(#[trigger] k@[j]) || k@[j] == ':'),
            colon == exists|j: int| 0 <= j < i && k@[j] == ':',
        decreases k.len() - i,
    {
        let c = k[i];
        if !(hex_digit_char(c) || c == ':') {
            return false;
        }
        if c == ':' {
            colon = true;
        }
        i += 1;
    }
    proof {
        if colon {
            let j = choose|j: int| 0 <= j < i && k@[j] == ':';
            assert(k@[j] == ':');
        }
    }
    colon
}

/// The pairs of a map given as a list, by view.
pub open spec fn pairs(m: Seq<(String, String)>) -> Seq<(Seq<char>, Seq<char>)> {
    m.map_values(|p: (String, String)| (p.0@, p.1@))
}

pub open spec fn key_is(k: Seq<char>) -> spec_fn((Seq<char>, Seq<char>)) -> bool {
    |p: (Seq<char>, Seq<char>)| p.0 == k
}

/// The value for a key in a map given as a list of distinct keys.
pub open spec fn lookup(m: Seq<(Seq<char>, Seq<char>)>, k: Seq<char>) -> Option<Seq<char>> {
    let i = first_where(m, key_is(k));
    if i < m.len() {
        Some(m[i].1)
    } else {
        None
    }
}

fn find_value(m: &Vec<(String, String)>, k: &[char]) -> (r: Option<String>)
    ensures
        crate::text::opt_view(r) == lookup(pairs(m@), k@),
{
    let mut i: usize = 0;
    while i < m.len() && !same(chars_of(m[i].0.as_str()).as_slice(), k)
        invariant
            i <= m@.len(),
            forall|j: int| 0 <= j < i ==> !key_is(k@)(#[trigger] pairs(m@)[j]),
        decreases m.len() - i,
    {
        i += 1;
    }
    proof {
        lemma_first_where(pairs(m@), key_is(k@), i as int);
    }
    if i < m.len() {
        Some(m[i].1.clone())
    } else {
        None
    }
}

/// A saved key, in terms of hardware addresses: a key that already is one
/// stays, an IP address becomes the hardware address it maps to, and any
/// other key is dropped.
pub open spec fn remap_spec(key: Seq<char>, by_ip: Seq<(Seq<char>, Seq<char>)>) -> Option<Seq<char>> {
    if is_mac_spec(key) {
        Some(key)
    } else {
        lookup(by_ip, key)
    }
}

/// A saved key remapped to a hardware address, given the map from IP address
/// to hardware address.
pub fn remap_key(key: &str, by_ip: &Vec<(String, String)>) -> (r: Option<String>)
    ensures
        crate::text::opt_view(r) == remap_spec(key@, pairs(by_ip@)),
{
    if is_mac(key) {
        return Some(String::from_str(key));
    }
    find_value(by_ip, chars_of(key).as_slice())
}

/// The map from IP address to hardware address that the listed lights give,
/// for lights that have a hardware address; a later light with the same
/// address wins, as collecting into a map does, and keeps the first one's
/// place.
pub open spec fn by_ip_spec(rows: Seq<Row>) -> Seq<(Seq<char>, Seq<char>)>
    decreases rows.len(),
{
    if rows.len() == 0 {
        Seq::empty()
    } else {
        let m = by_ip_spec(rows.drop_last());
        let r = rows.last();
        if r.mac@.len() == 0 {
            m
        } else {
            let i = first_where(m, key_is(r.ip@));
            if i < m.len() {
                m.update(i, (r.ip@, r.mac@))
            } else {
                m.push((r.ip@, r.mac@))
            }
        }
    }
}

pub fn ip_to_mac(rows: &[Row]) -> (r: Vec<(String, String)>)
    ensures
        pairs(r@) == by_ip_spec(rows@),
{
    let mut m: Vec<(String, String)> = Vec::new();
    let mut k: usize = 0;
    while k < rows.len()
        invariant
            k <= rows@.len(),
            pairs(m@) == by_ip_spec(rows@.take(k as int)),
        decreases rows.len() - k,
    {
        assert(rows@.take(k + 1).drop_last() =~= rows@.take(k as int));
        assert(rows@.take(k + 1).last() == rows@[k as int]);
        let row = &rows[k];
        if row.mac.as_str().is_empty() {
        } else {
            let ip = chars_of(row.ip.as_str());
            let ghost pm = pairs(m@);
            let mut i: usize = 0;
            while i < m.len() && !same(chars_of(m[i].0.as_str()).as_slice(), ip.as_slice())
                invariant
                    i <= m@.len(),
                    ip@ == row.ip@,
                    forall|j: int| 0 <= j < i ==> !key_is(row.ip@)(#[trigger] pairs(m@)[j]),
                decreases m.len() - i,
            {
                i += 1;
            }
            proof {
                lemma_first_where(pm, key_is(row.ip@), i as int);
            }
            if i < m.len() {
                m.set(i, (row.ip.clone(), row.mac.clone()));
                assert(pairs(m@) =~= pm.update(i as int, (row.ip@, row.mac@)));
            } else {
                m.push((row.ip.clone(), row.mac.clone()));
                assert(pairs(m@) =~= pm.push((row.ip@, row.mac@)));
            }
        }
        k += 1;
    }
    assert(rows@.take(rows@.len() as int) =~= rows@);
    m
}

/// The saved order of lights, in terms of hardware addresses: each key
/// remapped, the ones that cannot be dropped.
pub open spec fn migrated_order(order: Seq<Seq<char>>, by_ip: Seq<(Seq<char>, Seq<char>)>) -> Seq<Seq<char>>
    decreases order.len(),
{
    if order.len() == 0 {
        Seq::empty()
    } else {
        let rest = migrated_order(order.drop_last(), by_ip);
        match remap_spec(order.last(), by_ip) {
            Some(k) => rest.push(k),
            None => rest,
        }
    }
}

/// The saved order migrated to hardware addresses, when it needs it: when
/// the map is not empty and some key is not yet a hardware address.
pub fn migrate_order(order: &Vec<String>, by_ip: &Vec<(String, String)>) -> (r: Option<Vec<String>>)
    ensures
        (by_ip@.len() > 0 && exists|i: int| 0 <= i < order@.len() && !is_mac_spec(#[trigger] order@[i]@))
            ==> (r matches Some(v) && string_views(v@) == migrated_order(string_views(order@), pairs(by_ip@))),
        !(by_ip@.len() > 0 && exists|i: int| 0 <= i < order@.len() && !is_mac_spec(#[trigger] order@[i]@))
            ==> r is None,
{
    if by_ip.len() == 0 {
        return None;
    }
    let mut any = false;
    let mut out: Vec<String> = Vec::new();
    let ghost ov = string_views(order@);
    let mut i: usize = 0;
    while i < order.len()
        invariant
            i <= order@.len(),
            ov == string_views(order@),
            any == exists|j: int| 0 <= j < i && !is_mac_spec(#[trigger] order@[j]@),
            string_views(out@) == migrated_order(ov.take(i as int), pairs(by_ip@)),
        decreases order.len() - i,
    {
        assert(ov.take(i + 1).drop_last() =~= ov.take(i as int));
        assert(ov.take(i + 1).last() == order@[i as int]@);
        if !is_mac(order[i].as_str()) {
            any = true;
        }
        let ghost before = string_views(out@);
        match remap_key(order[i].as_str(), by_ip) {
            Some(k) => {
                out.push(k);
                assert(string_views(out@) =~= before.push(k@));
            },
            None => {},
        }
        i += 1;
    }
    assert(ov.take(order@.len() as int) =~= ov);
    if any {
        Some(out)
    } else {
        None
    }
}

/// The saved names of lights, in terms of hardware addresses: each entry's
/// key remapped, the entries whose key cannot be dropped, in the map's order.
/// Collecting the result into a map lets a later entry win where two keys
/// meet.
pub open spec fn migrated_aliases(aliases: Seq<(Seq<char>, Seq<char>)>, by_ip: Seq<(Seq<char>, Seq<char>)>) -> Seq<(Seq<char>, Seq<char>)>
    decreases aliases.len(),
{
    if aliases.len() == 0 {
        Seq::empty()
    } else {
        let rest = migrated_aliases(aliases.drop_last(), by_ip);
        match remap_spec(aliases.last().0, by_ip) {
            Some(k) => rest.push((k, aliases.last().1)),
            None => rest,
        }
    }
}

/// The saved names migrated to hardware addresses, when they need it: when
/// the map from IP address is not empty and some key is not yet a hardware
/// address. The names come as the map's entries in order.
pub fn migrate_aliases(aliases: &Vec<(String, String)>, by_ip: &Vec<(String, String)>) -> (r: Option<Vec<(String, String)>>)
    ensures
        (by_ip@.len() > 0 && exists|i: int| 0 <= i < aliases@.len() && !is_mac_spec(#[trigger] aliases@[i].0@))
            ==> (r matches Some(v) && pairs(v@) == migrated_aliases(pairs(aliases@), pairs(by_ip@))),
        !(by_ip@.len() > 0 && exists|i: int| 0 <= i < aliases@.len() && !is_mac_spec(#[trigger] aliases@[i].0@))
            ==> r is None,
{
    if by_ip.len() == 0 {
        return None;
    }
    let mut any = false;
    let mut out: Vec<(String, String)> = Vec::new();
    let ghost av = pairs(aliases@);
    let mut i: usize = 0;
    while i < aliases.len()
        invariant
            i <= aliases@.len(),
            av == pairs(aliases@),
            any == exists|j: int| 0 <= j < i && !is_mac_spec(#[trigger] aliases@[j].0@),
            pairs(out@) == migrated_aliases(av.take(i as int), pairs(by_ip@)),
        decreases aliases.len() - i,
    {
        assert(av.take(i + 1).drop_last() =~= av.take(i as int));
        assert(av.take(i + 1).last() == (aliases@[i as int].0@, aliases@[i as int].1@));
        if !is_mac(aliases[i].0.as_str()) {
            any = true;
        }
        let ghost before = pairs(out@);
        match remap_key(aliases[i].0.as_str(), by_ip) {
            Some(k) => {
                let v = aliases[i].1.clone();
                out.push((k, v));
                assert(pairs(out@) =~= before.push((k@, aliases@[i as int].1@)));
            },
            None => {},
        }
        i += 1;
    }
    assert(av.take(aliases@.len() as int) =~= av);
    if any {
        Some(out)
    } else {
        None
    }
}

/// Where a light goes in the saved order: the position of its hardware
/// address, or after every listed one.
pub open spec fn is_key(mac: Seq<char>) -> spec_fn(Seq<char>) -> bool {
    |k: Seq<char>| k == mac
}

/// A listed light's place: its position in the saved order, and its index
/// in the list.
#[derive(Debug, Clone, Copy, PartialEq, Eq, Structural)]
pub struct Placed {
    pub rank: usize,
    pub index: usize,
}

/// Lights are sorted by their position in the saved order.
impl Ranked for Placed {
    open spec fn rank(&self) -> Seq<Seq<int>> {
        seq![seq![self.rank as int]]
    }

    fn before(&self, other: &Self) -> (r: bool) {
        proof {
            let x = self.rank();
            let y = other.rank();
            assert(x.drop_first() =~= Seq::<Seq<int>>::empty());
            assert(y.drop_first() =~= Seq::<Seq<int>>::empty());
            assert(x[0].drop_first() =~= Seq::<int>::empty());
            assert(y[0].drop_first() =~= Seq::<int>::empty());
            assert(x[0][0] == self.rank as int);
            assert(y[0][0] == other.rank as int);
            assert(!lex_lt(x[0].drop_first(), y[0].drop_first()));
            assert(!key_lt(x.drop_first(), y.drop_first()));
            if self.rank == other.rank {
                assert(x[0] =~= y[0]);
            } else {
                assert(x[0] != y[0]);
                assert(lex_lt(x[0], y[0]) == (self.rank < other.rank));
            }
        }
        self.rank < other.rank
    }
}

/// The places of the listed lights, in list order.
pub open spec fn places(rows: Seq<Row>, order: Seq<Seq<char>>) -> Seq<Placed> {
    Seq::new(rows.len(), |i: int| Placed { rank: first_where(order, is_key(rows[i].mac@)) as usize, index: i as usize })
}

/// What the panel shows of a light.
pub open spec fn light_view(l: Light) -> (Seq<char>, Seq<char>, Seq<char>, Seq<char>, bool, bool, u8, u32) {
    (l.name@, l.display@, l.ip@, l.mac@, l.reachable, l.on, l.brightness, l.kelvin)
}

/// How the panel shows a listed light: with the name the user gave its
/// hardware address, else its own name.
pub open spec fn shown(r: Row, aliases: Seq<(Seq<char>, Seq<char>)>) -> (Seq<char>, Seq<char>, Seq<char>, Seq<char>, bool, bool, u8, u32) {
    (r.name@, match lookup(aliases, r.mac@) {
        Some(d) => d,
        None => r.name@,
    }, r.ip@, r.mac@, r.reachable, r.on, r.brightness, r.kelvin)
}

fn show(r: &Row, aliases: &Vec<(String, String)>) -> (l: Light)
    ensures
        light_view(l) == shown(*r, pairs(aliases@)),
{
    let display = match find_value(aliases, chars_of(r.mac.as_str()).as_slice()) {
        Some(d) => d,
        None => r.name.clone(),
    };
    Light {
        name: r.name.clone(),
        display,
        ip: r.ip.clone(),
        mac: r.mac.clone(),
        reachable: r.reachable,
        on: r.on,
        brightness: r.brightness,
        kelvin: r.kelvin,
    }
}

/// The lights the panel shows, from the listed lights, the user's names by
/// hardware address and the saved order: each named, then sorted (stably)
/// by the position of its hardware address in the order, unlisted ones last.
pub fn arrange(rows: &Vec<Row>, aliases: &Vec<(String, String)>, order: &Vec<String>) -> (r: Vec<Light>)
    ensures
        r@.len() == rows@.len(),
        forall|i: int| 0 <= i < r@.len() ==> light_view(#[trigger] r@[i]) == shown(
            rows@[sorted_by_rank(places(rows@, string_views(order@)))[i].index as int],
            pairs(aliases@),
        ),
{
    let ghost ov = string_views(order@);
    let mut placed: Vec<Placed> = Vec::new();
    let mut k: usize = 0;
    while k < rows.len()
        invariant
            k <= rows@.len(),
            ov == string_views(order@),
            placed@ == places(rows@, ov).take(k as int),
        decreases rows.len() - k,
    {
        let mac = chars_of(rows[k].mac.as_str());
        let mut pos: usize = 0;
        while pos < order.len() && !same(chars_of(order[pos].as_str()).as_slice(), mac.as_slice())
            invariant
                pos <= order@.len(),
                ov == string_views(order@),
                mac@ == rows@[k as int].mac@,
                forall|j: int| 0 <= j < pos ==> !is_key(mac@)(#[trigger] ov[j]),
            decreases order.len() - pos,
        {
            pos += 1;
        }
        proof {
            lemma_first_where(ov, is_key(mac@), pos as int);
        }
        placed.push(Placed { rank: pos, index: k });
        assert(placed@ =~= places(rows@, ov).take(k + 1));
        k += 1;
    }
    assert(placed@ =~= places(rows@, ov));
    let ghost pv = placed@;
    let sorted = stable_sort(placed);
    proof {
        crate::order::lemma_sorted_is_permutation(pv);
        crate::order::lemma_sorted_len(pv);
    }
    let mut out: Vec<Light> = Vec::new();
    let mut j: usize = 0;
    while j < sorted.len()
        invariant
            j <= sorted@.len(),
            sorted@ == sorted_by_rank(pv),
            sorted@.len() == rows@.len(),
            pv == places(rows@, ov),
            pv.to_multiset() == sorted@.to_multiset(),
            ov == string_views(order@),
            out@.len() == j,
            forall|i: int| 0 <= i < j ==> light_view(#[trigger] out@[i]) == shown(
                rows@[sorted@[i].index as int],
                pairs(aliases@),
            ),
        decreases sorted.len() - j,
    {
        let p = sorted[j];
        proof {
            broadcast use vstd::seq_lib::group_to_multiset_ensures;
            assert(sorted@.contains(p));
            assert(sorted@.to_multiset().count(p) > 0);
            assert(pv.contains(p));
            let q = choose|q: int| 0 <= q < pv.len() && pv[q] == p;
            assert(pv[q].index == q);
        }
        out.push(show(&rows[p.index], aliases));
        j += 1;
    }
    out
}

// -------------------------------------------------------------- snapshots

/// Remembered lights are listed by hardware address, then IP address, then
/// name.
impl Ranked for Snap {
    open spec fn rank(&self) -> Seq<Seq<int>> {
        seq![text_key(self.mac@), text_key(self.ip@), text_key(self.name@)]
    }

    fn before(&self, other: &Self) -> (r: bool) {
        let x = Ghost(self.rank());
        let y = Ghost(other.rank());
        let am = chars_of(self.mac.as_str());
        let bm = chars_of(other.mac.as_str());
        let ai = chars_of(self.ip.as_str());
        let bi = chars_of(other.ip.as_str());
        let an = chars_of(self.name.as_str());
        let bn = chars_of(other.name.as_str());
        proof {
            assert(x@[0] == text_key(am@) && y@[0] == text_key(bm@));
            assert(x@.drop_first()[0] == text_key(ai@) && y@.drop_first()[0] == text_key(bi@));
            assert(x@.drop_first().drop_first()[0] == text_key(an@));
            assert(y@.drop_first().drop_first()[0] == text_key(bn@));
            assert(x@.drop_first().drop_first().drop_first() =~= Seq::<Seq<int>>::empty());
            assert(y@.drop_first().drop_first().drop_first() =~= Seq::<Seq<int>>::empty());
        }
        if text_lt(am.as_slice(), bm.as_slice()) {
            proof {
                if x@[0] == y@[0] {
                    lemma_lex_irreflexive(x@[0]);
                }
                assert(key_lt(x@, y@) == lex_lt(x@[0], y@[0]));
            }
            return true;
        }
        if text_lt(bm.as_slice(), am.as_slice()) {
            proof {
                if x@[0] == y@[0] {
                    lemma_lex_irreflexive(x@[0]);
                }
                if lex_lt(x@[0], y@[0]) {
                    crate::order::lemma_lex_transitive(x@[0], y@[0], x@[0]);
                    lemma_lex_irreflexive(x@[0]);
                }
                assert(key_lt(x@, y@) == lex_lt(x@[0], y@[0]));
            }
            return false;
        }
        proof {
            lemma_lex_total(x@[0], y@[0]);
        }
        if text_lt(ai.as_slice(), bi.as_slice()) {
            proof {
                let p = x@.drop_first()[0];
                let q = y@.drop_first()[0];
                if p == q {
                    lemma_lex_irreflexive(p);
                }
                assert(key_lt(x@, y@) == key_lt(x@.drop_first(), y@.drop_first()));
                assert(key_lt(x@.drop_first(), y@.drop_first()) == lex_lt(p, q));
            }
            return true;
        }
        if text_lt(bi.as_slice(), ai.as_slice()) {
            proof {
                let p = x@.drop_first()[0];
                let q = y@.drop_first()[0];
                if p == q {
                    lemma_lex_irreflexive(p);
                }
                if lex_lt(p, q) {
                    crate::order::lemma_lex_transitive(p, q, p);
                    lemma_lex_irreflexive(p);
                }
                assert(key_lt(x@, y@) == key_lt(x@.drop_first(), y@.drop_first()));
                assert(key_lt(x@.drop_first(), y@.drop_first()) == lex_lt(p, q));
            }
            return false;
        }
        proof {
            lemma_lex_total(x@.drop_first()[0], y@.drop_first()[0]);
            let p = x@.drop_first().drop_first()[0];
            let q = y@.drop_first().drop_first()[0];
            if p == q {
                lemma_lex_irreflexive(p);
            }
            assert(key_lt(x@, y@) == key_lt(x@.drop_first(), y@.drop_first()));
            assert(key_lt(x@.drop_first(), y@.drop_first()) == key_lt(
                x@.drop_first().drop_first(),
                y@.drop_first().drop_first(),
            ));
            assert(!key_lt(x@.drop_first().drop_first().drop_first(), y@.drop_first().drop_first().drop_first()));
            assert(key_lt(x@.drop_first().drop_first(), y@.drop_first().drop_first()) == lex_lt(p, q));
        }
        text_lt(an.as_slice(), bn.as_slice())
    }
}

/// Whether a remembered light is the one shown: by hardware address (in any
/// case) when both have one, else by name when the remembered one has no IP
/// address, else by IP address.
pub open spec fn same_light(s: Snap, l: Light) -> bool {
    if s.mac@.len() > 0 && l.mac@.len() > 0 {
        eq_ignore_ascii_case(s.mac@, l.mac@)
    } else if s.ip@.len() == 0 {
        s.name@ == l.name@
    } else {
        s.ip@ == l.ip@
    }
}

pub open spec fn remembers(l: Light) -> spec_fn(Snap) -> bool {
    |s: Snap| same_light(s, l)
}

/// What a snapshot keeps of a light: its settings when it answered, else
/// what the previous snapshot remembered of it, if anything.
pub open spec fn kept_of(l: Light, previous: Option<Seq<Snap>>) -> Option<(Seq<char>, Seq<char>, Seq<char>, bool, u8, u32)> {
    if l.reachable {
        Some((l.name@, l.ip@, l.mac@, l.on, l.brightness, l.kelvin))
    } else {
        match previous {
            None => None,
            Some(p) => match find_first(p, remembers(l)) {
                Some(s) => Some(snap_view(s)),
                None => None,
            },
        }
    }
}

/// What a snapshot keeps of the lights, in order.
pub open spec fn kept_all(ls: Seq<Light>, previous: Option<Seq<Snap>>) -> Seq<(Seq<char>, Seq<char>, Seq<char>, bool, u8, u32)>
    decreases ls.len(),
{
    if ls.len() == 0 {
        Seq::empty()
    } else {
        let rest = kept_all(ls.drop_last(), previous);
        match kept_of(ls.last(), previous) {
            Some(v) => rest.push(v),
            None => rest,
        }
    }
}

fn snap_of(l: &Light) -> (r: Snap)
    ensures
        snap_view(r) == (l.name@, l.ip@, l.mac@, l.on, l.brightness, l.kelvin),
{
    Snap {
        name: l.name.clone(),
        ip: l.ip.clone(),
        mac: l.mac.clone(),
        on: l.on,
        brightness: l.brightness,
        kelvin: l.kelvin,
    }
}

fn remembered(s: &Snap, l: &Light) -> (r: bool)
    ensures
        r == same_light(*s, *l),
{
    let sm = chars_of(s.mac.as_str());
    let lm = chars_of(l.mac.as_str());
    if sm.len() > 0 && lm.len() > 0 {
        eq_ignore_ascii_case_vec(sm.as_slice(), lm.as_slice())
    } else if s.ip.as_str().is_empty() {
        s.name == l.name
    } else {
        s.ip == l.ip
    }
}

fn carried(l: &Light, previous: Option<&Vec<Snap>>) -> (r: Option<Snap>)
    ensures
        match r {
            Some(s) => kept_of(*l, match previous { Some(p) => Some(p@), None => None }) == Some(snap_view(s)),
            None => kept_of(*l, match previous { Some(p) => Some(p@), None => None }) is None,
        },
{
    if l.reachable {
        return Some(snap_of(l));
    }
    match previous {
        None => None,
        Some(p) => {
            let mut i: usize = 0;
            while i < p.len() && !remembered(&p[i], l)
                invariant
                    i <= p@.len(),
                    forall|k: int| 0 <= k < i ==> !remembers(*l)(#[trigger] p@[k]),
                decreases p.len() - i,
            {
                i += 1;
            }
            proof {
                lemma_first_where(p@, remembers(*l), i as int);
            }
            if i < p.len() {
                Some(copy_snap(&p[i]))
            } else {
                None
            }
        },
    }
}

/// The snapshot the undo history keeps of the lights: none when no light
/// answered; else what it keeps of each light (see [`kept_of`]), listed by
/// hardware address, then IP address, then name, so that lights of the same
/// name are told apart by their address.
pub fn snapshot(lights: &[Light], previous: Option<&Vec<Snap>>) -> (r: Option<Vec<Snap>>)
    ensures
        (lights@.len() == 0 || forall|i: int| 0 <= i < lights@.len() ==> !(#[trigger] lights@[i]).reachable)
            ==> r is None,
        !(lights@.len() == 0 || forall|i: int| 0 <= i < lights@.len() ==> !(#[trigger] lights@[i]).reachable)
            ==> (r matches Some(v) && exists|c: Seq<Snap>| snap_views(c) == kept_all(
            lights@,
            match previous {
                Some(p) => Some(p@),
                None => None,
            },
        ) && v@ == sorted_by_rank(c)),
{
    let ghost prev = match previous {
        Some(p) => Some(p@),
        None => None,
    };
    let mut any = false;
    let mut i: usize = 0;
    while i < lights.len()
        invariant
            i <= lights@.len(),
            any == exists|k: int| 0 <= k < i && (#[trigger] lights@[k]).reachable,
        decreases lights.len() - i,
    {
        if lights[i].reachable {
            any = true;
        }
        i += 1;
    }
    if !any {
        return None;
    }
    let mut snap: Vec<Snap> = Vec::new();
    let mut k: usize = 0;
    while k < lights.len()
        invariant
            k <= lights@.len(),
            prev == match previous {
                Some(p) => Some(p@),
                None => None::<Seq<Snap>>,
            },
            snap_views(snap@) == kept_all(lights@.take(k as int), prev),
        decreases lights.len() - k,
    {
        assert(lights@.take(k + 1).drop_last() =~= lights@.take(k as int));
        assert(lights@.take(k + 1).last() == lights@[k as int]);
        let ghost before = snap_views(snap@);
        match carried(&lights[k], previous) {
            Some(s) => {
                snap.push(s);
                assert(snap_views(snap@) =~= before.push(snap_view(s)));
            },
            None => {},
        }
        k += 1;
    }
    assert(lights@.take(lights@.len() as int) =~= lights@);
    let ghost c = snap@;
    let sorted = stable_sort(snap);
    Some(sorted)
}

// -------------------------------------------------------------- restoring

/// Whether restoring needs the live list of lights: some remembered light
/// has neither a hardware address nor an IP address.
pub fn needs_live(snap: &[Snap]) -> (r: bool)
    ensures
        r == exists|i: int| 0 <= i < snap@.len() && (#[trigger] snap@[i]).mac@.len() == 0 && snap@[i].ip@.len() == 0,
{
    let mut i: usize = 0;
    while i < snap.len()
        invariant
            i <= snap@.len(),
            forall|k: int| 0 <= k < i ==> !((#[trigger] snap@[k]).mac@.len() == 0 && snap@[k].ip@.len() == 0),
        decreases snap.len() - i,
    {
        if snap[i].mac.as_str().is_empty() && snap[i].ip.as_str().is_empty() {
            return true;
        }
        i += 1;
    }
    false
}

/// How many live lights have a name.
pub open spec fn named_count(live: Seq<Light>, name: Seq<char>) -> nat
    decreases live.len(),
{
    if live.len() == 0 {
        0
    } else {
        named_count(live.drop_last(), name) + if live.last().name@ == name {
            1nat
        } else {
            0nat
        }
    }
}

/// The address to restore a remembered light at: its hardware address, else
/// its IP address, else the IP address of the one live light of its name;
/// an error when there is no live light of that name, or more than one.
pub open spec fn target_spec(s: Snap, live: Seq<Light>) -> Result<Seq<char>, Seq<char>> {
    if s.mac@.len() > 0 {
        Ok(s.mac@)
    } else if s.ip@.len() > 0 {
        Ok(s.ip@)
    } else {
        let k = first_where(live, |l: Light| l.name@ == s.name@);
        if named_count(live, s.name@) == 1 {
            Ok(live[k].ip@)
        } else if named_count(live, s.name@) == 0 {
            Err("the saved light "@ + debug_text(s.name@) + " is no longer configured"@)
        } else {
            Err("the saved light name "@ + debug_text(s.name@) + " is ambiguous; save the default again"@)
        }
    }
}

pub open spec fn target_fails(live: Seq<Light>) -> spec_fn(Snap) -> bool {
    |s: Snap| target_spec(s, live) is Err
}

fn target_for(s: &Snap, live: &[Light]) -> (r: Result<String, String>)
    ensures
        match r {
            Ok(t) => target_spec(*s, live@) == Ok::<Seq<char>, Seq<char>>(t@),
            Err(e) => target_spec(*s, live@) == Err::<Seq<char>, Seq<char>>(e@),
        },
{
    if !s.mac.as_str().is_empty() {
        return Ok(s.mac.clone());
    }
    if !s.ip.as_str().is_empty() {
        return Ok(s.ip.clone());
    }
    let mut count: usize = 0;
    let mut first: usize = live.len();
    let mut i: usize = 0;
    while i < live.len()
        invariant
            i <= live@.len(),
            count <= i,
            count == named_count(live@.take(i as int), s.name@),
            count == 0 ==> first == live@.len(),
            count > 0 ==> first < i && first == first_where(live@, |l: Light| l.name@ == s.name@),
            forall|k: int| 0 <= k < i && k < first ==> (#[trigger] live@[k]).name@ != s.name@,
        decreases live.len() - i,
    {
        assert(live@.take(i + 1).drop_last() =~= live@.take(i as int));
        assert(live@.take(i + 1).last() == live@[i as int]);
        if live[i].name == s.name {
            if count == 0 {
                first = i;
                proof {
                    lemma_first_where(live@, |l: Light| l.name@ == s.name@, i as int);
                }
            }
            count += 1;
        }
        i += 1;
    }
    assert(live@.take(live@.len() as int) =~= live@);
    if count == 1 {
        Ok(live[first].ip.clone())
    } else if count == 0 {
        let mut v = chars_of("the saved light ");
        extend(&mut v, chars_of(crate::text::debug_str(s.name.as_str()).as_str()).as_slice());
        extend(&mut v, chars_of(" is no longer configured").as_slice());
        Err(string_of(v.as_slice()))
    } else {
        let mut v = chars_of("the saved light name ");
        extend(&mut v, chars_of(crate::text::debug_str(s.name.as_str()).as_str()).as_slice());
        extend(&mut v, chars_of(" is ambiguous; save the default again").as_slice());
        Err(string_of(v.as_slice()))
    }
}

/// The address to restore each remembered light at, or the error for the
/// first one that has none.
pub fn restore_targets(snap: &[Snap], live: &[Light]) -> (r: Result<Vec<String>, String>)
    ensures
        match r {
            Ok(ts) => first_where(snap@, target_fails(live@)) == snap@.len() && ts@.len() == snap@.len()
                && forall|i: int| 0 <= i < snap@.len() ==> target_spec(#[trigger] snap@[i], live@) == Ok::<
                Seq<char>,
                Seq<char>,
            >(ts@[i]@),
            Err(e) => first_where(snap@, target_fails(live@)) < snap@.len() && target_spec(
                snap@[first_where(snap@, target_fails(live@))],
                live@,
            ) == Err::<Seq<char>, Seq<char>>(e@),
        },
{
    let mut ts: Vec<String> = Vec::new();
    let mut i: usize = 0;
    while i < snap.len()
        invariant
            i <= snap@.len(),
            ts@.len() == i,
            forall|k: int| 0 <= k < i ==> target_spec(#[trigger] snap@[k], live@) == Ok::<Seq<char>, Seq<char>>(ts@[k]@),
        decreases snap.len() - i,
    {
        match target_for(&snap[i], live) {
            Ok(t) => {
                ts.push(t);
            },
            Err(e) => {
                proof {
                    lemma_first_where(snap@, target_fails(live@), i as int);
                }
                return Err(e);
            },
        }
        i += 1;
    }
    proof {
        lemma_first_where(snap@, target_fails(live@), i as int);
    }
    Ok(ts)
}

/// The command that sets a light back to what was remembered of it, through
/// the light controller `ctl`.
pub open spec fn restore_command(ctl: Seq<char>, s: Snap, target: Seq<char>) -> Seq<Seq<char>> {
    seq![
        ctl,
        "set"@,
        if s.on {
            "--on"@
        } else {
            "--off"@
        },
        "--brightness"@,
        nat_text(s.brightness as nat),
        "--temp"@,
        nat_text(s.kelvin as nat),
        target,
    ]
}

/// The commands that set each remembered light back, at its address.
pub fn restore_commands(ctl: &str, snap: &[Snap], targets: &[String]) -> (r: Vec<Vec<String>>)
    requires
        targets@.len() == snap@.len(),
    ensures
        r@.len() == snap@.len(),
        forall|i: int| 0 <= i < snap@.len() ==> string_views(#[trigger] r@[i]@) == restore_command(ctl@, snap@[i], targets@[i]@),
{
    let mut r: Vec<Vec<String>> = Vec::new();
    let mut i: usize = 0;
    while i < snap.len()
        invariant
            i <= snap@.len(),
            targets@.len() == snap@.len(),
            r@.len() == i,
            forall|k: int| 0 <= k < i ==> string_views(#[trigger] r@[k]@) == restore_command(ctl@, snap@[k], targets@[k]@),
        decreases snap.len() - i,
    {
        let s = &snap[i];
        let mut argv: Vec<Vec<char>> = Vec::new();
        argv.push(chars_of(ctl));
        argv.push(chars_of("set"));
        argv.push(if s.on { chars_of("--on") } else { chars_of("--off") });
        argv.push(chars_of("--brightness"));
        argv.push(nat_chars(s.brightness as u64));
        argv.push(chars_of("--temp"));
        argv.push(nat_chars(s.kelvin as u64));
        argv.push(chars_of(targets[i].as_str()));
        let cmd = strings_of(&argv);
        assert(views(argv@) =~= restore_command(ctl@, *s, targets@[i as int]@));
        r.push(cmd);
        i += 1;
    }
    r
}

/// The names of the remembered lights whose command failed, in order.
pub open spec fn failed_names(snap: Seq<Snap>, oks: Seq<bool>) -> Seq<Seq<char>>
    decreases oks.len(),
{
    if oks.len() == 0 || snap.len() == 0 {
        Seq::empty()
    } else if oks.len() > snap.len() {
        failed_names(snap, oks.take(snap.len() as int))
    } else {
        let rest = failed_names(snap, oks.drop_last());
        if oks.last() {
            rest
        } else {
            rest.push(snap[oks.len() - 1].name@)
        }
    }
}

/// The outcome of restoring, from whether each command succeeded: an error
/// naming the lights that could not be restored.
pub fn restore_outcome(snap: &[Snap], oks: &[bool]) -> (r: Result<(), String>)
    requires
        oks@.len() <= snap@.len(),
    ensures
        failed_names(snap@, oks@).len() == 0 ==> r is Ok,
        failed_names(snap@, oks@).len() > 0 ==> (r matches Err(e) && e@ == "could not restore: "@ + join(
            failed_names(snap@, oks@),
            ", "@,
        )),
{
    let mut names: Vec<Vec<char>> = Vec::new();
    let mut i: usize = 0;
    while i < oks.len()
        invariant
            i <= oks@.len(),
            oks@.len() <= snap@.len(),
            views(names@) == failed_names(snap@, oks@.take(i as int)),
        decreases oks.len() - i,
    {
        assert(oks@.take(i + 1).drop_last() =~= oks@.take(i as int));
        assert(oks@.take(i + 1).last() == oks@[i as int]);
        if !oks[i] {
            let ghost before = views(names@);
            names.push(chars_of(snap[i].name.as_str()));
            assert(views(names@) =~= before.push(snap@[i as int].name@));
        }
        i += 1;
    }
    assert(oks@.take(oks@.len() as int) =~= oks@);
    if names.len() == 0 {
        Ok(())
    } else {
        let mut v = chars_of("could not restore: ");
        extend(&mut v, join_vec(&names, chars_of(", ").as_slice()).as_slice());
        Err(string_of(v.as_slice()))
    }
}

/// The names of the lights that did not answer, in order.
pub open spec fn missing_names(ls: Seq<Light>) -> Seq<Seq<char>>
    decreases ls.len(),
{
    if ls.len() == 0 {
        Seq::empty()
    } else if ls.last().reachable {
        missing_names(ls.drop_last())
    } else {
        missing_names(ls.drop_last()).push(ls.last().name@)
    }
}

/// The snapshot to save as the default: refused while any light does not
/// answer (naming them), or when there is no light at all.
pub fn default_snapshot(lights: &[Light]) -> (r: Result<Vec<Snap>, String>)
    ensures
        missing_names(lights@).len() > 0 ==> (r matches Err(e) && e@
            == "not saving a default while these lights are unreachable: "@ + join(missing_names(lights@), ", "@)),
        missing_names(lights@).len() == 0 && lights@.len() == 0 ==> (r matches Err(e) && e@
            == "no reachable lights to save"@),
        missing_names(lights@).len() == 0 && lights@.len() > 0 ==> (r matches Ok(v) && exists|c: Seq<Snap>|
            snap_views(c) == kept_all(lights@, None) && v@ == sorted_by_rank(c)),
{
    let mut names: Vec<Vec<char>> = Vec::new();
    let mut i: usize = 0;
    while i < lights.len()
        invariant
            i <= lights@.len(),
            views(names@) == missing_names(lights@.take(i as int)),
        decreases lights.len() - i,
    {
        assert(lights@.take(i + 1).drop_last() =~= lights@.take(i as int));
        assert(lights@.take(i + 1).last() == lights@[i as int]);
        if !lights[i].reachable {
            let ghost before = views(names@);
            names.push(chars_of(lights[i].name.as_str()));
            assert(views(names@) =~= before.push(lights@[i as int].name@));
        }
        i += 1;
    }
    assert(lights@.take(lights@.len() as int) =~= lights@);
    if names.len() > 0 {
        let mut v = chars_of("not saving a default while these lights are unreachable: ");
        extend(&mut v, join_vec(&names, chars_of(", ").as_slice()).as_slice());
        return Err(string_of(v.as_slice()));
    }
    proof {
        if lights@.len() > 0 {
            lemma_missing_none(lights@);
            assert(lights@[0].reachable);
        }
    }
    match snapshot(lights, None) {
        Some(v) => Ok(v),
        None => Err(String::from_str("no reachable lights to save")),
    }
}

proof fn lemma_missing_none(ls: Seq<Light>)
    requires
        missing_names(ls).len() == 0,
    ensures
        forall|i: int| 0 <= i < ls.len() ==> (#[trigger] ls[i]).reachable,
    decreases ls.len(),
{
    if ls.len() > 0 {
        lemma_missing_none(ls.drop_last());
        assert forall|i: int| 0 <= i < ls.len() implies (#[trigger] ls[i]).reachable by {
            if i < ls.len() - 1 {
                assert(ls.drop_last()[i] == ls[i]);
            }
        }
    }
}

/// The saved default as it may be restored: refused when none was saved
/// (telling the user to save one with the panel `panel`) or it is empty.
pub fn check_default(panel: &str, saved: Option<Vec<Snap>>) -> (r: Result<Vec<Snap>, String>)
    ensures
        saved is None ==> (r matches Err(e) && e@ == "no default saved yet - run: "@ + panel@
            + " save-default"@),
        saved matches Some(v) ==> (v@.len() == 0 ==> (r matches Err(e) && e@ == "the saved default is empty"@)),
        saved matches Some(v) ==> (v@.len() > 0 ==> r == Ok::<Vec<Snap>, String>(v)),
{
    match saved {
        None => {
            let mut m = chars_of("no default saved yet - run: ");
            extend(&mut m, chars_of(panel).as_slice());
            extend(&mut m, chars_of(" save-default").as_slice());
            Err(string_of(m.as_slice()))
        },
        Some(v) => {
            if v.len() == 0 {
                Err(String::from_str("the saved default is empty"))
            } else {
                Ok(v)
            }
        },
    }
}

/// Whether a default has been saved: one was read and it is not empty.
pub fn has_default(saved: &Option<Vec<Snap>>) -> (r: bool)
    ensures
        r == (saved matches Some(v) && v@.len() > 0),
{
    match saved {
        Some(v) => v.len() > 0,
        None => false,
    }
}

/// The sum of the brightness of the lights.
pub open spec fn brightness_sum(ls: Seq<Light>) -> int
    decreases ls.len(),
{
    if ls.len() == 0 {
        0
    } else {
        brightness_sum(ls.drop_last()) + ls.last().brightness
    }
}

/// The sum of the temperature of the lights.
pub open spec fn kelvin_sum(ls: Seq<Light>) -> int
    decreases ls.len(),
{
    if ls.len() == 0 {
        0
    } else {
        kelvin_sum(ls.drop_last()) + ls.last().kelvin
    }
}

proof fn lemma_sums_grow(ls: Seq<Light>, i: int)
    requires
        0 <= i <= ls.len(),
    ensures
        0 <= brightness_sum(ls.take(i)) <= brightness_sum(ls),
        0 <= kelvin_sum(ls.take(i)) <= kelvin_sum(ls),
    decreases ls.len() - i,
{
    if i < ls.len() {
        assert(ls.take(i + 1).drop_last() =~= ls.take(i));
        lemma_sums_grow(ls, i + 1);
    } else {
        assert(ls.take(i) =~= ls);
    }
    lemma_sums_nonneg(ls.take(i));
}

proof fn lemma_sums_nonneg(ls: Seq<Light>)
    ensures
        brightness_sum(ls) >= 0,
        kelvin_sum(ls) >= 0,
    decreases ls.len(),
{
    if ls.len() > 0 {
        lemma_sums_nonneg(ls.drop_last());
    }
}

/// The levels that bring every answering light to the same setting: the mean
/// brightness rounded (halves up) and at most 100, and the mean temperature
/// rounded (halves up) to a multiple of 50 kelvin. Rounding is done on whole
/// numbers, which for sums this size is what rounding the quotient gives.
pub open spec fn sync_spec(live: Seq<Light>) -> (int, int) {
    let n = live.len() as int;
    let b = (2 * brightness_sum(live) + n) / (2 * n);
    let k = (2 * kelvin_sum(live) + 50 * n) / (100 * n) * 50;
    (if b > 100 { 100 } else { b }, k)
}

/// The brightness and temperature to set every light to, from the lights
/// that answered; none when no light answered. The sums must fit in `u32`,
/// as adding them up there requires.
pub fn sync_levels(live: &[Light]) -> (r: Option<(u32, u32)>)
    requires
        brightness_sum(live@) <= u32::MAX,
        kelvin_sum(live@) <= u32::MAX,
        live@.len() <= u32::MAX,
        live@.len() > 0 ==> sync_spec(live@).1 <= u32::MAX,
    ensures
        live@.len() == 0 ==> r is None,
        live@.len() > 0 ==> (r matches Some((b, k)) && (b as int, k as int) == sync_spec(live@)),
{
    if live.len() == 0 {
        return None;
    }
    let mut bs: u64 = 0;
    let mut ks: u64 = 0;
    let mut i: usize = 0;
    while i < live.len()
        invariant
            i <= live@.len(),
            brightness_sum(live@) <= u32::MAX,
            kelvin_sum(live@) <= u32::MAX,
            bs == brightness_sum(live@.take(i as int)),
            ks == kelvin_sum(live@.take(i as int)),
        decreases live.len() - i,
    {
        assert(live@.take(i + 1).drop_last() =~= live@.take(i as int));
        proof {
            lemma_sums_grow(live@, i + 1);
        }
        bs = bs + live[i].brightness as u64;
        ks = ks + live[i].kelvin as u64;
        i += 1;
    }
    assert(live@.take(live@.len() as int) =~= live@);
    let n = live.len() as u64;
    assert(0 < n <= u32::MAX);
    let b = (2 * bs + n) / (2 * n);
    let k = (2 * ks + 50 * n) / (100 * n) * 50;
    assert(k == sync_spec(live@).1);
    let b32: u32 = if b > 100 {
        100
    } else {
        b as u32
    };
    Some((b32, k as u32))
}

/// The display order given as a comma-separated list: each entry trimmed,
/// the empty ones left out.
pub open spec fn order_spec(ps: Seq<Seq<char>>) -> Seq<Seq<char>>
    decreases ps.len(),
{
    if ps.len() == 0 {
        Seq::empty()
    } else if trim(ps.last()).len() == 0 {
        order_spec(ps.drop_last())
    } else {
        order_spec(ps.drop_last()).push(trim(ps.last()))
    }
}

pub fn order_from(ips: &str) -> (r: Vec<String>)
    ensures
        string_views(r@) == order_spec(split(ips@, ',')),
{
    let ps = split_vec(chars_of(ips).as_slice(), ',');
    let ghost pv = views(ps@);
    let mut out: Vec<String> = Vec::new();
    let mut i: usize = 0;
    while i < ps.len()
        invariant
            i <= ps@.len(),
            pv == views(ps@),
            pv == split(ips@, ','),
            string_views(out@) == order_spec(pv.take(i as int)),
        decreases ps.len() - i,
    {
        assert(pv.take(i + 1).drop_last() =~= pv.take(i as int));
        assert(pv.take(i + 1).last() == ps@[i as int]@);
        let t = trim_vec(ps[i].as_slice());
        if t.len() > 0 {
            let ghost before = string_views(out@);
            out.push(string_of(t.as_slice()));
            assert(string_views(out@) =~= before.push(t@));
        }
        i += 1;
    }
    assert(pv.take(ps@.len() as int) =~= pv);
    out
}

/// The light names after naming the light at `ip`: a blank name removes its
/// entry, another name, trimmed, replaces it or is added. It is the rule of
/// rebinding a shortcut.
pub fn rename(aliases: Vec<(String, String)>, ip: &str, name: &str) -> (r: Vec<(String, String)>)
    ensures
        pairs(r@) == crate::omgato::shortcuts::rebound_spec(pairs(aliases@), ip@, name@),
{
    crate::omgato::shortcuts::rebind(aliases, ip, name)
}

} // verus!
