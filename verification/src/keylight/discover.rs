//! Finding lights on the network: reading the service browser's records,
//! the neighbour table, the addresses to try for each light, and folding the
//! answers into a list of lights.
use vstd::prelude::*;
use vstd::utf8::{decode_utf8, encode_utf8, valid_utf8};
use crate::keylight::config::{Cache, Light, MAX_LIGHTS, MAX_MAC_BYTES, light_problem};
use crate::net::{ipv4_valid, is_ipv4, mac_chars, mac_chars_ok};
use crate::numbers::{nat_chars, nat_text, parse_u16, parse_u16_spec};
use crate::order::{sorted_by_rank, stable_sort};
use crate::search::{first_where, lemma_first_where};
use crate::text::{
    chars_of, control_char, is_control, opt_view, string_of, utf8_len_exceeds, views,
};
use crate::words::{
    ascii_upper_vec, eq_ignore_ascii_case, eq_ignore_ascii_case_vec, extend, lines, lines_vec,
    same, split, split_vec, splitn, splitn_vec, strip_prefix, strip_prefix_vec, to_ascii_upper,
    trim, trim_vec, words, words_vec,
};

verus! {

/// The service browser's output is read up to this many bytes.
pub const MAX_DISCOVERY_OUTPUT_BYTES: usize = 262144;

/// The neighbour table is read up to this many bytes.
pub const MAX_ARP_OUTPUT_BYTES: usize = 65536;

/// At most this many neighbours are remembered.
pub const MAX_ARP_ENTRIES: usize = 256;

/// A host name is at most this many bytes.
pub const MAX_HOST_BYTES: usize = 253;

/// What a hardware address may be: not empty, at most `MAX_MAC_BYTES` long,
/// and only hex digits and separators (all ASCII, so its length in
/// characters is its length in bytes).
pub open spec fn valid_mac_spec(v: Seq<char>) -> bool {
    v.len() > 0 && v.len() <= MAX_MAC_BYTES && mac_chars(v)
}

pub fn valid_mac(value: &str) -> (r: bool)
    ensures
        r == valid_mac_spec(value@),
{
    let v = chars_of(value);
    v.len() > 0 && v.len() <= MAX_MAC_BYTES && mac_chars_ok(v.as_slice())
}

/// The hardware address in one quoted piece of a service's text record: an
/// `id=` entry holding a valid address.
pub open spec fn txt_mac_token(t: Seq<char>) -> Option<Seq<char>> {
    match strip_prefix(trim(t), "id="@) {
        Some(v) => if valid_mac_spec(v) {
            Some(v)
        } else {
            None
        },
        None => None,
    }
}

pub open spec fn has_txt_mac() -> spec_fn(Seq<char>) -> bool {
    |t: Seq<char>| txt_mac_token(t) is Some
}

/// The hardware address a service's text record carries, upper-cased: from
/// the first quoted piece that holds one.
pub open spec fn txt_mac_spec(rest: Seq<char>) -> Option<Seq<char>> {
    let toks = split(rest, '"');
    let k = first_where(toks, has_txt_mac());
    if k < toks.len() {
        Some(to_ascii_upper(txt_mac_token(toks[k]).unwrap()))
    } else {
        None
    }
}

fn txt_mac_token_vec(t: &[char]) -> (r: Option<Vec<char>>)
    ensures
        match r {
            Some(v) => txt_mac_token(t@) == Some(v@),
            None => txt_mac_token(t@) is None,
        },
{
    let tt = trim_vec(t);
    match strip_prefix_vec(tt.as_slice(), chars_of("id=").as_slice()) {
        Some(v) => {
            if v.len() > 0 && v.len() <= MAX_MAC_BYTES && mac_chars_ok(v.as_slice()) {
                Some(v)
            } else {
                None
            }
        },
        None => None,
    }
}

/// The hardware address in a service's text record.
pub fn parse_txt_mac(rest: &str) -> (r: Option<String>)
    ensures
        opt_view(r) == txt_mac_spec(rest@),
{
    let toks = split_vec(chars_of(rest).as_slice(), '"');
    let mut i: usize = 0;
    while i < toks.len()
        invariant
            i <= toks@.len(),
            views(toks@) == split(rest@, '"'),
            forall|k: int| 0 <= k < i ==> !has_txt_mac()(#[trigger] views(toks@)[k]),
        decreases toks.len() - i,
    {
        assert(views(toks@)[i as int] == toks@[i as int]@);
        match txt_mac_token_vec(toks[i].as_slice()) {
            Some(v) => {
                proof {
                    lemma_first_where(views(toks@), has_txt_mac(), i as int);
                }
                return Some(string_of(ascii_upper_vec(v.as_slice()).as_slice()));
            },
            None => {},
        }
        i += 1;
    }
    proof {
        lemma_first_where(views(toks@), has_txt_mac(), i as int);
    }
    None
}

/// The output of a program, refused when it is longer than `max_bytes`: the
/// caller reads at most one byte more than that, so a longer output shows as
/// one byte too many.
pub fn read_bounded(output: Vec<u8>, max_bytes: usize, context: &str) -> (r: Result<Vec<u8>, String>)
    ensures
        output@.len() <= max_bytes ==> r == Ok::<Vec<u8>, String>(output),
        output@.len() > max_bytes ==> (r matches Err(e) && e@ == context@ + ": output exceeds "@
            + nat_text(max_bytes as nat) + " bytes"@),
{
    if output.len() > max_bytes {
        let mut v = chars_of(context);
        extend(&mut v, chars_of(": output exceeds ").as_slice());
        extend(&mut v, nat_chars(max_bytes as u64).as_slice());
        extend(&mut v, chars_of(" bytes").as_slice());
        return Err(string_of(v.as_slice()));
    }
    Ok(output)
}

/// Reads bytes as UTF-8 text with `std::str::from_utf8`, which succeeds
/// exactly on valid UTF-8 and then gives the characters the bytes encode.
#[verifier::external_body]
fn utf8_text(bytes: &[u8]) -> (r: Option<String>)
    ensures
        r is Some <==> valid_utf8(bytes@),
        r matches Some(s) ==> s@ == decode_utf8(bytes@),
{
    std::str::from_utf8(bytes).ok().map(|s| s.to_string())
}

/// What is known of one advertised host: its port, and the IPv4 address and
/// hardware address its records gave, if any.
#[derive(Debug)]
pub struct Entry {
    pub port: u16,
    pub ipv4: Option<String>,
    pub mac: Option<String>,
}

pub open spec fn entry_view(e: Entry) -> (u16, Option<Seq<char>>, Option<Seq<char>>) {
    (e.port, opt_view(e.ipv4), opt_view(e.mac))
}

/// The hosts found so far, by name, in the order first seen.
pub open spec fn table_view(t: Seq<(String, Entry)>) -> Seq<(Seq<char>, (u16, Option<Seq<char>>, Option<Seq<char>>))> {
    t.map_values(|p: (String, Entry)| (p.0@, entry_view(p.1)))
}

pub open spec fn host_is(host: Seq<char>) -> spec_fn((Seq<char>, (u16, Option<Seq<char>>, Option<Seq<char>>))) -> bool {
    |p: (Seq<char>, (u16, Option<Seq<char>>, Option<Seq<char>>))| p.0 == host
}

/// Whether a host name may be recorded: not empty, at most `MAX_HOST_BYTES`
/// bytes, and free of control characters.
pub open spec fn host_ok(host: Seq<char>) -> bool {
    &&& host.len() > 0
    &&& encode_utf8(host).len() <= MAX_HOST_BYTES
    &&& forall|i: int| 0 <= i < host.len() ==> !is_control(#[trigger] host[i])
}

/// The state of a browse: the hosts found and how many records were
/// ignored because the table was full.
pub type BrowseView = (Seq<(Seq<char>, (u16, Option<Seq<char>>, Option<Seq<char>>))>, nat);

/// How one line of the browser's parsable output changes the state. Only a
/// resolved record (`=`) with at least nine fields, a recordable host and a
/// non-zero port counts. A new host is ignored (and counted) once
/// `MAX_LIGHTS` hosts are known. A host keeps the port it was first seen
/// with; an IPv4 record sets its address; the first hardware address stays.
pub open spec fn browse_line(st: BrowseView, line: Seq<char>) -> BrowseView {
    let (t, dropped) = st;
    let parts = splitn(line, 10, ';');
    if !(line.len() > 0 && line[0] == '=') || parts.len() < 9 || !host_ok(parts[6]) {
        st
    } else {
        let host = parts[6];
        match parse_u16_spec(parts[8]) {
            None => st,
            Some(port) => if port == 0 {
                st
            } else {
                let k = first_where(t, host_is(host));
                if k == t.len() && t.len() >= MAX_LIGHTS {
                    (t, dropped + 1)
                } else {
                    let mac = if parts.len() >= 10 {
                        txt_mac_spec(parts[9])
                    } else {
                        None
                    };
                    let base = if k < t.len() {
                        t[k].1
                    } else {
                        (port, None, None)
                    };
                    let ip = if parts[2] == "IPv4"@ && is_ipv4(parts[7]) {
                        Some(parts[7])
                    } else {
                        base.1
                    };
                    let m = if base.2 is None && mac is Some {
                        mac
                    } else {
                        base.2
                    };
                    let e = (host, (base.0, ip, m));
                    if k < t.len() {
                        (t.update(k, e), dropped)
                    } else {
                        (t.push(e), dropped)
                    }
                }
            },
        }
    }
}

/// The state after every line, in order.
pub open spec fn browse_all(ls: Seq<Seq<char>>) -> BrowseView
    decreases ls.len(),
{
    if ls.len() == 0 {
        (Seq::empty(), 0)
    } else {
        browse_line(browse_all(ls.drop_last()), ls.last())
    }
}

fn host_ok_vec(host: &[char]) -> (r: bool)
    ensures
        r == host_ok(host@),
{
    if host.len() == 0 || utf8_len_exceeds(host, MAX_HOST_BYTES) {
        return false;
    }
    let mut i: usize = 0;
    while i < host.len()
        invariant
            i <= host@.len(),
            forall|k: int| 0 <= k < i ==> !is_control(#[trigger] host@[k]),
        decreases host.len() - i,
    {
        if control_char(host[i]) {
            return false;
        }
        i += 1;
    }
    true
}

fn find_host(t: &Vec<(String, Entry)>, host: &[char]) -> (r: usize)
    ensures
        r == first_where(table_view(t@), host_is(host@)),
        r <= t@.len(),
{
    let mut i: usize = 0;
    while i < t.len() && !same(chars_of(t[i].0.as_str()).as_slice(), host)
        invariant
            i <= t@.len(),
            forall|k: int| 0 <= k < i ==> !host_is(host@)(#[trigger] table_view(t@)[k]),
        decreases t.len() - i,
    {
        i += 1;
    }
    proof {
        lemma_first_where(table_view(t@), host_is(host@), i as int);
    }
    i
}

#[verifier::spinoff_prover]
fn browse_one(t: &mut Vec<(String, Entry)>, dropped: &mut usize, line: &[char])
    requires
        *old(dropped) < usize::MAX,
    ensures
        (table_view(final(t)@), *final(dropped) as nat) == browse_line(
            (table_view(old(t)@), *old(dropped) as nat),
            line@,
        ),
        *final(dropped) <= *old(dropped) + 1,
{
    let parts = splitn_vec(line, 10, ';');
    let ghost pv = views(parts@);
    if !(line.len() > 0 && line[0] == '=') || parts.len() < 9 {
        return;
    }
    assert(pv[6] == parts@[6]@ && pv[8] == parts@[8]@ && pv[2] == parts@[2]@ && pv[7] == parts@[7]@);
    if !host_ok_vec(parts[6].as_slice()) {
        return;
    }
    let port = match parse_u16(parts[8].as_slice()) {
        None => {
            return;
        },
        Some(p) => p,
    };
    if port == 0 {
        return;
    }
    let host = parts[6].as_slice();
    let k = find_host(t, host);
    if k == t.len() && t.len() >= MAX_LIGHTS {
        *dropped = *dropped + 1;
        return;
    }
    let mac = if parts.len() >= 10 {
        assert(pv[9] == parts@[9]@);
        parse_txt_mac(string_of(parts[9].as_slice()).as_str())
    } else {
        None
    };
    let v4 = same(parts[2].as_slice(), chars_of("IPv4").as_slice()) && ipv4_valid(parts[7].as_slice());
    let ghost tv = table_view(t@);
    proof {
        crate::search::lemma_first_where_bounds(tv, host_is(host@));
    }
    assert(opt_view(mac) == (if pv.len() >= 10 { txt_mac_spec(pv[9]) } else { None }));
    assert(v4 == (pv[2] == "IPv4"@ && is_ipv4(pv[7])));
    if k < t.len() {
        assert(tv[k as int].0 == host@);
        let (name, old_entry) = t.remove(k);
        assert(name@ == host@);
        assert(tv[k as int].1 == entry_view(old_entry));
        assert(table_view(t@) =~= tv.remove(k as int));
        let ip = if v4 {
            Some(string_of(parts[7].as_slice()))
        } else {
            old_entry.ipv4
        };
        let m = if old_entry.mac.is_none() && mac.is_some() {
            mac
        } else {
            old_entry.mac
        };
        t.insert(k, (name, Entry { port: old_entry.port, ipv4: ip, mac: m }));
        assert(table_view(t@) =~= tv.update(k as int, table_view(t@)[k as int]));
    } else {
        let ip = if v4 {
            Some(string_of(parts[7].as_slice()))
        } else {
            None
        };
        t.push((string_of(host), Entry { port, ipv4: ip, mac }));
        assert(table_view(t@) =~= tv.push(table_view(t@)[k as int]));
    }
}

/// The hosts the service browser's parsable output advertises, and how many
/// records were ignored because `MAX_LIGHTS` hosts were already known; an
/// error when the output is not UTF-8.
#[verifier::spinoff_prover]
#[verifier::rlimit(40)]
pub fn browse_entries(output: &[u8]) -> (r: Result<(Vec<(String, Entry)>, usize), String>)
    ensures
        !valid_utf8(output@) ==> (r matches Err(e) && e@ == "avahi-browse: invalid UTF-8"@),
        valid_utf8(output@) ==> (r matches Ok((t, dropped)) && (table_view(t@), dropped as nat)
            == browse_all(lines(decode_utf8(output@)))),
{
    let text = match utf8_text(output) {
        None => {
            return Err(String::from_str("avahi-browse: invalid UTF-8"));
        },
        Some(s) => s,
    };
    let ls = lines_vec(chars_of(text.as_str()).as_slice());
    let ghost lv = views(ls@);
    let mut t: Vec<(String, Entry)> = Vec::new();
    let mut dropped: usize = 0;
    let mut i: usize = 0;
    assert(lv.take(0) =~= Seq::<Seq<char>>::empty());
    while i < ls.len()
        invariant
            i <= ls@.len(),
            lv == views(ls@),
            dropped <= i,
            (table_view(t@), dropped as nat) == browse_all(lv.take(i as int)),
        decreases ls.len() - i,
    {
        assert(lv.take(i + 1).drop_last() =~= lv.take(i as int));
        assert(lv.take(i + 1).last() == ls@[i as int]@);
        browse_one(&mut t, &mut dropped, ls[i].as_slice());
        i += 1;
    }
    assert(lv.take(ls@.len() as int) =~= lv);
    Ok((t, dropped))
}

/// A browse never knows more than `MAX_LIGHTS` hosts, and never the same
/// host twice.
pub proof fn lemma_browse_bounded(ls: Seq<Seq<char>>)
    ensures
        browse_all(ls).0.len() <= MAX_LIGHTS,
        forall|i: int, j: int|
            0 <= i < j < browse_all(ls).0.len() ==> #[trigger] browse_all(ls).0[i].0
                != #[trigger] browse_all(ls).0[j].0,
    decreases ls.len(),
{
    if ls.len() > 0 {
        lemma_browse_bounded(ls.drop_last());
        let st = browse_all(ls.drop_last());
        let line = ls.last();
        let parts = splitn(line, 10, ';');
        if (line.len() > 0 && line[0] == '=') && parts.len() >= 9 && host_ok(parts[6]) {
            let host = parts[6];
            let k = first_where(st.0, host_is(host));
            crate::search::lemma_first_where_bounds(st.0, host_is(host));
            if k == st.0.len() {
                crate::search::lemma_first_where_none(st.0, host_is(host));
            }
        }
    }
}

// ------------------------------------------------------------ neighbours

/// The neighbour table so far: hardware address (upper-cased) to IPv4 address.
pub type ArpView = Seq<(Seq<char>, Seq<char>)>;

pub open spec fn key_is(k: Seq<char>) -> spec_fn((Seq<char>, Seq<char>)) -> bool {
    |p: (Seq<char>, Seq<char>)| p.0 == k
}

/// A map insertion: a known key gets the new value in place, a new key goes
/// at the end.
pub open spec fn insert_key(t: ArpView, k: Seq<char>, v: Seq<char>) -> ArpView {
    let i = first_where(t, key_is(k));
    if i < t.len() {
        t.update(i, (k, v))
    } else {
        t.push((k, v))
    }
}

pub open spec fn is_lladdr() -> spec_fn(Seq<char>) -> bool {
    |w: Seq<char>| w == "lladdr"@
}

/// How one line of `ip neigh` changes the table: a line that starts with an
/// IPv4 address and has a valid hardware address after `lladdr` records it.
pub open spec fn arp_line(t: ArpView, line: Seq<char>) -> ArpView {
    let toks = words(line);
    if toks.len() == 0 || !is_ipv4(toks[0]) {
        t
    } else {
        let j = first_where(toks, is_lladdr());
        if j + 1 < toks.len() && valid_mac_spec(toks[j + 1]) {
            insert_key(t, to_ascii_upper(toks[j + 1]), toks[0])
        } else {
            t
        }
    }
}

/// The table after the lines, in order; reading stops once it holds
/// `MAX_ARP_ENTRIES` addresses.
pub open spec fn arp_all(ls: Seq<Seq<char>>) -> ArpView
    decreases ls.len(),
{
    if ls.len() == 0 {
        Seq::empty()
    } else {
        let t = arp_all(ls.drop_last());
        if t.len() >= MAX_ARP_ENTRIES {
            t
        } else {
            arp_line(t, ls.last())
        }
    }
}

pub open spec fn pairs_view(t: Seq<(String, String)>) -> ArpView {
    t.map_values(|p: (String, String)| (p.0@, p.1@))
}

fn find_key(t: &Vec<(String, String)>, k: &[char]) -> (r: usize)
    ensures
        r == first_where(pairs_view(t@), key_is(k@)),
        r <= t@.len(),
{
    let mut i: usize = 0;
    while i < t.len() && !same(chars_of(t[i].0.as_str()).as_slice(), k)
        invariant
            i <= t@.len(),
            forall|j: int| 0 <= j < i ==> !key_is(k@)(#[trigger] pairs_view(t@)[j]),
        decreases t.len() - i,
    {
        i += 1;
    }
    proof {
        lemma_first_where(pairs_view(t@), key_is(k@), i as int);
    }
    i
}

fn arp_one(t: &mut Vec<(String, String)>, line: &[char])
    ensures
        pairs_view(final(t)@) == arp_line(pairs_view(old(t)@), line@),
{
    let toks = words_vec(line);
    let ghost tv = views(toks@);
    if toks.len() == 0 {
        return;
    }
    assert(tv[0] == toks@[0]@);
    if !ipv4_valid(toks[0].as_slice()) {
        return;
    }
    let ll = chars_of("lladdr");
    let mut j: usize = 0;
    while j < toks.len() && !same(toks[j].as_slice(), ll.as_slice())
        invariant
            j <= toks@.len(),
            tv == views(toks@),
            ll@ == "lladdr"@,
            forall|k: int| 0 <= k < j ==> !is_lladdr()(#[trigger] tv[k]),
        decreases toks.len() - j,
    {
        assert(tv[j as int] == toks@[j as int]@);
        j += 1;
    }
    proof {
        if j < toks@.len() {
            assert(tv[j as int] == toks@[j as int]@);
        }
        lemma_first_where(tv, is_lladdr(), j as int);
    }
    if toks.len() > 0 && j < toks.len() - 1 {
        assert(tv[j + 1] == toks@[j + 1]@);
        let m = &toks[j + 1];
        if m.len() > 0 && m.len() <= MAX_MAC_BYTES && mac_chars_ok(m.as_slice()) {
            let key = ascii_upper_vec(m.as_slice());
            let ip = string_of(toks[0].as_slice());
            let ghost pv = pairs_view(t@);
            let i = find_key(t, key.as_slice());
            if i < t.len() {
                t.set(i, (string_of(key.as_slice()), ip));
                assert(pairs_view(t@) =~= pv.update(i as int, (key@, tv[0])));
            } else {
                t.push((string_of(key.as_slice()), ip));
                assert(pairs_view(t@) =~= pv.push((key@, tv[0])));
            }
        }
    }
}

/// The neighbour table from the output of `ip neigh`: hardware address to
/// IPv4 address, empty when the output is not UTF-8.
pub fn arp_entries(output: &[u8]) -> (r: Vec<(String, String)>)
    ensures
        !valid_utf8(output@) ==> r@.len() == 0,
        valid_utf8(output@) ==> pairs_view(r@) == arp_all(lines(decode_utf8(output@))),
{
    let text = match utf8_text(output) {
        None => {
            return Vec::new();
        },
        Some(s) => s,
    };
    let ls = lines_vec(chars_of(text.as_str()).as_slice());
    let ghost lv = views(ls@);
    let mut t: Vec<(String, String)> = Vec::new();
    let mut i: usize = 0;
    assert(lv.take(0) =~= Seq::<Seq<char>>::empty());
    assert(pairs_view(t@) =~= Seq::<(Seq<char>, Seq<char>)>::empty());
    while i < ls.len()
        invariant
            i <= ls@.len(),
            lv == views(ls@),
            pairs_view(t@) == arp_all(lv.take(i as int)),
        decreases ls.len() - i,
    {
        assert(lv.take(i + 1).drop_last() =~= lv.take(i as int));
        assert(lv.take(i + 1).last() == ls@[i as int]@);
        if t.len() < MAX_ARP_ENTRIES {
            arp_one(&mut t, ls[i].as_slice());
        }
        i += 1;
    }
    assert(lv.take(ls@.len() as int) =~= lv);
    t
}

/// The value recorded for a key.
pub open spec fn lookup(t: ArpView, k: Seq<char>) -> Option<Seq<char>> {
    let i = first_where(t, key_is(k));
    if i < t.len() {
        Some(t[i].1)
    } else {
        None
    }
}

/// The addresses to try for a host: its advertised IPv4 address, then the
/// address the neighbour table gives for its hardware address, unless that is
/// the same one.
pub open spec fn candidates_spec(e: (u16, Option<Seq<char>>, Option<Seq<char>>), arp: ArpView) -> Seq<Seq<char>> {
    let first: Seq<Seq<char>> = match e.1 {
        Some(ip) => seq![ip],
        None => Seq::empty(),
    };
    match e.2 {
        Some(m) => match lookup(arp, m) {
            Some(ip) => if first.contains(ip) {
                first
            } else {
                first.push(ip)
            },
            None => first,
        },
        None => first,
    }
}

/// The addresses to try for an advertised host.
pub fn candidates(e: &Entry, arp: &Vec<(String, String)>) -> (r: Vec<String>)
    ensures
        r@.map_values(|s: String| s@) == candidates_spec(entry_view(*e), pairs_view(arp@)),
{
    let mut r: Vec<String> = Vec::new();
    let ghost first: Seq<Seq<char>> = match opt_view(e.ipv4) {
        Some(ip) => seq![ip],
        None => Seq::empty(),
    };
    match &e.ipv4 {
        Some(ip) => {
            r.push(ip.clone());
        },
        None => {},
    }
    assert(r@.map_values(|s: String| s@) =~= first);
    match &e.mac {
        Some(m) => {
            let i = find_key(arp, chars_of(m.as_str()).as_slice());
            if i < arp.len() {
                let ip = &arp[i].1;
                assert(pairs_view(arp@)[i as int].1 == ip@);
                let dup = match &e.ipv4 {
                    Some(first_ip) => *first_ip == *ip,
                    None => false,
                };
                proof {
                    if first.contains(ip@) {
                        assert(first.len() == 1 && first[0] == ip@);
                    }
                    if dup {
                        assert(first[0] == ip@);
                    }
                }
                if !dup {
                    r.push(ip.clone());
                    assert(r@.map_values(|s: String| s@) =~= first.push(ip@));
                }
            }
        },
        None => {},
    }
    r
}

// ------------------------------------------------------------------ found

/// Whether a found light is one already listed: the same hardware address
/// (in any case, when the new one has one) or the same IP address.
pub open spec fn already_listed(lights: Seq<Light>, c: Light) -> bool {
    exists|i: int| 0 <= i < lights.len() && ((c.mac@.len() > 0 && eq_ignore_ascii_case(
        #[trigger] lights[i].mac@,
        c.mac@,
    )) || lights[i].ip@ == c.ip@)
}

fn listed(lights: &Vec<Light>, candidate: &Light) -> (r: bool)
    ensures
        r == already_listed(lights@, *candidate),
{
    let cm = chars_of(candidate.mac.as_str());
    let cip = chars_of(candidate.ip.as_str());
    let mut i: usize = 0;
    while i < lights.len()
        invariant
            i <= lights@.len(),
            cm@ == candidate.mac@,
            cip@ == candidate.ip@,
            forall|k: int| 0 <= k < i ==> !(candidate.mac@.len() > 0 && eq_ignore_ascii_case(
                #[trigger] lights@[k].mac@,
                candidate.mac@,
            )),
            forall|k: int| 0 <= k < i ==> #[trigger] lights@[k].ip@ != candidate.ip@,
        decreases lights.len() - i,
    {
        let l = &lights[i];
        let lm = chars_of(l.mac.as_str());
        let li = chars_of(l.ip.as_str());
        assert(lm@ == lights@[i as int].mac@);
        assert(li@ == lights@[i as int].ip@);
        let e1 = eq_ignore_ascii_case_vec(lm.as_slice(), cm.as_slice());
        let e2 = same(li.as_slice(), cip.as_slice());
        assert(e1 == eq_ignore_ascii_case(lights@[i as int].mac@, candidate.mac@));
        assert(e2 == (lights@[i as int].ip@ == candidate.ip@));
        let hit = (cm.len() > 0 && e1) || e2;
        if hit {
            assert((candidate.mac@.len() > 0 && eq_ignore_ascii_case(lights@[i as int].mac@, candidate.mac@))
                || lights@[i as int].ip@ == candidate.ip@);
            return true;
        }
        i += 1;
    }
    false
}

/// Adds a light that answered to the list: refused with the reason when it
/// is not acceptable, left out when it is already listed, else appended.
pub fn take_found(lights: &mut Vec<Light>, candidate: Light) -> (r: Result<(), &'static str>)
    ensures
        match r {
            Err(e) => crate::keylight::config::light_problem(candidate) == Some(e@) && final(lights)@
                == old(lights)@,
            Ok(()) => crate::keylight::config::light_problem(candidate) is None && final(lights)@
                == if already_listed(old(lights)@, candidate) {
                old(lights)@
            } else {
                old(lights)@.push(candidate)
            },
        },
{
    match candidate.validate() {
        Err(e) => {
            return Err(e);
        },
        Ok(()) => {},
    }
    let dup = listed(lights, &candidate);
    if !dup {
        lights.push(candidate);
    }
    Ok(())
}

/// The lights found, listed by name (lights of the same name keep the order
/// they were found in).
pub fn discovered(lights: Vec<Light>) -> (r: Cache)
    ensures
        r.lights@ == sorted_by_rank(lights@),
{
    Cache { lights: stable_sort(lights) }
}

} // verus!
