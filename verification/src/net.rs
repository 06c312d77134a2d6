//! Network addresses in text: dotted-quad IPv4 addresses as `Ipv4Addr`
//! parses them, and the hardware addresses the lights report.
use vstd::prelude::*;
use vstd::utf8::encode_utf8;
use crate::numbers::{all_digits, digits_value, magnitude};
use crate::text::{digit_char, hex_digit_char, is_digit, is_hex_digit, views};
use crate::words::{split, split_vec};

verus! {

/// One part of a dotted quad: one to three ASCII digits, no leading zero
/// unless the part is `0` itself, and at most 255.
pub open spec fn octet_ok(p: Seq<char>) -> bool {
    &&& 1 <= p.len() <= 3
    &&& all_digits(p)
    &&& !(p.len() > 1 && p[0] == '0')
    &&& digits_value(p) <= 255
}

/// What `Ipv4Addr::from_str` accepts: four octets separated by dots and
/// nothing else. Leading zeros are refused, so an accepted address is also
/// exactly how `Ipv4Addr` writes itself back.
pub open spec fn is_ipv4(s: Seq<char>) -> bool {
    let parts = split(s, '.');
    parts.len() == 4 && forall|i: int| 0 <= i < 4 ==> octet_ok(#[trigger] parts[i])
}

fn octet_valid(p: &[char]) -> (r: bool)
    ensures
        r == octet_ok(p@),
{
    if p.len() < 1 || p.len() > 3 {
        return false;
    }
    let mut i: usize = 0;
    while i < p.len()
        invariant
            i <= p@.len(),
            forall|k: int| 0 <= k < i ==> is_digit(#[trigger] p@[k]),
        decreases p.len() - i,
    {
        if !digit_char(p[i]) {
            return false;
        }
        i += 1;
    }
    if p.len() > 1 && p[0] == '0' {
        return false;
    }
    match magnitude(p, 255) {
        Some(_) => true,
        None => false,
    }
}

/// Whether text is an IPv4 address.
pub fn ipv4_valid(s: &[char]) -> (r: bool)
    ensures
        r == is_ipv4(s@),
{
    let parts = split_vec(s, '.');
    if parts.len() != 4 {
        return false;
    }
    let mut i: usize = 0;
    while i < 4
        invariant
            i <= 4,
            parts@.len() == 4,
            views(parts@) == split(s@, '.'),
            forall|k: int| 0 <= k < i ==> octet_ok(#[trigger] split(s@, '.')[k]),
        decreases 4 - i,
    {
        assert(views(parts@)[i as int] == parts@[i as int]@);
        if !octet_valid(parts[i].as_slice()) {
            return false;
        }
        i += 1;
    }
    true
}

/// A character a hardware address may hold: a hex digit or a separator.
pub open spec fn mac_char(c: char) -> bool {
    is_hex_digit(c) || c == ':' || c == '-'
}

pub fn mac_char_ok(c: char) -> (r: bool)
    ensures
        r == mac_char(c),
{
    hex_digit_char(c) || c == ':' || c == '-'
}

/// Whether every character of `s` may appear in a hardware address. These
/// are all ASCII, so this is also whether every byte of `s` may.
pub open spec fn mac_chars(s: Seq<char>) -> bool {
    forall|i: int| 0 <= i < s.len() ==> mac_char(#[trigger] s[i])
}

pub fn mac_chars_ok(s: &[char]) -> (r: bool)
    ensures
        r == mac_chars(s@),
{
    let mut i: usize = 0;
    while i < s.len()
        invariant
            i <= s@.len(),
            forall|k: int| 0 <= k < i ==> mac_char(#[trigger] s@[k]),
        decreases s.len() - i,
    {
        if !mac_char_ok(s[i]) {
            return false;
        }
        i += 1;
    }
    true
}

} // verus!
