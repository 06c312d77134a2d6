//! What a light reports and accepts over HTTP, and its colour temperature in
//! the two units involved.
use vstd::prelude::*;
use crate::text::{chars_of, string_of};
use crate::words::extend;
use vstd::arithmetic::div_mod::{
    lemma_div_is_ordered_by_denominator, lemma_fundamental_div_mod, lemma_fundamental_div_mod_converse,
    lemma_mod_pos_bound,
};

verus! {

/// At most this many light states are accepted in one answer.
pub const MAX_LIGHT_STATES: usize = 8;

/// One light's state as the light reports it.
#[derive(Debug, Clone, Copy, PartialEq, Eq, Structural)]
pub struct LightState {
    pub on: u8,
    pub brightness: u8,
    /// Colour temperature in mireds.
    pub temperature: u16,
}

/// A light's answer: the state of each light it drives.
#[derive(Debug, Clone)]
pub struct LightsResponse {
    pub number_of_lights: u8,
    pub lights: Vec<LightState>,
}

/// A change to a light: only the fields that are set are sent.
#[derive(Debug, Clone, Copy, PartialEq, Eq, Structural)]
pub struct LightPatch {
    pub on: Option<u8>,
    pub brightness: Option<u8>,
    pub temperature: Option<u16>,
}

impl Default for LightPatch {
    fn default() -> (r: LightPatch)
        ensures
            r.on is None && r.brightness is None && r.temperature is None,
    {
        LightPatch { on: None, brightness: None, temperature: None }
    }
}

impl LightPatch {
    /// Whether the patch changes nothing.
    pub fn is_empty(&self) -> (r: bool)
        ensures
            r == (self.on is None && self.brightness is None && self.temperature is None),
    {
        self.on.is_none() && self.brightness.is_none() && self.temperature.is_none()
    }
}

/// How many times a request is tried at most.
pub const ATTEMPTS: u8 = 3;

/// A request is tried again only within this many milliseconds of the first
/// try, so that a light that does not answer is reported soon.
pub const RETRY_BUDGET_MS: u64 = 500;

/// Whether to try a request again: it failed, it has been tried fewer than
/// [`ATTEMPTS`] times, and the first try was less than [`RETRY_BUDGET_MS`]
/// ago.
pub fn should_retry(tries: u8, succeeded: bool, elapsed_ms: u128) -> (r: bool)
    ensures
        r == (!succeeded && tries < ATTEMPTS && elapsed_ms < RETRY_BUDGET_MS as u128),
{
    !succeeded && tries < ATTEMPTS && elapsed_ms < RETRY_BUDGET_MS as u128
}

/// The state of the first light in an answer: an error naming the light when
/// the answer lists too many states or none.
pub fn first(resp: LightsResponse, name: &str) -> (r: Result<LightState, String>)
    ensures
        resp.lights@.len() > MAX_LIGHT_STATES ==> (r matches Err(e) && e@ == name@
            + ": too many light states in response"@),
        resp.lights@.len() == 0 ==> (r matches Err(e) && e@ == name@ + ": empty lights array"@),
        0 < resp.lights@.len() <= MAX_LIGHT_STATES ==> r == Ok::<LightState, String>(resp.lights@[0]),
{
    if resp.lights.len() > MAX_LIGHT_STATES {
        let mut v = chars_of(name);
        extend(&mut v, chars_of(": too many light states in response").as_slice());
        return Err(string_of(v.as_slice()));
    }
    if resp.lights.len() == 0 {
        let mut v = chars_of(name);
        extend(&mut v, chars_of(": empty lights array").as_slice());
        return Err(string_of(v.as_slice()));
    }
    Ok(resp.lights[0])
}

/// Kelvin to mireds, as the lights take them: a million over the kelvin (at
/// least one), held to the lights' range of 143 to 344.
pub open spec fn mired_of(k: u32) -> int {
    let m: int = 1000000int / if k >= 1 { k as int } else { 1int };
    if m < 143 {
        143
    } else if m > 344 {
        344
    } else {
        m
    }
}

pub fn kelvin_to_mired(k: u32) -> (r: u16)
    ensures
        r as int == mired_of(k),
        143 <= r <= 344,
{
    let d: u32 = if k >= 1 { k } else { 1 };
    let m: u32 = 1000000 / d;
    if m < 143 {
        143
    } else if m > 344 {
        344
    } else {
        m as u16
    }
}

/// Mireds back to kelvin: a million over the mireds, and zero for zero.
pub open spec fn kelvin_of(m: u16) -> int {
    if m == 0 {
        0
    } else {
        1000000int / (m as int)
    }
}

pub fn mired_to_kelvin(m: u16) -> (r: u32)
    ensures
        r as int == kelvin_of(m),
{
    if m == 0 {
        0
    } else {
        1000000 / (m as u32)
    }
}

/// Kelvin to mireds always lands in the lights' range of 143 to 344, and a
/// lower kelvin never gives fewer mireds than a higher one.
pub proof fn lemma_mired_range_and_order(k1: u32, k2: u32)
    requires
        k1 <= k2,
    ensures
        143 <= mired_of(k1) <= 344,
        143 <= mired_of(k2) <= 344,
        mired_of(k1) >= mired_of(k2),
{
    let d1: int = if k1 >= 1 { k1 as int } else { 1int };
    let d2: int = if k2 >= 1 { k2 as int } else { 1int };
    lemma_div_is_ordered_by_denominator(1000000int, d1, d2);
}

/// Every mired value the lights accept comes back unchanged from a trip to
/// kelvin and back.
pub proof fn lemma_mired_round_trip(m: u16)
    requires
        143 <= m <= 344,
    ensures
        0 <= kelvin_of(m) <= u32::MAX,
        mired_of(kelvin_of(m) as u32) == m as int,
{
    let mi: int = m as int;
    let k: int = 1000000int / mi;
    let r: int = 1000000int % mi;
    lemma_fundamental_div_mod(1000000int, mi);
    lemma_mod_pos_bound(1000000int, mi);
    assert(2906 <= k <= 7000) by (nonlinear_arith)
        requires
            1000000int == mi * k + r,
            0 <= r < mi,
            143 <= mi <= 344,
    ;
    lemma_fundamental_div_mod_converse(1000000int, k, mi, r);
    assert(kelvin_of(m) == k);
}

} // verus!
