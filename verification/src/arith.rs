//! Integer helpers with the semantics of the standard library's saturating,
//! clamping and checked operations on `i32`.
use vstd::prelude::*;

verus! {

/// An integer pushed into the `i32` range, as the saturating operations do.
pub open spec fn sat(v: int) -> int {
    if v > i32::MAX {
        i32::MAX as int
    } else if v < i32::MIN {
        i32::MIN as int
    } else {
        v
    }
}

pub open spec fn imin(a: int, b: int) -> int {
    if a <= b {
        a
    } else {
        b
    }
}

pub open spec fn imax(a: int, b: int) -> int {
    if a >= b {
        a
    } else {
        b
    }
}

/// `Ord::clamp` when `lo <= hi`.
pub open spec fn clamp(v: int, lo: int, hi: int) -> int {
    if v < lo {
        lo
    } else if v > hi {
        hi
    } else {
        v
    }
}

pub open spec fn fits_i32(v: int) -> bool {
    i32::MIN <= v <= i32::MAX
}

/// `i32::saturating_add`.
pub fn sat_add(a: i32, b: i32) -> (r: i32)
    ensures
        r as int == sat(a + b),
{
    let v: i64 = a as i64 + b as i64;
    if v > i32::MAX as i64 {
        i32::MAX
    } else if v < i32::MIN as i64 {
        i32::MIN
    } else {
        v as i32
    }
}

/// `i32::saturating_sub`.
pub fn sat_sub(a: i32, b: i32) -> (r: i32)
    ensures
        r as int == sat(a - b),
{
    let v: i64 = a as i64 - b as i64;
    if v > i32::MAX as i64 {
        i32::MAX
    } else if v < i32::MIN as i64 {
        i32::MIN
    } else {
        v as i32
    }
}

pub fn min_i32(a: i32, b: i32) -> (r: i32)
    ensures
        r as int == imin(a as int, b as int),
{
    if a <= b {
        a
    } else {
        b
    }
}

pub fn max_i32(a: i32, b: i32) -> (r: i32)
    ensures
        r as int == imax(a as int, b as int),
{
    if a >= b {
        a
    } else {
        b
    }
}

/// `Ord::clamp`, which panics when `lo > hi`.
pub fn clamp_i32(v: i32, lo: i32, hi: i32) -> (r: i32)
    requires
        lo <= hi,
    ensures
        r as int == clamp(v as int, lo as int, hi as int),
{
    if v < lo {
        lo
    } else if v > hi {
        hi
    } else {
        v
    }
}

/// `i32::try_from(u32)`, falling back to `i32::MAX` when it does not fit.
pub fn u32_to_i32_or_max(v: u32) -> (r: i32)
    ensures
        r as int == imin(v as int, i32::MAX as int),
{
    if v > i32::MAX as u32 {
        i32::MAX
    } else {
        v as i32
    }
}

/// `i32::checked_add`.
pub fn checked_add_i32(a: i32, b: i32) -> (r: Option<i32>)
    ensures
        match r {
            Some(v) => v as int == a + b,
            None => !fits_i32(a + b),
        },
{
    let v: i64 = a as i64 + b as i64;
    if v > i32::MAX as i64 || v < i32::MIN as i64 {
        None
    } else {
        Some(v as i32)
    }
}

} // verus!
