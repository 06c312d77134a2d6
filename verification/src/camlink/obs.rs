//! The region of a monitor that an OBS screen capture records.
use vstd::prelude::*;

verus! {

/// A cropped capture region, in logical desktop coordinates (the space of
/// the compositor's monitor x and y).
#[derive(Clone, Copy, Debug, PartialEq, Eq, Structural)]
pub struct Region {
    pub x: i32,
    pub y: i32,
    pub w: i32,
    pub h: i32,
}

} // verus!
