//! A light's state and changes to it, shared with [`crate::keylight::light`],
//! and how this tool reads a light's answer.
use vstd::prelude::*;
use crate::text::{chars_of, string_of};
use crate::words::extend;
pub use crate::keylight::light::{
    LightPatch, LightState, LightsResponse, kelvin_to_mired, mired_to_kelvin,
};

verus! {

/// The state of the first light in an answer, however many it lists; an error
/// naming the light when it lists none.
pub fn first(resp: LightsResponse, name: &str) -> (r: Result<LightState, String>)
    ensures
        resp.lights@.len() == 0 ==> (r matches Err(e) && e@ == name@ + ": empty lights array"@),
        resp.lights@.len() > 0 ==> r == Ok::<LightState, String>(resp.lights@[0]),
{
    if resp.lights.len() == 0 {
        let mut v = chars_of(name);
        extend(&mut v, chars_of(": empty lights array").as_slice());
        return Err(string_of(v.as_slice()));
    }
    Ok(resp.lights[0])
}

} // verus!
