//! The status-bar summary of the lights: a class for the icon and a tooltip
//! line per light.
use vstd::prelude::*;
use crate::keylight::config::Light;
use crate::keylight::light::{LightState, kelvin_of, mired_to_kelvin};
use crate::numbers::{nat_chars, nat_text};
use crate::text::{chars_of, string_of, views};
use crate::words::{extend, join, join_vec};

verus! {

/// The tooltip when no light is cached.
pub open spec fn empty_tooltip() -> Seq<char> {
    "no lights cached - run: elgatoctl discover"@
}

/// A light's tooltip line: its power, brightness and temperature, or that it
/// did not answer.
pub open spec fn tooltip_line(l: Light, s: Result<LightState, String>) -> Seq<char> {
    match s {
        Ok(st) => l.name@ + ": "@ + (if st.on == 1 {
            "on"@
        } else {
            "off"@
        }) + " "@ + nat_text(st.brightness as nat) + "% "@ + nat_text(kelvin_of(st.temperature) as nat)
            + "K"@,
        Err(_) => l.name@ + ": unreachable"@,
    }
}

/// The icon class: "unreachable" when no light answered, "on" when one that
/// answered is on, else "off"; "off" too when no light is cached.
pub open spec fn class_spec(ss: Seq<Result<LightState, String>>) -> Seq<char> {
    if ss.len() == 0 {
        "off"@
    } else if forall|i: int| 0 <= i < ss.len() ==> #[trigger] ss[i] is Err {
        "unreachable"@
    } else if exists|i: int| 0 <= i < ss.len() && (#[trigger] ss[i] matches Ok(st) && st.on == 1) {
        "on"@
    } else {
        "off"@
    }
}

/// The tooltip: one line per light, or the hint to discover lights.
pub open spec fn tooltip_spec(ls: Seq<Light>, ss: Seq<Result<LightState, String>>) -> Seq<char> {
    if ls.len() == 0 {
        empty_tooltip()
    } else {
        join(Seq::new(ls.len(), |i: int| tooltip_line(ls[i], ss[i])), "\n"@)
    }
}

fn line_for(l: &Light, s: &Result<LightState, String>) -> (r: Vec<char>)
    ensures
        r@ == tooltip_line(*l, *s),
{
    let mut v = chars_of(l.name.as_str());
    match s {
        Ok(st) => {
            extend(&mut v, chars_of(": ").as_slice());
            if st.on == 1 {
                extend(&mut v, chars_of("on").as_slice());
            } else {
                extend(&mut v, chars_of("off").as_slice());
            }
            extend(&mut v, chars_of(" ").as_slice());
            extend(&mut v, nat_chars(st.brightness as u64).as_slice());
            extend(&mut v, chars_of("% ").as_slice());
            extend(&mut v, nat_chars(mired_to_kelvin(st.temperature) as u64).as_slice());
            extend(&mut v, chars_of("K").as_slice());
        },
        Err(_) => {
            extend(&mut v, chars_of(": unreachable").as_slice());
        },
    }
    v
}

/// The status-bar class and tooltip for the cached lights and what each
/// answered (one answer per light).
pub fn summary(lights: &[Light], states: &[Result<LightState, String>]) -> (r: (String, String))
    requires
        states@.len() == lights@.len(),
    ensures
        r.0@ == class_spec(states@),
        r.1@ == tooltip_spec(lights@, states@),
{
    if lights.len() == 0 {
        return (String::from_str("off"), String::from_str("no lights cached - run: elgatoctl discover"));
    }
    let mut parts: Vec<Vec<char>> = Vec::new();
    let mut any_on = false;
    let mut unreachable: usize = 0;
    let mut i: usize = 0;
    while i < lights.len()
        invariant
            i <= lights@.len(),
            states@.len() == lights@.len(),
            parts@.len() == i,
            unreachable <= i,
            forall|k: int| 0 <= k < i ==> #[trigger] parts@[k]@ == tooltip_line(lights@[k], states@[k]),
            any_on == exists|k: int| 0 <= k < i && (#[trigger] states@[k] matches Ok(st) && st.on == 1),
            (unreachable == i) == forall|k: int| 0 <= k < i ==> #[trigger] states@[k] is Err,
        decreases lights.len() - i,
    {
        parts.push(line_for(&lights[i], &states[i]));
        match &states[i] {
            Ok(st) => {
                if st.on == 1 {
                    any_on = true;
                }
            },
            Err(_) => {
                unreachable += 1;
            },
        }
        proof {
            if !(states@[i as int] is Err) {
                assert(!(forall|k: int| 0 <= k < i + 1 ==> #[trigger] states@[k] is Err));
            }
        }
        i += 1;
    }
    let joined = join_vec(&parts, chars_of("\n").as_slice());
    assert(views(parts@) =~= Seq::new(lights@.len(), |i: int| tooltip_line(lights@[i], states@[i])));
    let class = if unreachable == lights.len() {
        String::from_str("unreachable")
    } else if any_on {
        String::from_str("on")
    } else {
        String::from_str("off")
    };
    (class, string_of(joined.as_slice()))
}

} // verus!
