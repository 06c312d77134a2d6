//! What to tell the user about the processes that hold the capture device.
use vstd::prelude::*;
use crate::text::{chars_of, string_of, views};
use crate::words::{extend, join, join_vec, slice_vec};
use crate::numbers::{nat_chars, nat_text};
use crate::search::{first_where, lemma_first_where};

verus! {

/// A process holding the capture device open.
#[derive(Debug, Clone)]
pub struct Holder {
    pub pid: u32,
    pub command: String,
    /// The systemd unit the process belongs to: a supervised process comes
    /// straight back when killed, so the unit is what to stop.
    pub unit: Option<String>,
}

/// Whether a holder belongs to a unit.
pub open spec fn has_unit() -> spec_fn(Holder) -> bool {
    |h: Holder| h.unit is Some
}

/// What to run to free the device: stop the first holder's unit that is
/// known, else kill the first holder, else nothing.
pub open spec fn remedy_text(s: Seq<Holder>) -> Seq<char> {
    let i = first_where(s, has_unit());
    if i < s.len() {
        "stop it with: systemctl --user stop "@ + s[i].unit.unwrap()@
    } else if s.len() > 0 {
        "stop it with: kill "@ + nat_text(s[0].pid as nat)
    } else {
        Seq::empty()
    }
}

/// How to actually free the device, given who is holding it.
pub fn remedy(found: &[Holder]) -> (r: String)
    ensures
        r@ == remedy_text(found@),
{
    let mut i: usize = 0;
    while i < found.len() && found[i].unit.is_none()
        invariant
            i <= found@.len(),
            forall|k: int| 0 <= k < i ==> !has_unit()(#[trigger] found@[k]),
        decreases found.len() - i,
    {
        i += 1;
    }
    proof {
        lemma_first_where(found@, has_unit(), i as int);
    }
    if i < found.len() {
        let mut v = chars_of("stop it with: systemctl --user stop ");
        match &found[i].unit {
            Some(u) => {
                extend(&mut v, chars_of(u.as_str()).as_slice());
            },
            None => {},
        }
        string_of(v.as_slice())
    } else if found.len() > 0 {
        let mut v = chars_of("stop it with: kill ");
        extend(&mut v, nat_chars(found[0].pid as u64).as_slice());
        string_of(v.as_slice())
    } else {
        String::new()
    }
}

/// A command shortened for a notification: over sixty characters it keeps the
/// first fifty-seven and adds an ellipsis.
pub open spec fn short_command(c: Seq<char>) -> Seq<char> {
    if c.len() > 60 {
        c.take(57) + "..."@
    } else {
        c
    }
}

/// How one holder is named in a summary.
pub open spec fn holder_text(h: Holder) -> Seq<char> {
    match h.unit {
        Some(u) => u@ + " (pid "@ + nat_text(h.pid as nat) + ")"@,
        None => "pid "@ + nat_text(h.pid as nat) + " ("@ + short_command(h.command@) + ")"@,
    }
}

/// The summary of all holders, separated by commas.
pub open spec fn describe_text(s: Seq<Holder>) -> Seq<char> {
    join(s.map_values(|h: Holder| holder_text(h)), ", "@)
}

fn holder_chars(h: &Holder) -> (r: Vec<char>)
    ensures
        r@ == holder_text(*h),
{
    let pid = nat_chars(h.pid as u64);
    match &h.unit {
        Some(u) => {
            let mut v = chars_of(u.as_str());
            extend(&mut v, chars_of(" (pid ").as_slice());
            extend(&mut v, pid.as_slice());
            extend(&mut v, chars_of(")").as_slice());
            v
        },
        None => {
            let cmd = chars_of(h.command.as_str());
            let mut v = chars_of("pid ");
            extend(&mut v, pid.as_slice());
            extend(&mut v, chars_of(" (").as_slice());
            if cmd.len() > 60 {
                extend(&mut v, slice_vec(cmd.as_slice(), 0, 57).as_slice());
                extend(&mut v, chars_of("...").as_slice());
            } else {
                extend(&mut v, cmd.as_slice());
            }
            extend(&mut v, chars_of(")").as_slice());
            assert(v@ =~= holder_text(*h));
            v
        },
    }
}

/// A one-line summary naming what to stop, short enough for a notification.
pub fn describe(found: &[Holder]) -> (r: String)
    ensures
        r@ == describe_text(found@),
{
    let mut parts: Vec<Vec<char>> = Vec::new();
    let mut i: usize = 0;
    while i < found.len()
        invariant
            i <= found@.len(),
            parts@.len() == i,
            forall|k: int| 0 <= k < i ==> #[trigger] parts@[k]@ == holder_text(found@[k]),
        decreases found.len() - i,
    {
        parts.push(holder_chars(&found[i]));
        i += 1;
    }
    let joined = join_vec(&parts, chars_of(", ").as_slice());
    assert(views(parts@) =~= found@.map_values(|h: Holder| holder_text(h)));
    string_of(joined.as_slice())
}

} // verus!
