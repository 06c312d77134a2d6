//! The camera overlay as the panel sees it: where it sits, what its state is
//! called, and the command that puts it back where it was.
use vstd::prelude::*;
use crate::omgato::state::{Flags, History, Recorded};
use crate::text::{chars_of, string_of, string_views, strings_of, views};
use crate::words::{extend, same, split, split_vec, starts_with, starts_with_vec, strip_prefix, strip_prefix_vec};

verus! {

/// Where the overlay is: whether it is shown, and its position ("top-left"
/// and so on, or a pinned "rect:X,Y,W,H").
#[derive(Debug)]
pub struct Placement {
    pub overlay: bool,
    pub position: String,
}

/// Placements are recorded by what they hold.
impl View for Placement {
    type V = (bool, Seq<char>);

    open spec fn view(&self) -> (bool, Seq<char>) {
        (self.overlay, self.position@)
    }
}

impl Recorded for Placement {
    open spec fn same_record(&self, other: &Self) -> bool {
        self@ == other@
    }

    fn same_as(&self, other: &Self) -> (r: bool) {
        self.overlay == other.overlay && self.position == other.position
    }
}

/// What the panel shows of the camera.
#[derive(Debug)]
pub struct Status {
    pub state: String,
    pub tooltip: String,
    pub paused: bool,
    pub overlay: bool,
    pub position: String,
    pub corner: String,
    pub history: Flags,
}

/// The short name of a position: a corner's two letters, "area" for a pinned
/// rectangle, nothing otherwise.
pub open spec fn corner_spec(position: Seq<char>) -> Seq<char> {
    if position == "top-left"@ {
        "tl"@
    } else if position == "top-right"@ {
        "tr"@
    } else if position == "bottom-left"@ {
        "bl"@
    } else if position == "bottom-right"@ {
        "br"@
    } else if starts_with(position, "rect:"@) {
        "area"@
    } else {
        Seq::empty()
    }
}

pub fn corner_of(position: &str) -> (r: String)
    ensures
        r@ == corner_spec(position@),
{
    let p = chars_of(position);
    proof {
        reveal_strlit("top-left");
        reveal_strlit("top-right");
        reveal_strlit("bottom-left");
        reveal_strlit("bottom-right");
        reveal_strlit("rect:");
    }
    if same(p.as_slice(), chars_of("top-left").as_slice()) {
        String::from_str("tl")
    } else if same(p.as_slice(), chars_of("top-right").as_slice()) {
        String::from_str("tr")
    } else if same(p.as_slice(), chars_of("bottom-left").as_slice()) {
        String::from_str("bl")
    } else if same(p.as_slice(), chars_of("bottom-right").as_slice()) {
        String::from_str("br")
    } else if starts_with_vec(p.as_slice(), chars_of("rect:").as_slice()) {
        String::from_str("area")
    } else {
        String::new()
    }
}

/// The command that puts the overlay back as a placement records it: hide it;
/// place it on a pinned rectangle (as "X,Y WxH"); show it where it was; or
/// move it to a corner, all through the overlay controller `ctl`. None when
/// the placement names nothing to go back to.
pub open spec fn apply_argv(ctl: Seq<char>, p: (bool, Seq<char>)) -> Option<Seq<Seq<char>>> {
    if !p.0 {
        Some(seq![ctl, "hide"@])
    } else {
        match strip_prefix(p.1, "rect:"@) {
            Some(rect) => {
                let parts = split(rect, ',');
                if parts.len() == 4 {
                    Some(seq![ctl, "place"@, parts[0] + ","@ + parts[1] + " "@ + parts[2] + "x"@ + parts[3]])
                } else {
                    None
                }
            },
            None => if p.1.len() == 0 {
                Some(seq![ctl, "show"@])
            } else {
                let corner = corner_spec(p.1);
                if corner.len() == 0 || corner == "area"@ {
                    None
                } else {
                    Some(seq![ctl, "move"@, corner])
                }
            },
        }
    }
}

pub fn apply_command(ctl: &str, placement: &Placement) -> (r: Option<Vec<String>>)
    ensures
        match r {
            Some(v) => apply_argv(ctl@, placement@) == Some(string_views(v@)),
            None => apply_argv(ctl@, placement@) is None,
        },
{
    let mut argv: Vec<Vec<char>> = Vec::new();
    argv.push(chars_of(ctl));
    if !placement.overlay {
        argv.push(chars_of("hide"));
        assert(views(argv@) =~= seq![ctl@, "hide"@]);
        return Some(strings_of(&argv));
    }
    let pos = chars_of(placement.position.as_str());
    match strip_prefix_vec(pos.as_slice(), chars_of("rect:").as_slice()) {
        Some(rect) => {
            let parts = split_vec(rect.as_slice(), ',');
            if parts.len() != 4 {
                return None;
            }
            assert(views(parts@)[0] == parts@[0]@ && views(parts@)[1] == parts@[1]@);
            assert(views(parts@)[2] == parts@[2]@ && views(parts@)[3] == parts@[3]@);
            let mut g = crate::words::slice_vec(parts[0].as_slice(), 0, parts[0].len());
            extend(&mut g, chars_of(",").as_slice());
            extend(&mut g, parts[1].as_slice());
            extend(&mut g, chars_of(" ").as_slice());
            extend(&mut g, parts[2].as_slice());
            extend(&mut g, chars_of("x").as_slice());
            extend(&mut g, parts[3].as_slice());
            argv.push(chars_of("place"));
            let ghost gv = g@;
            argv.push(g);
            assert(gv =~= views(parts@)[0] + ","@ + views(parts@)[1] + " "@ + views(parts@)[2] + "x"@ + views(parts@)[3]);
            assert(views(argv@) =~= seq![ctl@, "place"@, gv]);
            Some(strings_of(&argv))
        },
        None => {
            if pos.len() == 0 {
                argv.push(chars_of("show"));
                assert(views(argv@) =~= seq![ctl@, "show"@]);
                return Some(strings_of(&argv));
            }
            let corner = corner_of(placement.position.as_str());
            let c = chars_of(corner.as_str());
            if c.len() == 0 || same(c.as_slice(), chars_of("area").as_slice()) {
                return None;
            }
            argv.push(chars_of("move"));
            argv.push(c);
            assert(views(argv@) =~= seq![ctl@, "move"@, corner@]);
            Some(strings_of(&argv))
        },
    }
}

/// The detail the panel shows under the camera's state.
pub open spec fn detail_spec(alt: Seq<char>, tooltip: Seq<char>) -> Seq<char> {
    if alt == "disconnected"@ {
        "not detected"@
    } else if alt == "disabled"@ {
        "monitor paused"@
    } else {
        match strip_prefix(tooltip, "Camera "@) {
            Some(rest) => rest,
            None => tooltip,
        }
    }
}

pub fn detail(alt: &str, tooltip: &str) -> (r: String)
    ensures
        r@ == detail_spec(alt@, tooltip@),
{
    let a = chars_of(alt);
    if same(a.as_slice(), chars_of("disconnected").as_slice()) {
        return String::from_str("not detected");
    }
    if same(a.as_slice(), chars_of("disabled").as_slice()) {
        return String::from_str("monitor paused");
    }
    match strip_prefix_vec(chars_of(tooltip).as_slice(), chars_of("Camera ").as_slice()) {
        Some(rest) => string_of(rest.as_slice()),
        None => String::from_str(tooltip),
    }
}

/// What the panel shows of the camera, from the overlay tool's report and the
/// placement history (already folded with the current placement).
pub fn status(alt: String, tooltip: &str, paused: bool, overlay: bool, position: String, history: &History<Placement>) -> (r: Status)
    ensures
        r.state@ == (if alt@.len() == 0 {
            "unknown"@
        } else {
            alt@
        }),
        r.tooltip@ == detail_spec(alt@, tooltip@),
        r.paused == paused,
        r.overlay == overlay,
        r.position@ == position@,
        r.corner@ == corner_spec(position@),
        r.history.can_undo == (history.pos > 0),
        r.history.can_redo == (history.pos >= 0 && history.pos < history.stack@.len() - 1),
{
    let tip = detail(alt.as_str(), tooltip);
    let corner = corner_of(position.as_str());
    let state = if alt.as_str().is_empty() {
        String::from_str("unknown")
    } else {
        alt
    };
    Status { state, tooltip: tip, paused, overlay, corner, position, history: history.flags() }
}

/// The placement to go back to, `step` places through the history, with its
/// position.
pub fn travel(history: &History<Placement>, step: i64) -> (r: Option<(i64, &Placement)>)
    requires
        i64::MIN <= history.pos + step <= i64::MAX,
    ensures
        0 <= history.pos + step < history.stack@.len() ==> r == Some(
            ((history.pos + step) as i64, &history.stack@[history.pos + step]),
        ),
        !(0 <= history.pos + step < history.stack@.len()) ==> r is None,
{
    history.seek(step)
}

/// What a step through the camera history comes to, once the command that
/// puts the overlay at the target placement has run (`applied` says whether
/// it succeeded): nothing when there is no entry that far, the position to
/// store when the placement was restored, and an error, with the stored
/// position left as it was, when it was not.
pub fn settle_travel(history: &History<Placement>, step: i64, applied: bool) -> (r: Result<
    Option<i64>,
    String,
>)
    requires
        i64::MIN <= history.pos + step <= i64::MAX,
    ensures
        !(0 <= history.pos + step < history.stack@.len()) ==> r == Ok::<Option<i64>, String>(None),
        0 <= history.pos + step < history.stack@.len() && applied ==> r == Ok::<Option<i64>, String>(
            Some((history.pos + step) as i64),
        ),
        0 <= history.pos + step < history.stack@.len() && !applied ==> (r matches Err(e) && e@
            == "could not restore the camera placement"@),
{
    match history.seek(step) {
        None => Ok(None),
        Some((pos, _)) => {
            if applied {
                Ok(Some(pos))
            } else {
                Err(string_of(chars_of("could not restore the camera placement").as_slice()))
            }
        },
    }
}

} // verus!
