//! What the overlay commands decide: the rectangle a panel claims, where the
//! overlay goes once claims are taken into account, the requests that put it
//! there, and how its state is reported.
use vstd::prelude::*;
use crate::arith::{checked_add_i32, fits_i32};
use crate::camctl::config::Config;
use crate::camlink::blocker::{obstruction, obstruction_spec};
use crate::camlink::hypr::{Monitor, move_request, move_window_pixel, pin_request, pin_window, resize_request, resize_window_pixel};
use crate::camlink::obs::Region;
use crate::camlink::positioning::{
    Placement, dodge, dodge_spec, monitor_fits, pin_fits, panel_rect, panel_rect_spec, parse_rect, parse_rect_spec,
    placement, placement_spec, rect_from_geometry, rect_from_geometry_spec, rect_to_position, size_from_text,
    size_from_text_spec,
};
use crate::camlink::status::CamState;
use crate::camlink::holder::{Holder, borrowable_spec, borrowable_unit, describe, describe_text, remedy, remedy_text};
use crate::camlink::overlay::WaitResult;
use crate::words::same;
use crate::rect_text::rect_text;
use crate::text::{chars_of, debug_str, debug_text, opt_view, string_of, string_views};
use crate::words::extend;

verus! {

/// The rectangle a panel claims, from what it reports: a bare size hangs from
/// the bar at the right edge of the monitor; "X,Y WxH" is taken as it is,
/// relative to the monitor when the panel named its output. Errors are for
/// text that is neither, and for coordinates that leave `i32`.
pub open spec fn avoid_spec(geometry: Seq<char>, mon: Monitor, named: bool) -> Result<Placement, Seq<char>> {
    match size_from_text_spec(geometry) {
        Some((w, h)) => Ok(panel_rect_spec(mon, w as int, h as int)),
        None => match rect_from_geometry_spec(geometry) {
            None => Err("avoid: expected \"WxH\" or \"X,Y WxH\", got "@ + debug_text(geometry)),
            Some(pos) => match parse_rect_spec(pos) {
                None => Err("avoid: bad rectangle "@ + debug_text(geometry)),
                Some(r) => if !named {
                    Ok(r)
                } else if !fits_i32(r.x + mon.x) {
                    Err("avoid: horizontal coordinate is out of range"@)
                } else if !fits_i32(r.y + mon.y) {
                    Err("avoid: vertical coordinate is out of range"@)
                } else {
                    Ok(Placement { x: (r.x + mon.x) as i32, y: (r.y + mon.y) as i32, w: r.w, h: r.h })
                },
            },
        },
    }
}

fn avoid_error(prefix: &str, geometry: &str) -> (r: String)
    ensures
        r@ == prefix@ + debug_text(geometry@),
{
    let mut v = chars_of(prefix);
    extend(&mut v, chars_of(debug_str(geometry).as_str()).as_slice());
    string_of(v.as_slice())
}

/// The rectangle a panel claims on a monitor (see [`avoid_spec`]); `named`
/// says whether the panel named the monitor's output.
pub fn avoid_blocker(geometry: &str, mon: &Monitor, named: bool) -> (r: Result<Placement, String>)
    requires
        monitor_fits(*mon),
    ensures
        match r {
            Ok(p) => avoid_spec(geometry@, *mon, named) == Ok::<Placement, Seq<char>>(p),
            Err(e) => avoid_spec(geometry@, *mon, named) == Err::<Placement, Seq<char>>(e@),
        },
{
    match size_from_text(geometry) {
        Some((w, h)) => Ok(panel_rect(mon, w, h)),
        None => match rect_from_geometry(geometry) {
            None => Err(avoid_error("avoid: expected \"WxH\" or \"X,Y WxH\", got ", geometry)),
            Some(pos) => match parse_rect(pos.as_str()) {
                None => Err(avoid_error("avoid: bad rectangle ", geometry)),
                Some(r) => {
                    if !named {
                        return Ok(r);
                    }
                    let x = match checked_add_i32(r.x, mon.x) {
                        Some(x) => x,
                        None => {
                            return Err(String::from_str("avoid: horizontal coordinate is out of range"));
                        },
                    };
                    let y = match checked_add_i32(r.y, mon.y) {
                        Some(y) => y,
                        None => {
                            return Err(String::from_str("avoid: vertical coordinate is out of range"));
                        },
                    };
                    Ok(Placement { x, y, w: r.w, h: r.h })
                },
            },
        },
    }
}

/// Where the overlay goes and whether its persisted rectangle is rewritten:
/// the placement; when not fullscreen, a persisted rectangle that had to be
/// brought back on screen is saved as it now is, and the overlay slides clear
/// of the panels' claims when it can.
pub open spec fn plan_spec(cfg: Config, mon: Monitor, pos: Seq<char>, full: bool, obs: Option<Region>, claims: Seq<Placement>) -> (Placement, Option<Seq<char>>) {
    let p = placement_spec(cfg, mon, pos, full, obs);
    let persist = if full {
        None
    } else {
        match parse_rect_spec(pos) {
            Some(saved) => if saved != p {
                Some(rect_text(p.x as int, p.y as int, p.w as int, p.h as int))
            } else {
                None
            },
            None => None,
        }
    };
    let moved = if full {
        p
    } else {
        match obstruction_spec(p, claims) {
            Some(b) => match dodge_spec(p, b, mon, cfg.margin as i32 as int) {
                Some(m) => m,
                None => p,
            },
            None => p,
        }
    };
    (moved, persist)
}

/// Where the overlay goes, given its persisted position, whether it is
/// fullscreen, the OBS region and the live claims; with the rectangle to
/// persist, if it changed.
pub fn plan_placement(cfg: &Config, mon: &Monitor, pos: &str, full: bool, obs_region: Option<Region>, claims: &[Placement]) -> (r: (Placement, Option<String>))
    requires
        monitor_fits(*mon),
        pin_fits(*mon, pos@, full),
    ensures
        (r.0, opt_view(r.1)) == plan_spec(*cfg, *mon, pos@, full, obs_region, claims@),
{
    let p = placement(cfg, mon, pos, full, obs_region);
    let persist = if !full {
        match parse_rect(pos) {
            Some(saved) => {
                if saved != p {
                    Some(rect_to_position(&p))
                } else {
                    None
                }
            },
            None => None,
        }
    } else {
        None
    };
    let moved = if full {
        p
    } else {
        match obstruction(&p, claims) {
            Some(b) => match dodge(&p, &b, mon, cfg.margin as i32) {
                Some(m) => m,
                None => p,
            },
            None => p,
        }
    };
    (moved, persist)
}

/// The requests that put the window at `addr` on a rectangle: resize, move,
/// and pin it unless it already is.
pub open spec fn requests_spec(addr: Seq<char>, p: Placement, pinned: bool) -> Seq<Seq<char>> {
    let base = seq![resize_request(addr, p.w as int, p.h as int), move_request(addr, p.x as int, p.y as int)];
    if pinned {
        base
    } else {
        base.push(pin_request(addr))
    }
}

pub fn window_requests(addr: &str, p: &Placement, pinned: bool) -> (r: Vec<String>)
    ensures
        string_views(r@) == requests_spec(addr@, *p, pinned),
{
    let mut r: Vec<String> = Vec::new();
    r.push(resize_window_pixel(addr, p.w, p.h));
    r.push(move_window_pixel(addr, p.x, p.y));
    if !pinned {
        r.push(pin_window(addr));
    }
    assert(string_views(r@) =~= requests_spec(addr@, *p, pinned));
    r
}

/// How the status bar shows a camera state: the icon name, its class (the
/// same), and the tooltip.
pub open spec fn status_spec(s: CamState) -> (Seq<char>, Seq<char>, Seq<char>) {
    match s {
        CamState::On(why) => ("on"@, "on"@, "Camera ON ("@ + why@ + ")"@),
        CamState::Off(_) => ("off"@, "off"@, "Camera connected, idle"@),
        CamState::Disconnected => ("disconnected"@, "disconnected"@, "Cam Link 4K not detected"@),
        CamState::Disabled => ("disabled"@, "disabled"@, "Camera monitor paused. Click to resume."@),
    }
}

pub fn status_fields(s: &CamState) -> (r: (&'static str, &'static str, String))
    ensures
        (r.0@, r.1@, r.2@) == status_spec(*s),
{
    match s {
        CamState::On(why) => {
            let mut v = chars_of("Camera ON (");
            extend(&mut v, chars_of(why.as_str()).as_slice());
            extend(&mut v, chars_of(")").as_slice());
            ("on", "on", string_of(v.as_slice()))
        },
        CamState::Off(_) => ("off", "off", String::from_str("Camera connected, idle")),
        CamState::Disconnected => ("disconnected", "disconnected", String::from_str("Cam Link 4K not detected")),
        CamState::Disabled => ("disabled", "disabled", String::from_str("Camera monitor paused. Click to resume.")),
    }
}

// ---------------------------------------------------------------- showing

/// What showing the overlay does about the processes holding the device.
#[derive(Debug)]
pub enum HolderVerdict {
    /// Nothing holds it.
    Free,
    /// It cannot be freed; the message says by whom and how.
    Refuse(String),
    /// Another unit is still borrowed: give it back first (`previous`), and
    /// let the user retry to borrow `unit`.
    ReturnFirst { previous: String, unit: String },
    /// Stop this unit to borrow the device.
    Borrow(String),
}

/// The message for a device held by processes that cannot be stopped.
pub open spec fn held_text(busy: Seq<Holder>) -> Seq<char> {
    "camera is held by "@ + describe_text(busy) + "; "@ + remedy_text(busy)
}

/// What to do about the holders: nothing when there are none; refuse when
/// they do not all belong to one user unit; give back a different unit that
/// is still borrowed first; else borrow their unit.
pub open spec fn verdict_matches(v: HolderVerdict, busy: Seq<Holder>, previous: Option<Seq<char>>) -> bool {
    if busy.len() == 0 {
        v is Free
    } else {
        match borrowable_spec(busy) {
            None => v matches HolderVerdict::Refuse(m) && m@ == held_text(busy),
            Some(unit) => match previous {
                Some(p) => if p != unit {
                    v matches HolderVerdict::ReturnFirst { previous, unit: u } && previous@ == p && u@ == unit
                } else {
                    v matches HolderVerdict::Borrow(u) && u@ == unit
                },
                None => v matches HolderVerdict::Borrow(u) && u@ == unit,
            },
        }
    }
}

/// What to do about the processes holding the device, given the unit that
/// is recorded as borrowed, if any.
pub fn holders_verdict(busy: &[Holder], previous: Option<String>) -> (r: HolderVerdict)
    ensures
        verdict_matches(r, busy@, opt_view(previous)),
{
    if busy.len() == 0 {
        return HolderVerdict::Free;
    }
    match borrowable_unit(busy) {
        None => {
            let mut v = chars_of("camera is held by ");
            extend(&mut v, chars_of(describe(busy).as_str()).as_slice());
            extend(&mut v, chars_of("; ").as_slice());
            extend(&mut v, chars_of(remedy(busy).as_str()).as_slice());
            HolderVerdict::Refuse(string_of(v.as_slice()))
        },
        Some(unit) => match previous {
            Some(p) => {
                if p != unit {
                    HolderVerdict::ReturnFirst { previous: p, unit }
                } else {
                    HolderVerdict::Borrow(unit)
                }
            },
            None => HolderVerdict::Borrow(unit),
        },
    }
}

/// The message when borrowing failed: the error, and the error of giving
/// the unit back when that failed too.
pub fn borrow_failure(error: &str, returned: &Result<(), String>) -> (r: String)
    ensures
        match returned {
            Ok(()) => r@ == error@,
            Err(g) => r@ == error@ + "; "@ + g@,
        },
{
    match returned {
        Ok(()) => String::from_str(error),
        Err(g) => {
            let mut v = chars_of(error);
            extend(&mut v, chars_of("; ").as_slice());
            extend(&mut v, chars_of(g.as_str()).as_slice());
            string_of(v.as_slice())
        },
    }
}

/// What follows waiting for the overlay's window.
#[derive(Debug)]
pub struct AfterWait {
    /// Place the window (twice, a moment apart, as it settles).
    pub place: bool,
    /// What to tell the user.
    pub notice: Option<&'static str>,
    /// Give back a borrowed unit.
    pub give_back: bool,
    /// The exit status, when placing does not decide it.
    pub status: i32,
}

/// What follows waiting for the window: place it when it appeared; when the
/// viewer died, say there is no signal and give back the device; when it is
/// still waiting, say so and succeed.
pub fn after_wait(w: &WaitResult) -> (r: AfterWait)
    ensures
        w is Mapped ==> r.place && r.notice is None && !r.give_back && r.status == 0,
        w is Died ==> (!r.place && r.give_back && r.status == 1 && (r.notice matches Some(n) && n@
            == "Cam Link 4K receiving no HDMI signal. Power on the source and try again."@)),
        w is Timeout ==> (!r.place && !r.give_back && r.status == 0 && (r.notice matches Some(n) && n@
            == "Camera not outputting frames yet. mpv is waiting; overlay will appear when signal arrives."@)),
{
    match w {
        WaitResult::Mapped(_) => AfterWait { place: true, notice: None, give_back: false, status: 0 },
        WaitResult::Died => AfterWait {
            place: false,
            notice: Some("Cam Link 4K receiving no HDMI signal. Power on the source and try again."),
            give_back: true,
            status: 1,
        },
        WaitResult::Timeout => AfterWait {
            place: false,
            notice: Some("Camera not outputting frames yet. mpv is waiting; overlay will appear when signal arrives."),
            give_back: false,
            status: 0,
        },
    }
}

} // verus!
