//! Where the overlay goes, in plain `i32` arithmetic: a corner of the usable
//! screen or of the OBS capture region, the whole of it, or a pinned rectangle.
use vstd::prelude::*;
use crate::arith::fits_i32;
use crate::camctl::config::Config;
use crate::camlink::hypr::Monitor;
use crate::camlink::obs::Region;
use crate::rect_text::{rect_fields, rect_fields_of, rect_text, render_rect, lemma_rect_text_fields, size_fields, size_fields_of, geometry_fields, geometry_fields_of};
use crate::text::chars_of;
use crate::words::same;

verus! {

/// A window's position and size, in logical pixels.
#[derive(Debug, Clone, Copy, PartialEq, Eq, Structural)]
pub struct Placement {
    pub x: i32,
    pub y: i32,
    pub w: i32,
    pub h: i32,
}

/// The edges of the area the overlay may use: the OBS region when there is
/// one, else the monitor less its reserved space.
pub open spec fn area(mon: Monitor, obs: Option<Region>) -> (int, int, int, int) {
    match obs {
        Some(r) => (r.x as int, r.y as int, r.x + r.w, r.y + r.h),
        None => (
            mon.x + mon.reserved[0],
            mon.y + mon.reserved[1],
            mon.x + mon.logical_width - mon.reserved[2],
            mon.y + mon.logical_height - mon.reserved[3],
        ),
    }
}

/// Every step of working out the area stays within `i32`.
pub open spec fn area_fits(mon: Monitor, obs: Option<Region>) -> bool {
    let a = area(mon, obs);
    &&& fits_i32(a.0)
    &&& fits_i32(a.1)
    &&& fits_i32(a.2)
    &&& fits_i32(a.3)
    &&& obs is None ==> fits_i32(mon.x + mon.logical_width) && fits_i32(mon.y + mon.logical_height)
}

/// Every step of placing the overlay stays within `i32`.
pub open spec fn placement_fits(
    cfg: Config,
    mon: Monitor,
    position: Seq<char>,
    fullscreen: bool,
    obs: Option<Region>,
) -> bool {
    let a = area(mon, obs);
    let w = cfg.size[0] as i32 as int;
    let h = cfg.size[1] as i32 as int;
    let m = cfg.margin as i32 as int;
    &&& area_fits(mon, obs)
    &&& (parse_rect_spec(position) is Some && !fullscreen) || (fullscreen && fits_i32(a.2 - a.0)
        && fits_i32(a.3 - a.1)) || (!fullscreen && (if position == "top-left"@ {
        fits_i32(a.0 + m) && fits_i32(a.1 + m)
    } else if position == "top-right"@ {
        fits_i32(a.2 - w) && fits_i32(a.2 - w - m) && fits_i32(a.1 + m)
    } else if position == "bottom-left"@ {
        fits_i32(a.0 + m) && fits_i32(a.3 - h) && fits_i32(a.3 - h - m)
    } else {
        fits_i32(a.2 - w) && fits_i32(a.2 - w - m) && fits_i32(a.3 - h) && fits_i32(a.3 - h - m)
    }))
}

pub open spec fn placement_spec(
    cfg: Config,
    mon: Monitor,
    position: Seq<char>,
    fullscreen: bool,
    obs: Option<Region>,
) -> Placement {
    let a = area(mon, obs);
    let w = cfg.size[0] as i32 as int;
    let h = cfg.size[1] as i32 as int;
    let m = cfg.margin as i32 as int;
    if parse_rect_spec(position) is Some && !fullscreen {
        parse_rect_spec(position)->0
    } else if fullscreen {
        Placement { x: a.0 as i32, y: a.1 as i32, w: (a.2 - a.0) as i32, h: (a.3 - a.1) as i32 }
    } else {
        let (x, y) = if position == "top-left"@ {
            (a.0 + m, a.1 + m)
        } else if position == "top-right"@ {
            (a.2 - w - m, a.1 + m)
        } else if position == "bottom-left"@ {
            (a.0 + m, a.3 - h - m)
        } else {
            (a.2 - w - m, a.3 - h - m)
        };
        Placement { x: x as i32, y: y as i32, w: w as i32, h: h as i32 }
    }
}

pub fn usable_from_monitor(mon: &Monitor) -> (r: (i32, i32, i32, i32))
    requires
        area_fits(*mon, None),
    ensures
        (r.0 as int, r.1 as int, r.2 as int, r.3 as int) == area(*mon, None),
{
    (
        mon.x + mon.reserved[0],
        mon.y + mon.reserved[1],
        mon.x + mon.logical_width - mon.reserved[2],
        mon.y + mon.logical_height - mon.reserved[3],
    )
}

/// The overlay's placement: a pinned rectangle as it is, the whole area when
/// fullscreen, or a corner of the area `margin` in from its edges.
pub fn placement(
    cfg: &Config,
    mon: &Monitor,
    position: &str,
    fullscreen: bool,
    obs_region: Option<Region>,
) -> (r: Placement)
    requires
        placement_fits(*cfg, *mon, position@, fullscreen, obs_region),
    ensures
        r == placement_spec(*cfg, *mon, position@, fullscreen, obs_region),
{
    let usable = match obs_region {
        Some(r) => (r.x, r.y, r.x + r.w, r.y + r.h),
        None => usable_from_monitor(mon),
    };
    if let Some(rect) = parse_rect(position) {
        if !fullscreen {
            return rect;
        }
    }
    if fullscreen {
        return Placement {
            x: usable.0,
            y: usable.1,
            w: usable.2 - usable.0,
            h: usable.3 - usable.1,
        };
    }
    let w = cfg.size[0] as i32;
    let h = cfg.size[1] as i32;
    let m = cfg.margin as i32;
    let p = chars_of(position);
    let (x, y) = if same(p.as_slice(), chars_of("top-left").as_slice()) {
        (usable.0 + m, usable.1 + m)
    } else if same(p.as_slice(), chars_of("top-right").as_slice()) {
        (usable.2 - w - m, usable.1 + m)
    } else if same(p.as_slice(), chars_of("bottom-left").as_slice()) {
        (usable.0 + m, usable.3 - h - m)
    } else {
        (usable.2 - w - m, usable.3 - h - m)
    };
    Placement { x, y, w, h }
}

/// A panel hanging from the bar at the right edge, given only its size.
pub fn panel_rect(mon: &Monitor, w: i32, h: i32) -> (r: Placement)
    requires
        area_fits(*mon, None),
        fits_i32(area(*mon, None).2 - w),
    ensures
        r == (Placement {
            x: (area(*mon, None).2 - w) as i32,
            y: area(*mon, None).1 as i32,
            w,
            h,
        }),
{
    let usable = usable_from_monitor(mon);
    Placement { x: usable.2 - w, y: usable.1, w, h }
}

pub open spec fn overlaps_spec(a: Placement, b: Placement) -> bool {
    a.x < b.x + b.w && b.x < a.x + a.w && a.y < b.y + b.h && b.y < a.y + a.h
}

pub open spec fn edges_fit(a: Placement) -> bool {
    fits_i32(a.x + a.w) && fits_i32(a.y + a.h)
}

pub fn overlaps(a: &Placement, b: &Placement) -> (r: bool)
    requires
        edges_fit(*a),
        edges_fit(*b),
    ensures
        r == overlaps_spec(*a, *b),
{
    a.x < b.x + b.w && b.x < a.x + a.w && a.y < b.y + b.h && b.y < a.y + a.h
}

/// Where the overlay slides to clear a blocker: to its left when that stays on
/// the usable screen, else below it when that fits, else to the left edge.
pub open spec fn dodge_spec(o: Placement, b: Placement, mon: Monitor, margin: int) -> Option<Placement> {
    let u = area(mon, None);
    if !overlaps_spec(o, b) {
        None
    } else if b.x - o.w - margin >= u.0 {
        Some(Placement { x: (b.x - o.w - margin) as i32, ..o })
    } else if b.y + b.h + margin + o.h <= u.3 {
        Some(Placement { y: (b.y + b.h + margin) as i32, ..o })
    } else {
        Some(Placement { x: (u.0 + margin) as i32, ..o })
    }
}

/// Every step of dodging stays within `i32`.
pub open spec fn dodge_fits(o: Placement, b: Placement, mon: Monitor, margin: int) -> bool {
    let u = area(mon, None);
    &&& edges_fit(o)
    &&& edges_fit(b)
    &&& area_fits(mon, None)
    &&& fits_i32(b.x - o.w)
    &&& fits_i32(b.x - o.w - margin)
    &&& fits_i32(b.y + b.h + margin)
    &&& fits_i32(b.y + b.h + margin + o.h)
    &&& fits_i32(u.0 + margin)
}

/// Slides the overlay clear of `blocker`, preferring to move left because a
/// panel occupies a full-height column. None when it already misses the
/// blocker, so the caller can leave a position the user chose alone.
pub fn dodge(overlay: &Placement, blocker: &Placement, mon: &Monitor, margin: i32) -> (r: Option<Placement>)
    requires
        dodge_fits(*overlay, *blocker, *mon, margin as int),
    ensures
        r == dodge_spec(*overlay, *blocker, *mon, margin as int),
        !overlaps_spec(*overlay, *blocker) ==> r is None,
{
    if !overlaps(overlay, blocker) {
        return None;
    }
    let usable = usable_from_monitor(mon);
    let left = blocker.x - overlay.w - margin;
    if left >= usable.0 {
        return Some(Placement { x: left, ..*overlay });
    }
    let below = blocker.y + blocker.h + margin;
    if below + overlay.h <= usable.3 {
        return Some(Placement { y: below, ..*overlay });
    }
    Some(Placement { x: usable.0 + margin, ..*overlay })
}

/// A persisted rectangle: four numbers after "rect:" and a positive size.
pub open spec fn parse_rect_spec(position: Seq<char>) -> Option<Placement> {
    match rect_fields(position) {
        Some((x, y, w, h)) => if w > 0 && h > 0 {
            Some(Placement { x, y, w, h })
        } else {
            None
        },
        None => None,
    }
}

/// Reads a pinned rectangle back out of the persisted position.
pub fn parse_rect(position: &str) -> (r: Option<Placement>)
    ensures
        r == parse_rect_spec(position@),
{
    match rect_fields_of(position) {
        Some((x, y, w, h)) => if w > 0 && h > 0 {
            Some(Placement { x, y, w, h })
        } else {
            None
        },
        None => None,
    }
}

/// Renders a placement back into the persisted "rect:X,Y,W,H" form.
pub fn rect_to_position(p: &Placement) -> (r: String)
    ensures
        r@ == rect_text(p.x as int, p.y as int, p.w as int, p.h as int),
{
    render_rect(p.x, p.y, p.w, p.h)
}

/// A rectangle with a positive size reads back as itself.
pub proof fn lemma_rect_round_trip(p: Placement)
    requires
        p.w > 0,
        p.h > 0,
    ensures
        parse_rect_spec(rect_text(p.x as int, p.y as int, p.w as int, p.h as int)) == Some(p),
{
    lemma_rect_text_fields(p.x, p.y, p.w, p.h);
}

/// Reads a bare "WxH" size.
pub fn size_from_text(text: &str) -> (r: Option<(i32, i32)>)
    ensures
        r == (match size_fields(text@) {
            Some((w, h)) => if w > 0 && h > 0 {
                Some((w, h))
            } else {
                None
            },
            None => None,
        }),
{
    match size_fields_of(text) {
        Some((w, h)) => if w > 0 && h > 0 {
            Some((w, h))
        } else {
            None
        },
        None => None,
    }
}

/// Normalises slurp's "X,Y WxH" into the persisted "rect:X,Y,W,H" form.
pub fn rect_from_geometry(geometry: &str) -> (r: Option<String>)
    ensures
        match geometry_fields(geometry@) {
            Some((x, y, w, h)) => if w > 0 && h > 0 {
                r matches Some(s) && s@ == rect_text(x as int, y as int, w as int, h as int)
            } else {
                r is None
            },
            None => r is None,
        },
        r matches Some(s) ==> parse_rect_spec(s@) is Some,
{
    match geometry_fields_of(geometry) {
        Some((x, y, w, h)) => {
            if w > 0 && h > 0 {
                proof {
                    lemma_rect_round_trip(Placement { x, y, w, h });
                }
                Some(render_rect(x, y, w, h))
            } else {
                None
            }
        },
        None => None,
    }
}

} // verus!
