//! Where the overlay goes: a corner of the usable screen, the whole of it,
//! or a rectangle the user pinned, always kept on screen; and how it slides
//! clear of a panel.
use vstd::prelude::*;
use crate::arith::{
    sat, imin, imax, clamp, fits_i32, sat_add, sat_sub, min_i32, max_i32, clamp_i32,
    u32_to_i32_or_max, checked_add_i32,
};
use crate::camctl::config::Config;
use crate::camlink::hypr::Monitor;
use crate::camlink::obs::Region;
use crate::rect_text::{rect_fields, rect_fields_of, rect_text, render_rect, lemma_rect_text_fields, size_fields, size_fields_of, geometry_fields, geometry_fields_of};
use crate::text::chars_of;
use crate::words::same;

verus! {

/// A window's position and size, in logical pixels.
#[derive(Debug, Clone, Copy, PartialEq, Eq, Structural)]
pub struct Placement {
    pub x: i32,
    pub y: i32,
    pub w: i32,
    pub h: i32,
}

/// An area of the desktop by its edges.
#[derive(Debug, Clone, Copy, PartialEq, Eq, Structural)]
pub struct Rect {
    pub left: i32,
    pub top: i32,
    pub right: i32,
    pub bottom: i32,
}

/// A monitor whose geometry the placement arithmetic can work with: it has
/// an area (its far edges saturate at the end of the range), the start of
/// its usable area is below the end of the range (at the very end the usable
/// area could not be placed in), and the width and height of its usable area
/// are representable.
pub open spec fn monitor_fits(m: Monitor) -> bool {
    &&& m.logical_width >= 1
    &&& m.logical_height >= 1
    &&& m.x + m.reserved[0] < i32::MAX
    &&& m.y + m.reserved[1] < i32::MAX
    &&& fits_i32(usable_spec(m).right - usable_spec(m).left)
    &&& fits_i32(usable_spec(m).bottom - usable_spec(m).top)
}

pub open spec fn monitor_rect_spec(m: Monitor) -> Rect {
    Rect {
        left: m.x,
        top: m.y,
        right: sat(m.x + m.logical_width) as i32,
        bottom: sat(m.y + m.logical_height) as i32,
    }
}

/// The monitor less the space layer-shell surfaces reserve; never empty.
pub open spec fn usable_spec(m: Monitor) -> Rect {
    let s = monitor_rect_spec(m);
    let l = sat(s.left + m.reserved[0]);
    let t = sat(s.top + m.reserved[1]);
    Rect {
        left: l as i32,
        top: t as i32,
        right: imax(sat(s.right - m.reserved[2]), sat(l + 1)) as i32,
        bottom: imax(sat(s.bottom - m.reserved[3]), sat(t + 1)) as i32,
    }
}

pub open spec fn rect_width(r: Rect) -> int {
    imax(r.right - r.left, 1)
}

pub open spec fn rect_height(r: Rect) -> int {
    imax(r.bottom - r.top, 1)
}

/// The overlap of two areas, when they have one.
pub open spec fn intersection_spec(a: Rect, b: Rect) -> Option<Rect> {
    let out = Rect {
        left: imax(a.left as int, b.left as int) as i32,
        top: imax(a.top as int, b.top as int) as i32,
        right: imin(a.right as int, b.right as int) as i32,
        bottom: imin(a.bottom as int, b.bottom as int) as i32,
    };
    if out.right > out.left && out.bottom > out.top {
        Some(out)
    } else {
        None
    }
}

pub open spec fn region_rect(r: Region) -> Rect {
    Rect { left: r.x, top: r.y, right: sat(r.x + r.w) as i32, bottom: sat(r.y + r.h) as i32 }
}

/// The area the overlay may use: the usable screen, cut down to the OBS
/// capture region when there is one and it meets the screen.
pub open spec fn usable_area(m: Monitor, obs: Option<Region>) -> Rect {
    let screen = usable_spec(m);
    match obs {
        Some(r) => match intersection_spec(screen, region_rect(r)) {
            Some(i) => i,
            None => screen,
        },
        None => screen,
    }
}

/// A rectangle lies inside an area.
pub open spec fn inside(p: Placement, b: Rect) -> bool {
    &&& p.x >= b.left
    &&& p.y >= b.top
    &&& p.x + p.w <= b.right
    &&& p.y + p.h <= b.bottom
    &&& p.w >= 1
    &&& p.h >= 1
}

/// A pinned rectangle moved and shrunk as little as it takes to lie inside
/// the bounds.
pub open spec fn keep_visible_spec(rect: Placement, b: Rect) -> Placement {
    if rect.x >= b.left && rect.y >= b.top && sat(rect.x + rect.w) <= b.right && sat(rect.y + rect.h)
        <= b.bottom {
        rect
    } else {
        let w = imax(imin(rect.w as int, rect_width(b)), 1);
        let h = imax(imin(rect.h as int, rect_height(b)), 1);
        Placement {
            x: clamp(rect.x as int, b.left as int, b.right - w) as i32,
            y: clamp(rect.y as int, b.top as int, b.bottom - h) as i32,
            w: w as i32,
            h: h as i32,
        }
    }
}

/// Where a corner puts a window of width `w` and height `h`, `m` in from the edges.
pub open spec fn corner_spot(position: Seq<char>, u: Rect, w: int, h: int, m: int) -> (int, int) {
    if position == "top-left"@ {
        (sat(u.left + m), sat(u.top + m))
    } else if position == "top-right"@ {
        (sat(sat(u.right - w) - m), sat(u.top + m))
    } else if position == "bottom-left"@ {
        (sat(u.left + m), sat(sat(u.bottom - h) - m))
    } else {
        (sat(sat(u.right - w) - m), sat(sat(u.bottom - h) - m))
    }
}

/// The overlay's placement on a monitor, for its persisted position.
pub open spec fn placement_spec(
    cfg: Config,
    mon: Monitor,
    position: Seq<char>,
    fullscreen: bool,
    obs: Option<Region>,
) -> Placement {
    let u = usable_area(mon, obs);
    if parse_rect_spec(position) is Some && !fullscreen {
        keep_visible_spec(parse_rect_spec(position)->0, monitor_rect_spec(mon))
    } else if fullscreen {
        Placement { x: u.left, y: u.top, w: (u.right - u.left) as i32, h: (u.bottom - u.top) as i32 }
    } else {
        let w = imax(imin(imin(cfg.size[0] as int, i32::MAX as int), rect_width(u)), 1);
        let h = imax(imin(imin(cfg.size[1] as int, i32::MAX as int), rect_height(u)), 1);
        let m = imin(cfg.margin as int, i32::MAX as int);
        let spot = corner_spot(position, u, w, h, m);
        Placement {
            x: clamp(spot.0, u.left as int, u.right - w) as i32,
            y: clamp(spot.1, u.top as int, u.bottom - h) as i32,
            w: w as i32,
            h: h as i32,
        }
    }
}

/// The persisted rectangle in a position, when it is one: four numbers, a
/// positive size, and right and bottom edges that are representable.
pub open spec fn parse_rect_spec(position: Seq<char>) -> Option<Placement> {
    match rect_fields(position) {
        Some((x, y, w, h)) => if w > 0 && h > 0 && fits_i32(x + w) && fits_i32(y + h) {
            Some(Placement { x, y, w, h })
        } else {
            None
        },
        None => None,
    }
}

impl Rect {
    pub fn width(self) -> (r: i32)
        requires
            fits_i32(self.right - self.left),
        ensures
            r as int == rect_width(self),
    {
        max_i32(self.right - self.left, 1)
    }

    pub fn height(self) -> (r: i32)
        requires
            fits_i32(self.bottom - self.top),
        ensures
            r as int == rect_height(self),
    {
        max_i32(self.bottom - self.top, 1)
    }

    pub fn intersection(self, other: Rect) -> (r: Option<Rect>)
        ensures
            r == intersection_spec(self, other),
    {
        let out = Rect {
            left: max_i32(self.left, other.left),
            top: max_i32(self.top, other.top),
            right: min_i32(self.right, other.right),
            bottom: min_i32(self.bottom, other.bottom),
        };
        if out.right > out.left && out.bottom > out.top {
            Some(out)
        } else {
            None
        }
    }
}

pub fn monitor_rect(mon: &Monitor) -> (r: Rect)
    ensures
        r == monitor_rect_spec(*mon),
{
    Rect {
        left: mon.x,
        top: mon.y,
        right: sat_add(mon.x, mon.logical_width),
        bottom: sat_add(mon.y, mon.logical_height),
    }
}

pub fn usable_from_monitor(mon: &Monitor) -> (r: Rect)
    ensures
        r == usable_spec(*mon),
{
    let screen = monitor_rect(mon);
    let l = sat_add(screen.left, mon.reserved[0]);
    let t = sat_add(screen.top, mon.reserved[1]);
    Rect {
        left: l,
        top: t,
        right: max_i32(sat_sub(screen.right, mon.reserved[2]), sat_add(l, 1)),
        bottom: max_i32(sat_sub(screen.bottom, mon.reserved[3]), sat_add(t, 1)),
    }
}

/// Whether the placement arithmetic can work with a monitor's geometry.
pub fn geometry_fits(mon: &Monitor) -> (r: bool)
    ensures
        r == monitor_fits(*mon),
{
    let max: i64 = i32::MAX as i64;
    let min: i64 = i32::MIN as i64;
    if !(mon.logical_width >= 1 && mon.logical_height >= 1 && (mon.x as i64 + mon.reserved[0] as i64)
        < max && (mon.y as i64 + mon.reserved[1] as i64) < max) {
        return false;
    }
    let u = usable_from_monitor(mon);
    let w: i64 = u.right as i64 - u.left as i64;
    let h: i64 = u.bottom as i64 - u.top as i64;
    min <= w && w <= max && min <= h && h <= max
}

/// On a monitor that fits, the usable area is non-empty and its size is
/// representable.
pub proof fn lemma_usable_bounds(mon: Monitor)
    requires
        monitor_fits(mon),
    ensures
        usable_spec(mon).right > usable_spec(mon).left,
        usable_spec(mon).bottom > usable_spec(mon).top,
        fits_i32(usable_spec(mon).right - usable_spec(mon).left),
        fits_i32(usable_spec(mon).bottom - usable_spec(mon).top),
        mon.x < i32::MAX ==> 0 < monitor_rect_spec(mon).right - monitor_rect_spec(mon).left
            <= mon.logical_width,
        mon.y < i32::MAX ==> 0 < monitor_rect_spec(mon).bottom - monitor_rect_spec(mon).top
            <= mon.logical_height,
{
}

/// Whether a pinned rectangle can be kept on the monitor: when the position
/// pins one (and the overlay is not fullscreen), the monitor's left and top
/// edges are below the end of the range, so that it keeps at least a pixel.
pub open spec fn pin_fits(mon: Monitor, position: Seq<char>, fullscreen: bool) -> bool {
    parse_rect_spec(position) is Some && !fullscreen ==> mon.x < i32::MAX && mon.y < i32::MAX
}

/// Whether a pinned rectangle in `position` can be kept on the monitor.
pub fn pinned_fits(mon: &Monitor, position: &str, fullscreen: bool) -> (r: bool)
    ensures
        r == pin_fits(*mon, position@, fullscreen),
{
    match parse_rect(position) {
        Some(_) => fullscreen || (mon.x < i32::MAX && mon.y < i32::MAX),
        None => true,
    }
}

/// A pinned rectangle, moved back on screen if a display change left it off.
pub fn keep_visible(rect: Placement, bounds: Rect) -> (r: Placement)
    requires
        bounds.right > bounds.left,
        bounds.bottom > bounds.top,
        fits_i32(bounds.right - bounds.left),
        fits_i32(bounds.bottom - bounds.top),
    ensures
        r == keep_visible_spec(rect, bounds),
        rect.w >= 1 && rect.h >= 1 && fits_i32(rect.x + rect.w) && fits_i32(rect.y + rect.h)
            ==> inside(r, bounds),
{
    if rect.x >= bounds.left && rect.y >= bounds.top && sat_add(rect.x, rect.w) <= bounds.right
        && sat_add(rect.y, rect.h) <= bounds.bottom {
        return rect;
    }
    let w = max_i32(min_i32(rect.w, bounds.width()), 1);
    let h = max_i32(min_i32(rect.h, bounds.height()), 1);
    Placement {
        x: clamp_i32(rect.x, bounds.left, bounds.right - w),
        y: clamp_i32(rect.y, bounds.top, bounds.bottom - h),
        w,
        h,
    }
}

/// The overlay's placement: a persisted rectangle (kept on the monitor), the
/// whole usable area when fullscreen, or a corner of it, `margin` in from the
/// edges and never larger than the area.
#[verifier::spinoff_prover]
#[verifier::rlimit(40)]
pub fn placement(
    cfg: &Config,
    mon: &Monitor,
    position: &str,
    fullscreen: bool,
    obs_region: Option<Region>,
) -> (r: Placement)
    requires
        monitor_fits(*mon),
        pin_fits(*mon, position@, fullscreen),
    ensures
        r == placement_spec(*cfg, *mon, position@, fullscreen, obs_region),
        parse_rect_spec(position@) is Some && !fullscreen ==> inside(r, monitor_rect_spec(*mon)),
        !(parse_rect_spec(position@) is Some && !fullscreen) ==> inside(
            r,
            usable_area(*mon, obs_region),
        ),
{
    proof {
        lemma_usable_bounds(*mon);
    }
    let screen = usable_from_monitor(mon);
    let usable = match obs_region {
        Some(r) => {
            let area = Rect {
                left: r.x,
                top: r.y,
                right: sat_add(r.x, r.w),
                bottom: sat_add(r.y, r.h),
            };
            match screen.intersection(area) {
                Some(i) => i,
                None => screen,
            }
        },
        None => screen,
    };
    assert(usable == usable_area(*mon, obs_region));
    if let Some(rect) = parse_rect(position) {
        if !fullscreen {
            return keep_visible(rect, monitor_rect(mon));
        }
    }
    if fullscreen {
        return Placement {
            x: usable.left,
            y: usable.top,
            w: usable.right - usable.left,
            h: usable.bottom - usable.top,
        };
    }
    let w = max_i32(min_i32(u32_to_i32_or_max(cfg.size[0]), usable.width()), 1);
    let h = max_i32(min_i32(u32_to_i32_or_max(cfg.size[1]), usable.height()), 1);
    let m = u32_to_i32_or_max(cfg.margin);
    let p = chars_of(position);
    let (wanted_x, wanted_y) = if same(p.as_slice(), chars_of("top-left").as_slice()) {
        (sat_add(usable.left, m), sat_add(usable.top, m))
    } else if same(p.as_slice(), chars_of("top-right").as_slice()) {
        (sat_sub(sat_sub(usable.right, w), m), sat_add(usable.top, m))
    } else if same(p.as_slice(), chars_of("bottom-left").as_slice()) {
        (sat_add(usable.left, m), sat_sub(sat_sub(usable.bottom, h), m))
    } else {
        (sat_sub(sat_sub(usable.right, w), m), sat_sub(sat_sub(usable.bottom, h), m))
    };
    let x = clamp_i32(wanted_x, usable.left, usable.right - w);
    let y = clamp_i32(wanted_y, usable.top, usable.bottom - h);
    Placement { x, y, w, h }
}

/// A panel hanging from the bar at the right edge, given only its size.
pub open spec fn panel_rect_spec(mon: Monitor, w: int, h: int) -> Placement {
    let u = usable_spec(mon);
    let w2 = imax(imin(w, rect_width(u)), 1);
    let h2 = imax(imin(h, rect_height(u)), 1);
    Placement { x: (u.right - w2) as i32, y: u.top, w: w2 as i32, h: h2 as i32 }
}

pub fn panel_rect(mon: &Monitor, w: i32, h: i32) -> (r: Placement)
    requires
        monitor_fits(*mon),
    ensures
        r == panel_rect_spec(*mon, w as int, h as int),
        inside(r, usable_spec(*mon)),
{
    proof {
        lemma_usable_bounds(*mon);
    }
    let usable = usable_from_monitor(mon);
    let w = max_i32(min_i32(w, usable.width()), 1);
    let h = max_i32(min_i32(h, usable.height()), 1);
    Placement { x: usable.right - w, y: usable.top, w, h }
}

/// Two rectangles share some area.
pub open spec fn overlaps_spec(a: Placement, b: Placement) -> bool {
    &&& a.x < sat(b.x + b.w)
    &&& b.x < sat(a.x + a.w)
    &&& a.y < sat(b.y + b.h)
    &&& b.y < sat(a.y + a.h)
}

pub fn overlaps(a: &Placement, b: &Placement) -> (r: bool)
    ensures
        r == overlaps_spec(*a, *b),
{
    a.x < sat_add(b.x, b.w) && b.x < sat_add(a.x, a.w) && a.y < sat_add(b.y, b.h) && b.y < sat_add(
        a.y,
        a.h,
    )
}

/// The four places the overlay may slide to, in the order they are tried:
/// left of the blocker, right of it, below it, above it.
pub open spec fn dodge_candidates(o: Placement, b: Placement, margin: int) -> Seq<Placement> {
    seq![
        Placement { x: sat(sat(b.x - o.w) - margin) as i32, ..o },
        Placement { x: sat(sat(b.x + b.w) + margin) as i32, ..o },
        Placement { y: sat(sat(b.y + b.h) + margin) as i32, ..o },
        Placement { y: sat(sat(b.y - o.h) - margin) as i32, ..o },
    ]
}

/// A place the overlay may take: on the usable screen and clear of the blocker.
pub open spec fn clear_spot(p: Placement, b: Placement, u: Rect) -> bool {
    &&& p.x >= u.left
    &&& p.y >= u.top
    &&& sat(p.x + p.w) <= u.right
    &&& sat(p.y + p.h) <= u.bottom
    &&& !overlaps_spec(p, b)
}

/// The first candidate spot that is clear, or none.
pub open spec fn first_clear(c: Seq<Placement>, b: Placement, u: Rect) -> Option<Placement>
    decreases c.len(),
{
    if c.len() == 0 {
        None
    } else if clear_spot(c[0], b, u) {
        Some(c[0])
    } else {
        first_clear(c.drop_first(), b, u)
    }
}

pub open spec fn dodge_spec(o: Placement, b: Placement, mon: Monitor, margin: int) -> Option<Placement> {
    if !overlaps_spec(o, b) {
        None
    } else {
        first_clear(dodge_candidates(o, b, margin), b, usable_spec(mon))
    }
}

proof fn lemma_first_clear(c: Seq<Placement>, b: Placement, u: Rect)
    ensures
        first_clear(c, b, u) matches Some(p) ==> clear_spot(p, b, u) && c.contains(p),
    decreases c.len(),
{
    if c.len() > 0 && !clear_spot(c[0], b, u) {
        lemma_first_clear(c.drop_first(), b, u);
        if first_clear(c, b, u) is Some {
            let p = first_clear(c, b, u)->0;
            let i = choose|i: int| 0 <= i < c.drop_first().len() && c.drop_first()[i] == p;
            assert(c[i + 1] == p);
        }
    } else if c.len() > 0 {
        assert(c[0] == c[0]);
    }
}

/// Slides the overlay clear of `blocker`: to its left, right, below or above,
/// whichever is first to fit on the usable screen without touching it. None
/// when the overlay already misses the blocker, so a position the user chose
/// is left alone, and none when no spot fits.
pub fn dodge(overlay: &Placement, blocker: &Placement, mon: &Monitor, margin: i32) -> (r: Option<Placement>)
    ensures
        r == dodge_spec(*overlay, *blocker, *mon, margin as int),
        !overlaps_spec(*overlay, *blocker) ==> r is None,
        r matches Some(p) ==> !overlaps_spec(p, *blocker) && p.w == overlay.w && p.h == overlay.h
            && (p.x == overlay.x || p.y == overlay.y) && clear_spot(p, *blocker, usable_spec(*mon)),
{
    if !overlaps(overlay, blocker) {
        return None;
    }
    let usable = usable_from_monitor(mon);
    let ghost c = dodge_candidates(*overlay, *blocker, margin as int);
    let candidates = [
        Placement { x: sat_sub(sat_sub(blocker.x, overlay.w), margin), ..*overlay },
        Placement { x: sat_add(sat_add(blocker.x, blocker.w), margin), ..*overlay },
        Placement { y: sat_add(sat_add(blocker.y, blocker.h), margin), ..*overlay },
        Placement { y: sat_sub(sat_sub(blocker.y, overlay.h), margin), ..*overlay },
    ];
    assert(candidates@ =~= c);
    proof {
        lemma_first_clear(c, *blocker, usable);
    }
    assert(c.skip(0) =~= c);
    let mut i: usize = 0;
    while i < 4
        invariant
            i <= 4,
            candidates@ == c,
            usable == usable_spec(*mon),
            c == dodge_candidates(*overlay, *blocker, margin as int),
            overlaps_spec(*overlay, *blocker),
            first_clear(c, *blocker, usable) == first_clear(c.skip(i as int), *blocker, usable),
        decreases 4 - i,
    {
        let p = candidates[i];
        assert(c.skip(i as int)[0] == p);
        assert(c.skip(i as int).drop_first() =~= c.skip(i + 1));
        if p.x >= usable.left && p.y >= usable.top && sat_add(p.x, p.w) <= usable.right && sat_add(
            p.y,
            p.h,
        ) <= usable.bottom && !overlaps(&p, blocker) {
            return Some(p);
        }
        i += 1;
    }
    assert(c.skip(4).len() == 0);
    None
}

/// A corner position names no pinned rectangle.
proof fn lemma_corner_not_pinned(position: Seq<char>)
    requires
        position == "top-left"@ || position == "top-right"@ || position == "bottom-left"@ || position
            == "bottom-right"@,
    ensures
        parse_rect_spec(position) is None,
{
    reveal_strlit("top-left");
    reveal_strlit("top-right");
    reveal_strlit("bottom-left");
    reveal_strlit("bottom-right");
    reveal_strlit("rect:");
    assert(position.take(5)[0] != "rect:"@[0]);
    assert(!crate::words::starts_with(position, "rect:"@));
}

/// At a corner, when the overlay fits with its margin on both sides, it
/// keeps its configured size and sits `margin` in from the two edges of the
/// usable area that meet at that corner: the top edge `margin` below the
/// usable top for the top corners, the bottom edge `margin` above the usable
/// bottom for the bottom ones, and likewise the left or right edge.
pub proof fn lemma_corner_placement(
    cfg: Config,
    mon: Monitor,
    position: Seq<char>,
    obs: Option<Region>,
)
    requires
        monitor_fits(mon),
        position == "top-left"@ || position == "top-right"@ || position == "bottom-left"@ || position
            == "bottom-right"@,
        cfg.size[0] >= 1,
        cfg.size[1] >= 1,
        usable_area(mon, obs).left + cfg.size[0] + 2 * cfg.margin <= usable_area(mon, obs).right,
        usable_area(mon, obs).top + cfg.size[1] + 2 * cfg.margin <= usable_area(mon, obs).bottom,
    ensures
        ({
            let u = usable_area(mon, obs);
            let r = placement_spec(cfg, mon, position, false, obs);
            let m = cfg.margin as int;
            &&& r.w == cfg.size[0]
            &&& r.h == cfg.size[1]
            &&& (position == "top-left"@ || position == "bottom-left"@) ==> r.x == u.left + m
            &&& (position == "top-right"@ || position == "bottom-right"@) ==> r.x + r.w == u.right - m
            &&& (position == "top-left"@ || position == "top-right"@) ==> r.y == u.top + m
            &&& (position == "bottom-left"@ || position == "bottom-right"@) ==> r.y + r.h == u.bottom - m
        }),
{
    lemma_corner_not_pinned(position);
    reveal_strlit("top-left");
    reveal_strlit("top-right");
    reveal_strlit("bottom-left");
    reveal_strlit("bottom-right");
    assert("top-left"@.len() == 8 && "top-right"@.len() == 9);
    assert("bottom-left"@.len() == 11 && "bottom-right"@.len() == 12);
}

/// Fullscreen, the overlay covers exactly the area it may use.
pub proof fn lemma_fullscreen_placement(cfg: Config, mon: Monitor, position: Seq<char>, obs: Option<Region>)
    requires
        monitor_fits(mon),
    ensures
        ({
            let u = usable_area(mon, obs);
            let r = placement_spec(cfg, mon, position, true, obs);
            &&& r.x == u.left
            &&& r.y == u.top
            &&& r.x + r.w == u.right
            &&& r.y + r.h == u.bottom
        }),
{
    lemma_usable_bounds(mon);
}

/// A pinned rectangle that lies on the monitor is kept as it is.
pub proof fn lemma_pinned_kept(cfg: Config, mon: Monitor, position: Seq<char>, obs: Option<Region>, p: Placement)
    requires
        parse_rect_spec(position) == Some(p),
        p.x >= mon.x,
        p.y >= mon.y,
        p.x + p.w <= mon.x + mon.logical_width,
        p.y + p.h <= mon.y + mon.logical_height,
    ensures
        placement_spec(cfg, mon, position, false, obs) == p,
{
}

/// Whatever spot the overlay slides to keeps its size and sits next to the
/// blocker, `margin` away from it: just left of it or just right of it in
/// the same row, or just below it or just above it in the same column.
pub proof fn lemma_dodge_adjacent(o: Placement, b: Placement, mon: Monitor, margin: int)
    requires
        fits_i32(b.x - o.w - margin),
        fits_i32(b.x + b.w + margin),
        fits_i32(b.y + b.h + margin),
        fits_i32(b.y - o.h - margin),
        o.w >= 0,
        o.h >= 0,
        b.w >= 0,
        b.h >= 0,
        margin >= 0,
    ensures
        dodge_spec(o, b, mon, margin) matches Some(p) ==> p.w == o.w && p.h == o.h && ((p.y == o.y && (p.x + p.w
            == b.x - margin || p.x == b.x + b.w + margin)) || (p.x == o.x && (p.y == b.y + b.h + margin || p.y
            + p.h == b.y - margin))),
{
    let c = dodge_candidates(o, b, margin);
    lemma_first_clear(c, b, usable_spec(mon));
    if dodge_spec(o, b, mon, margin) is Some {
        let p = dodge_spec(o, b, mon, margin)->0;
        let i = choose|i: int| 0 <= i < c.len() && c[i] == p;
        assert(c.len() == 4);
        if i == 0 {
            assert(p.x == b.x - o.w - margin);
        } else if i == 1 {
            assert(p.x == b.x + b.w + margin);
        } else if i == 2 {
            assert(p.y == b.y + b.h + margin);
        } else {
            assert(p.y == b.y - o.h - margin);
        }
    }
}

/// When the overlay lies on the blocker and the spot just left of it, ending
/// `margin` before the blocker's left edge, lies on the usable screen, the
/// overlay slides there, keeping its row and size.
pub proof fn lemma_dodge_left(o: Placement, b: Placement, mon: Monitor, margin: int)
    requires
        overlaps_spec(o, b),
        o.w >= 1,
        o.h >= 1,
        margin >= 0,
        b.x - o.w - margin >= usable_spec(mon).left,
        b.x - margin <= usable_spec(mon).right,
        o.y >= usable_spec(mon).top,
        o.y + o.h <= usable_spec(mon).bottom,
    ensures
        dodge_spec(o, b, mon, margin) == Some(Placement { x: (b.x - o.w - margin) as i32, ..o }),
{
    let c = dodge_candidates(o, b, margin);
    assert(c[0] == Placement { x: (b.x - o.w - margin) as i32, ..o });
}

/// When the overlay lies on the blocker, the spot left of it falls off the
/// left of the usable screen, and the spot just right of it, starting
/// `margin` after the blocker's right edge, lies on it, the overlay slides
/// there, keeping its row and size.
pub proof fn lemma_dodge_right(o: Placement, b: Placement, mon: Monitor, margin: int)
    requires
        overlaps_spec(o, b),
        o.w >= 1,
        o.h >= 1,
        margin >= 0,
        fits_i32(b.x - o.w - margin),
        b.x - o.w - margin < usable_spec(mon).left,
        b.x + b.w + margin >= usable_spec(mon).left,
        b.x + b.w + margin + o.w <= usable_spec(mon).right,
        b.w >= 0,
        o.y >= usable_spec(mon).top,
        o.y + o.h <= usable_spec(mon).bottom,
    ensures
        dodge_spec(o, b, mon, margin) == Some(Placement { x: (b.x + b.w + margin) as i32, ..o }),
{
    let c = dodge_candidates(o, b, margin);
    assert(c[1] == Placement { x: (b.x + b.w + margin) as i32, ..o });
    assert(c[0].x == b.x - o.w - margin);
    assert(!clear_spot(c[0], b, usable_spec(mon)));
    assert(c.drop_first()[0] == c[1]);
    assert(clear_spot(c[1], b, usable_spec(mon)));
    assert(first_clear(c.drop_first(), b, usable_spec(mon)) == Some(c[1]));
}

/// Reads a pinned rectangle back out of the persisted position, which holds
/// "rect:X,Y,W,H" when the overlay was placed by hand rather than by corner.
pub fn parse_rect(position: &str) -> (r: Option<Placement>)
    ensures
        r == parse_rect_spec(position@),
{
    match rect_fields_of(position) {
        Some((x, y, w, h)) => {
            if w > 0 && h > 0 && checked_add_i32(x, w).is_some() && checked_add_i32(y, h).is_some() {
                Some(Placement { x, y, w, h })
            } else {
                None
            }
        },
        None => None,
    }
}

/// Renders a placement back into the persisted "rect:X,Y,W,H" form.
pub fn rect_to_position(p: &Placement) -> (r: String)
    ensures
        r@ == rect_text(p.x as int, p.y as int, p.w as int, p.h as int),
{
    render_rect(p.x, p.y, p.w, p.h)
}

/// A rectangle with a positive size and representable far edges reads back
/// as itself from the text it is persisted as.
pub proof fn lemma_rect_round_trip(p: Placement)
    requires
        p.w > 0,
        p.h > 0,
        fits_i32(p.x + p.w),
        fits_i32(p.y + p.h),
    ensures
        parse_rect_spec(rect_text(p.x as int, p.y as int, p.w as int, p.h as int)) == Some(p),
{
    lemma_rect_text_fields(p.x, p.y, p.w, p.h);
}

/// Reads a bare "WxH" size, which is how a panel reports itself.
pub open spec fn size_from_text_spec(text: Seq<char>) -> Option<(i32, i32)> {
    match size_fields(text) {
        Some((w, h)) => if w > 0 && h > 0 {
            Some((w, h))
        } else {
            None
        },
        None => None,
    }
}

pub fn size_from_text(text: &str) -> (r: Option<(i32, i32)>)
    ensures
        r == size_from_text_spec(text@),
{
    match size_fields_of(text) {
        Some((w, h)) => if w > 0 && h > 0 {
            Some((w, h))
        } else {
            None
        },
        None => None,
    }
}

/// Normalises slurp's "X,Y WxH" into the persisted "rect:X,Y,W,H" form.
pub open spec fn rect_from_geometry_spec(g: Seq<char>) -> Option<Seq<char>> {
    match geometry_fields(g) {
        Some((x, y, w, h)) => if w > 0 && h > 0 && fits_i32(x + w) && fits_i32(y + h) {
            Some(rect_text(x as int, y as int, w as int, h as int))
        } else {
            None
        },
        None => None,
    }
}

pub fn rect_from_geometry(geometry: &str) -> (r: Option<String>)
    ensures
        match r {
            Some(s) => rect_from_geometry_spec(geometry@) == Some(s@),
            None => rect_from_geometry_spec(geometry@) is None,
        },
        r matches Some(s) ==> parse_rect_spec(s@) is Some,
{
    match geometry_fields_of(geometry) {
        Some((x, y, w, h)) => {
            if w > 0 && h > 0 && checked_add_i32(x, w).is_some() && checked_add_i32(y, h).is_some() {
                proof {
                    lemma_rect_round_trip(Placement { x, y, w, h });
                }
                Some(render_rect(x, y, w, h))
            } else {
                None
            }
        },
        None => None,
    }
}

} // verus!
