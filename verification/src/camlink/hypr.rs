//! What the overlay reads from and sends to the compositor: windows,
//! monitors, and the dispatcher requests that move, resize and pin a window.
use vstd::prelude::*;
use crate::text::{chars_of, string_of};
use crate::words::{extend, same, trim, trim_vec};
use crate::numbers::{int_chars, int_text};
use crate::search::{find_first, first_where, lemma_first_where};

verus! {

/// A window as the compositor lists it.
#[derive(Debug)]
pub struct Client {
    pub address: String,
    pub title: String,
    pub mapped: bool,
    pub monitor: i32,
    /// A pinned floating window stays visible across workspace switches, which
    /// is what makes the overlay a picture-in-picture.
    pub pinned: bool,
    /// The process that owns the window, 0 when the compositor gives none.
    pub pid: u32,
}

/// A monitor as the compositor lists it.
#[derive(Debug)]
pub struct Monitor {
    pub id: i32,
    pub name: String,
    pub x: i32,
    pub y: i32,
    /// Size in physical pixels.
    pub width: i32,
    pub height: i32,
    /// Size in logical pixels: the physical size divided by the monitor's scale.
    pub logical_width: i32,
    pub logical_height: i32,
    pub focused: bool,
    /// Layer-shell reserved space: [left, top, right, bottom] in logical pixels.
    pub reserved: [i32; 4],
}

pub open spec fn titled(title: Seq<char>) -> spec_fn(Client) -> bool {
    |c: Client| c.title@ == title
}

pub open spec fn at_address(addr: Seq<char>) -> spec_fn(Client) -> bool {
    |c: Client| c.address@ == addr
}

pub open spec fn named(name: Seq<char>) -> spec_fn(Monitor) -> bool {
    |m: Monitor| m.name@ == name
}

pub open spec fn is_focused() -> spec_fn(Monitor) -> bool {
    |m: Monitor| m.focused
}

pub open spec fn with_id(id: i32) -> spec_fn(Monitor) -> bool {
    |m: Monitor| m.id == id
}

/// The overlay's window: the first listed window with the given title.
pub fn find_window(clients: Vec<Client>, title: &str) -> (r: Option<Client>)
    ensures
        r == find_first(clients@, titled(title@)),
{
    let t = chars_of(title);
    let mut i: usize = 0;
    while i < clients.len() && !text_is(&clients[i].title, &t)
        invariant
            i <= clients@.len(),
            t@ == title@,
            forall|k: int| 0 <= k < i ==> !titled(title@)(#[trigger] clients@[k]),
        decreases clients.len() - i,
    {
        i += 1;
    }
    proof {
        lemma_first_where(clients@, titled(title@), i as int);
    }
    if i < clients.len() {
        let mut cs = clients;
        Some(cs.remove(i))
    } else {
        None
    }
}

/// Whether a string holds exactly the given characters.
pub fn text_is(s: &String, t: &Vec<char>) -> (r: bool)
    ensures
        r == (s@ == t@),
{
    let c = chars_of(s.as_str());
    same(c.as_slice(), t.as_slice())
}

fn monitor_hit(m: &Monitor, name: Option<&str>, wanted: &Vec<char>, id: Option<i32>) -> (r: bool)
    requires
        name is Some ==> wanted@ == name->0@,
    ensures
        name is Some ==> r == named(name->0@)(*m),
        name is None && id is Some ==> r == with_id(id->0)(*m),
        name is None && id is None ==> r == is_focused()(*m),
{
    match name {
        Some(_) => text_is(&m.name, wanted),
        None => match id {
            Some(want) => m.id == want,
            None => m.focused,
        },
    }
}

/// The first listed monitor with a given property.
fn first_monitor(monitors: Vec<Monitor>, name: Option<&str>, id: Option<i32>) -> (r: Option<Monitor>)
    ensures
        name is Some ==> r == find_first(monitors@, named(name->0@)),
        name is None && id is Some ==> r == find_first(monitors@, with_id(id->0)),
        name is None && id is None ==> r == find_first(monitors@, is_focused()),
{
    let ghost p = if name is Some {
        named(name->0@)
    } else if id is Some {
        with_id(id->0)
    } else {
        is_focused()
    };
    let wanted: Vec<char> = match name {
        Some(n) => chars_of(n),
        None => Vec::new(),
    };
    let mut i: usize = 0;
    while i < monitors.len() && !monitor_hit(&monitors[i], name, &wanted, id)
        invariant
            i <= monitors@.len(),
            name is Some ==> wanted@ == name->0@,
            p == (if name is Some {
                named(name->0@)
            } else if id is Some {
                with_id(id->0)
            } else {
                is_focused()
            }),
            forall|k: int| 0 <= k < i ==> !p(#[trigger] monitors@[k]),
        decreases monitors.len() - i,
    {
        i += 1;
    }
    proof {
        lemma_first_where(monitors@, p, i as int);
    }
    if i < monitors.len() {
        let mut ms = monitors;
        Some(ms.remove(i))
    } else {
        None
    }
}

/// The monitor with keyboard focus; an error when none has it.
pub fn focused_monitor(monitors: Vec<Monitor>) -> (r: Result<Monitor, String>)
    ensures
        match find_first(monitors@, is_focused()) {
            Some(m) => r == Ok::<Monitor, String>(m),
            None => r matches Err(e) && e@ == "no focused monitor"@,
        },
{
    match first_monitor(monitors, None, None) {
        Some(m) => Ok(m),
        None => Err("no focused monitor".to_owned()),
    }
}

/// The first monitor with the given output name.
pub fn named_monitor(monitors: Vec<Monitor>, name: &str) -> (r: Option<Monitor>)
    ensures
        r == find_first(monitors@, named(name@)),
{
    first_monitor(monitors, Some(name), None)
}

/// The monitor showing the window at `addr`: none when no window has that
/// address, else the first monitor with the window's monitor id.
pub fn monitor_for_address(clients: Vec<Client>, monitors: Vec<Monitor>, addr: &str) -> (r: Option<
    Monitor,
>)
    ensures
        match find_first(clients@, at_address(addr@)) {
            Some(c) => r == find_first(monitors@, with_id(c.monitor)),
            None => r is None,
        },
{
    let a = chars_of(addr);
    let mut i: usize = 0;
    while i < clients.len() && !text_is(&clients[i].address, &a)
        invariant
            i <= clients@.len(),
            a@ == addr@,
            forall|k: int| 0 <= k < i ==> !at_address(addr@)(#[trigger] clients@[k]),
        decreases clients.len() - i,
    {
        i += 1;
    }
    proof {
        lemma_first_where(clients@, at_address(addr@), i as int);
    }
    if i < clients.len() {
        first_monitor(monitors, None, Some(clients[i].monitor))
    } else {
        None
    }
}

pub open spec fn window_ref(addr: Seq<char>) -> Seq<char> {
    "window = \"address:"@ + addr + "\" })"@
}

/// The request that moves a window to an exact logical position.
pub open spec fn move_request(addr: Seq<char>, x: int, y: int) -> Seq<char> {
    "/dispatch hl.dsp.window.move({ x = "@ + int_text(x) + ", y = "@ + int_text(y)
        + ", exact = true, "@ + window_ref(addr)
}

/// The request that resizes a window to an exact logical size.
pub open spec fn resize_request(addr: Seq<char>, w: int, h: int) -> Seq<char> {
    "/dispatch hl.dsp.window.resize({ x = "@ + int_text(w) + ", y = "@ + int_text(h)
        + ", exact = true, "@ + window_ref(addr)
}

/// The request that pins a window (the dispatcher toggles pinning).
pub open spec fn pin_request(addr: Seq<char>) -> Seq<char> {
    "/dispatch hl.dsp.window.pin({ "@ + window_ref(addr)
}

fn window_ref_chars(v: &mut Vec<char>, addr: &str)
    ensures
        final(v)@ == old(v)@ + window_ref(addr@),
{
    let a = chars_of("window = \"address:");
    let b = chars_of(addr);
    let c = chars_of("\" })");
    extend(v, a.as_slice());
    extend(v, b.as_slice());
    extend(v, c.as_slice());
    assert(final(v)@ =~= old(v)@ + window_ref(addr@));
}

/// The dispatcher request that moves the window at `addr` to (x, y).
pub fn move_window_pixel(addr: &str, x: i32, y: i32) -> (r: String)
    ensures
        r@ == move_request(addr@, x as int, y as int),
{
    let mut v = chars_of("/dispatch hl.dsp.window.move({ x = ");
    extend(&mut v, int_chars(x as i64).as_slice());
    extend(&mut v, chars_of(", y = ").as_slice());
    extend(&mut v, int_chars(y as i64).as_slice());
    extend(&mut v, chars_of(", exact = true, ").as_slice());
    window_ref_chars(&mut v, addr);
    assert(v@ =~= move_request(addr@, x as int, y as int));
    string_of(v.as_slice())
}

/// The dispatcher request that resizes the window at `addr` to w by h.
pub fn resize_window_pixel(addr: &str, w: i32, h: i32) -> (r: String)
    ensures
        r@ == resize_request(addr@, w as int, h as int),
{
    let mut v = chars_of("/dispatch hl.dsp.window.resize({ x = ");
    extend(&mut v, int_chars(w as i64).as_slice());
    extend(&mut v, chars_of(", y = ").as_slice());
    extend(&mut v, int_chars(h as i64).as_slice());
    extend(&mut v, chars_of(", exact = true, ").as_slice());
    window_ref_chars(&mut v, addr);
    assert(v@ =~= resize_request(addr@, w as int, h as int));
    string_of(v.as_slice())
}

/// The dispatcher request that pins the window at `addr`.
pub fn pin_window(addr: &str) -> (r: String)
    ensures
        r@ == pin_request(addr@),
{
    let mut v = chars_of("/dispatch hl.dsp.window.pin({ ");
    window_ref_chars(&mut v, addr);
    assert(v@ =~= pin_request(addr@));
    string_of(v.as_slice())
}

/// The outcome of a dispatcher request, from the compositor's answer: it
/// succeeded when the answer, trimmed, is `ok`.
pub fn dispatch_action(response: &str) -> (r: Result<(), String>)
    ensures
        trim(response@) == "ok"@ ==> r is Ok,
        trim(response@) != "ok"@ ==> (r matches Err(e) && e@ == "Hyprland rejected the command: "@
            + trim(response@)),
{
    let t = trim_vec(chars_of(response).as_slice());
    let ok = chars_of("ok");
    if same(t.as_slice(), ok.as_slice()) {
        Ok(())
    } else {
        let mut v = chars_of("Hyprland rejected the command: ");
        extend(&mut v, t.as_slice());
        Err(string_of(v.as_slice()))
    }
}

/// The request text for a JSON answer to `cmd`.
pub fn dispatch_j(cmd: &str) -> (r: String)
    ensures
        r@ == "j/"@ + cmd@,
{
    let mut v = chars_of("j/");
    extend(&mut v, chars_of(cmd).as_slice());
    string_of(v.as_slice())
}

} // verus!
