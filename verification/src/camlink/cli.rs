//! The commands the overlay controller answers to.
use vstd::prelude::*;
use crate::camctl::cli::Corner;

verus! {

/// One overlay command.
pub enum Cmd {
    /// Show the overlay (no-op if already running)
    Show,
    /// Hide the overlay (waits for the viewer to release the device)
    Hide,
    /// Show if hidden, hide if shown
    Toggle,
    /// Move the overlay to a corner; starts it if not running
    Move { corner: Corner },
    /// Pin the overlay to an explicit rectangle, in "X,Y WxH" form
    Place { geometry: String },
    /// Drag out where the overlay should sit, using the shared region picker
    Pick,
    /// Record the rectangle a panel covers ("WxH" or "X,Y WxH"), so the
    /// overlay keeps clear of it
    Avoid { geometry: String, monitor: Option<String>, owner: String },
    /// Drop a panel's claim
    Release { owner: String },
    /// Place the overlay again, taking the current claims into account
    Replace,
    /// Toggle fullscreen on the overlay's monitor
    Full,
    /// Emit status-bar JSON
    Status,
    /// Pause notifications and status updates
    Pause,
    /// Undo `pause`
    Resume,
    /// Re-authorize the capture device to clear a wedged state
    Reset,
}

/// The commands that may start the overlay. Before any other command, when
/// the overlay is not running, a unit borrowed for it is given back.
pub open spec fn may_start_spec(c: Cmd) -> bool {
    c is Show || c is Toggle || c is Move || c is Place || c is Full
}

pub fn may_start(cmd: &Cmd) -> (r: bool)
    ensures
        r == may_start_spec(*cmd),
{
    match cmd {
        Cmd::Show | Cmd::Toggle | Cmd::Move { .. } | Cmd::Place { .. } | Cmd::Full => true,
        _ => false,
    }
}

} // verus!
