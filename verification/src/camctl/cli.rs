//! The commands the overlay tool answers to.
use vstd::prelude::*;

verus! {

/// The parsed command line.
pub struct Cli {
    pub cmd: Cmd,
}

/// One overlay command.
pub enum Cmd {
    /// Show the overlay (no-op if already running)
    Show,
    /// Hide the overlay (waits for mpv to release the device)
    Hide,
    /// Show if hidden, hide if shown
    Toggle,
    /// Move the overlay to a corner; starts it if not running
    Move { corner: Corner },
    /// Pin the overlay to an explicit rectangle, in slurp's "X,Y WxH" form
    Place { geometry: String },
    /// Drag out where the overlay should sit, using the shared region picker
    Pick,
    /// Toggle fullscreen on the overlay's monitor
    Full,
    /// Emit waybar status JSON
    Status,
    /// Pause notifications + status updates (touches a flag file)
    Pause,
    /// Undo `pause`
    Resume,
    /// USB-authorize toggle the Cam Link to clear a wedged UVC state.
    Reset,
}

/// A corner of the monitor.
#[derive(Clone, Copy, Debug, PartialEq, Eq, Structural)]
pub enum Corner {
    /// top-left
    Tl,
    /// top-right
    Tr,
    /// bottom-left
    Bl,
    /// bottom-right
    Br,
}

} // verus!
