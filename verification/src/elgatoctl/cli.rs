//! The commands the light controller answers to.
use vstd::prelude::*;

verus! {

/// The parsed command line.
pub struct Cli {
    /// Emit machine-readable JSON instead of tab-separated text.
    pub json: bool,
    pub cmd: Cmd,
}

/// One light command; a target is a name, an address, a hardware address or
/// "all".
pub enum Cmd {
    /// Discover lights and drop into an interactive REPL
    Setup,
    /// Discover lights via mDNS and merge into the cache
    Discover {
        /// Drop cached lights that did not answer this scan
        prune: bool,
    },
    /// List cached lights with live state
    Ls,
    /// Turn on
    On { target: String },
    /// Turn off
    Off { target: String },
    /// Toggle (off if any on, else on)
    Toggle { target: String },
    /// Set brightness 0-100, or offset it with +N / -N
    Brightness { value: String, target: String },
    /// Set colour temperature in kelvin (2900-7000), or offset it with +N / -N
    Temperature { kelvin: String, target: String },
    /// Set power, brightness and temperature in a single request
    SetAll { on: bool, off: bool, brightness: Option<u8>, temp: Option<u32>, target: String },
    /// Print the status-bar summary
    Waybar,
    /// Rediscover if any light is unreachable, then toggle
    Click { target: String },
}

} // verus!
