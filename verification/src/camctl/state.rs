//! Where the overlay's runtime state lives: fixed file names inside the run
//! directory that the caller has secured.
use vstd::prelude::*;
use crate::paths::{join_path, path_join};

verus! {

/// The persisted overlay rectangle.
pub fn position_file(run_dir: &str) -> (r: String)
    ensures
        r@ == path_join(run_dir@, "position"@),
{
    join_path(run_dir, "position")
}

/// Present while the overlay is fullscreen.
pub fn fullscreen_flag(run_dir: &str) -> (r: String)
    ensures
        r@ == path_join(run_dir@, "fullscreen"@),
{
    join_path(run_dir, "fullscreen")
}

/// The pid of the running viewer.
pub fn pid_file(run_dir: &str) -> (r: String)
    ensures
        r@ == path_join(run_dir@, "ffplay.pid"@),
{
    join_path(run_dir, "ffplay.pid")
}

/// Set after the overlay has been hidden at least once. Triggers an
/// auto-reset before the next `show` to clear the wedge that the capture
/// device enters when its descriptor closes mid-stream. Lives in the runtime
/// directory so it clears on reboot.
pub fn needs_reset_flag(run_dir: &str) -> (r: String)
    ensures
        r@ == path_join(run_dir@, "needs_reset"@),
{
    join_path(run_dir, "needs_reset")
}

/// A user unit that was stopped so the overlay could take the capture device.
/// Started again when the overlay is hidden, so borrowing is always paid back.
pub fn borrowed_unit(run_dir: &str) -> (r: String)
    ensures
        r@ == path_join(run_dir@, "borrowed_unit"@),
{
    join_path(run_dir, "borrowed_unit")
}

} // verus!
