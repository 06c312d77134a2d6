//! The control panel: the lights with their names, order and snapshots, the
//! stream deck's pages, the camera overlay, screen recording, keyboard
//! shortcuts, and the undo histories behind them.
pub mod camera;
pub mod deck;
pub mod lights;
pub mod record;
pub mod shortcuts;
pub mod state;
