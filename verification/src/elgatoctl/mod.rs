//! The light controller's command line: its commands, what each asks the
//! lights to do, how answers are reported, and the status-bar summary. The
//! cached lights and their state are those of [`crate::keylight`].
pub mod cli;
pub mod config;
pub mod dispatch;
pub mod light;
pub mod setup;
pub mod waybar;
