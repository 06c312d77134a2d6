//! The Cam Link overlay tool: configuration, placement arithmetic, the
//! processes holding the capture device, and where its runtime state lives.
pub mod cli;
pub mod config;
pub mod holder;
pub mod positioning;
pub mod state;
