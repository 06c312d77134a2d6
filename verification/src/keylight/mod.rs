//! The light controller: the cached lights and how a target picks them, the
//! state a light reports, and finding lights on the network.
pub mod config;
pub mod discover;
pub mod light;
