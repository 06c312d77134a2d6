//! The newer overlay tool: the same placement with every edge case clamped,
//! panels that claim screen space for the overlay to avoid, borrowing the
//! capture device from a user service, and the compositor requests it sends.
pub mod blocker;
pub mod cli;
pub mod dispatch;
pub mod holder;
pub mod hypr;
pub mod obs;
pub mod overlay;
pub mod positioning;
pub mod procfs;
pub mod state;
pub mod status;
