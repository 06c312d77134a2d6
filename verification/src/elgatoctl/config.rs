//! The cached lights, shared with [`crate::keylight::config`].
pub use crate::keylight::config::{Cache, Light, select, select_among};
