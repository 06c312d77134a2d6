use vstd::prelude::*;

pub mod text;
pub mod words;
pub mod numbers;
pub mod order;
pub mod search;
pub mod paths;
pub mod privdir;
pub mod net;
pub mod arith;
pub mod rect_text;
pub mod camctl;
pub mod camlink;
pub mod keylight;
pub mod elgatoctl;
pub mod omgato;
