//! The overlay's settings and their defaults.
use vstd::prelude::*;
use crate::camctl::cli::Corner;

verus! {

/// The overlay's settings, as read from `camctl/config.toml`.
pub struct Config {
    pub position: String,
    pub size: [u32; 2],
    pub margin: u32,
    pub capture_size: [u32; 2],
    pub framerate: u32,
    pub device_pattern: String,
    pub window_title: String,
    /// When true, corner placement and fullscreen on a monitor that matches
    /// an OBS screen-capture source are constrained to OBS's cropped region.
    pub obs_aware: bool,
    /// Optional override for the OBS scene JSON path.
    pub obs_scene_path: Option<String>,
}

pub fn default_position() -> (r: String)
    ensures
        r@ == "bottom-right"@,
{
    "bottom-right".to_owned()
}

pub fn default_size() -> (r: [u32; 2])
    ensures
        r@ == seq![320u32, 180u32],
{
    [320, 180]
}

pub fn default_margin() -> (r: u32)
    ensures
        r == 18,
{
    18
}

pub fn default_capture_size() -> (r: [u32; 2])
    ensures
        r@ == seq![1280u32, 720u32],
{
    [1280, 720]
}

pub fn default_framerate() -> (r: u32)
    ensures
        r == 30,
{
    30
}

pub fn default_device_pattern() -> (r: String)
    ensures
        r@ == "Cam_Link_4K"@,
{
    "Cam_Link_4K".to_owned()
}

pub fn default_window_title() -> (r: String)
    ensures
        r@ == "cam-overlay"@,
{
    "cam-overlay".to_owned()
}

pub fn default_obs_aware() -> (r: bool)
    ensures
        !r,
{
    false
}

/// The settings a missing or unreadable configuration falls back to.
pub open spec fn is_default_config(c: Config) -> bool {
    &&& c.position@ == "bottom-right"@
    &&& c.size@ == seq![320u32, 180u32]
    &&& c.margin == 18
    &&& c.capture_size@ == seq![1280u32, 720u32]
    &&& c.framerate == 30
    &&& c.device_pattern@ == "Cam_Link_4K"@
    &&& c.window_title@ == "cam-overlay"@
    &&& !c.obs_aware
    &&& c.obs_scene_path is None
}

impl Default for Config {
    fn default() -> (c: Self)
        ensures
            is_default_config(c),
    {
        Config {
            position: default_position(),
            size: default_size(),
            margin: default_margin(),
            capture_size: default_capture_size(),
            framerate: default_framerate(),
            device_pattern: default_device_pattern(),
            window_title: default_window_title(),
            obs_aware: default_obs_aware(),
            obs_scene_path: None,
        }
    }
}

/// The persisted position word for a corner.
pub open spec fn corner_word(c: Corner) -> Seq<char> {
    match c {
        Corner::Tl => "top-left"@,
        Corner::Tr => "top-right"@,
        Corner::Bl => "bottom-left"@,
        Corner::Br => "bottom-right"@,
    }
}

pub fn corner_to_position(c: Corner) -> (r: &'static str)
    ensures
        r@ == corner_word(c),
{
    match c {
        Corner::Tl => "top-left",
        Corner::Tr => "top-right",
        Corner::Bl => "bottom-left",
        Corner::Br => "bottom-right",
    }
}

} // verus!
