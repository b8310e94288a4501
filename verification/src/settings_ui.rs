//! The launcher's Settings tab: the settings it edits, what "Restore
//! defaults" keeps, the memory sliders' ranges and the custom Java path.

use vstd::prelude::*;
use vstd::string::*;
use crate::text::{chars_of, string_of, trim, trimmed};

verus! {

/// The window's colours.
#[derive(Debug, Clone, Copy, PartialEq, Eq, Structural)]
pub enum ThemeMode {
    Default,
    Dark,
    Light,
}

/// What the launcher does when a game starts.
#[derive(Debug, Clone, Copy, PartialEq, Eq, Structural)]
pub enum GameStartAction {
    KeepOpen,
    Minimize,
}

/// Which releases the update check looks at.
#[derive(Debug, Clone, Copy, PartialEq, Eq, Structural)]
pub enum UpdateChannel {
    Stable,
    Beta,
}

/// The launcher settings the Settings tab and the version list edit.
#[derive(Debug)]
pub struct LauncherSettings {
    pub theme: ThemeMode,
    pub animations: bool,
    pub intro: bool,
    pub max_memory_mb: u32,
    pub min_memory_mb: u32,
    pub window_width: u32,
    pub window_height: u32,
    pub fullscreen: bool,
    pub on_game_start: GameStartAction,
    pub extra_jvm_args: String,
    pub java_override: Option<String>,
    pub update_channel: UpdateChannel,
    pub check_updates_on_start: bool,
    pub last_version: Option<String>,
    pub favorite_versions: Vec<String>,
}

/// The upper end of the "Maximum" memory slider, in MiB.
pub const MAX_MEMORY_SLIDER_MB: u32 = 32768;

/// "Restore defaults": every setting back to its default, except the
/// version last played.
pub fn restored_settings(current: &LauncherSettings, defaults: LauncherSettings) -> (r: LauncherSettings)
    ensures
        r == (LauncherSettings { last_version: current.last_version, ..defaults }),
{
    let last_version = match &current.last_version {
        Some(v) => Some(v.clone()),
        None => None,
    };
    LauncherSettings { last_version, ..defaults }
}

/// The ranges of the memory sliders, in MiB, given the smallest amount
/// allowed: "Maximum" from that floor up to 32 GiB, "Minimum" from the
/// floor up to the current maximum.
pub fn memory_slider_ranges(floor: u32, max_memory_mb: u32) -> (r: ((u32, u32), (u32, u32)))
    ensures
        r == ((floor, MAX_MEMORY_SLIDER_MB), (floor, max_memory_mb)),
{
    ((floor, MAX_MEMORY_SLIDER_MB), (floor, max_memory_mb))
}

/// Ticking "Use a custom Java executable" starts from an empty path;
/// unticking it drops the path.
pub fn java_override_toggled(enabled: bool) -> (r: Option<String>)
    ensures
        enabled ==> (r matches Some(p) && p@.len() == 0),
        !enabled ==> r is None,
{
    if enabled {
        Some(String::new())
    } else {
        None
    }
}

/// The path typed for the custom Java, without surrounding white space.
pub fn java_path_typed(text: &str) -> (r: String)
    ensures
        r@ == trimmed(text@),
{
    string_of(&trim(&chars_of(text)))
}

/// A custom Java path that is set but names no file is warned about (the
/// managed runtime is used instead).
pub fn java_path_warning(path: &str, is_file: bool) -> (r: Option<&'static str>)
    ensures
        (r is Some) == (path@.len() > 0 && !is_file),
        r matches Some(t) ==> t@ == "File not found; the managed runtime will be used."@,
{
    if chars_of(path).len() > 0 && !is_file {
        Some("File not found; the managed runtime will be used.")
    } else {
        None
    }
}

} // verus!
