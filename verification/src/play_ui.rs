//! The Play tab's decisions: why Play is blocked, what the Play button and
//! the status line under it show.

use vstd::prelude::*;
use vstd::string::*;
use crate::instances_ui::holds;
use crate::text::views;

verus! {

/// Why Play cannot start, the first reason that holds.
pub open spec fn blocked_view(update_required: bool, has_account: bool, versions_ready: bool) -> Option<Seq<char>> {
    if update_required {
        Some("A required launcher update must be installed first."@)
    } else if !has_account {
        Some("Add an account to play."@)
    } else if !versions_ready {
        Some("Loading versions…"@)
    } else {
        None
    }
}

/// Why Play cannot start, if it cannot.
pub fn blocked_reason(update_required: bool, has_account: bool, versions_ready: bool) -> (r: Option<&'static str>)
    ensures
        match blocked_view(update_required, has_account, versions_ready) {
            Some(t) => (r matches Some(s) && s@ == t),
            None => r is None,
        },
{
    if update_required {
        Some("A required launcher update must be installed first.")
    } else if !has_account {
        Some("Add an account to play.")
    } else if !versions_ready {
        Some("Loading versions…")
    } else {
        None
    }
}

/// Whether the version last played is installed.
pub fn selected_installed(last_version: Option<&str>, installed: &Vec<String>) -> (r: bool)
    ensures
        r == (last_version matches Some(v) && views(installed@).contains(v@)),
{
    match last_version {
        Some(v) => holds(installed, v),
        None => false,
    }
}

/// The selected instance's game, while it is being prepared or runs.
#[derive(Debug)]
pub enum RunPhase {
    /// Downloading and checking files; `bytes_total` is 0 until known.
    Preparing { stage: String, bytes_total: u64 },
    Starting,
    Running,
}

/// What the status line under the Play button shows.
#[derive(Debug)]
pub enum StatusLine {
    Text(String),
    /// The download's figures (bytes, files, rate and time left).
    Download,
}

pub open spec fn status_view(run: Option<RunPhase>, blocked: Option<Seq<char>>, installed: bool) -> Option<Seq<char>> {
    match run {
        Some(RunPhase::Preparing { stage, bytes_total }) => if bytes_total > 0 {
            None
        } else {
            Some(stage@ + "…"@)
        },
        Some(RunPhase::Starting) => Some("Starting Minecraft…"@),
        Some(RunPhase::Running) => Some("Minecraft is running. Have fun!"@),
        None => match blocked {
            Some(reason) => Some(reason),
            None => if installed {
                Some("Ready to play."@)
            } else {
                Some("This version will be downloaded when you press Play."@)
            },
        },
    }
}

/// The status line.
pub fn launch_status(run: Option<&RunPhase>, blocked: Option<&str>, installed: bool) -> (r: StatusLine)
    ensures
        match status_view(
            match run {
                Some(p) => Some(*p),
                None => None,
            },
            match blocked {
                Some(b) => Some(b@),
                None => None,
            },
            installed,
        ) {
            Some(t) => (r matches StatusLine::Text(s) && s@ == t),
            None => r is Download,
        },
{
    match run {
        Some(RunPhase::Preparing { stage, bytes_total }) => {
            if *bytes_total > 0 {
                StatusLine::Download
            } else {
                let mut s = stage.clone();
                s.append("…");
                StatusLine::Text(s)
            }
        },
        Some(RunPhase::Starting) => StatusLine::Text(String::from_str("Starting Minecraft…")),
        Some(RunPhase::Running) => StatusLine::Text(
            String::from_str("Minecraft is running. Have fun!"),
        ),
        None => match blocked {
            Some(reason) => StatusLine::Text(String::from_str(reason)),
            None => if installed {
                StatusLine::Text(String::from_str("Ready to play."))
            } else {
                StatusLine::Text(String::from_str("This version will be downloaded when you press Play."))
            },
        },
    }
}

/// What the Play button shows.
#[derive(Debug)]
pub enum PlayButton {
    /// The download's percentage, from its bytes.
    Percent,
    /// Busy, with a label and no percentage.
    Busy(String),
    Running,
    Blocked,
    Ready,
}

/// The Play button's state.
pub fn play_button(run: Option<&RunPhase>, blocked: bool) -> (r: PlayButton)
    ensures
        match run {
            Some(RunPhase::Preparing { stage, bytes_total }) => if *bytes_total > 0 {
                r is Percent
            } else {
                r matches PlayButton::Busy(l) && l@ == stage@ + "…"@
            },
            Some(RunPhase::Starting) => r matches PlayButton::Busy(l) && l@ == "Starting…"@,
            Some(RunPhase::Running) => r is Running,
            None => if blocked {
                r is Blocked
            } else {
                r is Ready
            },
        },
{
    match run {
        Some(RunPhase::Preparing { stage, bytes_total }) => {
            if *bytes_total > 0 {
                PlayButton::Percent
            } else {
                let mut s = stage.clone();
                s.append("…");
                PlayButton::Busy(s)
            }
        },
        Some(RunPhase::Starting) => PlayButton::Busy(String::from_str("Starting…")),
        Some(RunPhase::Running) => PlayButton::Running,
        None => if blocked {
            PlayButton::Blocked
        } else {
            PlayButton::Ready
        },
    }
}

/// The words on the Play button.
#[derive(Debug)]
pub enum PlayLabel {
    Play,
    Playing,
    /// The download's percentage, written outside from its bytes.
    Percent,
    Text(String),
}

/// Whether the Play button takes clicks (only when ready), and its label:
/// PLAY when ready or held back, PLAYING while the game runs, else the
/// progress label.
pub fn play_face(state: &PlayButton) -> (r: (bool, PlayLabel))
    ensures
        r.0 == (*state is Ready),
        match *state {
            PlayButton::Ready | PlayButton::Blocked => r.1 is Play,
            PlayButton::Running => r.1 is Playing,
            PlayButton::Percent => r.1 is Percent,
            PlayButton::Busy(l) => r.1 matches PlayLabel::Text(t) && t == l,
        },
{
    match state {
        PlayButton::Ready => (true, PlayLabel::Play),
        PlayButton::Blocked => (false, PlayLabel::Play),
        PlayButton::Running => (false, PlayLabel::Playing),
        PlayButton::Percent => (false, PlayLabel::Percent),
        PlayButton::Busy(l) => (false, PlayLabel::Text(l.clone())),
    }
}

} // verus!
