//! The launcher's own updates, as the window shows them: the banner at the
//! top, and the status in About.

use vstd::prelude::*;
use vstd::string::*;
use crate::commands::UpdateInfo;

verus! {

/// Where the launcher's update is.
#[derive(Debug)]
pub enum UpdateState {
    Idle,
    Checking,
    UpToDate,
    /// A newer release; "Later" dismisses the banner of an optional one.
    Available { info: UpdateInfo, dismissed: bool },
    /// Downloading: bytes done of the total.
    Installing { done: u64, total: u64 },
    /// Installed; a restart finishes it.
    Installed,
    /// The check or the install failed; an install can be retried.
    Failed { error: String, retry: Option<UpdateInfo> },
}

/// Whether the banner shows.
pub open spec fn banner_shown(state: UpdateState) -> bool {
    match state {
        UpdateState::Available { dismissed, .. } => !dismissed,
        UpdateState::Installing { .. } | UpdateState::Installed => true,
        UpdateState::Failed { retry, .. } => retry is Some,
        _ => false,
    }
}

/// The state after "Later": an optional release's banner is dismissed;
/// anything else stays as it is.
pub open spec fn later(state: UpdateState) -> UpdateState {
    match state {
        UpdateState::Available { info, dismissed } => if info.required {
            UpdateState::Available { info, dismissed }
        } else {
            UpdateState::Available { info, dismissed: true }
        },
        other => other,
    }
}

/// The banner's message.
pub open spec fn banner_text_view(state: UpdateState) -> Option<Seq<char>> {
    match state {
        UpdateState::Available { info, .. } => Some(
            if info.required {
                "Required update "@ + info.version@ + " — install to keep playing."@
            } else {
                "Arctic Launcher "@ + info.version@ + " is available."@
            },
        ),
        UpdateState::Installed => Some("Update installed."@),
        UpdateState::Failed { error, retry: Some(_) } => Some("Update failed: "@ + error@),
        _ => None,
    }
}

/// The status line in About.
pub open spec fn status_text_view(state: UpdateState) -> Option<Seq<char>> {
    match state {
        UpdateState::Checking => Some("Checking…"@),
        UpdateState::UpToDate => Some("You're on the latest version."@),
        UpdateState::Available { info, .. } => Some("Version "@ + info.version@ + " is available."@),
        UpdateState::Installed => Some("Update installed; restart to finish."@),
        UpdateState::Failed { error, retry } => Some(
            (if retry is Some {
                "Update failed"@
            } else {
                "Couldn't check for updates"@
            }) + ": "@ + error@,
        ),
        _ => None,
    }
}

impl UpdateState {
    /// Whether the banner shows.
    pub fn banner_visible(&self) -> (r: bool)
        ensures
            r == banner_shown(*self),
    {
        match self {
            UpdateState::Available { dismissed, .. } => !*dismissed,
            UpdateState::Installing { .. } | UpdateState::Installed => true,
            UpdateState::Failed { retry, .. } => retry.is_some(),
            _ => false,
        }
    }

    /// "Later" on the banner.
    pub fn dismiss(&mut self)
        ensures
            *final(self) == later(*old(self)),
    {
        if let UpdateState::Available { info, dismissed } = self {
            if !info.required {
                *dismissed = true;
            }
        }
    }

    /// "Check for updates" is offered unless a check or an install runs.
    pub fn busy(&self) -> (r: bool)
        ensures
            r == (*self is Checking || *self is Installing),
    {
        match self {
            UpdateState::Checking | UpdateState::Installing { .. } => true,
            _ => false,
        }
    }

    /// The banner's message (the download's progress is drawn instead).
    pub fn banner_text(&self) -> (r: Option<String>)
        ensures
            match banner_text_view(*self) {
                Some(t) => (r matches Some(s) && s@ == t),
                None => r is None,
            },
    {
        match self {
            UpdateState::Available { info, .. } => {
                let mut s;
                if info.required {
                    s = String::from_str("Required update ");
                    s.append(info.version.as_str());
                    s.append(" — install to keep playing.");
                } else {
                    s = String::from_str("Arctic Launcher ");
                    s.append(info.version.as_str());
                    s.append(" is available.");
                }
                Some(s)
            },
            UpdateState::Installed => Some(String::from_str("Update installed.")),
            UpdateState::Failed { error, retry: Some(_) } => {
                let mut s = String::from_str("Update failed: ");
                s.append(error.as_str());
                Some(s)
            },
            _ => None,
        }
    }

    /// The status line in About (a spinner or a bar goes with some).
    pub fn status_text(&self) -> (r: Option<String>)
        ensures
            match status_text_view(*self) {
                Some(t) => (r matches Some(s) && s@ == t),
                None => r is None,
            },
    {
        match self {
            UpdateState::Checking => Some(String::from_str("Checking…")),
            UpdateState::UpToDate => Some(String::from_str("You're on the latest version.")),
            UpdateState::Available { info, .. } => {
                let mut s = String::from_str("Version ");
                s.append(info.version.as_str());
                s.append(" is available.");
                Some(s)
            },
            UpdateState::Installed => Some(String::from_str("Update installed; restart to finish.")),
            UpdateState::Failed { error, retry } => {
                let mut s = String::from_str(
                    if retry.is_some() {
                        "Update failed"
                    } else {
                        "Couldn't check for updates"
                    },
                );
                s.append(": ");
                s.append(error.as_str());
                Some(s)
            },
            _ => None,
        }
    }
}

/// "Later" hides the banner of an optional release.
pub proof fn law_later_hides_optional(info: UpdateInfo, dismissed: bool)
    requires
        !info.required,
    ensures
        !banner_shown(later(UpdateState::Available { info, dismissed })),
{
}

/// A required release cannot be put off: its banner stays.
pub proof fn law_required_stays(info: UpdateInfo)
    requires
        info.required,
    ensures
        banner_shown(later(UpdateState::Available { info, dismissed: false })),
        later(UpdateState::Available { info, dismissed: false }) == (UpdateState::Available {
            info,
            dismissed: false,
        }),
{
}

} // verus!
