//! The profile dialogs: creating a profile, and managing them.

use vstd::prelude::*;
use vstd::string::*;
use crate::text::{chars_of, str_eq, trim, trimmed};

verus! {

/// State of the profile dialogs.
#[derive(Debug, Clone, PartialEq, Eq)]
pub enum ProfileDialog {
    Closed,
    Create { name: String },
    Manage {
        /// The profile being renamed, and the name typed so far.
        renaming: Option<(String, String)>,
        /// The profile whose removal waits for confirmation.
        confirm_remove: Option<String>,
    },
}

impl ProfileDialog {
    /// "New profile…": an empty name.
    pub fn create() -> (r: ProfileDialog)
        ensures
            r matches ProfileDialog::Create { name } && name@.len() == 0,
    {
        ProfileDialog::Create { name: String::new() }
    }

    /// "Manage profiles…": nothing being renamed or removed.
    pub fn manage() -> (r: ProfileDialog)
        ensures
            r == (ProfileDialog::Manage { renaming: None, confirm_remove: None }),
    {
        ProfileDialog::Manage { renaming: None, confirm_remove: None }
    }

    /// Whether a dialog is open.
    pub fn is_open(&self) -> (r: bool)
        ensures
            r == !(*self is Closed),
    {
        match self {
            ProfileDialog::Closed => false,
            _ => true,
        }
    }
}

/// What happens in the "Manage profiles" dialog, one at a time. The
/// rename and the removal themselves are done outside and come back as
/// `Renamed` and `Removed`.
#[derive(Debug)]
pub enum ManageEvent {
    /// "Rename" on a profile: its name becomes editable, starting from `name`.
    Rename { id: String, name: String },
    /// The name being edited now reads `text`.
    Typed(String),
    /// "Save" (or Enter) on the name being edited.
    SaveName,
    /// The rename asked for came back.
    Renamed { ok: bool },
    /// The bin on a profile: ask before removing it.
    Remove { id: String },
    /// "Keep" on the removal question.
    Keep,
    /// "Remove" on the removal question.
    ConfirmRemove,
    /// The removal asked for came back.
    Removed { ok: bool },
    /// "Switch" on a profile.
    Switch { id: String },
    /// A colour swatch on a profile.
    Color { id: String, color: u32 },
    /// "New profile".
    NewProfile,
    /// "Done".
    Done,
}

/// What the launcher does after a step of the dialog.
#[derive(Debug)]
pub enum ManageAction {
    Nothing,
    /// Rename the profile `id` to `name`.
    Rename { id: String, name: String },
    /// Move the profile `id` to the trash.
    Remove { id: String },
    /// Make `id` the active profile.
    Switch { id: String },
    /// Give the profile `id` this colour, then save the profiles.
    SetColor { id: String, color: u32 },
    /// Save the profiles.
    Save,
    /// Toast "Could not rename".
    RenameFailed,
    /// Toast "Could not remove profile".
    RemoveFailed,
}

/// Whether an action saves the profiles.
pub open spec fn asks_save(a: ManageAction) -> bool {
    a is Save || a is SetColor
}

/// The dialog and the action after `event`, with `active` the active
/// profile, for every event but `NewProfile` (see `manage_result`).
/// Nothing happens outside the Manage dialog; the active profile can be
/// neither removed nor switched to.
pub open spec fn manage_next(dialog: ProfileDialog, active: Seq<char>, event: ManageEvent) -> (
    ProfileDialog,
    ManageAction,
) {
    match dialog {
        ProfileDialog::Manage { renaming, confirm_remove } => match event {
            ManageEvent::Rename { id, name } => (
                ProfileDialog::Manage { renaming: Some((id, name)), confirm_remove },
                ManageAction::Nothing,
            ),
            ManageEvent::Typed(text) => match renaming {
                Some((id, _)) => (
                    ProfileDialog::Manage { renaming: Some((id, text)), confirm_remove },
                    ManageAction::Nothing,
                ),
                None => (ProfileDialog::Manage { renaming, confirm_remove }, ManageAction::Nothing),
            },
            ManageEvent::SaveName => match renaming {
                Some((id, name)) => (
                    ProfileDialog::Manage { renaming: None, confirm_remove },
                    ManageAction::Rename { id, name },
                ),
                None => (ProfileDialog::Manage { renaming, confirm_remove }, ManageAction::Nothing),
            },
            ManageEvent::Renamed { ok } => (
                ProfileDialog::Manage { renaming, confirm_remove },
                if ok {
                    ManageAction::Save
                } else {
                    ManageAction::RenameFailed
                },
            ),
            ManageEvent::Remove { id } => if id@ == active {
                (ProfileDialog::Manage { renaming, confirm_remove }, ManageAction::Nothing)
            } else {
                (ProfileDialog::Manage { renaming, confirm_remove: Some(id) }, ManageAction::Nothing)
            },
            ManageEvent::Keep => (
                ProfileDialog::Manage { renaming, confirm_remove: None },
                ManageAction::Nothing,
            ),
            ManageEvent::ConfirmRemove => match confirm_remove {
                Some(id) => (
                    ProfileDialog::Manage { renaming, confirm_remove: None },
                    ManageAction::Remove { id },
                ),
                None => (ProfileDialog::Manage { renaming, confirm_remove }, ManageAction::Nothing),
            },
            ManageEvent::Removed { ok } => (
                ProfileDialog::Manage { renaming, confirm_remove },
                if ok {
                    ManageAction::Save
                } else {
                    ManageAction::RemoveFailed
                },
            ),
            ManageEvent::Switch { id } => if id@ == active {
                (ProfileDialog::Manage { renaming, confirm_remove }, ManageAction::Nothing)
            } else {
                (ProfileDialog::Manage { renaming, confirm_remove }, ManageAction::Switch { id })
            },
            ManageEvent::Color { id, color } => (
                ProfileDialog::Manage { renaming, confirm_remove },
                ManageAction::SetColor { id, color },
            ),
            ManageEvent::NewProfile => (ProfileDialog::Manage { renaming, confirm_remove }, ManageAction::Nothing),
            ManageEvent::Done => (ProfileDialog::Closed, ManageAction::Nothing),
        },
        _ => (dialog, ManageAction::Nothing),
    }
}

/// `r` is the dialog and action after `event`: "New profile" opens the
/// Create dialog with an empty name, every other event is `manage_next`.
pub open spec fn manage_result(
    dialog: ProfileDialog,
    active: Seq<char>,
    event: ManageEvent,
    r: (ProfileDialog, ManageAction),
) -> bool {
    if dialog is Manage && event is NewProfile {
        r.0 matches ProfileDialog::Create { name } && name@.len() == 0 && r.1 is Nothing
    } else {
        r == manage_next(dialog, active, event)
    }
}

/// One step of the "Manage profiles" dialog.
pub fn manage_step(dialog: ProfileDialog, active: &str, event: ManageEvent) -> (r: (ProfileDialog, ManageAction))
    ensures
        manage_result(dialog, active@, event, r),
        event matches ManageEvent::Remove { id } && id@ == active@ ==> r == (dialog, ManageAction::Nothing),
        event matches ManageEvent::Switch { id } && id@ == active@ ==> r == (dialog, ManageAction::Nothing),
        r.1 matches ManageAction::Remove { id } ==> event is ConfirmRemove && (dialog matches ProfileDialog::Manage { confirm_remove: Some(c), .. } && c == id),
        asks_save(r.1) == (dialog is Manage && (event == (ManageEvent::Renamed { ok: true }) || event == (ManageEvent::Removed { ok: true }) || event is Color)),
{
    match dialog {
        ProfileDialog::Manage { renaming, confirm_remove } => match event {
            ManageEvent::Rename { id, name } => (
                ProfileDialog::Manage { renaming: Some((id, name)), confirm_remove },
                ManageAction::Nothing,
            ),
            ManageEvent::Typed(text) => match renaming {
                Some((id, _)) => (
                    ProfileDialog::Manage { renaming: Some((id, text)), confirm_remove },
                    ManageAction::Nothing,
                ),
                None => (ProfileDialog::Manage { renaming, confirm_remove }, ManageAction::Nothing),
            },
            ManageEvent::SaveName => match renaming {
                Some((id, name)) => (
                    ProfileDialog::Manage { renaming: None, confirm_remove },
                    ManageAction::Rename { id, name },
                ),
                None => (ProfileDialog::Manage { renaming, confirm_remove }, ManageAction::Nothing),
            },
            ManageEvent::Renamed { ok } => (
                ProfileDialog::Manage { renaming, confirm_remove },
                if ok {
                    ManageAction::Save
                } else {
                    ManageAction::RenameFailed
                },
            ),
            ManageEvent::Remove { id } => if str_eq(id.as_str(), active) {
                (ProfileDialog::Manage { renaming, confirm_remove }, ManageAction::Nothing)
            } else {
                (ProfileDialog::Manage { renaming, confirm_remove: Some(id) }, ManageAction::Nothing)
            },
            ManageEvent::Keep => (
                ProfileDialog::Manage { renaming, confirm_remove: None },
                ManageAction::Nothing,
            ),
            ManageEvent::ConfirmRemove => match confirm_remove {
                Some(id) => (
                    ProfileDialog::Manage { renaming, confirm_remove: None },
                    ManageAction::Remove { id },
                ),
                None => (ProfileDialog::Manage { renaming, confirm_remove }, ManageAction::Nothing),
            },
            ManageEvent::Removed { ok } => (
                ProfileDialog::Manage { renaming, confirm_remove },
                if ok {
                    ManageAction::Save
                } else {
                    ManageAction::RemoveFailed
                },
            ),
            ManageEvent::Switch { id } => if str_eq(id.as_str(), active) {
                (ProfileDialog::Manage { renaming, confirm_remove }, ManageAction::Nothing)
            } else {
                (ProfileDialog::Manage { renaming, confirm_remove }, ManageAction::Switch { id })
            },
            ManageEvent::Color { id, color } => (
                ProfileDialog::Manage { renaming, confirm_remove },
                ManageAction::SetColor { id, color },
            ),
            ManageEvent::NewProfile => (ProfileDialog::create(), ManageAction::Nothing),
            ManageEvent::Done => (ProfileDialog::Closed, ManageAction::Nothing),
        },
        other => (other, ManageAction::Nothing),
    }
}

/// A profile needs a name with something besides spaces.
pub fn valid_profile_name(name: &str) -> (r: bool)
    ensures
        r == (trimmed(name@).len() > 0),
{
    trim(&chars_of(name)).len() > 0
}

} // verus!
