//! The launcher's Share and Import dialogs: what is shared, the state of an
//! invite code and of an import, and the lines the dialogs show.

use vstd::prelude::*;
use vstd::string::*;
use crate::commands::Part;
use crate::text::{chars_of, decimal, decimal_string, join_first, joined, trim, trimmed, views};

verus! {

/// What the Share dialog shares.
#[derive(Debug, Clone, Copy, PartialEq, Eq, Structural)]
pub enum ShareKind {
    Instance,
    Hud,
    Crosshair,
    Client,
    Profile,
}

pub open spec fn kind_part(kind: ShareKind) -> Option<Part> {
    match kind {
        ShareKind::Hud => Some(Part::Hud),
        ShareKind::Crosshair => Some(Part::Crosshair),
        ShareKind::Client => Some(Part::All),
        _ => None,
    }
}

pub open spec fn kind_label(kind: ShareKind) -> Option<Seq<char>> {
    match kind {
        ShareKind::Instance => Some("Mods & version"@),
        ShareKind::Hud => Some("HUD layout"@),
        ShareKind::Crosshair => Some("Crosshair"@),
        ShareKind::Client => Some("All client settings"@),
        ShareKind::Profile => None,
    }
}

impl ShareKind {
    /// The client settings part this kind reads (none for instances and
    /// the profile).
    pub fn part(self) -> (r: Option<Part>)
        ensures
            r == kind_part(self),
    {
        match self {
            ShareKind::Hud => Some(Part::Hud),
            ShareKind::Crosshair => Some(Part::Crosshair),
            ShareKind::Client => Some(Part::All),
            _ => None,
        }
    }

    /// The kinds offered when sharing from an instance, in their order.
    pub fn for_instance() -> (r: Vec<ShareKind>)
        ensures
            r@ == seq![ShareKind::Instance, ShareKind::Hud, ShareKind::Crosshair, ShareKind::Client],
    {
        vec![ShareKind::Instance, ShareKind::Hud, ShareKind::Crosshair, ShareKind::Client]
    }

    /// The button label of a kind offered for an instance.
    pub fn label(self) -> (r: Option<&'static str>)
        ensures
            match kind_label(self) {
                Some(l) => (r matches Some(s) && s@ == l),
                None => r is None,
            },
    {
        match self {
            ShareKind::Instance => Some("Mods & version"),
            ShareKind::Hud => Some("HUD layout"),
            ShareKind::Crosshair => Some("Crosshair"),
            ShareKind::Client => Some("All client settings"),
            ShareKind::Profile => None,
        }
    }

    /// What the dialog starts with: the instance's mods and version, or
    /// the whole profile.
    pub fn first(for_instance: bool) -> (r: ShareKind)
        ensures
            r == (if for_instance {
                ShareKind::Instance
            } else {
                ShareKind::Profile
            }),
    {
        if for_instance {
            ShareKind::Instance
        } else {
            ShareKind::Profile
        }
    }
}

/// The dialog's title.
pub fn export_title(for_instance: bool) -> (r: &'static str)
    ensures
        r@ == (if for_instance {
            "Share"@
        } else {
            "Share your profile"@
        }),
{
    if for_instance {
        "Share"
    } else {
        "Share your profile"
    }
}

/// An invite code: being made, made, or refused.
#[derive(Debug)]
pub enum CodeState {
    Making,
    Ready(String),
    Failed(String),
}

/// The code state once the server answered.
pub fn code_state(result: Result<String, String>) -> (r: CodeState)
    ensures
        match result {
            Ok(code) => r == CodeState::Ready(code),
            Err(e) => r == CodeState::Failed(e),
        },
{
    match result {
        Ok(code) => CodeState::Ready(code),
        Err(e) => CodeState::Failed(e),
    }
}

/// "Get a code" works for a signed-in player, once at a time.
pub fn can_get_code(has_account: bool, code: &Option<CodeState>) -> (r: bool)
    ensures
        r == (has_account && !(*code matches Some(CodeState::Making))),
{
    let making = match code {
        Some(CodeState::Making) => true,
        _ => false,
    };
    has_account && !making
}

/// The note under a file that could not be put into a shared instance.
pub open spec fn left_out_note(file: Seq<char>) -> Seq<char> {
    file + " isn't from Modrinth, so it's left out; send it separately."@
}

pub open spec fn left_out_notes_view(files: Seq<Seq<char>>) -> Seq<Seq<char>> {
    files.map_values(|f: Seq<char>| left_out_note(f))
}

/// One note per mod file left out of a shared instance.
pub fn left_out_notes(files: &Vec<String>) -> (r: Vec<String>)
    ensures
        views(r@) == left_out_notes_view(views(files@)),
{
    let mut r: Vec<String> = Vec::new();
    let mut i: usize = 0;
    while i < files.len()
        invariant
            i <= files.len(),
            views(r@) == left_out_notes_view(views(files@).take(i as int)),
        decreases files.len() - i,
    {
        let ghost before = r@;
        let mut note = files[i].clone();
        note.append(" isn't from Modrinth, so it's left out; send it separately.");
        let ghost made = note@;
        r.push(note);
        proof {
            let prev = views(files@).take(i as int);
            assert(views(files@).take(i + 1) =~= prev.push(files@[i as int]@));
            assert(made == left_out_note(files@[i as int]@));
            assert(views(r@) =~= views(before).push(made));
            assert(left_out_notes_view(prev.push(files@[i as int]@)) =~= left_out_notes_view(
                prev,
            ).push(made));
        }
        i += 1;
    }
    assert(views(files@).take(files.len() as int) =~= views(files@));
    r
}

/// How many warnings a dialog or toast lists before "and N more".
pub open spec fn listed_warnings() -> nat {
    5
}

/// "…and N more".
pub open spec fn and_more(n: nat) -> Seq<char> {
    "…and "@ + decimal(n) + " more"@
}

/// The warning lines a dialog shows: the first five, then how many more.
pub open spec fn warning_lines_view(list: Seq<Seq<char>>) -> Seq<Seq<char>> {
    if list.len() > listed_warnings() {
        list.take(listed_warnings() as int).push(and_more((list.len() - listed_warnings()) as nat))
    } else {
        list
    }
}

/// The warning lines shown under a share.
pub fn warning_lines(list: &Vec<String>) -> (r: Vec<String>)
    ensures
        views(r@) == warning_lines_view(views(list@)),
{
    let n: usize = if list.len() > 5 {
        5
    } else {
        list.len()
    };
    let mut r: Vec<String> = Vec::new();
    let mut i: usize = 0;
    while i < n
        invariant
            i <= n <= list.len(),
            n == (if list.len() > 5 { 5 } else { list.len() }),
            views(r@) == views(list@).take(i as int),
        decreases n - i,
    {
        r.push(list[i].clone());
        proof {
            assert(views(list@).take(i + 1) =~= views(list@).take(i as int).push(list@[i as int]@));
        }
        i += 1;
        assert(views(r@) =~= views(list@).take(i as int));
    }
    if list.len() > 5 {
        let mut more = String::from_str("…and ");
        more.append(decimal_string((list.len() - 5) as u64).as_str());
        more.append(" more");
        r.push(more);
        assert(views(r@) =~= warning_lines_view(views(list@)));
    } else {
        assert(views(list@).take(n as int) =~= views(list@));
    }
    r
}

/// The toast listing what an import left out: the first five warnings,
/// one per line, then how many more; nothing when there are none.
pub open spec fn left_out_toast_view(list: Seq<Seq<char>>) -> Option<Seq<char>> {
    if list.len() == 0 {
        None
    } else if list.len() > listed_warnings() {
        Some(
            joined(list.take(listed_warnings() as int), "\n"@) + "\n"@ + and_more(
                (list.len() - listed_warnings()) as nat,
            ),
        )
    } else {
        Some(joined(list, "\n"@))
    }
}

/// Text of the "Some things were left out" toast.
pub fn left_out_toast(warnings: &Vec<String>) -> (r: Option<String>)
    ensures
        match left_out_toast_view(views(warnings@)) {
            Some(t) => (r matches Some(s) && s@ == t),
            None => r is None,
        },
{
    if warnings.len() == 0 {
        return None;
    }
    if warnings.len() > 5 {
        let mut text = join_first(warnings, 5, "\n");
        text.append("\n…and ");
        text.append(decimal_string((warnings.len() - 5) as u64).as_str());
        text.append(" more");
        proof {
            reveal_strlit("\n…and ");
            reveal_strlit("…and ");
            reveal_strlit("\n");
        }
        assert(text@ =~= joined(views(warnings@).take(5), "\n"@) + "\n"@ + and_more(
            (warnings.len() - 5) as nat,
        ));
        Some(text)
    } else {
        let text = join_first(warnings, warnings.len(), "\n");
        assert(views(warnings@).take(warnings.len() as int) =~= views(warnings@));
        Some(text)
    }
}

/// A mod of a shared instance, as the import preview lists it.
#[derive(Debug)]
pub struct PackMod {
    pub title: String,
    /// Pulled in by another mod rather than chosen.
    pub dependency: bool,
}

/// The titles of the mods that were chosen (not dependencies), in order.
pub open spec fn chosen_titles(mods: Seq<PackMod>) -> Seq<Seq<char>>
    decreases mods.len(),
{
    if mods.len() == 0 {
        Seq::empty()
    } else {
        chosen_titles(mods.drop_last()) + if mods.last().dependency {
            Seq::empty()
        } else {
            seq![mods.last().title@]
        }
    }
}

/// How many mod titles the preview lists.
pub open spec fn listed_mods() -> nat {
    8
}

/// The preview's mod line: the first eight chosen mods, then how many
/// more; nothing when no mod was chosen.
pub open spec fn mods_line_view(mods: Seq<PackMod>) -> Option<Seq<char>> {
    let t = chosen_titles(mods);
    if t.len() == 0 {
        None
    } else if t.len() > listed_mods() {
        Some(
            joined(t.take(listed_mods() as int), ", "@) + " and "@ + decimal(
                (t.len() - listed_mods()) as nat,
            ) + " more"@,
        )
    } else {
        Some(joined(t, ", "@))
    }
}

/// The line of mod titles in the import preview of an instance.
pub fn mods_line(mods: &Vec<PackMod>) -> (r: Option<String>)
    ensures
        match mods_line_view(mods@) {
            Some(t) => (r matches Some(s) && s@ == t),
            None => r is None,
        },
{
    let mut titles: Vec<String> = Vec::new();
    let mut i: usize = 0;
    while i < mods.len()
        invariant
            i <= mods.len(),
            views(titles@) == chosen_titles(mods@.take(i as int)),
        decreases mods.len() - i,
    {
        proof {
            assert(mods@.take(i + 1).drop_last() =~= mods@.take(i as int));
        }
        if !mods[i].dependency {
            titles.push(mods[i].title.clone());
            assert(views(titles@) =~= chosen_titles(mods@.take(i + 1)));
        } else {
            assert(chosen_titles(mods@.take(i + 1)) =~= chosen_titles(mods@.take(i as int)));
        }
        i += 1;
    }
    assert(mods@.take(mods.len() as int) =~= mods@);
    let n = titles.len();
    if n == 0 {
        return None;
    }
    if n > 8 {
        let mut line = join_first(&titles, 8, ", ");
        line.append(" and ");
        line.append(decimal_string((n - 8) as u64).as_str());
        line.append(" more");
        Some(line)
    } else {
        let line = join_first(&titles, n, ", ");
        assert(views(titles@).take(n as int) =~= views(titles@));
        Some(line)
    }
}

/// What bundle-like thing the Import dialog got from pasted text.
#[derive(Debug)]
pub enum Input<B> {
    /// The text held the share itself.
    Bundle(B),
    /// The text was a code to look up on the server.
    Code(String),
}

/// Where the Import dialog is.
#[derive(Debug)]
pub enum ImportStage<B> {
    /// Editing the text, with the last error.
    Edit(Option<String>),
    /// Looking a code up, or reading a file.
    Loading,
    Preview(B),
    /// Importing.
    Working,
}

/// The stage after reading pasted text, and the code to look up, if any.
pub fn stage_for_input<B>(read: Result<Input<B>, String>) -> (r: (ImportStage<B>, Option<String>))
    ensures
        match read {
            Ok(Input::Bundle(b)) => r.0 == ImportStage::Preview(b) && r.1 is None,
            Ok(Input::Code(code)) => r.0 == ImportStage::<B>::Loading && r.1 == Some(code),
            Err(e) => r.0 == ImportStage::<B>::Edit(Some(e)) && r.1 is None,
        },
{
    match read {
        Ok(Input::Bundle(b)) => (ImportStage::Preview(b), None),
        Ok(Input::Code(code)) => (ImportStage::Loading, Some(code)),
        Err(e) => (ImportStage::Edit(Some(e)), None),
    }
}

/// The stage once a looked-up code or an opened file came back: nothing
/// (the file dialog was cancelled) goes back to editing.
pub fn stage_after_load<B>(result: Result<Option<B>, String>) -> (r: ImportStage<B>)
    ensures
        match result {
            Ok(Some(b)) => r == ImportStage::Preview(b),
            Ok(None) => r == ImportStage::<B>::Edit(None),
            Err(e) => r == ImportStage::<B>::Edit(Some(e)),
        },
{
    match result {
        Ok(Some(b)) => ImportStage::Preview(b),
        Ok(None) => ImportStage::Edit(None),
        Err(e) => ImportStage::Edit(Some(e)),
    }
}

/// An import is waiting on something it cannot take back.
pub fn import_busy<B>(stage: &ImportStage<B>) -> (r: bool)
    ensures
        r == (*stage is Working || *stage is Loading),
{
    match stage {
        ImportStage::Working | ImportStage::Loading => true,
        _ => false,
    }
}

/// "Continue" needs some text.
pub fn can_continue(input: &str) -> (r: bool)
    ensures
        r == (trimmed(input@).len() > 0),
{
    let v = chars_of(input);
    trim(&v).len() > 0
}

/// Whether a dialog stays open this frame: not when its own button closed
/// it, nor when dismissed while it waits on nothing.
pub fn keep_dialog_open(closed: bool, dismissed: bool, busy: bool) -> (r: bool)
    ensures
        r == !(closed || (dismissed && !busy)),
        busy && !closed ==> r,
{
    !(closed || (dismissed && !busy))
}

/// What a share holds, as the import preview tells them apart.
#[derive(Debug, Clone, Copy, PartialEq, Eq, Structural)]
pub enum BundleKind {
    Instance,
    /// HUD, crosshair or all client settings, applied to an instance.
    Client,
    Profile,
}

/// Why "Import" is not offered yet: client settings are written by the
/// target's game when it quits, and a profile by every game.
pub open spec fn import_blocked_view(kind: BundleKind, target_busy: bool, any_game_busy: bool) -> Option<Seq<char>> {
    match kind {
        BundleKind::Instance => None,
        BundleKind::Client => if target_busy {
            Some("Close that game first; it saves its own settings when it quits."@)
        } else {
            None
        },
        BundleKind::Profile => if any_game_busy {
            Some("Close your games first."@)
        } else {
            None
        },
    }
}

/// The reason the import waits, if any. `target_busy`: the target
/// instance's game runs or holds its settings; `any_game_busy`: some game
/// runs, or the Vanilla game holds its settings.
pub fn import_blocked(kind: BundleKind, target_busy: bool, any_game_busy: bool) -> (r: Option<&'static str>)
    ensures
        match import_blocked_view(kind, target_busy, any_game_busy) {
            Some(t) => (r matches Some(s) && s@ == t),
            None => r is None,
        },
{
    match kind {
        BundleKind::Instance => None,
        BundleKind::Client => if target_busy {
            Some("Close that game first; it saves its own settings when it quits.")
        } else {
            None
        },
        BundleKind::Profile => if any_game_busy {
            Some("Close your games first.")
        } else {
            None
        },
    }
}

/// A click in the import preview.
#[derive(Debug, Clone, Copy, PartialEq, Eq, Structural)]
pub enum PreviewClick {
    Back,
    Import,
}

/// What the launcher does after a click in the preview.
#[derive(Debug)]
pub enum PreviewAction<B> {
    Nothing,
    /// Clear the import progress and start importing this share, once.
    StartImport(B),
}

/// The preview after a click: "Back" returns to editing; "Import", unless
/// held back, starts the import and waits for it; a held-back preview
/// stays as it is. `blocked` is whether `import_blocked` gave a reason.
pub open spec fn preview_next<B>(stage: ImportStage<B>, blocked: bool, click: PreviewClick) -> (
    ImportStage<B>,
    PreviewAction<B>,
) {
    match stage {
        ImportStage::Preview(b) => match click {
            PreviewClick::Back => (ImportStage::Edit(None), PreviewAction::Nothing),
            PreviewClick::Import => if blocked {
                (ImportStage::Preview(b), PreviewAction::Nothing)
            } else {
                (ImportStage::Working, PreviewAction::StartImport(b))
            },
        },
        _ => (stage, PreviewAction::Nothing),
    }
}

/// One click in the import preview.
pub fn preview_step<B>(stage: ImportStage<B>, blocked: bool, click: PreviewClick) -> (r: (ImportStage<B>, PreviewAction<B>))
    ensures
        r == preview_next(stage, blocked, click),
{
    match stage {
        ImportStage::Preview(b) => match click {
            PreviewClick::Back => (ImportStage::Edit(None), PreviewAction::Nothing),
            PreviewClick::Import => if blocked {
                (ImportStage::Preview(b), PreviewAction::Nothing)
            } else {
                (ImportStage::Working, PreviewAction::StartImport(b))
            },
        },
        other => (other, PreviewAction::Nothing),
    }
}

} // verus!
