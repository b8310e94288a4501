//! The Instances tab's decisions: which page an instance opens on, mod
//! icons fetched once, the create form's defaults, and its lines of text.

use vstd::prelude::*;
use vstd::string::*;
use crate::humanize::{icon_texture_uri, icon_uri_text};
use crate::text::{chars_of, decimal, decimal_string, str_eq, string_of, trim, trimmed, views};

verus! {

/// Something fetched in the background.
#[derive(Debug, Clone)]
pub enum Load<T> {
    Loading,
    Ready(T),
    Failed(String),
}

/// What came back, as a loaded value or its error.
pub fn load_from<T>(result: Result<T, String>) -> (r: Load<T>)
    ensures
        match result {
            Ok(v) => r == Load::Ready(v),
            Err(e) => r == Load::<T>::Failed(e),
        },
{
    match result {
        Ok(v) => Load::Ready(v),
        Err(e) => Load::Failed(e),
    }
}

/// A remote mod icon.
#[derive(Debug, Clone, PartialEq, Eq)]
pub enum IconState {
    Loading,
    /// Uploaded under this texture URI.
    Ready(String),
    Failed,
}

/// The pages of an open instance.
#[derive(Debug, Clone, Copy, PartialEq, Eq, Structural)]
pub enum InstancePage {
    Mods,
    Browse,
    Settings,
}

/// An instance opens on its mods when it has a mod loader, else on its
/// settings.
pub fn first_page(has_loader: bool) -> (r: InstancePage)
    ensures
        r == (if has_loader {
            InstancePage::Mods
        } else {
            InstancePage::Settings
        }),
{
    if has_loader {
        InstancePage::Mods
    } else {
        InstancePage::Settings
    }
}

/// Where the Instances tab is: the open instance, its page, whether its
/// removal waits for "Yes, remove", and the name being typed.
#[derive(Debug)]
pub struct InstanceView {
    pub open: Option<String>,
    pub page: InstancePage,
    pub confirm_delete: bool,
    pub rename: Option<String>,
}

/// Open instance `id`. `loader` is `None` when no instance has that id,
/// else whether it has a mod loader. It opens on its mods or its
/// settings, with no removal asked and no name typed; the result says
/// whether to list its mods folder (only for an instance that exists).
pub fn open_instance(view: &mut InstanceView, id: &str, loader: Option<bool>) -> (list_mods: bool)
    ensures
        final(view).open matches Some(o) && o@ == id@,
        final(view).page == (if loader == Some(true) {
            InstancePage::Mods
        } else {
            InstancePage::Settings
        }),
        !final(view).confirm_delete,
        final(view).rename is None,
        list_mods == (loader is Some),
{
    view.open = Some(String::from_str(id));
    view.page = first_page(match loader {
        Some(has) => has,
        None => false,
    });
    view.confirm_delete = false;
    view.rename = None;
    loader.is_some()
}

/// The new name offered by "Save": the typed name without surrounding
/// white space, when it is not empty and differs from the current name.
pub fn rename_offer(typed: &str, current: &str) -> (r: Option<String>)
    ensures
        (r is Some) == (trimmed(typed@) != current@ && trimmed(typed@).len() > 0),
        r matches Some(n) ==> n@ == trimmed(typed@),
{
    let t = trim(&chars_of(typed));
    let name = string_of(&t);
    if t.len() > 0 && !str_eq(name.as_str(), current) {
        Some(name)
    } else {
        None
    }
}

/// An instance's own memory: the slider's amount when "Use a custom
/// amount" is ticked, else none (the launcher setting applies).
pub fn instance_memory(custom: bool, mb: u32) -> (r: Option<u32>)
    ensures
        r == (if custom {
            Some(mb)
        } else {
            None
        }),
{
    if custom {
        Some(mb)
    } else {
        None
    }
}

/// A button of the "Remove instance" card.
#[derive(Debug, Clone, Copy, PartialEq, Eq, Structural)]
pub enum RemoveClick {
    Remove,
    Keep,
    Yes,
}

/// A click on the "Remove instance" card (which the default instance does
/// not have): the new "waiting for Yes" flag, and whether to remove the
/// instance now. It is removed only on "Yes, remove" while that question
/// was showing.
pub fn remove_step(is_default: bool, confirm: bool, click: RemoveClick) -> (r: (bool, bool))
    ensures
        r.1 == (!is_default && confirm && click == RemoveClick::Yes),
        r.0 == (if is_default {
            confirm
        } else if !confirm {
            click == RemoveClick::Remove
        } else {
            click != RemoveClick::Keep
        }),
{
    if is_default {
        return (confirm, false);
    }
    if !confirm {
        (click == RemoveClick::Remove, false)
    } else {
        match click {
            RemoveClick::Keep => (false, false),
            RemoveClick::Yes => (true, true),
            RemoveClick::Remove => (true, false),
        }
    }
}

/// After instance `id` was removed: it is closed, no removal is asked, and
/// it is no longer the last instance played.
pub fn instance_removed(view: &mut InstanceView, last_instance: &mut Option<String>, id: &str)
    ensures
        final(view).open is None,
        !final(view).confirm_delete,
        final(view).page == old(view).page,
        final(view).rename == old(view).rename,
        *final(last_instance) == (if *old(last_instance) matches Some(l) && l@ == id@ {
            None
        } else {
            *old(last_instance)
        }),
{
    view.open = None;
    view.confirm_delete = false;
    let same = match last_instance {
        Some(l) => str_eq(l.as_str(), id),
        None => false,
    };
    if same {
        *last_instance = None;
    }
}

/// The instance remembered after picking `picked` in the switcher: none
/// for the default instance.
pub fn switched_instance(picked: &str, default_id: &str) -> (r: Option<String>)
    ensures
        (r is None) == (picked@ == default_id@),
        r matches Some(s) ==> s@ == picked@,
{
    if str_eq(picked, default_id) {
        None
    } else {
        Some(String::from_str(picked))
    }
}

/// What drawing an icon does: the texture to draw, if there is one, and
/// whether to start fetching it (only for an icon never asked for).
pub fn icon_lookup(state: Option<&IconState>) -> (r: (Option<String>, bool))
    ensures
        match state {
            Some(IconState::Ready(uri)) => (r.0 matches Some(u) && u@ == uri@) && !r.1,
            Some(_) => r.0 is None && !r.1,
            None => r.0 is None && r.1,
        },
{
    match state {
        Some(IconState::Ready(uri)) => (Some(uri.clone()), false),
        Some(_) => (None, false),
        None => (None, true),
    }
}

/// The state of the icon for `url`: that of the last entry for it.
pub open spec fn icon_state(entries: Seq<(String, IconState)>, url: Seq<char>) -> Option<IconState>
    decreases entries.len(),
{
    if entries.len() == 0 {
        None
    } else if entries.last().0@ == url {
        Some(entries.last().1)
    } else {
        icon_state(entries.drop_last(), url)
    }
}

proof fn lemma_icon_last(entries: Seq<(String, IconState)>, url: Seq<char>, i: int)
    requires
        0 <= i < entries.len(),
        entries[i].0@ == url,
        forall|j: int| i < j < entries.len() ==> entries[j].0@ != url,
    ensures
        icon_state(entries, url) == Some(entries[i].1),
    decreases entries.len(),
{
    if i < entries.len() - 1 {
        let d = entries.drop_last();
        assert(entries.last() == entries[entries.len() - 1]);
        lemma_icon_last(d, url, i);
    }
}

proof fn lemma_icon_none(entries: Seq<(String, IconState)>, url: Seq<char>)
    requires
        forall|j: int| 0 <= j < entries.len() ==> entries[j].0@ != url,
    ensures
        icon_state(entries, url) is None,
    decreases entries.len(),
{
    if entries.len() > 0 {
        assert(entries.last() == entries[entries.len() - 1]);
        lemma_icon_none(entries.drop_last(), url);
    }
}

proof fn lemma_icon_update(entries: Seq<(String, IconState)>, i: int, s: IconState, other: Seq<char>)
    requires
        0 <= i < entries.len(),
        forall|j: int| i < j < entries.len() ==> entries[j].0@ != entries[i].0@,
    ensures
        icon_state(entries.update(i, (entries[i].0, s)), entries[i].0@) == Some(s),
        other != entries[i].0@ ==> icon_state(entries.update(i, (entries[i].0, s)), other) == icon_state(entries, other),
    decreases entries.len(),
{
    let u = entries.update(i, (entries[i].0, s));
    let url = entries[i].0@;
    if i == entries.len() - 1 {
        assert(u.drop_last() =~= entries.drop_last());
        assert(u.last() == (entries[i].0, s));
    } else {
        let d = entries.drop_last();
        assert(u.drop_last() =~= d.update(i, (d[i].0, s)));
        assert(u.last() == entries.last());
        assert(entries.last() == entries[entries.len() - 1]);
        assert forall|j: int| i < j < d.len() implies d[j].0@ != d[i].0@ by {
            assert(d[j] == entries[j]);
        }
        lemma_icon_update(d, i, s, other);
    }
}

/// The mod icons asked for so far, by URL.
#[derive(Debug)]
pub struct IconCache {
    pub entries: Vec<(String, IconState)>,
}

impl IconCache {
    pub fn new() -> (r: IconCache)
        ensures
            r.entries@.len() == 0,
    {
        IconCache { entries: Vec::new() }
    }

    /// The last entry for `url`, if any.
    fn last_entry(&self, url: &str) -> (r: Option<usize>)
        ensures
            match r {
                Some(i) => i < self.entries@.len() && self.entries@[i as int].0@ == url@
                    && forall|j: int| i < j < self.entries@.len() ==> self.entries@[j].0@ != url@,
                None => forall|j: int| 0 <= j < self.entries@.len() ==> self.entries@[j].0@ != url@,
            },
    {
        let mut k: usize = self.entries.len();
        while k > 0
            invariant
                k <= self.entries@.len(),
                forall|j: int| k <= j < self.entries@.len() ==> self.entries@[j].0@ != url@,
            decreases k,
        {
            if str_eq(self.entries[k - 1].0.as_str(), url) {
                return Some(k - 1);
            }
            k -= 1;
        }
        None
    }

    /// The texture for the icon at `url`, and whether to start fetching it:
    /// only an icon never asked for is fetched, and it is then marked as
    /// loading. Afterwards the URL is always known, so no later lookup
    /// fetches it again: each icon is fetched once.
    pub fn icon_uri(&mut self, url: &str) -> (r: (Option<String>, bool))
        ensures
            r.1 == (icon_state(old(self).entries@, url@) is None),
            icon_state(final(self).entries@, url@) is Some,
            match icon_state(old(self).entries@, url@) {
                Some(IconState::Ready(uri)) => (r.0 matches Some(u) && u@ == uri@) && !r.1
                    && final(self).entries@ == old(self).entries@,
                Some(_) => r.0 is None && !r.1 && final(self).entries@ == old(self).entries@,
                None => r.0 is None && r.1 && icon_state(final(self).entries@, url@) == Some(IconState::Loading)
                    && forall|o: Seq<char>| o != url@ ==> icon_state(final(self).entries@, o) == icon_state(old(self).entries@, o),
            },
    {
        match self.last_entry(url) {
            Some(i) => {
                proof {
                    lemma_icon_last(self.entries@, url@, i as int);
                }
                match &self.entries[i].1 {
                    IconState::Ready(uri) => (Some(uri.clone()), false),
                    _ => (None, false),
                }
            },
            None => {
                proof {
                    lemma_icon_none(self.entries@, url@);
                }
                let ghost before = self.entries@;
                self.entries.push((String::from_str(url), IconState::Loading));
                proof {
                    assert(self.entries@.drop_last() =~= before);
                }
                (None, true)
            },
        }
    }

    /// The download for `url` ended: record what came of it.
    pub fn loaded(&mut self, url: &str, state: IconState)
        ensures
            icon_state(final(self).entries@, url@) == Some(state),
            forall|o: Seq<char>| o != url@ ==> icon_state(final(self).entries@, o) == icon_state(old(self).entries@, o),
    {
        match self.last_entry(url) {
            Some(i) => {
                let key = self.entries[i].0.clone();
                let ghost before = self.entries@;
                self.entries.set(i, (key, state));
                proof {
                    assert forall|o: Seq<char>| o != url@ implies icon_state(self.entries@, o) == icon_state(before, o) by {
                        lemma_icon_update(before, i as int, state, o);
                    }
                    lemma_icon_update(before, i as int, state, url@);
                    assert(self.entries@ == before.update(i as int, (before[i as int].0, state)));
                }
            },
            None => {
                let ghost before = self.entries@;
                self.entries.push((String::from_str(url), state));
                proof {
                    assert(self.entries@.drop_last() =~= before);
                }
            },
        }
    }
}

/// The line under the instance switcher: the default instance, or the
/// mod loader the instance runs.
pub fn switcher_subtitle(is_default: bool, loader_label: &str) -> (r: String)
    ensures
        r@ == if is_default {
            "Default instance"@
        } else {
            loader_label@ + " instance"@
        },
{
    if is_default {
        String::from_str("Default instance")
    } else {
        let mut s = String::from_str(loader_label);
        s.append(" instance");
        s
    }
}

/// The icon once its download ended: uploaded under its URL's texture URI,
/// or failed.
pub fn icon_loaded(url: &str, ok: bool) -> (r: IconState)
    ensures
        ok ==> (r matches IconState::Ready(u) && u@ == icon_uri_text(url@)),
        !ok ==> r is Failed,
{
    if ok {
        IconState::Ready(icon_texture_uri(url))
    } else {
        IconState::Failed
    }
}

/// The toast after installing a mod: the mod, how many dependencies came
/// with it, or that nothing was new.
pub open spec fn installed_title_view(names: Seq<Seq<char>>) -> Seq<char> {
    if names.len() == 0 {
        "Already installed"@
    } else if names.len() == 1 {
        "Installed "@ + names[0]
    } else {
        "Installed "@ + names[0] + " + "@ + decimal((names.len() - 1) as nat) + " dependencies"@
    }
}

/// Title of the toast after a mod install.
pub fn installed_title(names: &Vec<String>) -> (r: String)
    ensures
        r@ == installed_title_view(views(names@)),
{
    if names.len() == 0 {
        return String::from_str("Already installed");
    }
    let mut s = String::from_str("Installed ");
    s.append(names[0].as_str());
    if names.len() > 1 {
        s.append(" + ");
        s.append(decimal_string((names.len() - 1) as u64).as_str());
        s.append(" dependencies");
    }
    s
}

/// "Fabric 0.16.9 · Minecraft 1.21.4" / "Minecraft 1.21.4" / "Plays any
/// release".
pub open spec fn subtitle_view(game: Option<Seq<char>>, loader_label: Seq<char>, loader_version: Option<Seq<char>>) -> Seq<char> {
    match (game, loader_version) {
        (Some(g), Some(v)) => loader_label + " "@ + v + " · Minecraft "@ + g,
        (Some(g), None) => "Minecraft "@ + g,
        (None, _) => "Plays any release"@,
    }
}

pub open spec fn opt_view(s: Option<&str>) -> Option<Seq<char>> {
    match s {
        Some(t) => Some(t@),
        None => None,
    }
}

/// The line under an instance's name.
pub fn instance_subtitle(game: Option<&str>, loader_label: &str, loader_version: Option<&str>) -> (r:
    String)
    ensures
        r@ == subtitle_view(opt_view(game), loader_label@, opt_view(loader_version)),
{
    match (game, loader_version) {
        (Some(g), Some(v)) => {
            let mut s = String::from_str(loader_label);
            s.append(" ");
            s.append(v);
            s.append(" · Minecraft ");
            s.append(g);
            s
        },
        (Some(g), None) => {
            let mut s = String::from_str("Minecraft ");
            s.append(g);
            s
        },
        (None, _) => String::from_str("Plays any release"),
    }
}

/// Whether a list of strings holds one equal to `s`.
pub fn holds(list: &Vec<String>, s: &str) -> (r: bool)
    ensures
        r == views(list@).contains(s@),
{
    let mut i: usize = 0;
    while i < list.len()
        invariant
            i <= list@.len(),
            forall|j: int| 0 <= j < i ==> list@[j]@ != s@,
        decreases list@.len() - i,
    {
        if str_eq(list[i].as_str(), s) {
            assert(views(list@)[i as int] == s@);
            return true;
        }
        i += 1;
    }
    assert forall|j: int| 0 <= j < views(list@).len() implies views(list@)[j] != s@ by {
        assert(views(list@)[j] == list@[j]@);
    }
    false
}

/// The versions offered, in order, that the loader supports.
pub open spec fn supported_view(visible: Seq<Seq<char>>, supported: Seq<Seq<char>>) -> Seq<Seq<char>> {
    visible.filter(|v: Seq<char>| supported.contains(v))
}

/// The Minecraft versions the create form offers for a loader: those shown
/// in pickers that the loader supports, newest first.
pub fn supported_games(visible: &Vec<String>, supported: &Vec<String>) -> (r: Vec<String>)
    ensures
        views(r@) == supported_view(views(visible@), views(supported@)),
{
    let mut r: Vec<String> = Vec::new();
    let mut i: usize = 0;
    while i < visible.len()
        invariant
            i <= visible@.len(),
            views(r@) == supported_view(views(visible@).take(i as int), views(supported@)),
        decreases visible@.len() - i,
    {
        let ghost before = r@;
        proof {
            assert(views(visible@).take(i + 1).drop_last() =~= views(visible@).take(i as int));
            reveal(Seq::filter);
        }
        if holds(supported, visible[i].as_str()) {
            r.push(visible[i].clone());
            assert(views(r@) =~= views(before).push(visible@[i as int]@));
        }
        i += 1;
    }
    assert(views(visible@).take(visible@.len() as int) =~= views(visible@));
    r
}

/// The game version the create form keeps: its own while it is offered,
/// else the newest offered; unchanged while the list loads. The second
/// value says whether the loader build must be chosen again.
pub fn pick_game(current: Option<String>, offered: &Option<Vec<String>>) -> (r: (Option<String>, bool))
    ensures
        match offered {
            None => r.0 == current && !r.1,
            Some(list) => {
                let keep = current matches Some(g) && views(list@).contains(g@);
                if keep {
                    r.0 == current && !r.1
                } else {
                    r.1 && if list@.len() > 0 {
                        r.0 matches Some(g) && g@ == list@[0]@
                    } else {
                        r.0 is None
                    }
                }
            },
        },
{
    match offered {
        None => (current, false),
        Some(list) => {
            let keep = match &current {
                Some(g) => holds(list, g.as_str()),
                None => false,
            };
            if keep {
                (current, false)
            } else if list.len() > 0 {
                (Some(list[0].clone()), true)
            } else {
                (None, true)
            }
        },
    }
}

/// The name the create form suggests until the user types one: the
/// loader's name (or Vanilla) and the game version, trimmed.
pub open spec fn default_name_view(loader_label: Option<Seq<char>>, game: Option<Seq<char>>) -> Seq<char> {
    trimmed(
        match loader_label {
            Some(l) => l,
            None => "Vanilla"@,
        } + " "@ + match game {
            Some(g) => g,
            None => Seq::empty(),
        },
    )
}

/// The suggested name of a new instance.
pub fn default_instance_name(loader_label: Option<&str>, game: Option<&str>) -> (r: String)
    ensures
        r@ == default_name_view(opt_view(loader_label), opt_view(game)),
{
    let mut s = String::from_str(
        match loader_label {
            Some(l) => l,
            None => "Vanilla",
        },
    );
    s.append(" ");
    match game {
        Some(g) => s.append(g),
        None => {},
    }
    proof {
        reveal_strlit("Vanilla");
        reveal_strlit(" ");
    }
    assert(s@ =~= match opt_view(loader_label) {
        Some(l) => l,
        None => "Vanilla"@,
    } + " "@ + match opt_view(game) {
        Some(g) => g,
        None => Seq::empty(),
    });
    string_of(&trim(&chars_of(s.as_str())))
}

/// Which custom instance is selected (`None`: Vanilla).
pub fn selected_instance(last: Option<&str>, ids: &Vec<String>) -> (r: Option<usize>)
    ensures
        match last {
            None => r is None,
            Some(id) => match r {
                Some(i) => i < ids@.len() && ids@[i as int]@ == id@ && forall|j: int|
                    0 <= j < i ==> ids@[j]@ != id@,
                None => !views(ids@).contains(id@),
            },
        },
{
    let id = match last {
        Some(id) => id,
        None => return None,
    };
    let mut i: usize = 0;
    while i < ids.len()
        invariant
            i <= ids@.len(),
            last == Some(id),
            forall|j: int| 0 <= j < i ==> ids@[j]@ != id@,
        decreases ids@.len() - i,
    {
        if str_eq(ids[i].as_str(), id) {
            return Some(i);
        }
        i += 1;
    }
    assert forall|j: int| 0 <= j < views(ids@).len() implies views(ids@)[j] != id@ by {
        assert(views(ids@)[j] == ids@[j]@);
    }
    None
}

} // verus!
