//! An instance's singleplayer worlds: finding the one the user named, and
//! reporting imports.

use vstd::prelude::*;
use vstd::string::*;
use crate::errors::Error;
use crate::migrate::first_index;
use crate::migration::{key_set, set_key};
use crate::text::{chars_of, decimal, decimal_string, eq_ignore_ascii_case, eq_ignore_case, str_eq, views};

verus! {

/// A world: its folder under `saves` and the name shown in game.
#[derive(Debug)]
pub struct World {
    pub folder: String,
    pub name: String,
}

/// The worlds that `query` matches under `rule`, as a test on positions.
pub open spec fn matching(worlds: Seq<World>, query: Seq<char>, rule: Rule) -> spec_fn(int) -> bool {
    |i: int| rule_holds(rule, worlds[i], query)
}

/// The world `find_world` picks: by folder name first (exactly, then ignoring
/// ASCII case), then by the name shown in game (ignoring ASCII case).
pub open spec fn world_choice(worlds: Seq<World>, query: Seq<char>) -> Option<int> {
    let n = worlds.len();
    match first_index(n, matching(worlds, query, Rule::FolderExact)) {
        Some(i) => Some(i),
        None => match first_index(n, matching(worlds, query, Rule::FolderAnyCase)) {
            Some(i) => Some(i),
            None => first_index(n, matching(worlds, query, Rule::NameAnyCase)),
        },
    }
}

pub open spec fn no_world_message(query: Seq<char>) -> Seq<char> {
    "no world matches '"@ + query + "' (see `arctic worlds list`)"@
}

proof fn lemma_found_stays(n: nat, m: nat, p: spec_fn(int) -> bool)
    requires
        m <= n,
        first_index(m, p) is Some,
    ensures
        first_index(n, p) == first_index(m, p),
    decreases n,
{
    if n > m {
        lemma_found_stays((n - 1) as nat, m, p);
    }
}

/// How a world may be matched by a query.
pub enum Rule {
    FolderExact,
    FolderAnyCase,
    NameAnyCase,
}

pub open spec fn rule_holds(rule: Rule, w: World, query: Seq<char>) -> bool {
    match rule {
        Rule::FolderExact => w.folder@ == query,
        Rule::FolderAnyCase => eq_ignore_case(w.folder@, query),
        Rule::NameAnyCase => eq_ignore_case(w.name@, query),
    }
}

/// The first world matching under `rule`.
fn first_by(worlds: &Vec<World>, query: &str, rule: Rule) -> (r: Option<usize>)
    ensures
        r matches Some(i) ==> first_index(worlds@.len(), matching(worlds@, query@, rule)) == Some(
            i as int,
        ),
        r is None ==> first_index(worlds@.len(), matching(worlds@, query@, rule)) is None,
{
    let ghost p = matching(worlds@, query@, rule);
    let q = chars_of(query);
    let mut i: usize = 0;
    while i < worlds.len()
        invariant
            0 <= i <= worlds.len(),
            q@ == query@,
            p == matching(worlds@, query@, rule),
            first_index(i as nat, p) is None,
        decreases worlds.len() - i,
    {
        let w = &worlds[i];
        let hit = match rule {
            Rule::FolderExact => str_eq(w.folder.as_str(), query),
            Rule::FolderAnyCase => eq_ignore_ascii_case(&chars_of(w.folder.as_str()), &q),
            Rule::NameAnyCase => eq_ignore_ascii_case(&chars_of(w.name.as_str()), &q),
        };
        if hit {
            proof {
                assert(first_index((i + 1) as nat, p) == Some(i as int));
                lemma_found_stays(worlds@.len(), (i + 1) as nat, p);
            }
            return Some(i);
        }
        i += 1;
    }
    None
}

/// By folder name first, then by the name shown in game.
pub fn find_world(worlds: &Vec<World>, query: &str) -> (r: Result<usize, Error>)
    ensures
        match world_choice(worlds@, query@) {
            Some(i) => r matches Ok(j) && j == i,
            None => r matches Err(e) && e matches Error::Other(m) && m@ == no_world_message(query@),
        },
{
    if let Some(i) = first_by(worlds, query, Rule::FolderExact) {
        return Ok(i);
    }
    if let Some(i) = first_by(worlds, query, Rule::FolderAnyCase) {
        return Ok(i);
    }
    if let Some(i) = first_by(worlds, query, Rule::NameAnyCase) {
        return Ok(i);
    }
    let mut m = String::from_str("no world matches '");
    m.append(query);
    m.append("' (see `arctic worlds list`)");
    Err(Error::Other(m))
}

/// A world whose folder has exactly the queried name is the one found,
/// whatever other worlds are called.
pub proof fn law_exact_folder_first(worlds: Seq<World>, query: Seq<char>, i: int)
    requires
        0 <= i < worlds.len(),
        worlds[i].folder@ == query,
        forall|j: int| 0 <= j < i ==> worlds[j].folder@ != query,
    ensures
        world_choice(worlds, query) == Some(i),
{
    let p = matching(worlds, query, Rule::FolderExact);
    assert forall|j: int| 0 <= j < i implies !#[trigger] p(j) by {
        assert(worlds[j].folder@ != query);
    }
    lemma_first_is(worlds.len(), p, i);
}

/// `i` is the first world that `query` matches under `rule`.
pub open spec fn first_where(worlds: Seq<World>, query: Seq<char>, rule: Rule, i: int) -> bool {
    &&& 0 <= i < worlds.len()
    &&& rule_holds(rule, worlds[i], query)
    &&& forall|j: int| 0 <= j < i ==> !rule_holds(rule, #[trigger] worlds[j], query)
}

/// Some world matches `query` under `rule`.
pub open spec fn any_where(worlds: Seq<World>, query: Seq<char>, rule: Rule) -> bool {
    exists|j: int| 0 <= j < worlds.len() && rule_holds(rule, #[trigger] worlds[j], query)
}

/// The world found is the first with exactly the queried folder name; if
/// there is none, the first whose folder name matches ignoring ASCII
/// case; if there is none, the first whose name in game does. Nothing is
/// found only when no world matches in any of these ways.
pub proof fn law_find_world(worlds: Seq<World>, query: Seq<char>)
    ensures
        match world_choice(worlds, query) {
            Some(i) => first_where(worlds, query, Rule::FolderExact, i) || (!any_where(
                worlds,
                query,
                Rule::FolderExact,
            ) && first_where(worlds, query, Rule::FolderAnyCase, i)) || (!any_where(
                worlds,
                query,
                Rule::FolderExact,
            ) && !any_where(worlds, query, Rule::FolderAnyCase) && first_where(
                worlds,
                query,
                Rule::NameAnyCase,
                i,
            )),
            None => !any_where(worlds, query, Rule::FolderExact) && !any_where(
                worlds,
                query,
                Rule::FolderAnyCase,
            ) && !any_where(worlds, query, Rule::NameAnyCase),
        },
{
    let n = worlds.len();
    lemma_first_index_meaning(n, matching(worlds, query, Rule::FolderExact));
    lemma_first_index_meaning(n, matching(worlds, query, Rule::FolderAnyCase));
    lemma_first_index_meaning(n, matching(worlds, query, Rule::NameAnyCase));
    lemma_matching_is(worlds, query, Rule::FolderExact);
    lemma_matching_is(worlds, query, Rule::FolderAnyCase);
    lemma_matching_is(worlds, query, Rule::NameAnyCase);
}

proof fn lemma_matching_is(worlds: Seq<World>, query: Seq<char>, rule: Rule)
    ensures
        (first_index(worlds.len(), matching(worlds, query, rule)) is None) ==> !any_where(worlds, query, rule),
        forall|i: int| #![trigger first_where(worlds, query, rule, i)]
            first_index(worlds.len(), matching(worlds, query, rule)) == Some(i) ==> first_where(worlds, query, rule, i),
{
    let p = matching(worlds, query, rule);
    let n = worlds.len();
    lemma_first_index_meaning(n, p);
    if first_index(n, p) is None {
        if any_where(worlds, query, rule) {
            let j = choose|j: int| 0 <= j < n && rule_holds(rule, #[trigger] worlds[j], query);
            assert(p(j));
        }
    }
    assert forall|i: int| #![trigger first_where(worlds, query, rule, i)]
        first_index(n, p) == Some(i) implies first_where(worlds, query, rule, i) by {
        assert(p(i));
        assert forall|j: int| 0 <= j < i implies !rule_holds(rule, #[trigger] worlds[j], query) by {
            assert(!p(j));
        }
    }
}

/// What `first_index` gives: the least index satisfying `p`, or none.
proof fn lemma_first_index_meaning(n: nat, p: spec_fn(int) -> bool)
    ensures
        first_index(n, p) matches Some(i) ==> 0 <= i < n && p(i) && forall|j: int| 0 <= j < i ==> !#[trigger] p(j),
        first_index(n, p) is None ==> forall|j: int| 0 <= j < n ==> !#[trigger] p(j),
    decreases n,
{
    if n > 0 {
        lemma_first_index_meaning((n - 1) as nat, p);
    }
}

proof fn lemma_first_is(n: nat, p: spec_fn(int) -> bool, i: int)
    requires
        0 <= i < n,
        p(i),
        forall|j: int| 0 <= j < i ==> !#[trigger] p(j),
    ensures
        first_index(n, p) == Some(i),
    decreases n,
{
    if n - 1 > i {
        lemma_first_is((n - 1) as nat, p, i);
    } else {
        lemma_none_below(i as nat, p);
    }
}

proof fn lemma_none_below(n: nat, p: spec_fn(int) -> bool)
    requires
        forall|j: int| 0 <= j < n ==> !#[trigger] p(j),
    ensures
        first_index(n, p) is None,
    decreases n,
{
    if n > 0 {
        lemma_none_below((n - 1) as nat, p);
    }
}

/// The message after copying world folders in: the count, or the last
/// error when none could be copied.
pub open spec fn import_report(imported: nat, error: Option<Seq<char>>) -> Result<Seq<char>, Seq<char>> {
    if imported == 0 && error is Some {
        Err(error.unwrap())
    } else if imported == 1 {
        Ok("Imported 1 world"@)
    } else {
        Ok("Imported "@ + decimal(imported) + " worlds"@)
    }
}

/// "Imported 3 worlds", or why nothing was imported.
pub fn imported_message(imported: usize, error: Option<String>) -> (r: Result<String, String>)
    ensures
        match import_report(imported as nat, match error {
            Some(e) => Some(e@),
            None => None,
        }) {
            Ok(t) => r matches Ok(s) && s@ == t,
            Err(t) => r matches Err(s) && s@ == t,
        },
{
    match (imported, error) {
        (0, Some(e)) => Err(e),
        (n, _) => if n == 1 {
            Ok(String::from_str("Imported 1 world"))
        } else {
            let mut s = String::from_str("Imported ");
            s.append(decimal_string(n as u64).as_str());
            s.append(" worlds");
            Ok(s)
        },
    }
}

/// The label of the Import button of the world import dialog.
pub open spec fn import_button_view(picked: usize) -> Seq<char> {
    if picked == 0 {
        "Import"@
    } else if picked == 1 {
        "Import 1 world"@
    } else {
        "Import "@ + decimal(picked as nat) + " worlds"@
    }
}

pub fn import_button_text(picked: usize) -> (r: String)
    ensures
        r@ == import_button_view(picked),
{
    if picked == 0 {
        String::from_str("Import")
    } else if picked == 1 {
        String::from_str("Import 1 world")
    } else {
        let mut s = String::from_str("Import ");
        s.append(decimal_string(picked as u64).as_str());
        s.append(" worlds");
        s
    }
}


/// The "Import worlds" dialog: which of the other launchers' world folders
/// is shown, and the worlds ticked in it (each path once).
#[derive(Debug)]
pub struct WorldPicker {
    pub sources: usize,
    pub source: usize,
    pub picked: Vec<String>,
}

impl WorldPicker {
    pub open spec fn well_formed(self) -> bool {
        self.source < self.sources && views(self.picked@).no_duplicates()
    }

    /// The ticked world paths.
    pub open spec fn picks(self) -> Set<Seq<char>> {
        key_set(self.picked@)
    }

    /// The dialog opens on the first source, with nothing ticked.
    pub fn open(sources: usize) -> (r: WorldPicker)
        requires
            sources > 0,
        ensures
            r.well_formed(),
            r.sources == sources,
            r.source == 0,
            r.picked@.len() == 0,
    {
        WorldPicker { sources, source: 0, picked: Vec::new() }
    }

    /// Choosing another source unticks everything.
    pub fn choose_source(&mut self, i: usize)
        requires
            old(self).well_formed(),
            i < old(self).sources,
        ensures
            final(self).well_formed(),
            final(self).sources == old(self).sources,
            final(self).source == i,
            final(self).picked@.len() == 0,
    {
        self.source = i;
        self.picked = Vec::new();
    }

    /// Tick or untick the world at `path`.
    pub fn set_world(&mut self, path: &str, on: bool)
        requires
            old(self).well_formed(),
        ensures
            final(self).well_formed(),
            final(self).sources == old(self).sources,
            final(self).source == old(self).source,
            final(self).picks() == (if on {
                old(self).picks().insert(path@)
            } else {
                old(self).picks().remove(path@)
            }),
    {
        set_key(&mut self.picked, path, on);
    }

    /// The import button's label.
    pub fn button_text(&self) -> (r: String)
        ensures
            r@ == import_button_view(self.picked@.len() as usize),
    {
        import_button_text(self.picked.len())
    }

    /// Whether a click on the import button starts the import: only with
    /// something ticked.
    pub fn submits(&self, clicked: bool) -> (r: bool)
        ensures
            r == (clicked && self.picked@.len() > 0),
    {
        clicked && self.picked.len() > 0
    }
}

} // verus!
