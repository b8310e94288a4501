//! Minecraft versions: resolving `latest` and friends, and which versions
//! the command line and the launcher's picker list.

use vstd::prelude::*;
use vstd::string::*;
use crate::errors::Error;
use crate::select::{
    all_matches, contains_text, first_matches, has_text, lemma_first_matches_same, select_rows,
};
use crate::text::{
    chars_of, contains, contains_seq, decimal, decimal_string, lowercase, pad_right, push_char, str_eq,
    to_lowercase, trim, trimmed,
};

verus! {

/// Kind of a Minecraft version in Mojang's manifest.
#[derive(Debug, Clone, Copy, PartialEq, Eq, Structural)]
pub enum VersionKind {
    Release,
    Snapshot,
    OldBeta,
    OldAlpha,
    Other,
}

/// One version of the manifest (what the launcher reads of it).
#[derive(Debug)]
pub struct VersionEntry {
    pub id: String,
    pub kind: VersionKind,
    pub release_time: String,
}

/// The newest release and snapshot ids.
#[derive(Debug)]
pub struct Latest {
    pub release: String,
    pub snapshot: String,
}

/// Mojang's version manifest, newest first.
#[derive(Debug)]
pub struct VersionManifest {
    pub latest: Latest,
    pub versions: Vec<VersionEntry>,
}

/// `i` is the first position of a version with id `id`.
pub open spec fn first_with_id(vs: Seq<VersionEntry>, i: int, id: Seq<char>) -> bool {
    &&& 0 <= i < vs.len()
    &&& vs[i].id@ == id
    &&& forall|j: int| 0 <= j < i ==> vs[j].id@ != id
}

/// Some version has id `id`.
pub open spec fn has_id(vs: Seq<VersionEntry>, id: Seq<char>) -> bool {
    exists|i: int| 0 <= i < vs.len() && #[trigger] vs[i].id@ == id
}

/// The id a version query stands for: `latest` and `latest-release` are the
/// newest release, `latest-snapshot` the newest snapshot, anything else an id.
pub open spec fn version_alias(m: VersionManifest, query: Seq<char>) -> Seq<char> {
    if query == "latest"@ || query == "latest-release"@ {
        m.latest.release@
    } else if query == "latest-snapshot"@ {
        m.latest.snapshot@
    } else {
        query
    }
}

pub open spec fn unknown_version_message(query: Seq<char>) -> Seq<char> {
    "unknown version '"@ + query + "' (see `arctic versions --all`)"@
}

impl VersionManifest {
    /// Position of the first version with id `id`.
    pub fn find_index(&self, id: &str) -> (r: Option<usize>)
        ensures
            r matches Some(i) ==> first_with_id(self.versions@, i as int, id@),
            r is None ==> !has_id(self.versions@, id@),
    {
        let mut i: usize = 0;
        while i < self.versions.len()
            invariant
                0 <= i <= self.versions.len(),
                forall|j: int| 0 <= j < i ==> self.versions@[j].id@ != id@,
            decreases self.versions.len() - i,
        {
            if str_eq(self.versions[i].id.as_str(), id) {
                return Some(i);
            }
            i += 1;
        }
        None
    }

    /// The first version with id `id`.
    pub fn find(&self, id: &str) -> (r: Option<&VersionEntry>)
        ensures
            r matches Some(e) ==> exists|i: int|
                first_with_id(self.versions@, i, id@) && *e == self.versions@[i],
            r is None ==> !has_id(self.versions@, id@),
    {
        match self.find_index(id) {
            Some(i) => Some(&self.versions[i]),
            None => None,
        }
    }
}

/// `latest`, `latest-snapshot`, or an exact version id.
pub fn resolve_version<'a>(manifest: &'a VersionManifest, query: &str) -> (r: Result<
    &'a VersionEntry,
    Error,
>)
    ensures
        r is Ok <==> has_id(manifest.versions@, version_alias(*manifest, query@)),
        r matches Ok(e) ==> exists|i: int|
            first_with_id(manifest.versions@, i, version_alias(*manifest, query@)) && *e
                == manifest.versions@[i],
        r matches Err(e) ==> e matches Error::Other(m) && m@ == unknown_version_message(query@),
{
    let id: &str = if str_eq(query, "latest") || str_eq(query, "latest-release") {
        manifest.latest.release.as_str()
    } else if str_eq(query, "latest-snapshot") {
        manifest.latest.snapshot.as_str()
    } else {
        query
    };
    match manifest.find(id) {
        Some(e) => Ok(e),
        None => {
            let mut m = String::from_str("unknown version '");
            m.append(query);
            m.append("' (see `arctic versions --all`)");
            Err(Error::Other(m))
        },
    }
}

/// `latest` and `latest-release` resolve to the newest release,
/// `latest-snapshot` to the newest snapshot, and any other text to the
/// version with exactly that id.
pub proof fn law_version_aliases(m: VersionManifest, q: Seq<char>)
    ensures
        version_alias(m, "latest"@) == m.latest.release@,
        version_alias(m, "latest-release"@) == m.latest.release@,
        version_alias(m, "latest-snapshot"@) == m.latest.snapshot@,
        q != "latest"@ && q != "latest-release"@ && q != "latest-snapshot"@ ==> version_alias(m, q)
            == q,
{
    reveal_strlit("latest");
    reveal_strlit("latest-release");
    reveal_strlit("latest-snapshot");
    assert("latest"@.len() == 6);
    assert("latest-release"@.len() == 14);
    assert("latest-snapshot"@.len() == 15);
    assert("latest-snapshot"@ != "latest"@);
    assert("latest-snapshot"@ != "latest-release"@);
}

/// Whether `arctic versions` lists version `i`.
pub open spec fn listed(
    m: VersionManifest,
    all: bool,
    installed_only: bool,
    installed: Seq<String>,
) -> spec_fn(int) -> bool {
    |i: int|
        (all || m.versions@[i].kind == VersionKind::Release) && (!installed_only || has_text(
            installed,
            m.versions@[i].id@,
        ))
}

/// The versions `arctic versions` lists: releases (or all with `--all`),
/// only downloaded ones with `--installed`, at most `limit` of them.
pub fn list_rows(
    manifest: &VersionManifest,
    all: bool,
    installed_only: bool,
    installed: &Vec<String>,
    limit: Option<usize>,
) -> (rows: Vec<usize>)
    ensures
        first_matches(
            rows@,
            manifest.versions@.len(),
            listed(*manifest, all, installed_only, installed@),
            match limit {
                Some(l) => l as nat,
                None => usize::MAX as nat,
            },
        ),
{
    let max: usize = match limit {
        Some(l) => l,
        None => usize::MAX,
    };
    let ghost keep = listed(*manifest, all, installed_only, installed@);
    let n = manifest.versions.len();
    let mut flags: Vec<bool> = Vec::new();
    let mut i: usize = 0;
    while i < n
        invariant
            0 <= i <= n,
            n == manifest.versions@.len(),
            keep == listed(*manifest, all, installed_only, installed@),
            flags@.len() == i,
            forall|j: int| 0 <= j < i ==> flags@[j] == keep(j),
        decreases n - i,
    {
        let v = &manifest.versions[i];
        let take = (all || v.kind == VersionKind::Release) && (!installed_only || contains_text(
            installed,
            v.id.as_str(),
        ));
        flags.push(take);
        i += 1;
    }
    let rows = select_rows(&flags, max);
    proof {
        lemma_first_matches_same(rows@, n as nat, |i: int| flags@[i], keep, max as nat);
    }
    rows
}

/// A row of `arctic versions`: the id padded to 22 characters, the release
/// date (the first ten characters of its time), and markers.
pub open spec fn version_line_text(
    id: Seq<char>,
    release_time: Seq<char>,
    installed: bool,
    latest: bool,
) -> Seq<char> {
    pad_right(id, 22) + seq![' '] + release_time.take(
        if release_time.len() < 10 {
            release_time.len() as int
        } else {
            10
        },
    ) + (if installed {
        "  installed"@
    } else {
        Seq::empty()
    }) + (if latest {
        "  latest"@
    } else {
        Seq::empty()
    })
}

/// The text of one row of `arctic versions`.
pub fn version_line(v: &VersionEntry, installed: bool, latest: bool) -> (r: String)
    ensures
        r@ == version_line_text(v.id@, v.release_time@, installed, latest),
{
    let id = chars_of(v.id.as_str());
    let mut line = String::from_str(v.id.as_str());
    let mut k: usize = id.len();
    while k < 22
        invariant
            id.len() <= k <= 22 || (k == id.len() && k >= 22),
            id@ == v.id@,
            line@ == v.id@ + Seq::new((k - id.len()) as nat, |i: int| ' '),
        decreases 22 - k,
    {
        push_char(&mut line, ' ');
        k += 1;
        assert(line@ =~= v.id@ + Seq::new((k - id.len()) as nat, |i: int| ' '));
    }
    assert(line@ =~= pad_right(v.id@, 22));
    push_char(&mut line, ' ');
    let time = chars_of(v.release_time.as_str());
    let mut j: usize = 0;
    let ghost base = line@;
    while j < time.len() && j < 10
        invariant
            0 <= j <= time.len(),
            j <= 10,
            time@ == v.release_time@,
            line@ == base + time@.take(j as int),
        decreases 10 - j,
    {
        push_char(&mut line, time[j]);
        j += 1;
        assert(line@ =~= base + time@.take(j as int));
    }
    if installed {
        line.append("  installed");
    }
    if latest {
        line.append("  latest");
    }
    assert(line@ =~= version_line_text(v.id@, v.release_time@, installed, latest));
    line
}

/// Whether the picker offers versions of this kind: releases always,
/// snapshots and old alphas/betas when enabled in Settings.
pub open spec fn kind_visible(kind: VersionKind, show_snapshots: bool, show_old: bool) -> bool {
    match kind {
        VersionKind::Release => true,
        VersionKind::Snapshot => show_snapshots,
        VersionKind::OldBeta | VersionKind::OldAlpha => show_old,
        VersionKind::Other => false,
    }
}

/// Versions shown in pickers: releases, plus snapshots / old versions
/// when enabled in Settings. Newest first.
pub fn visible_versions(manifest: &VersionManifest, show_snapshots: bool, show_old: bool) -> (rows:
    Vec<usize>)
    ensures
        all_matches(
            rows@,
            manifest.versions@.len(),
            |i: int| kind_visible(manifest.versions@[i].kind, show_snapshots, show_old),
        ),
        forall|i: int| 0 <= i < manifest.versions@.len() ==> (rows@.contains(i as usize) <==> (
            manifest.versions@[i].kind == VersionKind::Release
            || (manifest.versions@[i].kind == VersionKind::Snapshot && show_snapshots)
            || (manifest.versions@[i].kind == VersionKind::OldBeta && show_old)
            || (manifest.versions@[i].kind == VersionKind::OldAlpha && show_old))),
{
    let ghost keep = |i: int| kind_visible(manifest.versions@[i].kind, show_snapshots, show_old);
    let n = manifest.versions.len();
    let mut flags: Vec<bool> = Vec::new();
    let mut i: usize = 0;
    while i < n
        invariant
            0 <= i <= n,
            n == manifest.versions@.len(),
            keep == (|i: int| kind_visible(manifest.versions@[i].kind, show_snapshots, show_old)),
            flags@.len() == i,
            forall|j: int| 0 <= j < i ==> flags@[j] == keep(j),
        decreases n - i,
    {
        let take = match manifest.versions[i].kind {
            VersionKind::Release => true,
            VersionKind::Snapshot => show_snapshots,
            VersionKind::OldBeta | VersionKind::OldAlpha => show_old,
            VersionKind::Other => false,
        };
        flags.push(take);
        i += 1;
    }
    let rows = select_rows(&flags, n);
    proof {
        lemma_first_matches_same(rows@, n as nat, |i: int| flags@[i], keep, n as nat);
        law_offered_versions(manifest.versions@, rows@, show_snapshots, show_old);
    }
    rows
}

/// Which versions the picker offers, for any manifest: every release;
/// snapshots exactly when they are enabled; old betas and old alphas
/// alike exactly when old versions are enabled; nothing else.
pub proof fn law_offered_versions(versions: Seq<VersionEntry>, rows: Seq<usize>, show_snapshots: bool, show_old: bool)
    requires
        versions.len() <= usize::MAX,
        all_matches(rows, versions.len(), |i: int| kind_visible(versions[i].kind, show_snapshots, show_old)),
    ensures
        forall|i: int| 0 <= i < versions.len() ==> (rows.contains(i as usize) <==> (
            versions[i].kind == VersionKind::Release
            || (versions[i].kind == VersionKind::Snapshot && show_snapshots)
            || (versions[i].kind == VersionKind::OldBeta && show_old)
            || (versions[i].kind == VersionKind::OldAlpha && show_old))),
{
    let keep = |i: int| kind_visible(versions[i].kind, show_snapshots, show_old);
    assert forall|i: int| 0 <= i < versions.len() implies (rows.contains(i as usize) <==> (
        versions[i].kind == VersionKind::Release
        || (versions[i].kind == VersionKind::Snapshot && show_snapshots)
        || (versions[i].kind == VersionKind::OldBeta && show_old)
        || (versions[i].kind == VersionKind::OldAlpha && show_old))) by {
        if rows.contains(i as usize) {
            let k = choose|k: int| 0 <= k < rows.len() && rows[k] == i as usize;
            assert(rows[k] as int == i);
            assert(keep(rows[k] as int));
        }
        if keep(i) {
            crate::select::lemma_all_matches_complete(rows, versions.len(), keep, i);
        }
    }
}

/// Which versions the picker lists.
#[derive(Debug, Clone, Copy, PartialEq, Eq, Structural)]
pub enum VersionView {
    All,
    Installed,
    Favorites,
}

/// The label of a view tab: "All", "Installed (n)" or "Favorites (n)".
pub open spec fn view_label_text(view: VersionView, installed: nat, favorites: nat) -> Seq<char> {
    match view {
        VersionView::All => "All"@,
        VersionView::Installed => "Installed ("@ + decimal(installed) + ")"@,
        VersionView::Favorites => "Favorites ("@ + decimal(favorites) + ")"@,
    }
}

/// The tabs above the version list, with how many versions each holds.
pub fn view_label(view: VersionView, installed: u64, favorites: u64) -> (r: String)
    ensures
        r@ == view_label_text(view, installed as nat, favorites as nat),
{
    match view {
        VersionView::All => String::from_str("All"),
        VersionView::Installed => {
            let mut s = String::from_str("Installed (");
            s.append(decimal_string(installed).as_str());
            s.append(")");
            s
        },
        VersionView::Favorites => {
            let mut s = String::from_str("Favorites (");
            s.append(decimal_string(favorites).as_str());
            s.append(")");
            s
        },
    }
}

/// Whether the picker shows a version: its id contains the search text
/// (lower-cased; any id when the search is empty) and it fits the view.
pub open spec fn picker_keep(
    query: Seq<char>,
    id: Seq<char>,
    view: VersionView,
    installed: Seq<String>,
    favorites: Seq<String>,
) -> bool {
    (query.len() == 0 || contains_seq(lowercase(id), query)) && match view {
        VersionView::All => true,
        VersionView::Installed => has_text(installed, id),
        VersionView::Favorites => has_text(favorites, id),
    }
}

/// The rows of the version picker: versions whose id contains the trimmed,
/// lower-cased search text, limited to installed or favorite versions by
/// the view.
pub fn picker_rows(
    ids: &Vec<String>,
    filter: &str,
    view: VersionView,
    installed: &Vec<String>,
    favorites: &Vec<String>,
) -> (rows: Vec<usize>)
    ensures
        all_matches(
            rows@,
            ids@.len(),
            |i: int|
                picker_keep(
                    lowercase(trimmed(filter@)),
                    ids@[i]@,
                    view,
                    installed@,
                    favorites@,
                ),
        ),
{
    let fchars = chars_of(filter);
    let ft = trim(&fchars);
    let trimmed_filter = crate::text::string_of(&ft);
    let q = to_lowercase(trimmed_filter.as_str());
    let qv = chars_of(q.as_str());
    let ghost keep = |i: int|
        picker_keep(lowercase(trimmed(filter@)), ids@[i]@, view, installed@, favorites@);
    let n = ids.len();
    let mut flags: Vec<bool> = Vec::new();
    let mut i: usize = 0;
    while i < n
        invariant
            0 <= i <= n,
            n == ids@.len(),
            qv@ == lowercase(trimmed(filter@)),
            keep == (|i: int|
                picker_keep(lowercase(trimmed(filter@)), ids@[i]@, view, installed@, favorites@)),
            flags@.len() == i,
            forall|j: int| 0 <= j < i ==> flags@[j] == keep(j),
        decreases n - i,
    {
        let id = ids[i].as_str();
        let matches_text = if qv.len() == 0 {
            true
        } else {
            let lid = to_lowercase(id);
            let lv = chars_of(lid.as_str());
            contains(&lv, &qv)
        };
        let in_view = match view {
            VersionView::All => true,
            VersionView::Installed => contains_text(installed, id),
            VersionView::Favorites => contains_text(favorites, id),
        };
        flags.push(matches_text && in_view);
        i += 1;
    }
    let rows = select_rows(&flags, n);
    proof {
        lemma_first_matches_same(rows@, n as nat, |i: int| flags@[i], keep, n as nat);
    }
    rows
}

/// Text shown when the picker has no rows.
pub fn empty_picker_text(view: VersionView) -> (r: &'static str)
    ensures
        r@ == if view == VersionView::Favorites {
            "Star a version to keep it here."@
        } else {
            "No matching versions"@
        },
{
    if view == VersionView::Favorites {
        "Star a version to keep it here."
    } else {
        "No matching versions"
    }
}

/// How many of the given versions are downloaded (the "Installed (n)" tab).
pub fn installed_count(ids: &Vec<String>, installed: &Vec<String>) -> (r: usize)
    ensures
        r == ids@.filter(|id: String| has_text(installed@, id@)).len(),
{
    let ghost keep = |id: String| has_text(installed@, id@);
    let mut count: usize = 0;
    let mut i: usize = 0;
    while i < ids.len()
        invariant
            0 <= i <= ids.len(),
            keep == (|id: String| has_text(installed@, id@)),
            count == ids@.take(i as int).filter(keep).len(),
            count <= i,
        decreases ids.len() - i,
    {
        proof {
            assert(ids@.take(i + 1).drop_last() =~= ids@.take(i as int));
            reveal_with_fuel(Seq::filter, 1);
        }
        if contains_text(installed, ids[i].as_str()) {
            count += 1;
        }
        i += 1;
    }
    assert(ids@.take(ids@.len() as int) =~= ids@);
    count
}

/// Texts other than `id`.
pub open spec fn other_than(id: Seq<char>) -> spec_fn(Seq<char>) -> bool {
    |s: Seq<char>| s != id
}

/// The favorites list with `id` removed if it was there (every copy), or
/// added at the end if it wasn't.
pub open spec fn toggled(favs: Seq<String>, id: Seq<char>) -> Seq<Seq<char>> {
    if has_text(favs, id) {
        favs.map_values(|s: String| s@).filter(other_than(id))
    } else {
        favs.map_values(|s: String| s@).push(id)
    }
}

/// Star or unstar a version.
pub fn toggle_favorite(favs: &mut Vec<String>, id: &str)
    ensures
        final(favs)@.map_values(|s: String| s@) == toggled(old(favs)@, id@),
{
    if contains_text(favs, id) {
        let ghost keep = other_than(id@);
        let ghost orig = favs@;
        let mut kept: Vec<String> = Vec::new();
        let mut i: usize = 0;
        while i < favs.len()
            invariant
                0 <= i <= favs.len(),
                favs@ == orig,
                keep == other_than(id@),
                kept@.map_values(|s: String| s@) == orig.map_values(|s: String| s@).take(
                    i as int,
                ).filter(keep),
            decreases favs.len() - i,
        {
            proof {
                let m = orig.map_values(|s: String| s@);
                assert(m.take(i + 1).drop_last() =~= m.take(i as int));
                reveal_with_fuel(Seq::filter, 1);
            }
            if !str_eq(favs[i].as_str(), id) {
                let s = String::from_str(favs[i].as_str());
                kept.push(s);
                assert(kept@.map_values(|s: String| s@) =~= orig.map_values(|s: String| s@).take(
                    i + 1,
                ).filter(keep));
            } else {
                assert(kept@.map_values(|s: String| s@) =~= orig.map_values(|s: String| s@).take(
                    i + 1,
                ).filter(keep));
            }
            i += 1;
        }
        assert(orig.map_values(|s: String| s@).take(orig.len() as int) =~= orig.map_values(
            |s: String| s@,
        ));
        *favs = kept;
    } else {
        favs.push(String::from_str(id));
        assert(favs@.map_values(|s: String| s@) =~= toggled(old(favs)@, id@));
    }
}

/// A click in the version list: on a version's star, or on its row.
#[derive(Debug, Clone, Copy, PartialEq, Eq, Structural)]
pub enum RowClick {
    Star,
    Row,
}

/// A click on the row of version `id`. The star stars or unstars it and
/// leaves the chosen version alone; the row itself chooses the version,
/// leaves the favorites alone and closes the list (the result).
pub fn version_row_click(favs: &mut Vec<String>, last_version: &mut Option<String>, id: &str, click: RowClick) -> (close: bool)
    ensures
        click == RowClick::Star ==> final(favs)@.map_values(|s: String| s@) == toggled(old(favs)@, id@)
            && *final(last_version) == *old(last_version) && !close,
        click == RowClick::Row ==> final(favs)@ == old(favs)@
            && (*final(last_version) matches Some(v) && v@ == id@) && close,
{
    match click {
        RowClick::Star => {
            toggle_favorite(favs, id);
            false
        },
        RowClick::Row => {
            *last_version = Some(String::from_str(id));
            true
        },
    }
}

/// Starring a version that was not a favorite and unstarring it again gives
/// back the same favorites.
pub proof fn law_toggle_twice(favs: Seq<String>, id: Seq<char>)
    requires
        !has_text(favs, id),
    ensures
        toggled_views(toggled(favs, id), id) == favs.map_values(|s: String| s@),
{
    let m = favs.map_values(|s: String| s@);
    let keep = other_than(id);
    assert(!m.contains(id)) by {
        if m.contains(id) {
            let k = choose|k: int| 0 <= k < m.len() && m[k] == id;
            assert(favs[k]@ == id);
        }
    }
    assert(toggled(favs, id) == m.push(id));
    assert(m.push(id).contains(id)) by {
        assert(m.push(id)[m.len() as int] == id);
    }
    assert(m.push(id).drop_last() =~= m);
    lemma_filter_all(m, id);
    reveal_with_fuel(Seq::filter, 1);
    assert(m.push(id).filter(keep) == m.filter(keep));
}

/// `toggled` on a list of texts.
pub open spec fn toggled_views(favs: Seq<Seq<char>>, id: Seq<char>) -> Seq<Seq<char>> {
    if favs.contains(id) {
        favs.filter(other_than(id))
    } else {
        favs.push(id)
    }
}

proof fn lemma_filter_all(m: Seq<Seq<char>>, id: Seq<char>)
    requires
        !m.contains(id),
    ensures
        m.filter(other_than(id)) == m,
    decreases m.len(),
{
    reveal_with_fuel(Seq::filter, 1);
    if m.len() > 0 {
        assert(!m.drop_last().contains(id)) by {
            if m.drop_last().contains(id) {
                let k = choose|k: int| 0 <= k < m.drop_last().len() && m.drop_last()[k] == id;
                assert(m[k] == id);
            }
        }
        lemma_filter_all(m.drop_last(), id);
        assert(m.last() != id) by {
            if m.last() == id {
                assert(m[m.len() - 1] == id);
            }
        }
        assert(m.drop_last().push(m.last()) =~= m);
    }
}

} // verus!
