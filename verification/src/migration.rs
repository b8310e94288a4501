//! The "Move to Arctic" dialog: what is picked, and how the import run
//! goes from scanning to done.

use vstd::prelude::*;
use vstd::string::*;
use crate::output::ProgressInfo;
use crate::text::{decimal, decimal_string, str_eq, views};

verus! {

/// Where the dialog is.
#[derive(Debug, Clone, Copy, PartialEq, Eq, Structural)]
pub enum MigrateStage {
    Scanning,
    Choose,
    Running,
    Done,
}

/// How one instance or HUD setup came over.
#[derive(Debug)]
pub struct Outcome {
    pub ok: bool,
    pub title: String,
    pub lines: Vec<String>,
}

/// The dialog's state: the keys of the picked instances and HUD setups
/// (each once), the item being copied, and what came over so far.
#[derive(Debug)]
pub struct MigrateRun {
    pub stage: MigrateStage,
    pub picked: Vec<String>,
    pub current: Option<(String, ProgressInfo)>,
    pub outcomes: Vec<Outcome>,
    pub total: usize,
}

/// A toast: success or error, and its title.
#[derive(Debug)]
pub struct Toast {
    pub success: bool,
    pub title: String,
}

/// How many outcomes failed.
pub open spec fn failures(outcomes: Seq<Outcome>) -> nat
    decreases outcomes.len(),
{
    if outcomes.len() == 0 {
        0
    } else {
        failures(outcomes.drop_last()) + if outcomes.last().ok {
            0nat
        } else {
            1nat
        }
    }
}

/// The toast at the end of a run.
pub open spec fn finished_title(failed: nat) -> Seq<char> {
    if failed == 0 {
        "Everything came over"@
    } else {
        decimal(failed) + " couldn't come over"@
    }
}

/// The keys in a list.
pub open spec fn key_set(list: Seq<String>) -> Set<Seq<char>> {
    Set::new(|k: Seq<char>| views(list).contains(k))
}

/// Where `key` is in `list`.
fn key_position(list: &Vec<String>, key: &str) -> (r: Option<usize>)
    ensures
        match r {
            Some(i) => i < list@.len() && list@[i as int]@ == key@,
            None => !views(list@).contains(key@),
        },
{
    let mut i: usize = 0;
    while i < list.len()
        invariant
            i <= list@.len(),
            forall|j: int| 0 <= j < i ==> list@[j]@ != key@,
        decreases list@.len() - i,
    {
        if str_eq(list[i].as_str(), key) {
            return Some(i);
        }
        i += 1;
    }
    proof {
        assert forall|k: int| 0 <= k < views(list@).len() implies views(
            list@,
        )[k] != key@ by {
            assert(views(list@)[k] == list@[k]@);
        }
    }
    None
}


/// Add `key` to a list of distinct keys, or take it out.
pub fn set_key(list: &mut Vec<String>, key: &str, on: bool)
    requires
        views(old(list)@).no_duplicates(),
    ensures
        views(final(list)@).no_duplicates(),
        key_set(final(list)@) == (if on {
            key_set(old(list)@).insert(key@)
        } else {
            key_set(old(list)@).remove(key@)
        }),
{
    let found = key_position(list, key);
    let ghost before = views(list@);
    let ghost old_picks = key_set(list@);
    match found {
        Some(i) => {
            if !on {
                list.remove(i);
                proof {
                    let after = views(list@);
                    assert(after =~= before.remove(i as int));
                    assert(before[i as int] == key@);
                    assert forall|k: Seq<char>| #[trigger]
                        after.contains(k) == (before.contains(k) && k != key@) by {
                        if after.contains(k) {
                            let j = choose|j: int| 0 <= j < after.len() && after[j] == k;
                            if j < i {
                                assert(before[j] == k);
                                assert(before[j] != before[i as int]);
                            } else {
                                assert(before[j + 1] == k);
                                assert(before[j + 1] != before[i as int]);
                            }
                        }
                        if before.contains(k) && k != key@ {
                            let j = choose|j: int| 0 <= j < before.len() && before[j] == k;
                            assert(j != i);
                            if j < i {
                                assert(after[j] == k);
                            } else {
                                assert(after[j - 1] == k);
                            }
                        }
                    }
                    assert(after.no_duplicates()) by {
                        assert forall|a: int, b: int|
                            0 <= a < after.len() && 0 <= b < after.len() && a != b
                            implies after[a] != after[b] by {
                            let a2 = if a < i { a } else { a + 1 };
                            let b2 = if b < i { b } else { b + 1 };
                            assert(after[a] == before[a2]);
                            assert(after[b] == before[b2]);
                        }
                    }
                }
            } else {
                proof {
                    assert forall|k: Seq<char>| #[trigger]
                        views(list@).contains(k) == (before.contains(k) || k == key@) by {
                        if k == key@ {
                            assert(before[i as int] == k);
                        }
                    }
                }
            }
        },
        None => {
            if on {
                list.push(String::from_str(key));
                proof {
                    let after = views(list@);
                    assert(after =~= before.push(key@));
                    assert forall|k: Seq<char>| #[trigger]
                        after.contains(k) == (before.contains(k) || k == key@) by {
                        if after.contains(k) && k != key@ {
                            let j = choose|j: int| 0 <= j < after.len() && after[j] == k;
                            assert(j < before.len());
                            assert(before[j] == k);
                        }
                        if before.contains(k) {
                            let j = choose|j: int| 0 <= j < before.len() && before[j] == k;
                            assert(after[j] == k);
                        }
                        if k == key@ {
                            assert(after[before.len() as int] == k);
                        }
                    }
                    assert(after.no_duplicates()) by {
                        assert forall|a: int, b: int|
                            0 <= a < after.len() && 0 <= b < after.len() && a != b
                            implies after[a] != after[b] by {
                            if a == before.len() && b < before.len() {
                                assert(before[b] == after[b]);
                            } else if b == before.len() && a < before.len() {
                                assert(before[a] == after[a]);
                            }
                        }
                    }
                }
            } else {
                proof {
                    assert forall|k: Seq<char>| #[trigger]
                        views(list@).contains(k) == (before.contains(k) && k != key@) by {
                    }
                }
            }
        },
    }
    assert(key_set(list@) =~= (if on {
        old_picks.insert(key@)
    } else {
        old_picks.remove(key@)
    }));
}


impl MigrateRun {
    /// Each key is picked at most once.
    pub open spec fn well_formed(self) -> bool {
        views(self.picked@).no_duplicates()
    }

    pub open spec fn is_picked(self, key: Seq<char>) -> bool {
        views(self.picked@).contains(key)
    }

    /// The picked keys.
    pub open spec fn picks(self) -> Set<Seq<char>> {
        Set::new(|k: Seq<char>| self.is_picked(k))
    }

    /// A new dialog, looking for other launchers.
    pub fn open() -> (r: MigrateRun)
        ensures
            r.well_formed(),
            r.stage == MigrateStage::Scanning,
            r.picked@.len() == 0,
            r.current is None,
            r.outcomes@.len() == 0,
            r.total == 0,
    {
        MigrateRun {
            stage: MigrateStage::Scanning,
            picked: Vec::new(),
            current: None,
            outcomes: Vec::new(),
            total: 0,
        }
    }

    /// The scan came back: the user chooses.
    pub fn scanned(&mut self)
        ensures
            final(self).stage == MigrateStage::Choose,
            final(self).picked == old(self).picked,
            final(self).current == old(self).current,
            final(self).outcomes == old(self).outcomes,
            final(self).total == old(self).total,
    {
        self.stage = MigrateStage::Choose;
    }

    /// Tick or untick an instance or HUD setup.
    pub fn set_picked(&mut self, key: &str, on: bool)
        requires
            old(self).well_formed(),
        ensures
            final(self).well_formed(),
            final(self).picks() == (if on {
                old(self).picks().insert(key@)
            } else {
                old(self).picks().remove(key@)
            }),
            final(self).stage == old(self).stage,
            final(self).total == old(self).total,
            final(self).current == old(self).current,
            final(self).outcomes == old(self).outcomes,
    {
        set_key(&mut self.picked, key, on);
        assert(self.picks() =~= key_set(self.picked@));
        assert(old(self).picks() =~= key_set(old(self).picked@));
    }
    /// How many of the found items are picked.
    pub fn picked_count(&self) -> (r: usize)
        ensures
            r == self.picked@.len(),
    {
        self.picked.len()
    }

    /// The import starts with `jobs` items to bring over.
    pub fn start(&mut self, jobs: usize)
        ensures
            final(self).stage == MigrateStage::Running,
            final(self).total == jobs,
            final(self).outcomes@.len() == 0,
            final(self).picked == old(self).picked,
            final(self).current == old(self).current,
    {
        self.total = jobs;
        self.outcomes = Vec::new();
        self.stage = MigrateStage::Running;
    }

    /// Progress of the item being copied.
    pub fn progress(&mut self, label: String, progress: ProgressInfo)
        ensures
            final(self).current == Some((label, progress)),
            final(self).stage == old(self).stage,
            final(self).picked == old(self).picked,
            final(self).outcomes == old(self).outcomes,
            final(self).total == old(self).total,
    {
        self.current = Some((label, progress));
    }

    /// One item is done.
    pub fn item(&mut self, outcome: Outcome)
        ensures
            final(self).outcomes@ == old(self).outcomes@.push(outcome),
            final(self).stage == old(self).stage,
            final(self).picked == old(self).picked,
            final(self).current == old(self).current,
            final(self).total == old(self).total,
    {
        self.outcomes.push(outcome);
    }

    /// The run is over: the toast says whether everything came over.
    pub fn finished(&mut self) -> (t: Toast)
        ensures
            final(self).stage == MigrateStage::Done,
            final(self).current is None,
            final(self).outcomes == old(self).outcomes,
            final(self).picked == old(self).picked,
            final(self).total == old(self).total,
            t.success == (failures(old(self).outcomes@) == 0),
            t.title@ == finished_title(failures(old(self).outcomes@)),
    {
        self.stage = MigrateStage::Done;
        self.current = None;
        let mut failed: usize = 0;
        let mut i: usize = 0;
        while i < self.outcomes.len()
            invariant
                i <= self.outcomes@.len(),
                failed == failures(self.outcomes@.take(i as int)),
                failed <= i,
            decreases self.outcomes@.len() - i,
        {
            proof {
                assert(self.outcomes@.take(i + 1).drop_last() =~= self.outcomes@.take(i as int));
            }
            if !self.outcomes[i].ok {
                failed += 1;
            }
            i += 1;
        }
        assert(self.outcomes@.take(self.outcomes@.len() as int) =~= self.outcomes@);
        if failed == 0 {
            Toast { success: true, title: String::from_str("Everything came over") }
        } else {
            let mut title = decimal_string(failed as u64);
            title.append(" couldn't come over");
            Toast { success: false, title }
        }
    }

    /// "{done} of {total} done" while running.
    pub fn progress_text(&self) -> (r: String)
        ensures
            r@ == decimal(self.outcomes@.len()) + " of "@ + decimal(self.total as nat)
                + " done"@,
    {
        let mut s = decimal_string(self.outcomes.len() as u64);
        s.append(" of ");
        s.append(decimal_string(self.total as u64).as_str());
        s.append(" done");
        s
    }

    /// Scanning and copying cannot be dismissed.
    pub fn busy(&self) -> (r: bool)
        ensures
            r == (self.stage == MigrateStage::Running || self.stage == MigrateStage::Scanning),
    {
        match self.stage {
            MigrateStage::Running | MigrateStage::Scanning => true,
            _ => false,
        }
    }
}

/// The label of the button that starts the import.
pub fn bring_over_label(count: usize) -> (r: String)
    ensures
        r@ == "Bring over "@ + decimal(count as nat),
{
    let mut s = String::from_str("Bring over ");
    s.append(decimal_string(count as u64).as_str());
    s
}

/// The name of the first target with id `id`, "Vanilla" when none has it.
pub open spec fn target_name_view(targets: Seq<(String, String)>, id: Seq<char>) -> Seq<char>
    decreases targets.len(),
{
    if targets.len() == 0 {
        "Vanilla"@
    } else if targets[0].0@ == id {
        targets[0].1@
    } else {
        target_name_view(targets.drop_first(), id)
    }
}

/// The name shown for the instance settings are applied to: the first of
/// the (id, name) pairs with that id, "Vanilla" when none has it.
pub fn target_name(targets: &Vec<(String, String)>, id: &str) -> (r: String)
    ensures
        r@ == target_name_view(targets@, id@),
{
    let mut i: usize = 0;
    assert(targets@.skip(0) =~= targets@);
    while i < targets.len()
        invariant
            i <= targets@.len(),
            target_name_view(targets@, id@) == target_name_view(targets@.skip(i as int), id@),
        decreases targets@.len() - i,
    {
        assert(targets@.skip(i as int).drop_first() =~= targets@.skip(i + 1));
        if str_eq(targets[i].0.as_str(), id) {
            return targets[i].1.clone();
        }
        i += 1;
    }
    String::from_str("Vanilla")
}

/// Ticking a key and then unticking it leaves it unpicked, and the other
/// keys as they were.
pub proof fn law_pick_then_unpick(a: MigrateRun, b: MigrateRun, c: MigrateRun, key: Seq<char>)
    requires
        b.picks() == a.picks().insert(key),
        c.picks() == b.picks().remove(key),
    ensures
        c.picks() == a.picks().remove(key),
        !c.is_picked(key),
{
    assert(c.picks() =~= a.picks().remove(key));
    assert(!c.picks().contains(key));
}

/// The names of what a found instance holds, each with how many files.
pub open spec fn count_names(counts: Seq<(String, u64)>) -> Seq<Seq<char>> {
    counts.map_values(|e: (String, u64)| e.0@)
}

/// The categories of a found instance ticked at first: every one it has
/// files of, in order, except screenshots (often large: the user opts in).
pub open spec fn default_picks(counts: Seq<(String, u64)>, screenshots: Seq<char>) -> Seq<Seq<char>>
    decreases counts.len(),
{
    if counts.len() == 0 {
        Seq::empty()
    } else {
        let last = counts.last();
        let rest = default_picks(counts.drop_last(), screenshots);
        if last.1 > 0 && last.0@ != screenshots {
            rest.push(last.0@)
        } else {
            rest
        }
    }
}

proof fn lemma_default_picks_within(counts: Seq<(String, u64)>, screenshots: Seq<char>, c: Seq<char>)
    ensures
        default_picks(counts, screenshots).contains(c) ==> count_names(counts).contains(c),
    decreases counts.len(),
{
    if counts.len() > 0 {
        let d = counts.drop_last();
        lemma_default_picks_within(d, screenshots, c);
        if default_picks(d, screenshots).contains(c) {
            let i = choose|i: int| 0 <= i < count_names(d).len() && count_names(d)[i] == c;
            assert(count_names(counts)[i] == c);
        }
        if c == counts.last().0@ {
            assert(count_names(counts)[counts.len() - 1] == c);
        }
    }
}

/// The categories ticked at first for a found instance (its categories,
/// each listed once).
pub fn default_categories(counts: &Vec<(String, u64)>, screenshots: &str) -> (r: Vec<String>)
    requires
        count_names(counts@).no_duplicates(),
    ensures
        views(r@) == default_picks(counts@, screenshots@),
        views(r@).no_duplicates(),
{
    let mut r: Vec<String> = Vec::new();
    let mut i: usize = 0;
    while i < counts.len()
        invariant
            0 <= i <= counts.len(),
            count_names(counts@).no_duplicates(),
            views(r@) == default_picks(counts@.take(i as int), screenshots@),
            views(r@).no_duplicates(),
        decreases counts.len() - i,
    {
        let ghost before = views(r@);
        proof {
            assert(counts@.take(i + 1).drop_last() =~= counts@.take(i as int));
            assert(counts@.take(i + 1).last() == counts@[i as int]);
        }
        if counts[i].1 > 0 && !str_eq(counts[i].0.as_str(), screenshots) {
            r.push(counts[i].0.clone());
            proof {
                assert(views(r@) =~= before.push(counts@[i as int].0@));
                let name = counts@[i as int].0@;
                assert(!before.contains(name)) by {
                    lemma_default_picks_within(counts@.take(i as int), screenshots@, name);
                    if before.contains(name) {
                        let j = choose|j: int| 0 <= j < count_names(counts@.take(i as int)).len() && count_names(counts@.take(i as int))[j] == name;
                        assert(count_names(counts@)[j] == name);
                        assert(count_names(counts@)[i as int] == name);
                    }
                }
                let after = views(r@);
                assert forall|a: int, b: int| 0 <= a < after.len() && 0 <= b < after.len() && a != b
                    implies after[a] != after[b] by {
                    if a == before.len() {
                        assert(before[b] == after[b]);
                        assert(before.contains(before[b]));
                    } else if b == before.len() {
                        assert(before[a] == after[a]);
                        assert(before.contains(before[a]));
                    } else {
                        assert(after[a] == before[a] && after[b] == before[b]);
                    }
                }
            }
        }
        i += 1;
    }
    proof {
        assert(counts@.take(counts@.len() as int) =~= counts@);
    }
    r
}

/// The bytes listed for a category (none when it is not listed).
pub open spec fn bytes_of(bytes: Seq<(String, u64)>, c: Seq<char>) -> nat
    decreases bytes.len(),
{
    if bytes.len() == 0 {
        0
    } else if bytes[0].0@ == c {
        bytes[0].1 as nat
    } else {
        bytes_of(bytes.drop_first(), c)
    }
}

/// The bytes of the ticked categories, added up.
pub open spec fn chosen_total(chosen: Seq<String>, bytes: Seq<(String, u64)>) -> nat
    decreases chosen.len(),
{
    if chosen.len() == 0 {
        0
    } else {
        chosen_total(chosen.drop_last(), bytes) + bytes_of(bytes, chosen.last()@)
    }
}

fn bytes_for(bytes: &Vec<(String, u64)>, c: &str) -> (r: u64)
    ensures
        r == bytes_of(bytes@, c@),
{
    let mut i: usize = 0;
    assert(bytes@.skip(0) =~= bytes@);
    while i < bytes.len()
        invariant
            0 <= i <= bytes.len(),
            bytes_of(bytes@, c@) == bytes_of(bytes@.skip(i as int), c@),
        decreases bytes.len() - i,
    {
        proof {
            assert(bytes@.skip(i as int).drop_first() =~= bytes@.skip(i + 1));
            assert(bytes@.skip(i as int)[0] == bytes@[i as int]);
        }
        if str_eq(bytes[i].0.as_str(), c) {
            return bytes[i].1;
        }
        i += 1;
    }
    proof {
        assert(bytes@.skip(i as int).len() == 0);
    }
    0
}

/// How many bytes the ticked categories of a found instance come to.
pub fn chosen_bytes(chosen: &Vec<String>, bytes: &Vec<(String, u64)>) -> (r: u64)
    requires
        chosen_total(chosen@, bytes@) <= u64::MAX,
    ensures
        r == chosen_total(chosen@, bytes@),
{
    let mut sum: u64 = 0;
    let mut i: usize = 0;
    while i < chosen.len()
        invariant
            0 <= i <= chosen.len(),
            sum == chosen_total(chosen@.take(i as int), bytes@),
            chosen_total(chosen@, bytes@) <= u64::MAX,
        decreases chosen.len() - i,
    {
        proof {
            assert(chosen@.take(i + 1).drop_last() =~= chosen@.take(i as int));
            assert(chosen@.take(i + 1).last() == chosen@[i as int]);
            lemma_chosen_total_prefix(chosen@, bytes@, (i + 1) as nat);
        }
        let b = bytes_for(bytes, chosen[i].as_str());
        sum = sum + b;
        i += 1;
    }
    proof {
        assert(chosen@.take(chosen@.len() as int) =~= chosen@);
    }
    sum
}

proof fn lemma_chosen_total_prefix(chosen: Seq<String>, bytes: Seq<(String, u64)>, n: nat)
    requires
        n <= chosen.len(),
    ensures
        chosen_total(chosen.take(n as int), bytes) <= chosen_total(chosen, bytes),
    decreases chosen.len() - n,
{
    if n < chosen.len() {
        lemma_chosen_total_prefix(chosen, bytes, n + 1);
        assert(chosen.take((n + 1) as int).drop_last() =~= chosen.take(n as int));
    } else {
        assert(chosen.take(n as int) =~= chosen);
    }
}

/// What comes over of a found HUD setup: the widgets switched on (each
/// once) and the instance they go to.
#[derive(Debug)]
pub struct HudChoice {
    pub on: Vec<String>,
    pub target: String,
}

impl HudChoice {
    pub open spec fn well_formed(self) -> bool {
        views(self.on@).no_duplicates()
    }

    /// At first: the widgets the launcher guesses are on, for the instance
    /// selected in the launcher.
    pub fn new(guesses: &Vec<String>, target: &str) -> (r: HudChoice)
        ensures
            r.well_formed(),
            key_set(r.on@) == key_set(guesses@),
            r.target@ == target@,
    {
        let mut on: Vec<String> = Vec::new();
        let mut i: usize = 0;
        while i < guesses.len()
            invariant
                0 <= i <= guesses.len(),
                views(on@).no_duplicates(),
                key_set(on@) == key_set(guesses@.take(i as int)),
            decreases guesses.len() - i,
        {
            let ghost prev = key_set(on@);
            set_key(&mut on, guesses[i].as_str(), true);
            proof {
                assert forall|k: Seq<char>| key_set(guesses@.take(i + 1)).contains(k) == key_set(guesses@.take(i as int)).insert(guesses@[i as int]@).contains(k) by {
                    let t1 = views(guesses@.take(i + 1));
                    let t0 = views(guesses@.take(i as int));
                    assert(t1 =~= t0.push(guesses@[i as int]@));
                    if t1.contains(k) && k != guesses@[i as int]@ {
                        let j = choose|j: int| 0 <= j < t1.len() && t1[j] == k;
                        assert(j < t0.len());
                        assert(t0[j] == k);
                    }
                    if t0.contains(k) {
                        let j = choose|j: int| 0 <= j < t0.len() && t0[j] == k;
                        assert(t1[j] == k);
                    }
                    if k == guesses@[i as int]@ {
                        assert(t1[i as int] == k);
                    }
                }
                assert(key_set(guesses@.take(i + 1)) =~= key_set(guesses@.take(i as int)).insert(guesses@[i as int]@));
            }
            i += 1;
        }
        proof {
            assert(guesses@.take(guesses@.len() as int) =~= guesses@);
        }
        HudChoice { on, target: String::from_str(target) }
    }

    /// Tick or untick a widget the launcher was unsure of.
    pub fn set_widget(&mut self, widget: &str, on: bool)
        requires
            old(self).well_formed(),
        ensures
            final(self).well_formed(),
            key_set(final(self).on@) == (if on {
                key_set(old(self).on@).insert(widget@)
            } else {
                key_set(old(self).on@).remove(widget@)
            }),
            final(self).target == old(self).target,
    {
        set_key(&mut self.on, widget, on);
    }
}

} // verus!
