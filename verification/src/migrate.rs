//! Bringing instances and HUD setups over from other launchers: choosing
//! what the user meant, and which kinds of files to copy.

use vstd::prelude::*;
use vstd::string::*;
use crate::errors::Error;
use crate::text::{
    chars_of, contains, contains_seq, decimal, decimal_string, eq_ignore_ascii_case, eq_ignore_case,
    lowercase, same_chars, to_lowercase,
};

verus! {

/// The first index below `n` that satisfies `p`.
pub open spec fn first_index(n: nat, p: spec_fn(int) -> bool) -> Option<int>
    decreases n,
{
    if n == 0 {
        None
    } else {
        match first_index((n - 1) as nat, p) {
            Some(i) => Some(i),
            None => if p(n - 1) {
                Some(n - 1)
            } else {
                None
            },
        }
    }
}

/// How many indices below `n` satisfy `p`.
pub open spec fn count_where(n: nat, p: spec_fn(int) -> bool) -> nat
    decreases n,
{
    if n == 0 {
        0
    } else {
        count_where((n - 1) as nat, p) + if p(n - 1) {
            1nat
        } else {
            0
        }
    }
}

proof fn lemma_first_index_stays(n: nat, m: nat, p: spec_fn(int) -> bool)
    requires
        m <= n,
        first_index(m, p) is Some,
    ensures
        first_index(n, p) == first_index(m, p),
    decreases n,
{
    if n > m {
        lemma_first_index_stays((n - 1) as nat, m, p);
    }
}

/// Position of the first text in `list` equal to `w` after lower-casing.
fn first_lower_eq(list: &Vec<String>, w: &Vec<char>) -> (r: Option<usize>)
    ensures
        r matches Some(i) ==> first_index(list@.len(), |i: int| lowercase(list@[i]@) == w@) == Some(
            i as int,
        ),
        r is None ==> first_index(list@.len(), |i: int| lowercase(list@[i]@) == w@) is None,
{
    let ghost p = |i: int| lowercase(list@[i]@) == w@;
    let mut i: usize = 0;
    while i < list.len()
        invariant
            0 <= i <= list.len(),
            p == (|i: int| lowercase(list@[i]@) == w@),
            first_index(i as nat, p) is None,
        decreases list.len() - i,
    {
        let l = to_lowercase(list[i].as_str());
        let lv = chars_of(l.as_str());
        if same_chars(&lv, w) {
            assert(first_index((i + 1) as nat, p) == Some(i as int));
            proof {
                lemma_first_index_stays(list@.len(), (i + 1) as nat, p);
            }
            return Some(i);
        }
        assert(first_index((i + 1) as nat, p) is None);
        i += 1;
    }
    None
}

/// What `pick` decides: an index, or the message of the error.
pub open spec fn pick_choice(keys: Seq<String>, names: Seq<String>, which: Seq<char>) -> Result<
    int,
    Seq<char>,
> {
    let w = lowercase(which);
    let n = keys.len();
    let by_key = |i: int| lowercase(keys[i]@) == w;
    let by_name = |i: int| lowercase(names[i]@) == w;
    let partial = |i: int| contains_seq(lowercase(keys[i]@), w);
    match first_index(n, by_key) {
        Some(i) => Ok(i),
        None => match first_index(n, by_name) {
            Some(i) => Ok(i),
            None => if count_where(n, partial) == 1 {
                Ok(first_index(n, partial).unwrap())
            } else if count_where(n, partial) == 0 {
                Err("nothing matches '"@ + which + "' (see `arctic migrate list`)"@)
            } else {
                Err("'"@ + which + "' matches "@ + decimal(count_where(n, partial))
                    + " things; use the full key from `arctic migrate list`"@)
            },
        },
    }
}

proof fn lemma_count_zero_none(n: nat, p: spec_fn(int) -> bool)
    ensures
        (count_where(n, p) == 0) == (first_index(n, p) is None),
    decreases n,
{
    if n > 0 {
        lemma_count_zero_none((n - 1) as nat, p);
    }
}

/// An item by exact key, then by name (case-insensitive), then a unique
/// partial match of the key. `keys[i]` and `names[i]` belong to item `i`.
pub fn pick(keys: &Vec<String>, names: &Vec<String>, which: &str) -> (r: Result<usize, Error>)
    requires
        keys.len() == names.len(),
    ensures
        match pick_choice(keys@, names@, which@) {
            Ok(i) => r matches Ok(j) && j == i,
            Err(m) => r matches Err(e) && e matches Error::Other(t) && t@ == m,
        },
{
    let w = to_lowercase(which);
    let wv = chars_of(w.as_str());
    if let Some(i) = first_lower_eq(keys, &wv) {
        return Ok(i);
    }
    if let Some(i) = first_lower_eq(names, &wv) {
        return Ok(i);
    }
    let ghost p = |i: int| contains_seq(lowercase(keys@[i]@), lowercase(which@));
    let mut count: usize = 0;
    let mut first: usize = 0;
    let mut i: usize = 0;
    while i < keys.len()
        invariant
            0 <= i <= keys.len(),
            wv@ == lowercase(which@),
            p == (|i: int| contains_seq(lowercase(keys@[i]@), lowercase(which@))),
            count == count_where(i as nat, p),
            count <= i,
            count > 0 ==> first_index(i as nat, p) == Some(first as int),
        decreases keys.len() - i,
    {
        let l = to_lowercase(keys[i].as_str());
        let lv = chars_of(l.as_str());
        let hit = contains(&lv, &wv);
        proof {
            lemma_count_zero_none(i as nat, p);
        }
        if hit {
            if count == 0 {
                first = i;
            }
            count += 1;
        }
        i += 1;
    }
    if count == 1 {
        return Ok(first);
    }
    proof {
        lemma_count_zero_none(keys@.len(), p);
    }
    let mut msg = if count == 0 {
        let mut m = String::from_str("nothing matches '");
        m.append(which);
        m.append("' (see `arctic migrate list`)");
        m
    } else {
        let mut m = String::from_str("'");
        m.append(which);
        m.append("' matches ");
        m.append(decimal_string(count as u64).as_str());
        m.append(" things; use the full key from `arctic migrate list`");
        m
    };
    Err(Error::Other(msg))
}

/// An exact key always wins over names and partial matches.
pub proof fn law_exact_key_first(keys: Seq<String>, names: Seq<String>, which: Seq<char>, i: int)
    requires
        0 <= i < keys.len(),
        lowercase(keys[i]@) == lowercase(which),
        forall|j: int| 0 <= j < i ==> lowercase(keys[j]@) != lowercase(which),
    ensures
        pick_choice(keys, names, which) == Ok::<int, Seq<char>>(i),
{
    let p = |j: int| lowercase(keys[j]@) == lowercase(which);
    lemma_first_index_is(keys.len(), p, i);
}

/// When no key is the text asked for (ignoring case) but an item's name
/// is, the first such item is picked, whatever keys merely contain the
/// text: a name beats a partial key.
pub proof fn law_name_before_partial(keys: Seq<String>, names: Seq<String>, which: Seq<char>, j: int)
    requires
        keys.len() == names.len(),
        forall|i: int| 0 <= i < keys.len() ==> lowercase(#[trigger] keys[i]@) != lowercase(which),
        0 <= j < names.len(),
        lowercase(names[j]@) == lowercase(which),
        forall|i: int| 0 <= i < j ==> lowercase(#[trigger] names[i]@) != lowercase(which),
    ensures
        pick_choice(keys, names, which) == Ok::<int, Seq<char>>(j),
{
    let by_key = |i: int| lowercase(keys[i]@) == lowercase(which);
    let by_name = |i: int| lowercase(names[i]@) == lowercase(which);
    assert forall|i: int| 0 <= i < keys.len() implies !#[trigger] by_key(i) by {}
    lemma_first_index_none(keys.len(), by_key);
    assert forall|i: int| 0 <= i < j implies !#[trigger] by_name(i) by {}
    lemma_first_index_is(keys.len(), by_name, j);
}

/// What is picked always answers the text: its key or its name is the
/// text (ignoring case), or its key contains the text and no other key
/// does. Nothing is picked when some key or name is the text but a
/// different item comes back.
pub proof fn law_pick_answers(keys: Seq<String>, names: Seq<String>, which: Seq<char>)
    requires
        keys.len() == names.len(),
    ensures
        pick_choice(keys, names, which) matches Ok(i) ==> 0 <= i < keys.len() && (
            lowercase(keys[i]@) == lowercase(which) || lowercase(names[i]@) == lowercase(which) || (
                contains_seq(lowercase(keys[i]@), lowercase(which)) && forall|k: int|
                    0 <= k < keys.len() && k != i ==> !contains_seq(lowercase(#[trigger] keys[k]@), lowercase(which)))),
        (exists|k: int| 0 <= k < keys.len() && (lowercase(#[trigger] keys[k]@) == lowercase(which) || lowercase(names[k]@) == lowercase(which)))
            ==> pick_choice(keys, names, which) is Ok,
{
    let n = keys.len();
    let w = lowercase(which);
    let by_key = |i: int| lowercase(keys[i]@) == w;
    let by_name = |i: int| lowercase(names[i]@) == w;
    let partial = |i: int| contains_seq(lowercase(keys[i]@), w);
    lemma_first_index_meaning(n, by_key);
    lemma_first_index_meaning(n, by_name);
    lemma_first_index_meaning(n, partial);
    if first_index(n, by_key) is None && first_index(n, by_name) is None && count_where(n, partial) == 1 {
        let i = first_index(n, partial).unwrap();
        lemma_count_zero_none(n, partial);
        assert forall|k: int| 0 <= k < n && k != i implies !contains_seq(lowercase(#[trigger] keys[k]@), w) by {
            if contains_seq(lowercase(keys[k]@), w) {
                lemma_count_two(n, partial, i, k);
            }
        }
    }
    if first_index(n, by_key) is None && first_index(n, by_name) is None {
        assert forall|k: int| 0 <= k < keys.len() implies !(lowercase(#[trigger] keys[k]@) == w || lowercase(names[k]@) == w) by {
            assert(!by_key(k));
            assert(!by_name(k));
        }
    }
}

/// What `first_index` gives: the least index satisfying `p`, or none.
proof fn lemma_first_index_meaning(n: nat, p: spec_fn(int) -> bool)
    ensures
        first_index(n, p) matches Some(i) ==> 0 <= i < n && p(i) && forall|j: int| 0 <= j < i ==> !#[trigger] p(j),
        first_index(n, p) is None ==> forall|j: int| 0 <= j < n ==> !#[trigger] p(j),
    decreases n,
{
    if n > 0 {
        lemma_first_index_meaning((n - 1) as nat, p);
    }
}

/// Two distinct satisfying indices count at least two.
proof fn lemma_count_two(n: nat, p: spec_fn(int) -> bool, a: int, b: int)
    requires
        0 <= a < n,
        0 <= b < n,
        a != b,
        p(a),
        p(b),
    ensures
        count_where(n, p) >= 2,
    decreases n,
{
    if a == n - 1 || b == n - 1 {
        let other = if a == n - 1 { b } else { a };
        lemma_count_at_least_one((n - 1) as nat, p, other);
    } else {
        lemma_count_two((n - 1) as nat, p, a, b);
    }
}

proof fn lemma_count_at_least_one(n: nat, p: spec_fn(int) -> bool, a: int)
    requires
        0 <= a < n,
        p(a),
    ensures
        count_where(n, p) >= 1,
    decreases n,
{
    if a < n - 1 {
        lemma_count_at_least_one((n - 1) as nat, p, a);
    }
}

/// The first satisfying index is `i` when `i` satisfies and none before.
proof fn lemma_first_index_is(n: nat, p: spec_fn(int) -> bool, i: int)
    requires
        0 <= i < n,
        p(i),
        forall|j: int| 0 <= j < i ==> !#[trigger] p(j),
    ensures
        first_index(n, p) == Some(i),
    decreases n,
{
    if n - 1 > i {
        lemma_first_index_is((n - 1) as nat, p, i);
    } else {
        lemma_first_index_none(i as nat, p);
    }
}

proof fn lemma_first_index_none(n: nat, p: spec_fn(int) -> bool)
    requires
        forall|j: int| 0 <= j < n ==> !#[trigger] p(j),
    ensures
        first_index(n, p) is None,
    decreases n,
{
    if n > 0 {
        lemma_first_index_none((n - 1) as nat, p);
    }
}

/// The kinds of files to bring over: every category whose id is not in
/// `skip` (ids compared ignoring ASCII case), in the given order.
pub fn kept_categories(ids: &Vec<String>, skip: &Vec<String>) -> (kept: Vec<usize>)
    ensures
        crate::select::all_matches(
            kept@,
            ids@.len(),
            |i: int| !(exists|k: int| 0 <= k < skip@.len() && eq_ignore_case(#[trigger] skip@[k]@, ids@[i]@)),
        ),
{
    let ghost keep = |i: int|
        !(exists|k: int| 0 <= k < skip@.len() && eq_ignore_case(#[trigger] skip@[k]@, ids@[i]@));
    let n = ids.len();
    let mut flags: Vec<bool> = Vec::new();
    let mut i: usize = 0;
    while i < n
        invariant
            0 <= i <= n,
            n == ids@.len(),
            keep == (|i: int|
                !(exists|k: int| 0 <= k < skip@.len() && eq_ignore_case(#[trigger] skip@[k]@, ids@[i]@))),
            flags@.len() == i,
            forall|j: int| 0 <= j < i ==> flags@[j] == keep(j),
        decreases n - i,
    {
        let id = chars_of(ids[i].as_str());
        let mut skipped = false;
        let mut k: usize = 0;
        while k < skip.len()
            invariant
                0 <= k <= skip.len(),
                id@ == ids@[i as int]@,
                skipped == (exists|q: int| 0 <= q < k && eq_ignore_case(#[trigger] skip@[q]@, id@)),
            decreases skip.len() - k,
        {
            let s = chars_of(skip[k].as_str());
            if eq_ignore_ascii_case(&s, &id) {
                skipped = true;
            }
            k += 1;
        }
        flags.push(!skipped);
        i += 1;
    }
    let rows = crate::select::select_rows(&flags, n);
    proof {
        crate::select::lemma_first_matches_same(rows@, n as nat, |i: int| flags@[i], keep, n as nat);
    }
    rows
}

/// `migrate all` exits with 1 when any instance failed.
pub fn all_exit_code(failed: usize) -> (r: i32)
    ensures
        r == if failed > 0 {
            1i32
        } else {
            0
        },
{
    if failed > 0 {
        1
    } else {
        0
    }
}

} // verus!
