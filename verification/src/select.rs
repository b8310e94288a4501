//! Choosing rows: the indices of the items that pass a test, in order,
//! possibly only the first few, and looking names up in lists.

use vstd::prelude::*;
use crate::text::str_eq;

verus! {

/// `rows` are, in increasing order, the first `limit` indices below `n`
/// that satisfy `keep` (all of them when there are fewer).
pub open spec fn first_matches(rows: Seq<usize>, n: nat, keep: spec_fn(int) -> bool, limit: nat) -> bool {
    &&& rows.len() <= limit
    &&& forall|i: int, j: int| 0 <= i < j < rows.len() ==> rows[i] < rows[j]
    &&& forall|i: int| 0 <= i < rows.len() ==> rows[i] < n && keep(rows[i] as int)
    &&& forall|j: int|
        0 <= j < n && #[trigger] keep(j) && (rows.len() < limit || (rows.len() > 0 && j < rows.last())) ==> rows.contains(
            j as usize,
        )
}

/// All indices below `n` that satisfy `keep`, in increasing order.
pub open spec fn all_matches(rows: Seq<usize>, n: nat, keep: spec_fn(int) -> bool) -> bool {
    first_matches(rows, n, keep, n)
}

/// Some string in `list` has the text `s`.
pub open spec fn has_text(list: Seq<String>, s: Seq<char>) -> bool {
    exists|i: int| 0 <= i < list.len() && #[trigger] list[i]@ == s
}

/// Whether some string in `list` has the text `s` (`contains`).
pub fn contains_text(list: &Vec<String>, s: &str) -> (r: bool)
    ensures
        r == has_text(list@, s@),
{
    let mut i: usize = 0;
    while i < list.len()
        invariant
            0 <= i <= list.len(),
            forall|j: int| 0 <= j < i ==> list@[j]@ != s@,
        decreases list.len() - i,
    {
        if str_eq(list[i].as_str(), s) {
            assert(list@[i as int]@ == s@);
            return true;
        }
        i += 1;
    }
    false
}

proof fn lemma_push_keeps(rows: Seq<usize>, x: usize, j: usize)
    requires
        rows.contains(j),
    ensures
        rows.push(x).contains(j),
{
    let k = choose|k: int| 0 <= k < rows.len() && rows[k] == j;
    assert(rows.push(x)[k] == j);
}

/// The first `limit` positions whose flag is set, in order.
pub fn select_rows(flags: &Vec<bool>, limit: usize) -> (rows: Vec<usize>)
    ensures
        first_matches(rows@, flags@.len(), |i: int| flags@[i], limit as nat),
{
    let ghost keep = |i: int| flags@[i];
    let n = flags.len();
    let mut rows: Vec<usize> = Vec::new();
    let mut i: usize = 0;
    while i < n && rows.len() < limit
        invariant
            0 <= i <= n,
            n == flags@.len(),
            keep == (|i: int| flags@[i]),
            rows@.len() <= limit,
            rows@.len() <= i,
            forall|a: int, b: int| 0 <= a < b < rows@.len() ==> rows@[a] < rows@[b],
            forall|a: int| 0 <= a < rows@.len() ==> rows@[a] < i && keep(rows@[a] as int),
            forall|j: int| 0 <= j < i && #[trigger] keep(j) ==> rows@.contains(j as usize),
        decreases n - i,
    {
        let ghost before = rows@;
        if flags[i] {
            rows.push(i);
        }
        proof {
            assert forall|j: int| 0 <= j < i + 1 && #[trigger] keep(j) implies rows@.contains(
                j as usize,
            ) by {
                if j < i {
                    if flags@[i as int] {
                        lemma_push_keeps(before, i, j as usize);
                    }
                } else {
                    assert(rows@[rows@.len() - 1] == i);
                }
            }
        }
        i += 1;
    }
    proof {
        assert forall|j: int|
            0 <= j < n && #[trigger] keep(j) && (rows@.len() < limit || (rows@.len() > 0 && j < rows@.last())) implies rows@.contains(
            j as usize,
        ) by {
            if j >= i {
                assert(rows@.len() == limit);
                assert(rows@.last() < i);
            }
        }
    }
    rows
}

/// `first_matches` only looks at the test below `n`.
pub proof fn lemma_first_matches_same(
    rows: Seq<usize>,
    n: nat,
    p: spec_fn(int) -> bool,
    q: spec_fn(int) -> bool,
    limit: nat,
)
    requires
        first_matches(rows, n, p, limit),
        forall|i: int| 0 <= i < n ==> #[trigger] p(i) == q(i),
    ensures
        first_matches(rows, n, q, limit),
{
    assert forall|j: int|
        0 <= j < n && #[trigger] q(j) && (rows.len() < limit || (rows.len() > 0 && j < rows.last())) implies rows.contains(
        j as usize,
    ) by {
        assert(p(j));
    }
}

/// Rows of `all_matches` hold every index that passes the test.
pub proof fn lemma_all_matches_complete(rows: Seq<usize>, n: nat, keep: spec_fn(int) -> bool, j: int)
    requires
        all_matches(rows, n, keep),
        0 <= j < n,
        keep(j),
    ensures
        rows.contains(j as usize),
{
    if rows.len() == n {
        lemma_rows_from_start(rows, n, j);
        lemma_rows_from_end(rows, n, j);
        assert(rows[j] == j as usize);
    }
}

proof fn lemma_rows_from_start(rows: Seq<usize>, n: nat, k: int)
    requires
        forall|i: int, j: int| 0 <= i < j < rows.len() ==> rows[i] < rows[j],
        0 <= k < rows.len(),
    ensures
        rows[k] >= k,
    decreases k,
{
    if k > 0 {
        lemma_rows_from_start(rows, n, k - 1);
    }
}

proof fn lemma_rows_from_end(rows: Seq<usize>, n: nat, k: int)
    requires
        forall|i: int, j: int| 0 <= i < j < rows.len() ==> rows[i] < rows[j],
        forall|i: int| 0 <= i < rows.len() ==> rows[i] < n,
        rows.len() == n,
        0 <= k < rows.len(),
    ensures
        rows[k] <= k,
    decreases rows.len() - k,
{
    if k < rows.len() - 1 {
        lemma_rows_from_end(rows, n, k + 1);
    }
}

} // verus!
