//! What holds of every comparison, stated over the model and proved.

use crate::difflib::{DiffCell, DiffOperation};
use crate::model::{
    col_after, common_len, cost, diff, direction, directions_of, gap, lemma_run_stays_inside,
    lemma_trace_skips_unchanged, row_after, run, trace,
};
use vstd::prelude::*;

verus! {

/// A text differs from itself in nothing, the empty text included.
pub proof fn lemma_identity(s: Seq<char>)
    ensures
        diff(s, s) == Seq::<DiffCell>::empty(),
{
}

/// No record of a backward walk stands for "no change".
pub proof fn lemma_trace_has_no_unchanged(
    d: spec_fn(int, int) -> DiffOperation,
    row: int,
    col: int,
    k: int,
)
    requires
        0 <= k < trace(d, row, col).len(),
    ensures
        trace(d, row, col)[k].operation != DiffOperation::Unchanged,
    decreases row + col,
{
    if row > 0 && col > 0 {
        let op = d(row, col);
        let n = run(d, row, col, op) as int;
        lemma_run_stays_inside(d, row, col, op);
        let r = row_after(row, op, n);
        let c = col_after(col, op, n);
        if op == DiffOperation::Unchanged {
            lemma_trace_has_no_unchanged(d, r, c, k);
        } else if k > 0 {
            lemma_trace_has_no_unchanged(d, r, c, k - 1);
        }
    }
}

/// No record of a result stands for "no change".
pub proof fn lemma_no_unchanged_record(a: Seq<char>, b: Seq<char>, k: int)
    requires
        0 <= k < diff(a, b).len(),
    ensures
        diff(a, b)[k].operation != DiffOperation::Unchanged,
{
    let n = common_len(a, b);
    if k >= gap(a, b).len() {
        lemma_trace_has_no_unchanged(directions_of(a, b), n, n, k - gap(a, b).len());
    }
}

/// Every record of a backward walk covers at least one character.
pub proof fn lemma_trace_counts_positive(
    d: spec_fn(int, int) -> DiffOperation,
    row: int,
    col: int,
    k: int,
)
    requires
        row <= usize::MAX,
        col <= usize::MAX,
        0 <= k < trace(d, row, col).len(),
    ensures
        trace(d, row, col)[k].count >= 1,
    decreases row + col,
{
    if row > 0 && col > 0 {
        let op = d(row, col);
        let n = run(d, row, col, op) as int;
        lemma_run_stays_inside(d, row, col, op);
        let r = row_after(row, op, n);
        let c = col_after(col, op, n);
        if op == DiffOperation::Unchanged {
            lemma_trace_counts_positive(d, r, c, k);
        } else if k > 0 {
            lemma_trace_counts_positive(d, r, c, k - 1);
        }
    }
}

/// Every record of a result covers at least one character, for texts whose
/// lengths a machine can hold.
pub proof fn lemma_counts_positive(a: Seq<char>, b: Seq<char>, k: int)
    requires
        a.len() <= usize::MAX,
        b.len() <= usize::MAX,
        0 <= k < diff(a, b).len(),
    ensures
        diff(a, b)[k].count >= 1,
{
    let n = common_len(a, b);
    if k >= gap(a, b).len() {
        lemma_trace_counts_positive(directions_of(a, b), n, n, k - gap(a, b).len());
    }
}

/// Against the empty text, a text that is not empty is inserted whole.
pub proof fn lemma_from_empty(s: Seq<char>)
    requires
        s.len() > 0,
    ensures
        diff(Seq::<char>::empty(), s) == seq![
            DiffCell { start: 0, count: s.len() as usize, operation: DiffOperation::Insert },
        ],
{
    let e = Seq::<char>::empty();
    assert(e != s) by {
        assert(e.len() != s.len());
    }
    assert(gap(e, s) + trace(directions_of(e, s), 0, 0) =~= gap(e, s));
}

/// Compared with the empty text, a text that is not empty is removed whole.
pub proof fn lemma_to_empty(s: Seq<char>)
    requires
        s.len() > 0,
    ensures
        diff(s, Seq::<char>::empty()) == seq![
            DiffCell { start: 0, count: s.len() as usize, operation: DiffOperation::Remove },
        ],
{
    let e = Seq::<char>::empty();
    assert(e != s) by {
        assert(e.len() != s.len());
    }
    assert(gap(s, e) + trace(directions_of(s, e), 0, 0) =~= gap(s, e));
}

/// Where the old text is the longer one, the first record removes the
/// characters by which it is longer, wherever the other records lie.
pub proof fn lemma_longer_old_leads_with_remove(a: Seq<char>, b: Seq<char>)
    requires
        a.len() > b.len(),
    ensures
        diff(a, b).len() >= 1,
        diff(a, b)[0] == (DiffCell {
            start: b.len() as usize,
            count: (a.len() - b.len()) as usize,
            operation: DiffOperation::Remove,
        }),
{
}

/// Where the new text is the longer one, the first record inserts the
/// characters by which it is longer, wherever the other records lie.
pub proof fn lemma_longer_new_leads_with_insert(a: Seq<char>, b: Seq<char>)
    requires
        b.len() > a.len(),
    ensures
        diff(a, b).len() >= 1,
        diff(a, b)[0] == (DiffCell {
            start: a.len() as usize,
            count: (b.len() - a.len()) as usize,
            operation: DiffOperation::Insert,
        }),
{
}

/// Row 0 and column 0 of the cost table hold the distance from the empty
/// text.
pub proof fn lemma_cost_borders(a: Seq<char>, b: Seq<char>, k: int)
    requires
        0 <= k,
    ensures
        cost(a, b, k, 0) == k,
        cost(a, b, 0, k) == k,
{
}

/// A cell of the direction table stands for "no change" exactly where the two
/// characters are equal, and any other direction names a neighbour whose
/// cost is one less.
pub proof fn lemma_direction_names_cheapest(a: Seq<char>, b: Seq<char>, i: int, j: int)
    requires
        1 <= i,
        1 <= j,
    ensures
        direction(a, b, i, j) == DiffOperation::Unchanged <==> a[i - 1] == b[j - 1],
        direction(a, b, i, j) == DiffOperation::Update ==> cost(a, b, i, j) == cost(
            a,
            b,
            i - 1,
            j - 1,
        ) + 1,
        direction(a, b, i, j) == DiffOperation::Remove ==> cost(a, b, i, j) == cost(a, b, i - 1, j)
            + 1,
        direction(a, b, i, j) == DiffOperation::Insert ==> cost(a, b, i, j) == cost(a, b, i, j - 1)
            + 1,
{
}

/// A backward walk from the diagonal that yields no record has met equal
/// characters all the way.
pub proof fn lemma_silent_walk_means_equal(a: Seq<char>, b: Seq<char>, k: int, i: int)
    requires
        0 <= i < k,
        trace(directions_of(a, b), k, k).len() == 0,
    ensures
        a[i] == b[i],
    decreases k,
{
    let d = directions_of(a, b);
    let op = d(k, k);
    lemma_direction_names_cheapest(a, b, k, k);
    lemma_run_stays_inside(d, k, k, op);
    if op == DiffOperation::Unchanged {
        lemma_trace_skips_unchanged(d, k, k);
        if i < k - 1 {
            lemma_silent_walk_means_equal(a, b, k - 1, i);
        }
    }
}

/// The result is empty for equal texts and for no others.
pub proof fn lemma_empty_means_equal(a: Seq<char>, b: Seq<char>)
    ensures
        diff(a, b).len() == 0 <==> a == b,
{
    if a != b && diff(a, b).len() == 0 {
        let n = common_len(a, b);
        assert(gap(a, b).len() == 0);
        assert(a.len() == b.len());
        assert forall|i: int| 0 <= i < a.len() implies a[i] == b[i] by {
            lemma_silent_walk_means_equal(a, b, n, i);
        }
        assert(a =~= b);
    }
}

} // verus!
