//! The mathematical model of a comparison: the cost table, the direction
//! table, the backward walk and the resulting list of records.

use crate::difflib::{DiffCell, DiffOperation};
use vstd::prelude::*;

verus! {

/// The smallest of three integers.
pub open spec fn min3(x: int, y: int, z: int) -> int {
    if x <= y && x <= z {
        x
    } else if y <= z {
        y
    } else {
        z
    }
}

/// The cost table: entry `(i, j)` relates the first `i` characters of `a`
/// to the first `j` characters of `b`.
///
/// Row 0 and column 0 hold the distance from the empty text. Elsewhere an
/// equal pair of characters copies the diagonal neighbour, and an unequal pair
/// costs one more than the cheapest of the three neighbours.
pub open spec fn cost(a: Seq<char>, b: Seq<char>, i: int, j: int) -> int
    decreases i + j,
{
    if i <= 0 {
        j
    } else if j <= 0 {
        i
    } else if a[i - 1] == b[j - 1] {
        cost(a, b, i - 1, j - 1)
    } else {
        1 + min3(cost(a, b, i - 1, j - 1), cost(a, b, i - 1, j), cost(a, b, i, j - 1))
    }
}

/// A cost is never negative and never more than the longer of the two
/// prefixes.
pub proof fn lemma_cost_bounds(a: Seq<char>, b: Seq<char>, i: int, j: int)
    requires
        0 <= i,
        0 <= j,
    ensures
        0 <= cost(a, b, i, j),
        cost(a, b, i, j) <= i || cost(a, b, i, j) <= j,
    decreases i + j,
{
    if i > 0 && j > 0 {
        lemma_cost_bounds(a, b, i - 1, j - 1);
        lemma_cost_bounds(a, b, i - 1, j);
        lemma_cost_bounds(a, b, i, j - 1);
    }
}

/// The direction table: which neighbour the cost of `(i, j)` came from.
///
/// Where several neighbours give the same cost, the diagonal (`Update`) wins
/// over the row above (`Remove`), which wins over the column to the left
/// (`Insert`).
pub open spec fn direction(a: Seq<char>, b: Seq<char>, i: int, j: int) -> DiffOperation {
    if a[i - 1] == b[j - 1] {
        DiffOperation::Unchanged
    } else if cost(a, b, i, j) == cost(a, b, i - 1, j - 1) + 1 {
        DiffOperation::Update
    } else if cost(a, b, i, j) == cost(a, b, i - 1, j) + 1 {
        DiffOperation::Remove
    } else if cost(a, b, i, j) == cost(a, b, i, j - 1) + 1 {
        DiffOperation::Insert
    } else {
        DiffOperation::Unchanged
    }
}

/// The direction table of `a` and `b` as a function of row and column.
pub open spec fn directions_of(a: Seq<char>, b: Seq<char>) -> spec_fn(int, int) -> DiffOperation {
    |i: int, j: int| direction(a, b, i, j)
}

/// The row reached from `row` by `steps` steps of kind `op`.
pub open spec fn row_after(row: int, op: DiffOperation, steps: int) -> int {
    if op == DiffOperation::Insert {
        row
    } else {
        row - steps
    }
}

/// The column reached from `col` by `steps` steps of kind `op`.
pub open spec fn col_after(col: int, op: DiffOperation, steps: int) -> int {
    if op == DiffOperation::Remove {
        col
    } else {
        col - steps
    }
}

/// The number of consecutive steps of kind `op` that the backward walk takes
/// from `(row, col)` before it meets another kind or an edge of the table.
pub open spec fn run(d: spec_fn(int, int) -> DiffOperation, row: int, col: int, op: DiffOperation) -> nat
    decreases row + col,
{
    if row > 0 && col > 0 && d(row, col) == op {
        1 + run(d, row_after(row, op, 1), col_after(col, op, 1), op)
    } else {
        0
    }
}

/// A run ends inside the table: it never steps past row 0 or column 0.
pub proof fn lemma_run_stays_inside(
    d: spec_fn(int, int) -> DiffOperation,
    row: int,
    col: int,
    op: DiffOperation,
)
    requires
        0 <= row,
        0 <= col,
    ensures
        0 <= row_after(row, op, run(d, row, col, op) as int) <= row,
        0 <= col_after(col, op, run(d, row, col, op) as int) <= col,
        run(d, row, col, op) <= row + col,
    decreases row + col,
{
    if row > 0 && col > 0 && d(row, col) == op {
        lemma_run_stays_inside(d, row_after(row, op, 1), col_after(col, op, 1), op);
    }
}

/// The records of the backward walk from `(row, col)` to the first row or
/// column: one record for each maximal run of `Update`, `Remove` or `Insert`
/// steps, in the order in which the walk meets them. A run of unchanged
/// characters yields no record.
pub open spec fn trace(d: spec_fn(int, int) -> DiffOperation, row: int, col: int) -> Seq<DiffCell>
    decreases row + col,
{
    if row <= 0 || col <= 0 {
        Seq::empty()
    } else {
        let op = d(row, col);
        let n = run(d, row, col, op);
        proof {
            lemma_run_stays_inside(d, row, col, op);
        }
        let r = row_after(row, op, n as int);
        let c = col_after(col, op, n as int);
        if op == DiffOperation::Unchanged {
            trace(d, r, c)
        } else {
            seq![DiffCell { start: r as usize, count: n as usize, operation: op }] + trace(d, r, c)
        }
    }
}

/// A step over an unchanged character adds nothing to the records.
pub proof fn lemma_trace_skips_unchanged(d: spec_fn(int, int) -> DiffOperation, row: int, col: int)
    requires
        row > 0,
        col > 0,
        d(row, col) == DiffOperation::Unchanged,
    ensures
        trace(d, row, col) == trace(d, row - 1, col - 1),
{
    lemma_run_stays_inside(d, row - 1, col - 1, DiffOperation::Unchanged);
}

/// A run of `n` changes of kind `op` that starts at `(row, col)` yields one
/// record, and the walk goes on from where the run ends.
pub proof fn lemma_trace_emits_run(
    d: spec_fn(int, int) -> DiffOperation,
    row: int,
    col: int,
    op: DiffOperation,
    n: int,
)
    requires
        op != DiffOperation::Unchanged,
        n >= 1,
        n == run(d, row, col, op),
    ensures
        row > 0,
        col > 0,
        d(row, col) == op,
        0 <= row_after(row, op, n),
        0 <= col_after(col, op, n),
        trace(d, row, col) == seq![
            DiffCell { start: row_after(row, op, n) as usize, count: n as usize, operation: op },
        ] + trace(d, row_after(row, op, n), col_after(col, op, n)),
{
    if row >= 0 && col >= 0 {
        lemma_run_stays_inside(d, row, col, op);
    }
}

/// The records `done`, followed by those that the walk still yields from
/// `(row, col)`, make up `whole`.
pub closed spec fn walk_splits(
    whole: Seq<DiffCell>,
    done: Seq<DiffCell>,
    d: spec_fn(int, int) -> DiffOperation,
    row: int,
    col: int,
) -> bool {
    whole == done + trace(d, row, col)
}

/// Before the first step nothing is done and the whole walk is to come.
pub proof fn lemma_walk_begins(
    done: Seq<DiffCell>,
    d: spec_fn(int, int) -> DiffOperation,
    row: int,
    col: int,
)
    ensures
        walk_splits(done + trace(d, row, col), done, d, row, col),
{
}

/// A step over an unchanged character leaves the records done as they are.
pub proof fn lemma_walk_skips(
    whole: Seq<DiffCell>,
    done: Seq<DiffCell>,
    d: spec_fn(int, int) -> DiffOperation,
    row: int,
    col: int,
)
    requires
        walk_splits(whole, done, d, row, col),
        row > 0,
        col > 0,
        d(row, col) == DiffOperation::Unchanged,
    ensures
        walk_splits(whole, done, d, row - 1, col - 1),
{
    lemma_trace_skips_unchanged(d, row, col);
}

/// After a run of `n` changes of kind `op` from `(row, col)`, its record is
/// the next one done, and the walk goes on from where the run ends.
pub proof fn lemma_walk_emits(
    whole: Seq<DiffCell>,
    done: Seq<DiffCell>,
    d: spec_fn(int, int) -> DiffOperation,
    row: int,
    col: int,
    op: DiffOperation,
    n: int,
)
    requires
        walk_splits(whole, done, d, row, col),
        op != DiffOperation::Unchanged,
        n >= 1,
        n == run(d, row, col, op),
    ensures
        walk_splits(
            whole,
            done.push(
                DiffCell { start: row_after(row, op, n) as usize, count: n as usize, operation: op },
            ),
            d,
            row_after(row, op, n),
            col_after(col, op, n),
        ),
{
    lemma_trace_emits_run(d, row, col, op, n);
    let cell = DiffCell { start: row_after(row, op, n) as usize, count: n as usize, operation: op };
    let rest = trace(d, row_after(row, op, n), col_after(col, op, n));
    assert(done.push(cell) + rest =~= done + (seq![cell] + rest));
}

/// At the first row or column the walk is over: the records done are all.
pub proof fn lemma_walk_ends(
    whole: Seq<DiffCell>,
    done: Seq<DiffCell>,
    d: spec_fn(int, int) -> DiffOperation,
    row: int,
    col: int,
)
    requires
        walk_splits(whole, done, d, row, col),
        row <= 0 || col <= 0,
    ensures
        whole == done,
{
    assert(done + Seq::<DiffCell>::empty() =~= done);
}

/// The walk reads the table only where both the row and the column are at
/// least 1: two tables that agree there give the same records.
pub proof fn lemma_trace_reads_interior(
    d1: spec_fn(int, int) -> DiffOperation,
    d2: spec_fn(int, int) -> DiffOperation,
    row: int,
    col: int,
)
    requires
        forall|r: int, c: int| 1 <= r <= row && 1 <= c <= col ==> #[trigger] d1(r, c) == d2(r, c),
    ensures
        trace(d1, row, col) == trace(d2, row, col),
    decreases row + col,
{
    if row > 0 && col > 0 {
        let op = d1(row, col);
        lemma_run_reads_interior(d1, d2, row, col, op);
        lemma_run_stays_inside(d1, row, col, op);
        let n = run(d1, row, col, op) as int;
        lemma_trace_reads_interior(d1, d2, row_after(row, op, n), col_after(col, op, n));
    }
}

/// The length of a run depends on the table only where both the row and the
/// column are at least 1.
pub proof fn lemma_run_reads_interior(
    d1: spec_fn(int, int) -> DiffOperation,
    d2: spec_fn(int, int) -> DiffOperation,
    row: int,
    col: int,
    op: DiffOperation,
)
    requires
        forall|r: int, c: int| 1 <= r <= row && 1 <= c <= col ==> #[trigger] d1(r, c) == d2(r, c),
    ensures
        run(d1, row, col, op) == run(d2, row, col, op),
    decreases row + col,
{
    if row > 0 && col > 0 && d1(row, col) == op {
        lemma_run_reads_interior(d1, d2, row_after(row, op, 1), col_after(col, op, 1), op);
    }
}

/// The number of leading characters that both texts have: the length of the
/// shorter one.
pub open spec fn common_len(a: Seq<char>, b: Seq<char>) -> int {
    if a.len() <= b.len() {
        a.len() as int
    } else {
        b.len() as int
    }
}

/// The record for the characters by which one text is longer than the other,
/// or nothing where the lengths agree.
pub open spec fn gap(a: Seq<char>, b: Seq<char>) -> Seq<DiffCell> {
    if a.len() > b.len() {
        seq![
            DiffCell {
                start: b.len() as usize,
                count: (a.len() - b.len()) as usize,
                operation: DiffOperation::Remove,
            },
        ]
    } else if b.len() > a.len() {
        seq![
            DiffCell {
                start: a.len() as usize,
                count: (b.len() - a.len()) as usize,
                operation: DiffOperation::Insert,
            },
        ]
    } else {
        Seq::empty()
    }
}

/// The difference between `a` and `b`: nothing for equal texts; otherwise the
/// record for the difference in length, followed by the backward walk over
/// the leading characters that both texts have.
pub open spec fn diff(a: Seq<char>, b: Seq<char>) -> Seq<DiffCell> {
    if a == b {
        Seq::empty()
    } else {
        gap(a, b) + trace(directions_of(a, b), common_len(a, b), common_len(a, b))
    }
}

} // verus!
