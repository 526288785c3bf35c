//! The difference engine: two grids that persist between comparisons, and the
//! records it reports.
//!
//! ```text
//! let mut sd = StringDiff::new();
//! let diff = sd.get_diff("Hello world", "Hello wrld");
//! ```

use crate::matrix::Matrix;
use crate::model::{
    common_len, cost, diff, direction, directions_of, gap, lemma_cost_bounds,
    lemma_trace_reads_interior, lemma_walk_begins, lemma_walk_emits, lemma_walk_ends,
    lemma_walk_skips, min3, run, trace, walk_splits,
};
use vstd::prelude::*;
use vstd::string::*;

verus! {

/// The kind of change that a record, or a cell of the direction grid, stands
/// for.
#[derive(Debug, PartialEq, Eq, Structural, Clone, Copy)]
pub enum DiffOperation {
    /// Characters present only in the new text.
    Insert,
    /// Characters present only in the old text.
    Remove,
    /// Characters replaced position by position.
    Update,
    /// No change. Found in the direction grid only, never in a result.
    Unchanged,
}

impl Default for DiffOperation {
    fn default() -> (op: DiffOperation)
        ensures
            op == DiffOperation::Unchanged,
    {
        DiffOperation::Unchanged
    }
}

impl DiffOperation {
    /// The short tag under which the operation is shown.
    pub open spec fn label(self) -> Seq<char> {
        match self {
            DiffOperation::Insert => "(i)"@,
            DiffOperation::Remove => "(r)"@,
            DiffOperation::Update => "(u)"@,
            DiffOperation::Unchanged => "(-)"@,
        }
    }

    /// Writes the operation as its short tag.
    pub fn to_string(&self) -> (text: String)
        ensures
            text@ == self.label(),
    {
        match self {
            DiffOperation::Insert => String::from_str("(i)"),
            DiffOperation::Remove => String::from_str("(r)"),
            DiffOperation::Update => String::from_str("(u)"),
            DiffOperation::Unchanged => String::from_str("(-)"),
        }
    }
}

/// One run of `count` consecutive characters changed in the same way.
///
/// `start` counts characters, not bytes. It is an offset into the old text
/// for `Remove` and `Update`, and into the new text for `Insert`: the row of
/// the direction grid at which the backward walk leaves the run.
#[derive(Debug, PartialEq, Eq, Structural, Clone, Copy)]
pub struct DiffCell {
    pub start: usize,
    pub count: usize,
    pub operation: DiffOperation,
}

/// The direction grid `m` as a function of row and column.
pub open spec fn grid_directions(m: Matrix<DiffOperation>) -> spec_fn(int, int) -> DiffOperation {
    |i: int, j: int| m.at(i, j)
}

/// The grids can be sized for `n` characters: a grid of one more row and one
/// more column than that has a number of cells that the machine can count.
pub open spec fn fits_grid(n: int) -> bool {
    (n + 1) * (n + 1) <= usize::MAX
}

/// The texts that can be compared: equal ones and those of which one is
/// empty, for which no grid is needed, and those for whose common length the
/// grids can be sized.
pub open spec fn comparable(a: Seq<char>, b: Seq<char>) -> bool {
    a == b || common_len(a, b) == 0 || fits_grid(common_len(a, b))
}

/// A grid for `n` characters has fewer rows than `u32::MAX`, so that every
/// cost in it, and one more, fits a cell.
pub proof fn lemma_fits_grid_bounds(n: int)
    requires
        0 <= n,
        fits_grid(n),
    ensures
        n + 1 <= u32::MAX,
        n + 1 <= usize::MAX,
{
    if n + 1 > u32::MAX {
        assert((n + 1) * (n + 1) >= 0x1_0000_0000 * 0x1_0000_0000) by (nonlinear_arith)
            requires
                n + 1 >= 0x1_0000_0000,
        ;
    }
}

/// Decodes a text into its characters.
pub fn chars_of(text: &str) -> (chars: Vec<char>)
    ensures
        chars@ == text@,
{
    let mut chars: Vec<char> = Vec::new();
    for ch in it: text.chars()
        invariant
            it.seq() == text@,
            chars@ == it.seq().take(it.index() as int),
    {
        chars.push(ch);
    }
    chars
}

/// Tells whether two texts hold the same characters.
pub fn same_chars(a: &Vec<char>, b: &Vec<char>) -> (same: bool)
    ensures
        same == (a@ == b@),
{
    if a.len() != b.len() {
        return false;
    }
    let mut k: usize = 0;
    while k < a.len()
        invariant
            k <= a.len(),
            a.len() == b.len(),
            forall|n: int| 0 <= n < k ==> a@[n] == b@[n],
        decreases a.len() - k,
    {
        if a[k] != b[k] {
            return false;
        }
        k = k + 1;
    }
    assert(a@ =~= b@);
    true
}

/// The smallest of three costs.
fn least(x: u32, y: u32, z: u32) -> (m: u32)
    ensures
        m == min3(x as int, y as int, z as int),
{
    if x <= y && x <= z {
        x
    } else if y <= z {
        y
    } else {
        z
    }
}

/// The engine: a cost grid and a direction grid of the same size, kept
/// between comparisons so that a comparison that fits allocates nothing.
pub struct StringDiff {
    mtx: Matrix<u32>,
    directions: Matrix<DiffOperation>,
}

impl StringDiff {
    /// Both grids are well formed and agree in logical and allocated size.
    pub closed spec fn wf(&self) -> bool {
        &&& self.mtx.wf()
        &&& self.directions.wf()
        &&& self.mtx.r_cnt == self.directions.r_cnt
        &&& self.mtx.c_cnt == self.directions.c_cnt
        &&& self.mtx.r_tot_cnt == self.directions.r_tot_cnt
        &&& self.mtx.c_tot_cnt == self.directions.c_tot_cnt
    }

    /// The logical number of rows of the grids.
    pub closed spec fn rows(&self) -> nat {
        self.mtx.r_cnt as nat
    }

    /// The logical number of columns of the grids.
    pub closed spec fn cols(&self) -> nat {
        self.mtx.c_cnt as nat
    }

    /// The allocated number of rows of the grids.
    pub closed spec fn row_capacity(&self) -> nat {
        self.mtx.r_tot_cnt as nat
    }

    /// The allocated number of columns of the grids.
    pub closed spec fn col_capacity(&self) -> nat {
        self.mtx.c_tot_cnt as nat
    }

    /// The cost that the cost grid holds in row `i`, column `j`.
    pub closed spec fn cost_at(&self, i: int, j: int) -> int {
        self.mtx.at(i, j) as int
    }

    /// The direction that the direction grid holds in row `i`, column `j`.
    pub closed spec fn direction_at(&self, i: int, j: int) -> DiffOperation {
        self.directions.at(i, j)
    }

    /// An engine whose grids are allocated for 512 rows and 512 columns.
    pub fn new() -> (sd: StringDiff)
        ensures
            sd.wf(),
            sd.rows() == 512,
            sd.cols() == 512,
            sd.row_capacity() == 512,
            sd.col_capacity() == 512,
    {
        let matrix: Matrix<u32> = Matrix::new(512, 512);
        let dirs: Matrix<DiffOperation> = Matrix::new(512, 512);
        StringDiff { mtx: matrix, directions: dirs }
    }

    /// Tells whether the grids can be sized for comparing `old_text` with
    /// `new_text`, which is what `get_diff` asks of its caller.
    pub fn can_compare(old_text: &str, new_text: &str) -> (ok: bool)
        ensures
            ok == comparable(old_text@, new_text@),
    {
        let old_chars = chars_of(old_text);
        let new_chars = chars_of(new_text);
        if same_chars(&old_chars, &new_chars) {
            return true;
        }
        let old_len = old_chars.len();
        let new_len = new_chars.len();
        let common = if old_len <= new_len {
            old_len
        } else {
            new_len
        };
        if common == 0 {
            return true;
        }
        if common == usize::MAX {
            proof {
                assert((common + 1) * (common + 1) > usize::MAX) by (nonlinear_arith)
                    requires
                        common + 1 > usize::MAX,
                        usize::MAX > 0,
                ;
            }
            return false;
        }
        let size = common + 1;
        match size.checked_mul(size) {
            Some(_) => true,
            None => false,
        }
    }

    /// Returns the differences between `old_text` and `new_text`.
    ///
    /// Equal texts give no record. Otherwise the first record, if the
    /// lengths differ, covers the characters by which the longer text
    /// exceeds the shorter one, and the records that follow come from
    /// walking the direction table of the leading characters backwards, so
    /// that changes nearer the end come first.
    ///
    /// Where the texts are equal or the shorter one is empty, the grids are
    /// left as they were. Otherwise they are given one more row and column
    /// than the shorter text has characters, and are allocated anew, to
    /// exactly that size, only where they were too small; they then hold
    /// the cost table and, off row 0 and column 0, the direction table of
    /// the two texts.
    pub fn get_diff(&mut self, old_text: &str, new_text: &str) -> (v: Vec<DiffCell>)
        requires
            old(self).wf(),
            comparable(old_text@, new_text@),
        ensures
            final(self).wf(),
            v@ == diff(old_text@, new_text@),
            old_text@ == new_text@ || common_len(old_text@, new_text@) == 0
                ==> *final(self) == *old(self),
            old_text@ != new_text@ && common_len(old_text@, new_text@) > 0 ==> {
                let size = (common_len(old_text@, new_text@) + 1) as nat;
                &&& final(self).rows() == size
                &&& final(self).cols() == size
                &&& forall|i: int, j: int|
                    0 <= i < size && 0 <= j < size ==> #[trigger] final(self).cost_at(i, j) == cost(
                        old_text@,
                        new_text@,
                        i,
                        j,
                    )
                &&& forall|i: int, j: int|
                    1 <= i < size && 1 <= j < size ==> #[trigger] final(self).direction_at(i, j)
                        == direction(old_text@, new_text@, i, j)
                &&& if size > old(self).row_capacity() || size > old(self).col_capacity() {
                    final(self).row_capacity() == size && final(self).col_capacity() == size
                } else {
                    &&& final(self).row_capacity() == old(self).row_capacity()
                    &&& final(self).col_capacity() == old(self).col_capacity()
                }
            },
    {
        let old_chars = chars_of(old_text);
        let new_chars = chars_of(new_text);
        if same_chars(&old_chars, &new_chars) {
            return Vec::new();
        }
        let ghost a = old_text@;
        let ghost b = new_text@;
        let old_len = old_chars.len();
        let new_len = new_chars.len();

        // The characters by which one text is longer than the other.
        let mut v: Vec<DiffCell> = Vec::with_capacity(512);
        let common: usize;
        if old_len > new_len {
            v.push(
                DiffCell {
                    start: new_len,
                    count: old_len - new_len,
                    operation: DiffOperation::Remove,
                },
            );
            common = new_len;
        } else if new_len > old_len {
            v.push(
                DiffCell {
                    start: old_len,
                    count: new_len - old_len,
                    operation: DiffOperation::Insert,
                },
            );
            common = old_len;
        } else {
            common = old_len;
        }
        assert(v@ =~= gap(a, b));

        if common == 0 {
            assert(v@ + trace(directions_of(a, b), 0, 0) =~= v@);
            return v;
        }
        proof {
            lemma_fits_grid_bounds(common as int);
        }
        let size: usize = common + 1;

        if size > self.mtx.r_tot_cnt || size > self.mtx.c_tot_cnt {
            self.mtx = Matrix::new(size, size);
            self.directions = Matrix::new(size, size);
        } else {
            self.mtx.set_size(size, size);
            self.directions.set_size(size, size);
        }

        self.compile_matrix(&old_chars, &new_chars);
        self.fill_result(&mut v);
        proof {
            lemma_trace_reads_interior(
                grid_directions(self.directions),
                directions_of(a, b),
                common as int,
                common as int,
            );
        }
        v
    }

    /// Resets the cost grid: row 0 counts the columns, column 0 counts the
    /// rows, and every other logical cell is 0.
    fn init_matrix(&mut self)
        requires
            old(self).wf(),
            1 <= old(self).mtx.r_cnt <= u32::MAX,
            1 <= old(self).mtx.c_cnt <= u32::MAX,
        ensures
            final(self).wf(),
            final(self).directions == old(self).directions,
            final(self).mtx.r_cnt == old(self).mtx.r_cnt,
            final(self).mtx.c_cnt == old(self).mtx.c_cnt,
            final(self).mtx.r_tot_cnt == old(self).mtx.r_tot_cnt,
            final(self).mtx.c_tot_cnt == old(self).mtx.c_tot_cnt,
            forall|i: int, j: int|
                0 <= i < old(self).mtx.r_cnt && 0 <= j < old(self).mtx.c_cnt
                    ==> #[trigger] final(self).mtx.at(i, j) == if i == 0 {
                    j
                } else if j == 0 {
                    i
                } else {
                    0
                },
    {
        self.mtx.fill_with_val(0);

        let col_count = self.mtx.c_cnt;
        let row_count = self.mtx.r_cnt;
        let mut c: usize = 0;
        while c < col_count
            invariant
                self.wf(),
                self.directions == old(self).directions,
                self.mtx.r_cnt == old(self).mtx.r_cnt,
                self.mtx.c_cnt == old(self).mtx.c_cnt,
                self.mtx.r_tot_cnt == old(self).mtx.r_tot_cnt,
                self.mtx.c_tot_cnt == old(self).mtx.c_tot_cnt,
                col_count == self.mtx.c_cnt,
                row_count == self.mtx.r_cnt,
                col_count <= u32::MAX,
                row_count >= 1,
                c <= col_count,
                forall|i: int, j: int|
                    0 <= i < row_count && 0 <= j < col_count ==> #[trigger] self.mtx.at(i, j)
                        == if i == 0 && j < c {
                        j
                    } else {
                        0
                    },
            decreases col_count - c,
        {
            self.mtx.set(0, c, c as u32);
            c = c + 1;
        }

        let mut r: usize = 0;
        while r < row_count
            invariant
                self.wf(),
                self.directions == old(self).directions,
                self.mtx.r_cnt == old(self).mtx.r_cnt,
                self.mtx.c_cnt == old(self).mtx.c_cnt,
                self.mtx.r_tot_cnt == old(self).mtx.r_tot_cnt,
                self.mtx.c_tot_cnt == old(self).mtx.c_tot_cnt,
                col_count == self.mtx.c_cnt,
                row_count == self.mtx.r_cnt,
                row_count <= u32::MAX,
                col_count >= 1,
                r <= row_count,
                forall|i: int, j: int|
                    0 <= i < row_count && 0 <= j < col_count ==> #[trigger] self.mtx.at(i, j)
                        == if i == 0 {
                        j
                    } else if j == 0 && i < r {
                        i
                    } else {
                        0
                    },
            decreases row_count - r,
        {
            self.mtx.set(r, 0, r as u32);
            r = r + 1;
        }
    }

    /// Names the neighbour from which the cost of the cell `(i + 1, j + 1)`
    /// came: the diagonal first, then the row above, then the column to the
    /// left.
    fn get_curdir(&self, i: usize, j: usize) -> (op: DiffOperation)
        requires
            self.wf(),
            i + 1 < self.mtx.r_cnt,
            j + 1 < self.mtx.c_cnt,
            self.mtx.at(i as int, j as int) < u32::MAX,
            self.mtx.at(i as int, j + 1) < u32::MAX,
            self.mtx.at(i + 1, j as int) < u32::MAX,
        ensures
            op == if self.mtx.at(i + 1, j + 1) == self.mtx.at(i as int, j as int) + 1 {
                DiffOperation::Update
            } else if self.mtx.at(i + 1, j + 1) == self.mtx.at(i as int, j + 1) + 1 {
                DiffOperation::Remove
            } else if self.mtx.at(i + 1, j + 1) == self.mtx.at(i + 1, j as int) + 1 {
                DiffOperation::Insert
            } else {
                DiffOperation::Unchanged
            },
    {
        let here: u32 = *self.mtx.get(i + 1, j + 1);
        if here == *self.mtx.get(i, j) + 1 {
            DiffOperation::Update
        } else if here == *self.mtx.get(i, j + 1) + 1 {
            DiffOperation::Remove
        } else if here == *self.mtx.get(i + 1, j) + 1 {
            DiffOperation::Insert
        } else {
            DiffOperation::Unchanged
        }
    }

    /// Fills both grids for the leading `rows - 1` characters of `old_chars`
    /// and the leading `cols - 1` characters of `new_chars`.
    fn compile_matrix(&mut self, old_chars: &Vec<char>, new_chars: &Vec<char>)
        requires
            old(self).wf(),
            1 <= old(self).mtx.r_cnt <= u32::MAX,
            1 <= old(self).mtx.c_cnt <= u32::MAX,
            old(self).mtx.r_cnt - 1 <= old_chars@.len(),
            old(self).mtx.c_cnt - 1 <= new_chars@.len(),
        ensures
            final(self).wf(),
            final(self).mtx.r_cnt == old(self).mtx.r_cnt,
            final(self).mtx.c_cnt == old(self).mtx.c_cnt,
            final(self).mtx.r_tot_cnt == old(self).mtx.r_tot_cnt,
            final(self).mtx.c_tot_cnt == old(self).mtx.c_tot_cnt,
            forall|i: int, j: int|
                0 <= i < old(self).mtx.r_cnt && 0 <= j < old(self).mtx.c_cnt
                    ==> #[trigger] final(self).mtx.at(i, j) == cost(old_chars@, new_chars@, i, j),
            forall|i: int, j: int|
                1 <= i < old(self).mtx.r_cnt && 1 <= j < old(self).mtx.c_cnt
                    ==> #[trigger] final(self).directions.at(i, j) == direction(
                    old_chars@,
                    new_chars@,
                    i,
                    j,
                ),
    {
        self.init_matrix();

        let ghost a = old_chars@;
        let ghost b = new_chars@;
        let row_count = self.mtx.r_cnt;
        let col_count = self.mtx.c_cnt;
        let mut i: usize = 0;
        while i + 1 < row_count
            invariant
                self.wf(),
                a == old_chars@,
                b == new_chars@,
                row_count == self.mtx.r_cnt == old(self).mtx.r_cnt,
                col_count == self.mtx.c_cnt == old(self).mtx.c_cnt,
                self.mtx.r_tot_cnt == old(self).mtx.r_tot_cnt,
                self.mtx.c_tot_cnt == old(self).mtx.c_tot_cnt,
                1 <= row_count <= u32::MAX,
                1 <= col_count <= u32::MAX,
                row_count - 1 <= a.len(),
                col_count - 1 <= b.len(),
                i + 1 <= row_count,
                forall|r: int, c: int|
                    0 <= r <= i && 0 <= c < col_count ==> #[trigger] self.mtx.at(r, c) == cost(
                        a,
                        b,
                        r,
                        c,
                    ),
                forall|r: int| i < r < row_count ==> #[trigger] self.mtx.at(r, 0) == r,
                forall|r: int, c: int|
                    1 <= r <= i && 1 <= c < col_count ==> #[trigger] self.directions.at(r, c)
                        == direction(a, b, r, c),
            decreases row_count - i,
        {
            let o_ch = old_chars[i];
            let mut j: usize = 0;
            while j + 1 < col_count
                invariant
                    self.wf(),
                    a == old_chars@,
                    b == new_chars@,
                    row_count == self.mtx.r_cnt == old(self).mtx.r_cnt,
                    col_count == self.mtx.c_cnt == old(self).mtx.c_cnt,
                    self.mtx.r_tot_cnt == old(self).mtx.r_tot_cnt,
                    self.mtx.c_tot_cnt == old(self).mtx.c_tot_cnt,
                    1 <= row_count <= u32::MAX,
                    1 <= col_count <= u32::MAX,
                    row_count - 1 <= a.len(),
                    col_count - 1 <= b.len(),
                    i + 1 < row_count,
                    j + 1 <= col_count,
                    o_ch == a[i as int],
                    forall|r: int, c: int|
                        0 <= r <= i && 0 <= c < col_count ==> #[trigger] self.mtx.at(r, c) == cost(
                            a,
                            b,
                            r,
                            c,
                        ),
                    forall|c: int|
                        0 <= c <= j ==> #[trigger] self.mtx.at(i + 1, c) == cost(a, b, i + 1, c),
                    forall|r: int| i + 1 < r < row_count ==> #[trigger] self.mtx.at(r, 0) == r,
                    forall|r: int, c: int|
                        1 <= r <= i && 1 <= c < col_count ==> #[trigger] self.directions.at(r, c)
                            == direction(a, b, r, c),
                    forall|c: int|
                        1 <= c <= j ==> #[trigger] self.directions.at(i + 1, c) == direction(
                            a,
                            b,
                            i + 1,
                            c,
                        ),
                decreases col_count - j,
            {
                let n_ch = new_chars[j];
                proof {
                    lemma_cost_bounds(a, b, i as int, j as int);
                    lemma_cost_bounds(a, b, i as int, j + 1);
                    lemma_cost_bounds(a, b, i + 1, j as int);
                }
                let diagonal: u32 = *self.mtx.get(i, j);
                if o_ch == n_ch {
                    self.mtx.set(i + 1, j + 1, diagonal);
                    self.directions.set(i + 1, j + 1, DiffOperation::Unchanged);
                } else {
                    let above: u32 = *self.mtx.get(i, j + 1);
                    let left: u32 = *self.mtx.get(i + 1, j);
                    self.mtx.set(i + 1, j + 1, least(diagonal, above, left) + 1);
                    let op = self.get_curdir(i, j);
                    self.directions.set(i + 1, j + 1, op);
                }
                j = j + 1;
            }
            i = i + 1;
        }
    }

    /// Walks the direction grid backwards from its last logical cell and
    /// appends one record to `v` for each run of changes that it meets.
    fn fill_result(&self, v: &mut Vec<DiffCell>)
        requires
            self.wf(),
            self.mtx.r_cnt >= 1,
            self.mtx.c_cnt >= 1,
        ensures
            final(v)@ == old(v)@ + trace(
                grid_directions(self.directions),
                self.mtx.r_cnt - 1,
                self.mtx.c_cnt - 1,
            ),
    {
        let ghost d = grid_directions(self.directions);
        let ghost whole = old(v)@ + trace(d, self.mtx.r_cnt - 1, self.mtx.c_cnt - 1);
        let mut row: usize = self.mtx.r_cnt - 1;
        let mut col: usize = self.mtx.c_cnt - 1;
        proof {
            lemma_walk_begins(v@, d, row as int, col as int);
        }

        while row > 0 && col > 0
            invariant
                self.wf(),
                d == grid_directions(self.directions),
                row < self.mtx.r_cnt,
                col < self.mtx.c_cnt,
                walk_splits(whole, v@, d, row as int, col as int),
            decreases row + col,
        {
            let ghost r0 = row;
            let ghost c0 = col;
            let mut op_count: usize = 0;
            let mut op = DiffOperation::Unchanged;

            while row > 0 && col > 0 && *self.directions.get(row, col) == DiffOperation::Unchanged
                invariant
                    self.wf(),
                    d == grid_directions(self.directions),
                    row < self.mtx.r_cnt,
                    col < self.mtx.c_cnt,
                    row <= r0,
                    col <= c0,
                    (row == r0 && col == c0) || row + col < r0 + c0,
                    walk_splits(whole, v@, d, row as int, col as int),
                decreases row + col,
            {
                proof {
                    lemma_walk_skips(whole, v@, d, row as int, col as int);
                }
                row -= 1;
                col -= 1;
            }

            let ghost r1 = row;
            let ghost c1 = col;
            while row > 0 && col > 0 && *self.directions.get(row, col) == DiffOperation::Update
                invariant
                    self.wf(),
                    d == grid_directions(self.directions),
                    row < self.mtx.r_cnt,
                    col < self.mtx.c_cnt,
                    row + op_count == r1,
                    col + op_count == c1,
                    op_count + run(d, row as int, col as int, DiffOperation::Update) == run(
                        d,
                        r1 as int,
                        c1 as int,
                        DiffOperation::Update,
                    ),
                    op == if op_count > 0 {
                        DiffOperation::Update
                    } else {
                        DiffOperation::Unchanged
                    },
                decreases row + col,
            {
                row = row - 1;
                col = col - 1;
                op_count = op_count + 1;
                op = DiffOperation::Update;
            }

            if op != DiffOperation::Unchanged {
                proof {
                    lemma_walk_emits(whole, v@, d, r1 as int, c1 as int, op, op_count as int);
                }
                v.push(DiffCell { start: row, count: op_count, operation: op });
                op_count = 0;
                op = DiffOperation::Unchanged;
            }

            let ghost r2 = row;
            let ghost c2 = col;
            while row > 0 && col > 0 && *self.directions.get(row, col) == DiffOperation::Remove
                invariant
                    self.wf(),
                    d == grid_directions(self.directions),
                    row < self.mtx.r_cnt,
                    col < self.mtx.c_cnt,
                    row + op_count == r2,
                    col == c2,
                    op_count + run(d, row as int, col as int, DiffOperation::Remove) == run(
                        d,
                        r2 as int,
                        c2 as int,
                        DiffOperation::Remove,
                    ),
                    op == if op_count > 0 {
                        DiffOperation::Remove
                    } else {
                        DiffOperation::Unchanged
                    },
                decreases row + col,
            {
                row = row - 1;
                op_count = op_count + 1;
                op = DiffOperation::Remove;
            }

            if op != DiffOperation::Unchanged {
                proof {
                    lemma_walk_emits(whole, v@, d, r2 as int, c2 as int, op, op_count as int);
                }
                v.push(DiffCell { start: row, count: op_count, operation: op });
                op_count = 0;
                op = DiffOperation::Unchanged;
            }

            let ghost r3 = row;
            let ghost c3 = col;
            while row > 0 && col > 0 && *self.directions.get(row, col) == DiffOperation::Insert
                invariant
                    self.wf(),
                    d == grid_directions(self.directions),
                    row < self.mtx.r_cnt,
                    col < self.mtx.c_cnt,
                    row == r3,
                    col + op_count == c3,
                    op_count + run(d, row as int, col as int, DiffOperation::Insert) == run(
                        d,
                        r3 as int,
                        c3 as int,
                        DiffOperation::Insert,
                    ),
                    op == if op_count > 0 {
                        DiffOperation::Insert
                    } else {
                        DiffOperation::Unchanged
                    },
                decreases row + col,
            {
                col = col - 1;
                op_count = op_count + 1;
                op = DiffOperation::Insert;
            }

            if op != DiffOperation::Unchanged {
                proof {
                    lemma_walk_emits(whole, v@, d, r3 as int, c3 as int, op, op_count as int);
                }
                v.push(DiffCell { start: row, count: op_count, operation: op });
            }
        }
        proof {
            lemma_walk_ends(whole, v@, d, row as int, col as int);
        }
    }
}

} // verus!
