//! A dense, row-major grid whose logical size can shrink and grow inside the
//! storage it was allocated with.

use vstd::prelude::*;

verus! {

/// A grid of `r_cnt` by `c_cnt` cells laid out row by row in a flat buffer of
/// `r_tot_cnt * c_tot_cnt` cells.
///
/// The logical size (`r_cnt`, `c_cnt`) never exceeds the allocated size
/// (`r_tot_cnt`, `c_tot_cnt`). Rows are packed at the logical width, so the
/// cell `(i, j)` is the flat cell `i * c_cnt + j`.
pub struct Matrix<T> {
    pub r_cnt: usize,
    pub c_cnt: usize,
    pub r_tot_cnt: usize,
    pub c_tot_cnt: usize,
    pub data: Vec<T>,
}

/// Bound used to place a logical cell inside the allocated buffer.
pub proof fn lemma_cell_in_storage(i: int, j: int, rows: int, cols: int, row_cap: int, col_cap: int)
    requires
        0 <= i < rows <= row_cap,
        0 <= j < cols <= col_cap,
    ensures
        0 <= i * cols <= i * cols + j < rows * cols <= row_cap * col_cap,
{
    assert(0 <= i * cols) by (nonlinear_arith)
        requires
            0 <= i,
            0 <= cols,
    ;
    assert(i * cols + j < rows * cols) by (nonlinear_arith)
        requires
            0 <= i < rows,
            0 <= j < cols,
    ;
    assert(0 <= i * cols + j) by (nonlinear_arith)
        requires
            0 <= i,
            0 <= j,
            0 <= cols,
    ;
    assert(rows * cols <= row_cap * col_cap) by (nonlinear_arith)
        requires
            0 <= rows <= row_cap,
            0 <= cols <= col_cap,
    ;
}

/// The logical area is no larger than the allocated area.
pub proof fn lemma_logical_area_fits(rows: int, cols: int, row_cap: int, col_cap: int)
    requires
        0 <= rows <= row_cap,
        0 <= cols <= col_cap,
    ensures
        0 <= rows * cols <= row_cap * col_cap,
{
    assert(0 <= rows * cols <= row_cap * col_cap) by (nonlinear_arith)
        requires
            0 <= rows <= row_cap,
            0 <= cols <= col_cap,
    ;
}

/// Two logical cells share a flat position only when they are the same cell.
pub proof fn lemma_cell_position_unique(i1: int, j1: int, i2: int, j2: int, cols: int)
    requires
        0 <= i1,
        0 <= i2,
        0 <= j1 < cols,
        0 <= j2 < cols,
        i1 * cols + j1 == i2 * cols + j2,
    ensures
        i1 == i2,
        j1 == j2,
{
    if i1 < i2 {
        assert(i1 * cols + cols <= i2 * cols) by (nonlinear_arith)
            requires
                i1 + 1 <= i2,
                0 <= cols,
        ;
    } else if i2 < i1 {
        assert(i2 * cols + cols <= i1 * cols) by (nonlinear_arith)
            requires
                i2 + 1 <= i1,
                0 <= cols,
        ;
    }
}

impl<T> Matrix<T> {
    /// The flat buffer, allocated cells included.
    pub open spec fn cells(&self) -> Seq<T> {
        self.data@
    }

    /// The logical size fits the allocated size, and the buffer holds exactly
    /// the allocated cells.
    pub open spec fn wf(&self) -> bool {
        &&& self.r_cnt <= self.r_tot_cnt
        &&& self.c_cnt <= self.c_tot_cnt
        &&& self.cells().len() == self.r_tot_cnt * self.c_tot_cnt
    }

    /// The value of the logical cell in row `i`, column `j`.
    pub open spec fn at(&self, i: int, j: int) -> T {
        self.cells()[i * self.c_cnt + j]
    }

    /// Allocates a grid of exactly `row_count` by `col_count` cells, each
    /// holding a default value, with the logical size equal to the allocated
    /// size.
    pub fn new(row_count: usize, col_count: usize) -> (m: Matrix<T>) where T: Default
        requires
            row_count * col_count <= usize::MAX,
        ensures
            m.wf(),
            m.r_cnt == row_count,
            m.c_cnt == col_count,
            m.r_tot_cnt == row_count,
            m.c_tot_cnt == col_count,
            forall|k: int|
                0 <= k < row_count * col_count ==> call_ensures(
                    T::default,
                    (),
                    #[trigger] m.cells()[k],
                ),
    {
        let size: usize = row_count * col_count;
        let mut data: Vec<T> = Vec::with_capacity(size);
        let mut k: usize = 0;
        while k < size
            invariant
                k <= size,
                data@.len() == k,
                forall|n: int| 0 <= n < k ==> call_ensures(T::default, (), #[trigger] data@[n]),
            decreases size - k,
        {
            data.push(T::default());
            k = k + 1;
        }
        Matrix {
            r_cnt: row_count,
            c_cnt: col_count,
            r_tot_cnt: row_count,
            c_tot_cnt: col_count,
            data,
        }
    }

    /// Changes the logical size and leaves the buffer alone: the cell
    /// `(i, j)` is afterwards the flat cell `i * ccnt + j`.
    #[inline]
    pub fn set_size(&mut self, rcnt: usize, ccnt: usize)
        requires
            old(self).wf(),
            rcnt <= old(self).r_tot_cnt,
            ccnt <= old(self).c_tot_cnt,
        ensures
            final(self).wf(),
            final(self).r_cnt == rcnt,
            final(self).c_cnt == ccnt,
            final(self).r_tot_cnt == old(self).r_tot_cnt,
            final(self).c_tot_cnt == old(self).c_tot_cnt,
            final(self).cells() == old(self).cells(),
    {
        self.r_cnt = rcnt;
        self.c_cnt = ccnt;
    }

    /// Overwrites every logical cell with a clone of `val`; allocated cells
    /// beyond the logical size keep their values.
    pub fn fill_with_val(&mut self, val: T) where T: Clone
        requires
            old(self).wf(),
        ensures
            final(self).wf(),
            final(self).r_cnt == old(self).r_cnt,
            final(self).c_cnt == old(self).c_cnt,
            final(self).r_tot_cnt == old(self).r_tot_cnt,
            final(self).c_tot_cnt == old(self).c_tot_cnt,
            forall|i: int, j: int|
                0 <= i < old(self).r_cnt && 0 <= j < old(self).c_cnt ==> cloned(
                    val,
                    #[trigger] final(self).at(i, j),
                ),
            forall|k: int|
                old(self).r_cnt * old(self).c_cnt <= k < old(self).cells().len()
                    ==> final(self).cells()[k] == old(self).cells()[k],
    {
        proof {
            assert(self.data@.len() == self.data.len());
            lemma_logical_area_fits(
                self.r_cnt as int,
                self.c_cnt as int,
                self.r_tot_cnt as int,
                self.c_tot_cnt as int,
            );
        }
        let size: usize = self.r_cnt * self.c_cnt;
        let mut k: usize = 0;
        while k < size
            invariant
                k <= size,
                size == self.r_cnt * self.c_cnt,
                size <= self.data@.len(),
                self.data@.len() == old(self).data@.len(),
                self.r_cnt == old(self).r_cnt,
                self.c_cnt == old(self).c_cnt,
                self.r_tot_cnt == old(self).r_tot_cnt,
                self.c_tot_cnt == old(self).c_tot_cnt,
                forall|n: int| 0 <= n < k ==> cloned(val, #[trigger] self.data@[n]),
                forall|n: int| k <= n < self.data@.len() ==> self.data@[n] == old(self).data@[n],
            decreases size - k,
        {
            self.data.set(k, val.clone());
            k = k + 1;
        }
        proof {
            assert forall|i: int, j: int|
                0 <= i < self.r_cnt && 0 <= j < self.c_cnt implies cloned(
                val,
                #[trigger] self.at(i, j),
            ) by {
                lemma_cell_in_storage(
                    i,
                    j,
                    self.r_cnt as int,
                    self.c_cnt as int,
                    self.r_tot_cnt as int,
                    self.c_tot_cnt as int,
                );
            }
        }
    }

    /// Reads the logical cell in row `i`, column `j`.
    pub fn get(&self, i: usize, j: usize) -> (cell: &T)
        requires
            self.wf(),
            i < self.r_cnt,
            j < self.c_cnt,
        ensures
            *cell == self.at(i as int, j as int),
    {
        proof {
            assert(self.data@.len() == self.data.len());
            lemma_cell_in_storage(
                i as int,
                j as int,
                self.r_cnt as int,
                self.c_cnt as int,
                self.r_tot_cnt as int,
                self.c_tot_cnt as int,
            );
        }
        &self.data[i * self.c_cnt + j]
    }

    /// Writes `val` to the logical cell in row `i`, column `j`; every other
    /// cell keeps its value.
    pub fn set(&mut self, i: usize, j: usize, val: T)
        requires
            old(self).wf(),
            i < old(self).r_cnt,
            j < old(self).c_cnt,
        ensures
            final(self).wf(),
            final(self).r_cnt == old(self).r_cnt,
            final(self).c_cnt == old(self).c_cnt,
            final(self).r_tot_cnt == old(self).r_tot_cnt,
            final(self).c_tot_cnt == old(self).c_tot_cnt,
            final(self).cells() == old(self).cells().update(i * old(self).c_cnt + j, val),
            final(self).at(i as int, j as int) == val,
            forall|r: int, c: int|
                0 <= r < old(self).r_cnt && 0 <= c < old(self).c_cnt && (r != i || c != j)
                    ==> #[trigger] final(self).at(r, c) == old(self).at(r, c),
    {
        proof {
            assert(self.data@.len() == self.data.len());
            lemma_cell_in_storage(
                i as int,
                j as int,
                self.r_cnt as int,
                self.c_cnt as int,
                self.r_tot_cnt as int,
                self.c_tot_cnt as int,
            );
        }
        let pos: usize = i * self.c_cnt + j;
        self.data.set(pos, val);
        proof {
            assert forall|r: int, c: int|
                0 <= r < self.r_cnt && 0 <= c < self.c_cnt && (r != i || c != j) implies #[trigger] self.at(
                r,
                c,
            ) == old(self).at(r, c) by {
                lemma_cell_in_storage(
                    r,
                    c,
                    self.r_cnt as int,
                    self.c_cnt as int,
                    self.r_tot_cnt as int,
                    self.c_tot_cnt as int,
                );
                if r * self.c_cnt + c == i * self.c_cnt + j {
                    lemma_cell_position_unique(r, c, i as int, j as int, self.c_cnt as int);
                }
            }
        }
    }
}

} // verus!
