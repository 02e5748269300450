//! Dense row-major matrices of fixed-point values, owned in one buffer.

use vstd::prelude::*;
use vstd::pervasive::VecAdditionalExecFns;

verus! {

/// A rows x cols matrix stored row-major in a single owned buffer.
pub struct Matrix {
    pub rows: usize,
    pub cols: usize,
    pub data: Vec<i64>,
}

/// The flat index of entry (i, j) lies inside the buffer.
pub proof fn lemma_flat_index(i: int, j: int, rows: int, cols: int)
    requires
        0 <= i < rows,
        0 <= j < cols,
    ensures
        0 <= i * cols + j < rows * cols,
{
    assert(0 <= i * cols + j < rows * cols) by (nonlinear_arith)
        requires
            0 <= i < rows,
            0 <= j < cols,
    ;
}

/// Distinct entry positions have distinct flat indices.
pub proof fn lemma_flat_index_injective(i1: int, j1: int, i2: int, j2: int, cols: int)
    requires
        0 <= j1 < cols,
        0 <= j2 < cols,
        i1 >= 0,
        i2 >= 0,
        !(i1 == i2 && j1 == j2),
    ensures
        i1 * cols + j1 != i2 * cols + j2,
{
    assert(i1 * cols + j1 != i2 * cols + j2) by (nonlinear_arith)
        requires
            0 <= j1 < cols,
            0 <= j2 < cols,
            i1 >= 0,
            i2 >= 0,
            !(i1 == i2 && j1 == j2),
    ;
}

impl Matrix {
    /// The buffer covers exactly rows x cols entries.
    pub open spec fn wf(self) -> bool {
        self.data.len() == self.rows * self.cols
    }

    /// Entry at row i, column j, as a mathematical integer.
    pub open spec fn at(self, i: int, j: int) -> int
        recommends
            self.wf(),
            0 <= i < self.rows,
            0 <= j < self.cols,
    {
        self.data[i * (self.cols as int) + j] as int
    }

    /// Row i as a sequence of entry values.
    pub open spec fn row_s(self, i: int) -> Seq<int> {
        Seq::new(self.cols as nat, |j: int| self.at(i, j))
    }

    /// A matrix of zeroes.
    pub fn zero(rows: usize, cols: usize) -> (m: Matrix)
        requires
            rows * cols <= usize::MAX,
    ensures
            m.wf(),
            m.rows == rows,
            m.cols == cols,
            forall|i: int, j: int|
                0 <= i < rows && 0 <= j < cols ==> m.at(i, j) == 0,
    {
        proof {
            assert(rows as int * cols as int >= 0) by (nonlinear_arith)
                requires
                    rows as int >= 0,
                    cols as int >= 0,
            ;
        }
        let n: usize = rows * cols;
        let mut data: Vec<i64> = Vec::new();
        let mut k: usize = 0;
        while k < n
            invariant
                data.len() == k,
                k <= n,
                forall|t: int| 0 <= t < k ==> data[t] == 0,
            decreases n - k,
        {
            data.push(0);
            k = k + 1;
        }
        let m = Matrix { rows, cols, data };
        proof {
            assert forall|i: int, j: int|
                0 <= i < rows && 0 <= j < cols implies m.at(i, j) == 0 by {
                lemma_flat_index(i, j, rows as int, cols as int);
            }
        }
        m
    }

    /// Read entry (i, j).
    pub fn get(&self, i: usize, j: usize) -> (v: i64)
        requires
            self.wf(),
            i < self.rows,
            j < self.cols,
        ensures
            v as int == self.at(i as int, j as int),
    {
        proof {
            lemma_flat_index(i as int, j as int, self.rows as int, self.cols as int);
        }
        self.data[i * self.cols + j]
    }

    /// Write entry (i, j), leaving every other entry as it was.
    pub fn put(&mut self, i: usize, j: usize, v: i64)
        requires
            old(self).wf(),
            i < old(self).rows,
            j < old(self).cols,
        ensures
            final(self).wf(),
            final(self).rows == old(self).rows,
            final(self).cols == old(self).cols,
            final(self).at(i as int, j as int) == v as int,
            forall|r: int, c: int|
                0 <= r < final(self).rows && 0 <= c < final(self).cols && !(r == i && c == j)
                    ==> final(self).at(r, c) == old(self).at(r, c),
    {
        proof {
            lemma_flat_index(i as int, j as int, self.rows as int, self.cols as int);
        }
        let idx: usize = i * self.cols + j;
        self.data.set(idx, v);
        proof {
            assert forall|r: int, c: int|
                0 <= r < self.rows && 0 <= c < self.cols && !(r == i && c == j)
                    implies self.at(r, c) == old(self).at(r, c) by {
                lemma_flat_index(r, c, self.rows as int, self.cols as int);
                lemma_flat_index_injective(r, c, i as int, j as int, self.cols as int);
            }
        }
    }

    /// Copy row i out as an owned vector.
    pub fn row(&self, i: usize) -> (r: Vec<i64>)
        requires
            self.wf(),
            i < self.rows,
        ensures
            r.len() == self.cols,
            forall|j: int| 0 <= j < self.cols ==> r[j] as int == self.at(i as int, j),
            r@.map_values(|v: i64| v as int) == self.row_s(i as int),
    {
        let mut r: Vec<i64> = Vec::new();
        let mut j: usize = 0;
        while j < self.cols
            invariant
                self.wf(),
                i < self.rows,
                j <= self.cols,
                r.len() == j,
                forall|t: int| 0 <= t < j ==> r[t] as int == self.at(i as int, t),
            decreases self.cols - j,
        {
            let v = self.get(i, j);
            r.push(v);
            j = j + 1;
        }
        proof {
            assert(r@.map_values(|v: i64| v as int) =~= self.row_s(i as int));
        }
        r
    }
}

} // verus!
