//! A dense, row-major matrix of f64 bit patterns.
//!
//! The matrix is the shape every bulk input of the library takes: imputation
//! data, replicate weights and grouping columns.  Its view is the sequence of
//! its rows, each a sequence of bit patterns (see [`crate::bits`]).

use vstd::prelude::*;
use crate::bits::{spec_is_nan, is_nan_bits, ZERO_BITS};

verus! {

/// A matrix of f64 bit patterns with a fixed column count, stored by rows.
pub struct Matrix {
    rows: Vec<Vec<u64>>,
    ncols: usize,
}

impl View for Matrix {
    type V = Seq<Seq<u64>>;

    closed spec fn view(&self) -> Seq<Seq<u64>> {
        Seq::new(self.rows@.len(), |r: int| self.rows@[r]@)
    }
}

/// Whether one row holds a NaN entry anywhere.
pub open spec fn spec_row_has_nan(row: Seq<u64>) -> bool {
    exists|c: int| 0 <= c < row.len() && spec_is_nan(#[trigger] row[c])
}

/// A row of zero patterns of the given width.
pub open spec fn spec_zero_row(ncols: nat) -> Seq<u64> {
    Seq::new(ncols, |c: int| ZERO_BITS)
}

impl Matrix {
    /// The column count, as the contracts speak of it.
    pub closed spec fn spec_ncols(&self) -> nat {
        self.ncols as nat
    }

    /// Every row is exactly as wide as the column count says.
    pub open spec fn wf(&self) -> bool {
        forall|r: int| 0 <= r < self@.len() ==> (#[trigger] self@[r]).len() == self.spec_ncols()
    }

    /// The row count.
    pub fn nrows(&self) -> (n: usize)
        ensures
            n == self@.len(),
    {
        self.rows.len()
    }

    /// The column count.
    pub fn ncols(&self) -> (n: usize)
        ensures
            n == self.spec_ncols(),
    {
        self.ncols
    }

    /// The entry at row `r`, column `c`.
    pub fn get(&self, r: usize, c: usize) -> (b: u64)
        requires
            r < self@.len(),
            c < self@[r as int].len(),
        ensures
            b == self@[r as int][c as int],
    {
        self.rows[r][c]
    }

    /// A matrix of the given shape whose every entry encodes 0.0.
    pub fn zeros(nrows: usize, ncols: usize) -> (m: Matrix)
        ensures
            m.wf(),
            m@.len() == nrows,
            m.spec_ncols() == ncols,
            forall|r: int| 0 <= r < nrows ==> #[trigger] m@[r] == spec_zero_row(ncols as nat),
    {
        let mut rows: Vec<Vec<u64>> = Vec::new();
        for r in 0..nrows
            invariant
                rows@.len() == r,
                forall|i: int|
                    0 <= i < r ==> #[trigger] rows@[i]@ == spec_zero_row(ncols as nat),
        {
            let mut row: Vec<u64> = Vec::new();
            for c in 0..ncols
                invariant
                    row@.len() == c,
                    forall|j: int| 0 <= j < c ==> #[trigger] row@[j] == ZERO_BITS,
            {
                row.push(ZERO_BITS);
            }
            assert(row@ =~= spec_zero_row(ncols as nat));
            rows.push(row);
        }
        Matrix { rows, ncols }
    }

    /// The matrix whose rows are read off a flat value vector, row by row,
    /// as `nalgebra`'s row-slice constructor lays a matrix out.
    pub fn from_row_slice(nrows: usize, ncols: usize, values: &Vec<u64>) -> (m: Matrix)
        requires
            values@.len() == nrows * ncols,
        ensures
            m.wf(),
            m@.len() == nrows,
            m.spec_ncols() == ncols,
            forall|r: int, c: int|
                0 <= r < nrows && 0 <= c < ncols ==> #[trigger] m@[r][c] == values@[r * ncols + c],
    {
        let total = values.len();
        let mut rows: Vec<Vec<u64>> = Vec::new();
        for r in 0..nrows
            invariant
                total == values@.len(),
                values@.len() == nrows * ncols,
                rows@.len() == r,
                forall|i: int| 0 <= i < r ==> (#[trigger] rows@[i]@).len() == ncols,
                forall|i: int, j: int|
                    0 <= i < r && 0 <= j < ncols ==> #[trigger] rows@[i]@[j] == values@[i * ncols
                        + j],
        {
            assert(r * ncols + ncols <= nrows * ncols) by (nonlinear_arith)
                requires
                    r < nrows,
            ;
            let mut row: Vec<u64> = Vec::new();
            for c in 0..ncols
                invariant
                    total == values@.len(),
                    values@.len() == nrows * ncols,
                    r * ncols + ncols <= total,
                    row@.len() == c,
                    forall|j: int| 0 <= j < c ==> #[trigger] row@[j] == values@[r * ncols + j],
            {
                assert(r * ncols + c < total);
                let value = values[r * ncols + c];
                row.push(value);
            }
            rows.push(row);
        }
        Matrix { rows, ncols }
    }

    /// The matrix made of the given rows, which must all have the stated
    /// width.
    pub fn from_rows(rows: Vec<Vec<u64>>, ncols: usize) -> (m: Matrix)
        requires
            forall|i: int| 0 <= i < rows@.len() ==> (#[trigger] rows@[i]@).len() == ncols,
        ensures
            m.wf(),
            m.spec_ncols() == ncols,
            m@.len() == rows@.len(),
            forall|i: int| 0 <= i < rows@.len() ==> #[trigger] m@[i] == rows@[i]@,
    {
        Matrix { rows, ncols }
    }

    /// A copy of row `r`.
    pub fn row(&self, r: usize) -> (row: Vec<u64>)
        requires
            r < self@.len(),
        ensures
            row@ == self@[r as int],
    {
        let source = &self.rows[r];
        let mut row: Vec<u64> = Vec::new();
        let n = source.len();
        for c in 0..n
            invariant
                n == source@.len(),
                row@.len() == c,
                forall|j: int| 0 <= j < c ==> #[trigger] row@[j] == source@[j],
        {
            row.push(source[c]);
        }
        assert(row@ =~= self@[r as int]);
        row
    }

    /// Overwrite row `r` with zero patterns, leaving every other row as it
    /// was.
    pub fn zero_row(&mut self, r: usize)
        requires
            r < old(self)@.len(),
        ensures
            final(self)@ == old(self)@.update(r as int, spec_zero_row(old(self)@[r as int].len())),
            final(self).spec_ncols() == old(self).spec_ncols(),
    {
        let width = self.rows[r].len();
        let mut row: Vec<u64> = Vec::new();
        for c in 0..width
            invariant
                row@.len() == c,
                forall|j: int| 0 <= j < c ==> #[trigger] row@[j] == ZERO_BITS,
        {
            row.push(ZERO_BITS);
        }
        assert(row@ =~= spec_zero_row(old(self)@[r as int].len()));
        self.rows[r] = row;
        assert(self@ =~= old(self)@.update(r as int, spec_zero_row(old(self)@[r as int].len())));
    }

    /// Whether row `r` holds a NaN entry.
    pub fn row_has_nan(&self, r: usize) -> (has: bool)
        requires
            r < self@.len(),
        ensures
            has == spec_row_has_nan(self@[r as int]),
    {
        let source = &self.rows[r];
        let n = source.len();
        for c in 0..n
            invariant
                n == source@.len(),
                source@ == self@[r as int],
                forall|j: int| 0 <= j < c ==> !spec_is_nan(#[trigger] source@[j]),
        {
            if is_nan_bits(source[c]) {
                assert(spec_is_nan(self@[r as int][c as int]));
                return true;
            }
        }
        false
    }
}

impl Clone for Matrix {
    /// A clone carries the same rows and column count.
    fn clone(&self) -> (res: Self)
        ensures
            res@ == self@,
            res.spec_ncols() == self.spec_ncols(),
    {
        let mut rows: Vec<Vec<u64>> = Vec::new();
        let n = self.rows.len();
        for r in 0..n
            invariant
                n == self@.len(),
                rows@.len() == r,
                forall|i: int| 0 <= i < r ==> #[trigger] rows@[i]@ == self@[i],
        {
            rows.push(self.row(r));
        }
        let res = Matrix { rows, ncols: self.ncols };
        assert(res@ =~= self@);
        res
    }
}

} // verus!
