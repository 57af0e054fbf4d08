//! A dense 2-D matrix of 32-bit integers with verified construction,
//! element access, arithmetic operators, transpose and identity
//! generation. Every contract speaks over the row-major model in
//! [`crate::model`].

use vstd::prelude::*;

use crate::model::{lemma_idx_bound, lemma_idx_order, lemma_idx_div_mod, lemma_pos_to_coords, MatView};

verus! {

/// Error reported by the arithmetic operators when the operand shapes
/// do not agree: it carries the receiver's shape and the other
/// operand's shape, both as `(rows, cols)`.
#[derive(Debug, PartialEq, Eq)]
pub enum DimensionError {
    DimensionMismatch { expected: (usize, usize), got: (usize, usize) },
}

/// Does a mathematical integer fit into this matrix's element type?
pub open spec fn fits_i32(x: int) -> bool {
    i32::MIN <= x <= i32::MAX
}

/// A 2-dimensional matrix of integers with size `(rows, columns)`,
/// stored densely in row-major order.
pub struct Matrix {
    rows: usize,
    cols: usize,
    data: Vec<i32>,
}

impl View for Matrix {
    type V = MatView;

    closed spec fn view(&self) -> MatView {
        MatView {
            rows: self.rows as int,
            cols: self.cols as int,
            data: Seq::new(self.data@.len(), |k: int| self.data@[k] as int),
        }
    }
}

impl Matrix {
    /// Builds a zero-filled `rows x columns` matrix, or `None` when a
    /// dimension is not positive.
    fn matrix(rows: usize, columns: usize) -> (r: Option<Matrix>)
        requires
            rows * columns <= usize::MAX,
        ensures
            match r {
                Some(m) => {
                    &&& rows >= 1 && columns >= 1
                    &&& m@.wf()
                    &&& m@.rows == rows
                    &&& m@.cols == columns
                    &&& forall|i: int, j: int| m@.in_bounds(i, j) ==> m@.entry(i, j) == 0
                    &&& forall|k: int| 0 <= k < m@.data.len() ==> m@.data[k] == 0
                },
                None => rows < 1 || columns < 1,
            },
    {
        if rows < 1 || columns < 1 {
            return None;
        }

        let n: usize = rows * columns;
        let mut mat: Vec<i32> = Vec::new();
        let mut k: usize = 0;
        while k < n
            invariant
                k <= n,
                mat@.len() == k,
                forall|t: int| 0 <= t < k ==> mat@[t] == 0,
            decreases n - k,
        {
            mat.push(0);
            k = k + 1;
        }

        let m = Matrix { rows, cols: columns, data: mat };
        proof {
            assert forall|i: int, j: int| m@.in_bounds(i, j) implies m@.entry(i, j) == 0 by {
                lemma_idx_bound(i, j, rows as int, columns as int);
            }
        }
        Some(m)
    }

    /// Creates a new `row x column` integer matrix with all values
    /// initialized to zero. Non-positive dimensions are a precondition
    /// violation, not a runtime condition.
    pub fn new(rows: usize, columns: usize) -> (m: Matrix)
        requires
            rows >= 1,
            columns >= 1,
            rows * columns <= usize::MAX,
        ensures
            m@.wf(),
            m@.rows == rows,
            m@.cols == columns,
            forall|i: int, j: int| m@.in_bounds(i, j) ==> m@.entry(i, j) == 0,
            forall|k: int| 0 <= k < m@.data.len() ==> m@.data[k] == 0,
    {
        Self::matrix(rows, columns).unwrap()
    }

    /// Wraps a pre-built row-major sequence of elements; the caller
    /// asserts that its length is exactly `rows * cols`.
    pub fn from_1d_vec(matrix: Vec<i32>, rows: usize, cols: usize) -> (m: Matrix)
        requires
            rows >= 1,
            cols >= 1,
            matrix@.len() == rows * cols,
        ensures
            m@.wf(),
            m@.rows == rows,
            m@.cols == cols,
            forall|k: int| 0 <= k < matrix@.len() ==> m@.data[k] == matrix@[k],
    {
        Matrix { rows, cols, data: matrix }
    }

    /// The shape of the matrix as `(rows, columns)`.
    pub fn size(&self) -> (s: (usize, usize))
        ensures
            s.0 == self@.rows,
            s.1 == self@.cols,
    {
        (self.rows, self.cols)
    }

    /// Row-major position of element `(i, j)` inside the storage.
    fn offset(&self, i: usize, j: usize) -> (r: usize)
        requires
            self@.wf(),
            self@.in_bounds(i as int, j as int),
        ensures
            r == j + i * self@.cols,
            r < self@.data.len(),
    {
        proof {
            lemma_idx_bound(i as int, j as int, self@.rows, self@.cols);
        }
        let n: usize = self.data.len();
        assert(j + i * self.cols < n);
        j + i * self.cols
    }

    /// Element `(i, j)`; the indices must be in bounds.
    pub fn get(&self, i: usize, j: usize) -> (v: i32)
        requires
            self@.wf(),
            self@.in_bounds(i as int, j as int),
        ensures
            v == self@.entry(i as int, j as int),
    {
        let idx: usize = self.offset(i, j);
        self.data[idx]
    }

    /// Overwrites element `(i, j)` in place; every other element and
    /// the shape stay as they were.
    pub fn set(&mut self, i: usize, j: usize, value: i32)
        requires
            old(self)@.wf(),
            old(self)@.in_bounds(i as int, j as int),
        ensures
            final(self)@.wf(),
            final(self)@.rows == old(self)@.rows,
            final(self)@.cols == old(self)@.cols,
            final(self)@.entry(i as int, j as int) == value,
            forall|i2: int, j2: int|
                final(self)@.in_bounds(i2, j2) && (i2 != i || j2 != j)
                    ==> final(self)@.entry(i2, j2) == old(self)@.entry(i2, j2),
    {
        let idx: usize = self.offset(i, j);
        self.data.set(idx, value);
        proof {
            assert forall|i2: int, j2: int|
                final(self)@.in_bounds(i2, j2) && (i2 != i || j2 != j)
                    implies final(self)@.entry(i2, j2) == old(self)@.entry(i2, j2) by {
                lemma_idx_bound(i2, j2, self@.rows, self@.cols);
                if i2 < i || (i2 == i && j2 < j) {
                    lemma_idx_order(i2, j2, i as int, j as int, self@.cols);
                } else {
                    lemma_idx_order(i as int, j as int, i2, j2, self@.cols);
                }
            }
        }
    }

    /// The transpose: a new `cols x rows` matrix with
    /// `entry(i, j) == self.entry(j, i)`; the receiver is unchanged.
    #[verifier::loop_isolation(false)]
    pub fn transpose(&self) -> (r: Matrix)
        requires
            self@.wf(),
        ensures
            r@.wf(),
            r@ == self@.transpose(),
            r@.rows == self@.cols,
            r@.cols == self@.rows,
            forall|i: int, j: int| r@.in_bounds(i, j) ==> r@.entry(i, j) == self@.entry(j, i),
    {
        let rows: usize = self.rows;
        let cols: usize = self.cols;
        let mut trans: Vec<i32> = Vec::new();
        let mut i: usize = 0;
        while i < cols
            invariant
                i <= cols,
                trans@.len() == i * rows,
                forall|t: int| 0 <= t < trans@.len()
                    ==> trans@[t] == self@.entry(t % (rows as int), t / (rows as int)),
            decreases cols - i,
        {
            let mut j: usize = 0;
            while j < rows
                invariant
                    i < cols,
                    j <= rows,
                    trans@.len() == i * rows + j,
                    forall|t: int| 0 <= t < trans@.len()
                        ==> trans@[t] == self@.entry(t % (rows as int), t / (rows as int)),
                decreases rows - j,
            {
                let idx: usize = self.offset(j, i);
                trans.push(self.data[idx]);
                proof {
                    lemma_idx_div_mod(i as int, j as int, rows as int);
                    assert(self.data@[idx as int] as int == self@.entry(j as int, i as int));
                }
                j = j + 1;
            }
            proof {
                assert((i + 1) * (rows as int) == i * (rows as int) + rows) by (nonlinear_arith);
            }
            i = i + 1;
        }
        let m = Matrix { rows: cols, cols: rows, data: trans };
        proof {
            assert((cols as int) * (rows as int) == (rows as int) * (cols as int)) by (nonlinear_arith);
            assert(m@.data =~= self@.transpose().data);
            assert(m@ =~= self@.transpose());
            assert forall|i2: int, j2: int| m@.in_bounds(i2, j2)
                implies m@.entry(i2, j2) == self@.entry(j2, i2) by {
                lemma_idx_bound(i2, j2, cols as int, rows as int);
                lemma_idx_div_mod(i2, j2, rows as int);
            }
        }
        m
    }

    /// Shorthand for [`Matrix::transpose`].
    pub fn t(&self) -> (r: Matrix)
        requires
            self@.wf(),
        ensures
            r@.wf(),
            r@ == self@.transpose(),
    {
        self.transpose()
    }

    /// Elementwise sum. Both operands are consumed; defined exactly
    /// when the shapes agree, and otherwise reports the two shapes in
    /// a [`DimensionError`].
    #[verifier::loop_isolation(false)]
    pub fn add(self, other: Matrix) -> (r: Result<Matrix, DimensionError>)
        requires
            self@.wf(),
            other@.wf(),
            self@.same_shape(other@) ==> forall|k: int|
                0 <= k < self@.data.len() ==> fits_i32(self@.data[k] + other@.data[k]),
        ensures
            match r {
                Ok(m) => {
                    &&& self@.same_shape(other@)
                    &&& m@.wf()
                    &&& m@ == self@.add(other@)
                },
                Err(e) => {
                    &&& !self@.same_shape(other@)
                    &&& e matches DimensionError::DimensionMismatch { expected, got }
                        && expected.0 == self@.rows && expected.1 == self@.cols
                        && got.0 == other@.rows && got.1 == other@.cols
                },
            },
    {
        if self.rows != other.rows || self.cols != other.cols {
            return Err(DimensionError::DimensionMismatch {
                expected: (self.rows, self.cols),
                got: (other.rows, other.cols),
            });
        }

        let rows: usize = self.rows;
        let cols: usize = self.cols;
        let mut matrix_vec: Vec<i32> = Vec::new();
        let mut i: usize = 0;
        while i < rows
            invariant
                i <= rows,
                matrix_vec@.len() == i * cols,
                forall|t: int| 0 <= t < matrix_vec@.len()
                    ==> matrix_vec@[t] == self@.data[t] + other@.data[t],
            decreases rows - i,
        {
            let mut j: usize = 0;
            while j < cols
                invariant
                    i < rows,
                    j <= cols,
                    matrix_vec@.len() == i * cols + j,
                    forall|t: int| 0 <= t < matrix_vec@.len()
                        ==> matrix_vec@[t] == self@.data[t] + other@.data[t],
                decreases cols - j,
            {
                let idx: usize = self.offset(i, j);
                proof {
                    assert(fits_i32(self@.data[idx as int] + other@.data[idx as int]));
                }
                let current_num: i32 = self.data[idx] + other.data[idx];
                matrix_vec.push(current_num);
                j = j + 1;
            }
            proof {
                assert((i + 1) * (cols as int) == i * (cols as int) + cols) by (nonlinear_arith);
            }
            i = i + 1;
        }

        let m = Matrix { rows, cols, data: matrix_vec };
        proof {
            assert(m@.data =~= self@.add(other@).data);
            assert(m@ =~= self@.add(other@));
        }
        Ok(m)
    }

    /// Elementwise difference, under the same shape rule as
    /// [`Matrix::add`].
    #[verifier::loop_isolation(false)]
    pub fn sub(self, other: Matrix) -> (r: Result<Matrix, DimensionError>)
        requires
            self@.wf(),
            other@.wf(),
            self@.same_shape(other@) ==> forall|k: int|
                0 <= k < self@.data.len() ==> fits_i32(self@.data[k] - other@.data[k]),
        ensures
            match r {
                Ok(m) => {
                    &&& self@.same_shape(other@)
                    &&& m@.wf()
                    &&& m@ == self@.sub(other@)
                },
                Err(e) => {
                    &&& !self@.same_shape(other@)
                    &&& e matches DimensionError::DimensionMismatch { expected, got }
                        && expected.0 == self@.rows && expected.1 == self@.cols
                        && got.0 == other@.rows && got.1 == other@.cols
                },
            },
    {
        if self.rows != other.rows || self.cols != other.cols {
            return Err(DimensionError::DimensionMismatch {
                expected: (self.rows, self.cols),
                got: (other.rows, other.cols),
            });
        }

        let rows: usize = self.rows;
        let cols: usize = self.cols;
        let mut matrix_vec: Vec<i32> = Vec::new();
        let mut i: usize = 0;
        while i < rows
            invariant
                i <= rows,
                matrix_vec@.len() == i * cols,
                forall|t: int| 0 <= t < matrix_vec@.len()
                    ==> matrix_vec@[t] == self@.data[t] - other@.data[t],
            decreases rows - i,
        {
            let mut j: usize = 0;
            while j < cols
                invariant
                    i < rows,
                    j <= cols,
                    matrix_vec@.len() == i * cols + j,
                    forall|t: int| 0 <= t < matrix_vec@.len()
                        ==> matrix_vec@[t] == self@.data[t] - other@.data[t],
                decreases cols - j,
            {
                let idx: usize = self.offset(i, j);
                proof {
                    assert(fits_i32(self@.data[idx as int] - other@.data[idx as int]));
                }
                let current_num: i32 = self.data[idx] - other.data[idx];
                matrix_vec.push(current_num);
                j = j + 1;
            }
            proof {
                assert((i + 1) * (cols as int) == i * (cols as int) + cols) by (nonlinear_arith);
            }
            i = i + 1;
        }

        let m = Matrix { rows, cols, data: matrix_vec };
        proof {
            assert(m@.data =~= self@.sub(other@).data);
            assert(m@ =~= self@.sub(other@));
        }
        Ok(m)
    }

    /// Matrix product. Defined exactly when the inner dimensions
    /// agree (`self.cols == other.rows`); the result is
    /// `self.rows x other.cols` and entry `(i, j)` is the inner
    /// product of row `i` of `self` with column `j` of `other`,
    /// accumulated left to right from zero.
    #[verifier::loop_isolation(false)]
    pub fn mul(self, other: Matrix) -> (r: Result<Matrix, DimensionError>)
        requires
            self@.wf(),
            other@.wf(),
            self@.cols == other@.rows ==> forall|i: int, j: int, k: int|
                0 <= i < self@.rows && 0 <= j < other@.cols && 0 <= k < self@.cols
                    ==> fits_i32(self@.entry(i, k) * other@.entry(k, j)),
            self@.cols == other@.rows ==> forall|i: int, j: int, k: int|
                0 <= i < self@.rows && 0 <= j < other@.cols && 0 <= k <= self@.cols
                    ==> fits_i32(#[trigger] self@.dot_prefix(other@, i, j, k)),
        ensures
            match r {
                Ok(m) => {
                    &&& self@.cols == other@.rows
                    &&& m@.wf()
                    &&& m@ == self@.mul(other@)
                    &&& m@.rows == self@.rows
                    &&& m@.cols == other@.cols
                },
                Err(e) => {
                    &&& self@.cols != other@.rows
                    &&& e matches DimensionError::DimensionMismatch { expected, got }
                        && expected.0 == self@.rows && expected.1 == self@.cols
                        && got.0 == other@.rows && got.1 == other@.cols
                },
            },
    {
        if self.cols != other.rows {
            return Err(DimensionError::DimensionMismatch {
                expected: (self.rows, self.cols),
                got: (other.rows, other.cols),
            });
        }

        let rows: usize = self.rows;
        let cols: usize = self.cols;
        let bcols: usize = other.cols;
        let mut matrix_vec: Vec<i32> = Vec::new();
        let mut i: usize = 0;
        while i < rows
            invariant
                i <= rows,
                matrix_vec@.len() == i * bcols,
                forall|t: int| 0 <= t < matrix_vec@.len()
                    ==> matrix_vec@[t] == self@.prod_entry(other@, t / (bcols as int), t % (bcols as int)),
            decreases rows - i,
        {
            let mut j: usize = 0;
            while j < bcols
                invariant
                    i < rows,
                    j <= bcols,
                    matrix_vec@.len() == i * bcols + j,
                    forall|t: int| 0 <= t < matrix_vec@.len()
                        ==> matrix_vec@[t] == self@.prod_entry(other@, t / (bcols as int), t % (bcols as int)),
                decreases bcols - j,
            {
                let mut sum: i32 = 0;
                let mut k: usize = 0;
                while k < cols
                    invariant
                        i < rows,
                        j < bcols,
                        k <= cols,
                        sum == self@.dot_prefix(other@, i as int, j as int, k as int),
                    decreases cols - k,
                {
                    let ia: usize = self.offset(i, k);
                    let ib: usize = other.offset(k, j);
                    proof {
                        assert(self.data@[ia as int] as int == self@.entry(i as int, k as int));
                        assert(other.data@[ib as int] as int == other@.entry(k as int, j as int));
                        assert(fits_i32(self@.entry(i as int, k as int) * other@.entry(k as int, j as int)));
                        assert(self@.dot_prefix(other@, i as int, j as int, k + 1)
                            == self@.dot_prefix(other@, i as int, j as int, k as int)
                                + self@.entry(i as int, k as int) * other@.entry(k as int, j as int));
                        assert(fits_i32(self@.dot_prefix(other@, i as int, j as int, k + 1)));
                    }
                    let current_num: i32 = self.data[ia] * other.data[ib];
                    sum = sum + current_num;
                    k = k + 1;
                }
                matrix_vec.push(sum);
                proof {
                    lemma_idx_div_mod(i as int, j as int, bcols as int);
                }
                j = j + 1;
            }
            proof {
                assert((i + 1) * (bcols as int) == i * (bcols as int) + bcols) by (nonlinear_arith);
            }
            i = i + 1;
        }

        let m = Matrix { rows, cols: bcols, data: matrix_vec };
        proof {
            assert(m@.data =~= self@.mul(other@).data);
            assert(m@ =~= self@.mul(other@));
        }
        Ok(m)
    }

    /// The `size x size` identity matrix: the multiplicative identity
    /// on the main diagonal, zeros elsewhere.
    #[verifier::loop_isolation(false)]
    pub fn identity(size: usize) -> (m: Matrix)
        requires
            size >= 1,
            size * size <= usize::MAX,
        ensures
            m@.wf(),
            m@ == MatView::identity(size as int),
    {
        let mut identity: Matrix = Matrix::new(size, size);
        let mut i: usize = 0;
        while i < size
            invariant
                i <= size,
                identity@.wf(),
                identity@.rows == size,
                identity@.cols == size,
                forall|i2: int, j2: int| identity@.in_bounds(i2, j2)
                    ==> identity@.entry(i2, j2) == (if i2 == j2 && i2 < i { 1int } else { 0int }),
            decreases size - i,
        {
            identity.set(i, i, 1);
            i = i + 1;
        }
        proof {
            assert forall|t: int| 0 <= t < size * size
                implies identity@.data[t] == MatView::identity(size as int).data[t] by {
                lemma_pos_to_coords(t, size as int, size as int);
                let i2: int = t / (size as int);
                let j2: int = t % (size as int);
                assert(identity@.in_bounds(i2, j2));
                assert(identity@.entry(i2, j2) == (if i2 == j2 && i2 < size { 1int } else { 0int }));
            }
            assert(identity@.data =~= MatView::identity(size as int).data);
            assert(identity@ =~= MatView::identity(size as int));
        }
        identity
    }

    /// Row reduction divides by pivot elements, which the integer
    /// domain cannot do: the routine returns an unchanged copy of the
    /// receiver.
    #[verifier::loop_isolation(false)]
    pub fn rref(&self) -> (r: Matrix)
        requires
            self@.wf(),
        ensures
            r@.wf(),
            r@ == self@,
    {
        let n: usize = self.data.len();
        let mut rref: Vec<i32> = Vec::new();
        let mut k: usize = 0;
        while k < n
            invariant
                k <= n,
                rref@.len() == k,
                forall|t: int| 0 <= t < k ==> rref@[t] == self.data@[t],
            decreases n - k,
        {
            rref.push(self.data[k]);
            k = k + 1;
        }
        let m = Matrix { rows: self.rows, cols: self.cols, data: rref };
        proof {
            assert(m@.data =~= self@.data);
            assert(m@ =~= self@);
        }
        m
    }

    /// Creates an iterator over the elements, in row-major order.
    pub fn iter<'a>(&'a self) -> (it: MatrixIterator<'a>)
        requires
            self@.wf(),
        ensures
            it.inv(),
            it.matrix() == self@,
            it.pos() == 0,
    {
        MatrixIterator { inner: self, idx: 0 }
    }
}

/// Walks a borrowed [`Matrix`] element by element in row-major order.
pub struct MatrixIterator<'a> {
    inner: &'a Matrix,
    idx: usize,
}

impl<'a> MatrixIterator<'a> {
    /// Model of the matrix being walked.
    pub closed spec fn matrix(self) -> MatView {
        self.inner@
    }

    /// Position of the next element to hand out.
    pub closed spec fn pos(self) -> int {
        self.idx as int
    }

    /// The iterator walks a well-formed matrix and has not run past
    /// its end.
    pub closed spec fn inv(self) -> bool {
        self.inner@.wf() && self.idx <= self.inner@.data.len()
    }

    /// The next element in row-major order, or `None` once every
    /// element has been handed out.
    pub fn next(&mut self) -> (r: Option<i32>)
        requires
            old(self).inv(),
        ensures
            final(self).inv(),
            final(self).matrix() == old(self).matrix(),
            match r {
                Some(v) => {
                    &&& old(self).pos() < old(self).matrix().data.len()
                    &&& v == old(self).matrix().data[old(self).pos()]
                    &&& final(self).pos() == old(self).pos() + 1
                },
                None => {
                    &&& old(self).pos() == old(self).matrix().data.len()
                    &&& final(self).pos() == old(self).pos()
                },
            },
    {
        let total: usize = self.inner.data.len();
        if self.idx >= total {
            None
        } else {
            let val: i32 = self.inner.data[self.idx];
            self.idx = self.idx + 1;
            Some(val)
        }
    }
}

} // verus!
