//! Mathematical model of a dense row-major matrix: a sequence of
//! unbounded integers together with its row and column counts.
//! The executable matrix types state their contracts over this model,
//! and the algebraic laws of the library are proved here once, for
//! every element width at the same time.

use vstd::prelude::*;

verus! {

/// The model of a matrix: `data` holds the elements in row-major
/// order, so element `(i, j)` lives at index `j + i * cols`.
#[verifier::ext_equal]
pub struct MatView {
    pub rows: int,
    pub cols: int,
    pub data: Seq<int>,
}

impl MatView {
    /// A matrix always has at least one row and one column, and its
    /// storage holds exactly `rows * cols` elements.
    pub open spec fn wf(self) -> bool {
        &&& self.rows >= 1
        &&& self.cols >= 1
        &&& self.data.len() == self.rows * self.cols
    }

    /// Row-major position of element `(i, j)`.
    pub open spec fn idx(self, i: int, j: int) -> int {
        j + i * self.cols
    }

    /// Element `(i, j)`.
    pub open spec fn entry(self, i: int, j: int) -> int {
        self.data[self.idx(i, j)]
    }

    /// True of positions inside the matrix.
    pub open spec fn in_bounds(self, i: int, j: int) -> bool {
        0 <= i < self.rows && 0 <= j < self.cols
    }

    /// Both operands of an elementwise operation have this shape.
    pub open spec fn same_shape(self, other: MatView) -> bool {
        self.rows == other.rows && self.cols == other.cols
    }

    /// The transpose: a `cols x rows` matrix with `entry(i, j) == self.entry(j, i)`.
    pub open spec fn transpose(self) -> MatView {
        MatView {
            rows: self.cols,
            cols: self.rows,
            data: Seq::new((self.rows * self.cols) as nat, |k: int| self.entry(k % self.rows, k / self.rows)),
        }
    }

    /// Elementwise sum.
    pub open spec fn add(self, other: MatView) -> MatView {
        MatView {
            rows: self.rows,
            cols: self.cols,
            data: Seq::new(self.data.len(), |k: int| self.data[k] + other.data[k]),
        }
    }

    /// Elementwise difference.
    pub open spec fn sub(self, other: MatView) -> MatView {
        MatView {
            rows: self.rows,
            cols: self.cols,
            data: Seq::new(self.data.len(), |k: int| self.data[k] - other.data[k]),
        }
    }

    /// Partial inner product of row `i` of `self` with column `j` of
    /// `other`: the sum of the first `k` products.
    pub open spec fn dot_prefix(self, other: MatView, i: int, j: int, k: int) -> int
        decreases k,
    {
        if k <= 0 {
            0
        } else {
            self.dot_prefix(other, i, j, k - 1) + self.entry(i, k - 1) * other.entry(k - 1, j)
        }
    }

    /// Entry `(i, j)` of the matrix product: the full inner product over `self.cols` terms.
    pub open spec fn prod_entry(self, other: MatView, i: int, j: int) -> int {
        self.dot_prefix(other, i, j, self.cols)
    }

    /// The matrix product, a `self.rows x other.cols` matrix.
    pub open spec fn mul(self, other: MatView) -> MatView {
        MatView {
            rows: self.rows,
            cols: other.cols,
            data: Seq::new(
                (self.rows * other.cols) as nat,
                |k: int| self.prod_entry(other, k / other.cols, k % other.cols),
            ),
        }
    }

    /// The `n x n` identity: ones on the main diagonal, zeros elsewhere.
    pub open spec fn identity(n: int) -> MatView {
        MatView {
            rows: n,
            cols: n,
            data: Seq::new((n * n) as nat, |k: int| if k / n == k % n { 1 } else { 0 }),
        }
    }
}

/// Row-major positions respect the element order: an earlier element
/// (smaller row, or same row and smaller column) has a smaller index.
pub proof fn lemma_idx_order(i1: int, j1: int, i2: int, j2: int, cols: int)
    requires
        0 <= j1 < cols,
        0 <= j2 < cols,
        0 <= i1,
        i1 < i2 || (i1 == i2 && j1 < j2),
    ensures
        j1 + i1 * cols < j2 + i2 * cols,
{
    assert(j1 + i1 * cols < j2 + i2 * cols) by (nonlinear_arith)
        requires
            0 <= j1 < cols,
            0 <= j2 < cols,
            0 <= i1,
            i1 < i2 || (i1 == i2 && j1 < j2),
    ;
}

/// Every in-bounds position indexes inside the storage sequence.
pub proof fn lemma_idx_bound(i: int, j: int, rows: int, cols: int)
    requires
        0 <= i < rows,
        0 <= j < cols,
    ensures
        0 <= j + i * cols < rows * cols,
{
    assert(0 <= j + i * cols < rows * cols) by (nonlinear_arith)
        requires
            0 <= i < rows,
            0 <= j < cols,
    ;
}

/// A row-major position determines its row and column: division and
/// remainder by the column count recover them.
pub proof fn lemma_idx_div_mod(i: int, j: int, cols: int)
    requires
        0 <= i,
        0 <= j < cols,
    ensures
        (j + i * cols) / cols == i,
        (j + i * cols) % cols == j,
{
    assert((j + i * cols) / cols == i && (j + i * cols) % cols == j) by (nonlinear_arith)
        requires
            0 <= i,
            0 <= j < cols,
    ;
}

/// Every position inside the storage of a `rows x cols` matrix is the
/// row-major index of the in-bounds coordinates it decomposes into.
pub proof fn lemma_pos_to_coords(t: int, rows: int, cols: int)
    requires
        cols >= 1,
        0 <= t < rows * cols,
    ensures
        0 <= t / cols < rows,
        0 <= t % cols < cols,
        t == (t % cols) + (t / cols) * cols,
{
    assert(0 <= t / cols < rows && 0 <= t % cols < cols && t == (t % cols) + (t / cols) * cols)
        by (nonlinear_arith)
        requires
            cols >= 1,
            0 <= t < rows * cols,
    ;
}

/// A partial inner product of `k` terms, each bounded in magnitude by
/// `bound`, is itself bounded in magnitude by `k * bound`. Callers
/// use this to discharge the no-overflow preconditions of the
/// executable multiply from a bound on the elements alone.
pub proof fn lemma_dot_prefix_bound(a: MatView, b: MatView, i: int, j: int, k: int, bound: int)
    requires
        0 <= k,
        bound >= 0,
        forall|t: int| #![trigger a.entry(i, t), b.entry(t, j)]
            0 <= t < k ==> -bound <= a.entry(i, t) * b.entry(t, j) <= bound,
    ensures
        -(k * bound) <= a.dot_prefix(b, i, j, k) <= k * bound,
    decreases k,
{
    if k > 0 {
        lemma_dot_prefix_bound(a, b, i, j, k - 1, bound);
        assert((k - 1) * bound + bound == k * bound) by (nonlinear_arith);
    }
}

/// Transposing twice gives back the original matrix: same shape,
/// equal elementwise.
pub proof fn lemma_transpose_involution(m: MatView)
    requires
        m.wf(),
    ensures
        m.transpose().transpose() == m,
{
    let t = m.transpose();
    let tt = t.transpose();
    assert(m.rows * m.cols == m.cols * m.rows) by (nonlinear_arith);
    assert forall|k: int| 0 <= k < m.data.len() implies tt.data[k] == m.data[k] by {
        lemma_pos_to_coords(k, m.rows, m.cols);
        let i: int = k / m.cols;
        let j: int = k % m.cols;
        lemma_idx_bound(j, i, m.cols, m.rows);
        lemma_idx_div_mod(j, i, m.rows);
        assert(tt.data[k] == t.entry(j, i));
        assert(t.entry(j, i) == t.data[i + j * m.rows]);
        assert(t.data[i + j * m.rows] == m.entry(i, j));
        assert(m.data[k] == m.entry(i, j));
    }
    assert(tt.data =~= m.data);
    assert(tt =~= m);
}

/// Adding a matrix and then subtracting it again gives back the
/// original: `(a + b) - b == a` for matrices of equal shape.
pub proof fn lemma_add_sub_cancel(a: MatView, b: MatView)
    requires
        a.wf(),
        b.wf(),
        a.same_shape(b),
    ensures
        a.add(b).sub(b) == a,
{
    assert(a.add(b).sub(b).data =~= a.data);
    assert(a.add(b).sub(b) =~= a);
}

/// A row of the identity picks out one term of an inner product: the
/// partial sums of row `i` of the identity against column `j` of `m`
/// are zero until the diagonal term is included, and `m`'s entry
/// afterwards.
proof fn lemma_identity_dot(m: MatView, i: int, j: int, k: int)
    requires
        m.wf(),
        0 <= i < m.rows,
        0 <= j < m.cols,
        0 <= k <= m.rows,
    ensures
        MatView::identity(m.rows).dot_prefix(m, i, j, k) == if i < k { m.entry(i, j) } else { 0 },
    decreases k,
{
    let idm = MatView::identity(m.rows);
    if k > 0 {
        lemma_identity_dot(m, i, j, k - 1);
        lemma_idx_bound(i, k - 1, m.rows, m.rows);
        lemma_idx_div_mod(i, k - 1, m.rows);
        if k - 1 == i {
            assert(idm.entry(i, k - 1) == 1);
        } else {
            assert(idm.entry(i, k - 1) == 0);
        }
    }
}

/// Multiplying on the left by the identity of a matrix's row count
/// yields the matrix unchanged.
pub proof fn lemma_identity_mul(m: MatView)
    requires
        m.wf(),
    ensures
        MatView::identity(m.rows).mul(m) == m,
{
    let idm = MatView::identity(m.rows);
    let p = idm.mul(m);
    assert forall|k: int| 0 <= k < m.data.len() implies p.data[k] == m.data[k] by {
        lemma_pos_to_coords(k, m.rows, m.cols);
        let i: int = k / m.cols;
        let j: int = k % m.cols;
        lemma_identity_dot(m, i, j, m.rows);
        assert(p.data[k] == idm.prod_entry(m, i, j));
    }
    assert(p.data =~= m.data);
    assert(p =~= m);
}

/// One column of the identity picks out one term of an inner product:
/// the partial sums of row `i` of `m` against column `j` of the
/// identity are zero until the diagonal term is included, and `m`'s
/// entry afterwards.
proof fn lemma_dot_identity(m: MatView, i: int, j: int, k: int)
    requires
        m.wf(),
        0 <= i < m.rows,
        0 <= j < m.cols,
        0 <= k <= m.cols,
    ensures
        m.dot_prefix(MatView::identity(m.cols), i, j, k) == if j < k { m.entry(i, j) } else { 0 },
    decreases k,
{
    let idm = MatView::identity(m.cols);
    if k > 0 {
        lemma_dot_identity(m, i, j, k - 1);
        lemma_idx_bound(k - 1, j, m.cols, m.cols);
        lemma_idx_div_mod(k - 1, j, m.cols);
        if k - 1 == j {
            assert(idm.entry(k - 1, j) == 1);
        } else {
            assert(idm.entry(k - 1, j) == 0);
        }
    }
}

/// Multiplying on the right by the identity of a matrix's column
/// count yields the matrix unchanged.
pub proof fn lemma_mul_identity(m: MatView)
    requires
        m.wf(),
    ensures
        m.mul(MatView::identity(m.cols)) == m,
{
    let idm = MatView::identity(m.cols);
    let p = m.mul(idm);
    assert forall|k: int| 0 <= k < m.data.len() implies p.data[k] == m.data[k] by {
        lemma_pos_to_coords(k, m.rows, m.cols);
        let i: int = k / m.cols;
        let j: int = k % m.cols;
        lemma_dot_identity(m, i, j, m.cols);
        assert(p.data[k] == m.prod_entry(idm, i, j));
    }
    assert(p.data =~= m.data);
    assert(p =~= m);
}

} // verus!
