//! Convenience constructors layered on top of the matrix types.

use vstd::prelude::*;

use crate::matrix::Matrix;
use crate::model::MatView;

verus! {

/// Builds the `size x size` integer identity matrix.
pub fn int_identity(size: usize) -> (m: Matrix)
    requires
        size >= 1,
        size * size <= usize::MAX,
    ensures
        m@.wf(),
        m@ == MatView::identity(size as int),
{
    Matrix::identity(size)
}

} // verus!
