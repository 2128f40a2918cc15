//! The matrix of Q-values, stored in an `ndarray` two-dimensional array.
use vstd::prelude::*;

verus! {

/// A matrix of fixed-point Q-values.
#[verifier::external_body]
pub struct QMatrix {
    inner: ndarray::Array2<i64>,
}

/// The entries of the matrix, row after row.
pub uninterp spec fn matrix_cells(m: QMatrix) -> Seq<i64>;

/// The numbers of rows and of columns of the matrix.
pub uninterp spec fn matrix_shape(m: QMatrix) -> (int, int);

impl QMatrix {
    /// Relies on `ndarray::Array2::zeros`: an array of the given shape filled
    /// with zeros, which panics when the product of the non-zero axis lengths
    /// overflows `isize`.
    #[verifier::external_body]
    pub(crate) fn zeros(rows: usize, cols: usize) -> (r: QMatrix)
        requires
            rows <= isize::MAX,
            cols <= isize::MAX,
            rows * cols <= isize::MAX,
        ensures
            matrix_shape(r) == (rows as int, cols as int),
            matrix_cells(r) == Seq::new((rows * cols) as nat, |i: int| 0i64),
    {
        QMatrix { inner: ndarray::Array2::zeros((rows, cols)) }
    }

    /// Relies on `Index<(usize, usize)>` of `ndarray::Array2`: the entry at
    /// row `row` and column `col`, which panics out of bounds.
    #[verifier::external_body]
    pub(crate) fn get(&self, row: usize, col: usize) -> (r: i64)
        requires
            row < matrix_shape(*self).0,
            col < matrix_shape(*self).1,
        ensures
            r == matrix_cells(*self)[row * matrix_shape(*self).1 + col],
    {
        self.inner[(row, col)]
    }

    /// Relies on `IndexMut<(usize, usize)>` of `ndarray::Array2`: replaces
    /// the entry at row `row` and column `col`, which panics out of bounds.
    #[verifier::external_body]
    pub(crate) fn set(&mut self, row: usize, col: usize, value: i64)
        requires
            row < matrix_shape(*old(self)).0,
            col < matrix_shape(*old(self)).1,
        ensures
            matrix_shape(*final(self)) == matrix_shape(*old(self)),
            matrix_cells(*final(self)) == matrix_cells(*old(self)).update(
                row * matrix_shape(*old(self)).1 + col,
                value,
            ),
    {
        self.inner[(row, col)] = value;
    }
}

} // verus!
