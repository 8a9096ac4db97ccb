//! The numeric board: a two-dimensional array of cell codes, held in an
//! `ndarray` array.  Verus cannot declare `ndarray`'s array type (its
//! definition carries an outside trait bound), so the array sits in a
//! private field of an opaque struct, described by two named spec
//! functions, and every call into `ndarray` is a trusted wrapper.

use vstd::prelude::*;

verus! {

#[verifier::external_type_specification]
#[verifier::external_body]
pub struct ExShapeError(ndarray::ShapeError);

/// The validated cell-code grid the game loop will later play on.
#[verifier::external_body]
pub struct Board {
    arr: ndarray::Array2<i32>,
}

/// The elements of a board, flattened in row-major order.
pub uninterp spec fn board_elems(b: &Board) -> Seq<i32>;

/// The `(rows, cols)` shape of a board.
pub uninterp spec fn board_dim(b: &Board) -> (usize, usize);

/// Whether `ndarray` accepts a `(rows, cols)` row-major shape for a vector
/// of length `len`: the product of the non-zero axis lengths must stay
/// within `isize`, and the shape product must equal `len`.
pub open spec fn shape_acceptable(rows: usize, cols: usize, len: nat) -> bool {
    &&& (if rows == 0 {
        1
    } else {
        rows as int
    }) * (if cols == 0 {
        1
    } else {
        cols as int
    }) <= isize::MAX as int
    &&& rows as int * cols as int == len
}

impl Board {
    /// Relies on ndarray's `ArrayBase::from_shape_vec` with a
    /// `(rows, cols)` shape and standard (row-major) strides: it returns
    /// `Ok` exactly when the product of the non-zero axis lengths stays
    /// within `isize` and the shape product equals the vector's length,
    /// and the array it builds then has that shape and holds the vector's
    /// elements in row-major order.
    #[verifier::external_body]
    pub(crate) fn from_flat(rows: usize, cols: usize, flat: Vec<i32>) -> (r: Result<
        Board,
        ndarray::ShapeError,
    >)
        ensures
            r is Ok <==> shape_acceptable(rows, cols, flat@.len()),
            r is Ok ==> {
                &&& board_dim(&r.unwrap()) == (rows, cols)
                &&& board_elems(&r.unwrap()) == flat@
            },
    {
        match ndarray::Array2::from_shape_vec((rows, cols), flat) {
            Ok(arr) => Ok(Board { arr }),
            Err(e) => Err(e),
        }
    }

    /// Relies on ndarray's `ArrayBase::nrows`.
    #[verifier::external_body]
    pub fn nrows(&self) -> (r: usize)
        ensures
            r == board_dim(self).0,
    {
        self.arr.nrows()
    }

    /// Relies on ndarray's `ArrayBase::ncols`.
    #[verifier::external_body]
    pub fn ncols(&self) -> (r: usize)
        ensures
            r == board_dim(self).1,
    {
        self.arr.ncols()
    }

    /// Relies on ndarray's `Index` for a two-element index on a row-major
    /// array: `[row, col]` selects the element at flat position
    /// `row * cols + col`.
    #[verifier::external_body]
    pub fn get(&self, row: usize, col: usize) -> (r: i32)
        requires
            row < board_dim(self).0,
            col < board_dim(self).1,
        ensures
            r == board_elems(self)[row * board_dim(self).1 + col],
    {
        self.arr[[row, col]]
    }
}

} // verus!
