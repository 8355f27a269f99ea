//! The proof backend's trace matrix over its native field.

use p3_field::AbstractField;
use p3_matrix::dense::{DenseMatrix, RowMajorMatrix};
use p3_mersenne_31::Mersenne31;
use vstd::prelude::*;

verus! {

/// Order of the backend's native field, the Mersenne prime `2^31 - 1`.
pub const NATIVE_ORDER: u32 = 0x7fff_ffff;

/// An element of the backend's native field, `p3_mersenne_31::Mersenne31`,
/// carried through as an opaque value.
#[verifier::external_type_specification]
#[verifier::external_body]
pub struct ExMersenne31(Mersenne31);

/// The backend's dense row-major matrix, `p3_matrix::dense::DenseMatrix`,
/// carried through as an opaque value.
#[verifier::external_type_specification]
#[verifier::external_body]
#[verifier::reject_recursive_types(T)]
#[verifier::reject_recursive_types(V)]
pub struct ExDenseMatrix<T, V>(DenseMatrix<T, V>);

/// The cells of a backend matrix in row-major order, each as its canonical
/// representative in `[0, NATIVE_ORDER)`.
pub uninterp spec fn matrix_cells(m: RowMajorMatrix<Mersenne31>) -> Seq<u32>;

/// The number of columns a backend matrix was made with.
pub uninterp spec fn matrix_width(m: RowMajorMatrix<Mersenne31>) -> nat;

/// Calls `RowMajorMatrix::new` on the field elements that
/// `Mersenne31::from_canonical_u32` gives for `values`. The constructor keeps
/// the cells in the order given and records `width`; both calls check their
/// argument in debug builds, which the preconditions rule out.
#[verifier::external_body]
pub(crate) fn matrix_from_canonical(values: Vec<u32>, width: usize) -> (m: RowMajorMatrix<
    Mersenne31,
>)
    requires
        width == 0 || values@.len() % (width as nat) == 0,
        forall|i: int| 0 <= i < values@.len() ==> values@[i] < NATIVE_ORDER,
    ensures
        matrix_cells(m) == values@,
        matrix_width(m) == width,
{
    let cells: Vec<Mersenne31> = values.into_iter().map(Mersenne31::from_canonical_u32).collect();
    RowMajorMatrix::new(cells, width)
}

} // verus!
