//! Column layout of the two gadgets' rows, fixed by the degree bound alone.
//!
//! An addition row is `[ a: n | b: n | modulus: 1 | out: n ]`; a
//! multiplication row is `[ a: n | b: n | out: 2n - 1 ]`.

use vstd::prelude::*;

verus! {

/// Number of rows of every trace table: the least height the backend takes.
pub const TRACE_HEIGHT: usize = 4;

/// Largest degree bound served. Up to it the cell count of either table fits
/// a 32-bit index.
pub const MAX_DEGREE: usize = 0x0fff_ffff;

/// Column count of an addition row.
pub open spec fn polyadd_width_of(n: nat) -> nat {
    3 * n + 1
}

/// Column count of a multiplication row.
pub open spec fn polymul_width_of(n: nat) -> nat
    recommends
        n >= 1,
{
    (4 * n - 1) as nat
}

/// Number of coefficients of a product, and of points it is checked at.
pub open spec fn product_len_of(n: nat) -> nat
    recommends
        n >= 1,
{
    (2 * n - 1) as nat
}

/// Column count of the addition gadget for degree bound `n`.
pub fn polyadd_width(n: usize) -> (width: usize)
    requires
        1 <= n <= MAX_DEGREE,
    ensures
        width == 3 * n + 1,
        width == polyadd_width_of(n as nat),
{
    3 * n + 1
}

/// Column count of the multiplication gadget for degree bound `n`.
pub fn polymul_width(n: usize) -> (width: usize)
    requires
        1 <= n <= MAX_DEGREE,
    ensures
        width == 4 * n - 1,
        width == polymul_width_of(n as nat),
{
    4 * n - 1
}

/// Number of coefficients of the product of two polynomials of `n`
/// coefficients each; also the size of the evaluation domain `[0, 2n - 2]`.
pub fn product_len(n: usize) -> (len: usize)
    requires
        1 <= n <= MAX_DEGREE,
    ensures
        len == 2 * n - 1,
        len == product_len_of(n as nat),
{
    2 * n - 1
}

/// The `a` columns of a row of either gadget.
pub open spec fn a_columns(row: Seq<u32>, n: nat) -> Seq<u32> {
    row.subrange(0, n as int)
}

/// The `b` columns of a row of either gadget.
pub open spec fn b_columns(row: Seq<u32>, n: nat) -> Seq<u32> {
    row.subrange(n as int, 2 * n as int)
}

/// Index of the modulus column of an addition row.
pub open spec fn modulus_column(n: nat) -> int {
    2 * n as int
}

/// The `out` columns of an addition row.
pub open spec fn polyadd_out_columns(row: Seq<u32>, n: nat) -> Seq<u32> {
    row.subrange(2 * n as int + 1, 3 * n as int + 1)
}

/// The `out` columns of a multiplication row.
pub open spec fn polymul_out_columns(row: Seq<u32>, n: nat) -> Seq<u32> {
    row.subrange(2 * n as int, 4 * n as int - 1)
}

} // verus!
