//! The addition gadget.
//!
//! A row is `[ a: n | b: n | modulus: 1 | out: n ]`, where `out[i]` is
//! `a[i] + b[i]` reduced by the modulus, coefficient by coefficient.
//!
//! The gadget's relation binds the `a`, `b` and modulus columns of the first
//! row to the declared values. It says nothing of the `out` columns: that
//! they hold the reduced sums is the work of the trace builder alone.

use crate::backend::{matrix_cells, matrix_from_canonical, matrix_width, NATIVE_ORDER};
use crate::constraint::{
    all_hold_on, bind_inputs, check_boundary, input_bindings, lemma_input_bindings_hold,
    BoundaryConstraint,
};
use crate::layout::{
    a_columns, b_columns, modulus_column, polyadd_out_columns, polyadd_width, polyadd_width_of,
    MAX_DEGREE, TRACE_HEIGHT,
};
use crate::trace::{padded_cells, padded_rows, TraceTable};
use p3_matrix::dense::RowMajorMatrix;
use p3_mersenne_31::Mersenne31;
use vstd::arithmetic::div_mod::lemma_mod_multiples_basic;
use vstd::prelude::*;

verus! {

/// The `out` columns that belong to `a` and `b`: the sums of their
/// coefficients, each reduced by `modulus`.
pub open spec fn polyadd_out(a: Seq<u32>, b: Seq<u32>, modulus: u32) -> Seq<u32>
    recommends
        a.len() == b.len(),
        modulus > 0,
{
    Seq::new(a.len(), |i: int| ((a[i] + b[i]) % (modulus as int)) as u32)
}

/// Row 0 of the addition table for `a` and `b`.
pub open spec fn polyadd_row(a: Seq<u32>, b: Seq<u32>, modulus: u32) -> Seq<u32> {
    a + b + seq![modulus] + polyadd_out(a, b, modulus)
}

/// The boundary constraints of the addition gadget: the input bindings, then
/// the modulus column bound to the modulus.
pub open spec fn polyadd_boundary(a: Seq<u32>, b: Seq<u32>, modulus: u32) -> Seq<
    BoundaryConstraint,
> {
    input_bindings(a, b).push(BoundaryConstraint { column: (2 * a.len()) as usize, value: modulus })
}

/// Builds the addition table: row 0 is `a`, then `b`, then the modulus, then
/// the reduced sums; three zero rows follow.
///
/// The coefficients are taken as they come. Entries at or above `modulus`
/// are not rejected.
pub fn polyadd_trace(a: &Vec<u32>, b: &Vec<u32>, modulus: u32) -> (table: TraceTable)
    requires
        a.len() == b.len(),
        1 <= a.len() <= MAX_DEGREE,
        modulus > 0,
    ensures
        table@ == padded_rows(polyadd_row(a@, b@, modulus)),
        table.cells() == padded_cells(polyadd_row(a@, b@, modulus)),
        table@[0].len() == polyadd_width_of(a.len() as nat),
        forall|i: int| 0 <= i < a.len() ==> table@[0][i] == a[i],
        forall|i: int| 0 <= i < a.len() ==> table@[0][a.len() + i] == b[i],
        table@[0][2 * a.len()] == modulus,
        forall|i: int|
            0 <= i < a.len() ==> table@[0][2 * a.len() + 1 + i] == (a[i] + b[i]) % (modulus as int),
        forall|r: int, c: int|
            1 <= r < TRACE_HEIGHT && 0 <= c < polyadd_width_of(a.len() as nat) ==> table@[r][c]
                == 0,
{
    let n: usize = a.len();
    let mut row: Vec<u32> = Vec::new();
    let mut i: usize = 0;
    while i < n
        invariant
            i <= n,
            n == a.len(),
            row@ == a@.subrange(0, i as int),
        decreases n - i,
    {
        row.push(a[i]);
        i = i + 1;
        assert(row@ =~= a@.subrange(0, i as int));
    }
    assert(row@ =~= a@);
    i = 0;
    while i < n
        invariant
            i <= n,
            n == b.len(),
            row@ == a@ + b@.subrange(0, i as int),
        decreases n - i,
    {
        row.push(b[i]);
        i = i + 1;
        assert(row@ =~= a@ + b@.subrange(0, i as int));
    }
    row.push(modulus);
    assert(row@ =~= a@ + b@ + seq![modulus]);
    let ghost out = polyadd_out(a@, b@, modulus);
    i = 0;
    while i < n
        invariant
            i <= n,
            n == a.len(),
            n == b.len(),
            modulus > 0,
            out == polyadd_out(a@, b@, modulus),
            row@ == a@ + b@ + seq![modulus] + out.subrange(0, i as int),
        decreases n - i,
    {
        let sum: u64 = a[i] as u64 + b[i] as u64;
        row.push((sum % (modulus as u64)) as u32);
        i = i + 1;
        assert(row@ =~= a@ + b@ + seq![modulus] + out.subrange(0, i as int));
    }
    assert(row@ =~= polyadd_row(a@, b@, modulus));
    TraceTable::from_first_row(row)
}

/// Builds the addition table as the backend's matrix over its native field.
/// Every cell must be canonical there, which the bounds on the inputs see to.
pub fn generate_polyadd_trace(a: Vec<u32>, b: Vec<u32>, modulus: u32) -> (trace: RowMajorMatrix<
    Mersenne31,
>)
    requires
        a.len() == b.len(),
        1 <= a.len() <= MAX_DEGREE,
        0 < modulus < NATIVE_ORDER,
        forall|i: int| 0 <= i < a.len() ==> a[i] < NATIVE_ORDER,
        forall|i: int| 0 <= i < b.len() ==> b[i] < NATIVE_ORDER,
    ensures
        matrix_cells(trace) == padded_cells(polyadd_row(a@, b@, modulus)),
        matrix_width(trace) == polyadd_width_of(a.len() as nat),
{
    let table = polyadd_trace(&a, &b, modulus);
    let width: usize = table.width();
    let cells: Vec<u32> = table.into_cells();
    proof {
        let n = a.len() as int;
        let row = polyadd_row(a@, b@, modulus);
        assert(cells@.len() == row.len() + (TRACE_HEIGHT - 1) * row.len());
        lemma_mod_multiples_basic(TRACE_HEIGHT as int, width as int);
        assert forall|i: int| 0 <= i < cells@.len() implies cells@[i] < NATIVE_ORDER by {
            if 2 * n < i < row.len() {
                assert(cells@[i] == polyadd_out(a@, b@, modulus)[i - 2 * n - 1]);
            }
        }
    }
    matrix_from_canonical(cells, width)
}

/// An instance of the addition gadget: the two declared input polynomials
/// and the modulus their sums are reduced by.
pub struct PolyAddAir {
    pub a: Vec<u32>,
    pub b: Vec<u32>,
    pub modulus: u32,
}

impl PolyAddAir {
    /// The degree bound `n`: the number of coefficients of each input.
    pub open spec fn degree(&self) -> nat {
        self.a@.len()
    }

    /// Both inputs have `n` coefficients, and `n` is in range.
    pub open spec fn wf(&self) -> bool {
        &&& self.a@.len() == self.b@.len()
        &&& 1 <= self.a@.len() <= MAX_DEGREE
    }

    /// Column count of the gadget's rows.
    pub fn width(&self) -> (width: usize)
        requires
            self.wf(),
        ensures
            width == 3 * self.degree() + 1,
            width == polyadd_width_of(self.degree()),
    {
        polyadd_width(self.a.len())
    }

    /// The boundary constraints of the gadget, in the order in which they
    /// are laid on the backend.
    pub fn boundary_constraints(&self) -> (constraints: Vec<BoundaryConstraint>)
        requires
            self.wf(),
        ensures
            constraints@ == polyadd_boundary(self.a@, self.b@, self.modulus),
    {
        let mut constraints = bind_inputs(&self.a, &self.b);
        constraints.push(BoundaryConstraint { column: 2 * self.a.len(), value: self.modulus });
        constraints
    }

    /// The gadget's relation on one row: on the first row, the `a`, `b` and
    /// modulus columns hold the declared values. Nothing is asked of the
    /// `out` columns, and nothing of any other row.
    pub open spec fn holds_on(&self, row: Seq<u32>, is_first_row: bool) -> bool {
        is_first_row ==> all_hold_on(polyadd_boundary(self.a@, self.b@, self.modulus), row)
    }

    /// Evaluates the gadget's relation on `row`.
    pub fn eval(&self, row: &Vec<u32>, is_first_row: bool) -> (ok: bool)
        requires
            self.wf(),
            row.len() == polyadd_width_of(self.degree()),
        ensures
            ok == self.holds_on(row@, is_first_row),
    {
        if is_first_row {
            let constraints = self.boundary_constraints();
            check_boundary(&constraints, row)
        } else {
            true
        }
    }
}

/// A row meets the addition gadget's boundary constraints exactly when its
/// `a` and `b` columns are the declared polynomials and its modulus column
/// is the declared modulus.
pub proof fn lemma_polyadd_boundary_holds(air: PolyAddAir, row: Seq<u32>)
    requires
        air.wf(),
        row.len() == polyadd_width_of(air.degree()),
    ensures
        air.holds_on(row, true) <==> {
            &&& a_columns(row, air.degree()) == air.a@
            &&& b_columns(row, air.degree()) == air.b@
            &&& row[modulus_column(air.degree())] == air.modulus
        },
{
    let n = air.degree();
    let cs = polyadd_boundary(air.a@, air.b@, air.modulus);
    let inputs = input_bindings(air.a@, air.b@);
    let head = row.subrange(0, 2 * n as int);
    lemma_input_bindings_hold(air.a@, air.b@, row);
    if air.holds_on(row, true) {
        assert forall|i: int| 0 <= i < inputs.len() implies (#[trigger] inputs[i]).holds_on(
            row,
        ) by {
            assert(cs[i].holds_on(row));
        }
        assert(cs[2 * n as int].holds_on(row));
        assert(a_columns(row, n) =~= head.subrange(0, n as int));
        assert(b_columns(row, n) =~= head.subrange(n as int, 2 * n as int));
        assert(a_columns(row, n) =~= air.a@);
        assert(b_columns(row, n) =~= air.b@);
    }
    if a_columns(row, n) == air.a@ && b_columns(row, n) == air.b@ && row[modulus_column(n)]
        == air.modulus {
        assert forall|c: int| 0 <= c < 2 * n implies head[c] == (air.a@ + air.b@)[c] by {
            if c < n {
                assert(head[c] == a_columns(row, n)[c]);
            } else {
                assert(head[c] == b_columns(row, n)[c - n]);
            }
        }
        assert(head =~= air.a@ + air.b@);
        assert forall|i: int| 0 <= i < cs.len() implies (#[trigger] cs[i]).holds_on(row) by {
            if i < inputs.len() {
                assert(inputs[i].holds_on(row));
            }
        }
    }
}

/// The columns of the row the builder writes are the inputs, the modulus and
/// the reduced sums, each in its place.
pub proof fn lemma_polyadd_row_columns(a: Seq<u32>, b: Seq<u32>, modulus: u32)
    requires
        a.len() == b.len(),
    ensures
        polyadd_row(a, b, modulus).len() == polyadd_width_of(a.len()),
        a_columns(polyadd_row(a, b, modulus), a.len()) == a,
        b_columns(polyadd_row(a, b, modulus), a.len()) == b,
        polyadd_row(a, b, modulus)[modulus_column(a.len())] == modulus,
        polyadd_out_columns(polyadd_row(a, b, modulus), a.len()) == polyadd_out(a, b, modulus),
{
    let row = polyadd_row(a, b, modulus);
    let n = a.len();
    assert(a_columns(row, n) =~= a);
    assert(b_columns(row, n) =~= b);
    assert(polyadd_out_columns(row, n) =~= polyadd_out(a, b, modulus));
}

/// The gadget's relation holds on every row of the table that the builder
/// writes for the gadget's own inputs.
pub proof fn lemma_polyadd_trace_holds(air: PolyAddAir)
    requires
        air.wf(),
    ensures
        forall|r: int|
            0 <= r < TRACE_HEIGHT ==> air.holds_on(
                #[trigger] padded_rows(polyadd_row(air.a@, air.b@, air.modulus))[r],
                r == 0,
            ),
{
    let row = polyadd_row(air.a@, air.b@, air.modulus);
    lemma_polyadd_row_columns(air.a@, air.b@, air.modulus);
    lemma_polyadd_boundary_holds(air, row);
}

/// The gadget's relation does not read the `out` columns: two rows that
/// agree on the `a`, `b` and modulus columns are accepted or rejected
/// together, whatever their `out` columns hold.
pub proof fn lemma_polyadd_out_unconstrained(
    air: PolyAddAir,
    row: Seq<u32>,
    other: Seq<u32>,
    is_first_row: bool,
)
    requires
        air.wf(),
        row.len() == polyadd_width_of(air.degree()),
        other.len() == row.len(),
        forall|c: int| 0 <= c <= 2 * air.degree() ==> row[c] == other[c],
    ensures
        air.holds_on(row, is_first_row) == air.holds_on(other, is_first_row),
{
    let n = air.degree();
    lemma_polyadd_boundary_holds(air, row);
    lemma_polyadd_boundary_holds(air, other);
    assert(a_columns(row, n) =~= a_columns(other, n));
    assert(b_columns(row, n) =~= b_columns(other, n));
}

} // verus!
