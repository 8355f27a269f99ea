//! The multiplication gadget.
//!
//! A row is `[ a: n | b: n | out: 2n - 1 ]`, where `out` holds the
//! coefficients of the product of `a` and `b`, each reduced by the modulus.
//!
//! The gadget's relation binds the `a` and `b` columns of the first row to
//! the declared polynomials and, in place of the symbolic product, asks at
//! each point `x` of the domain `[0, 2n - 2]` that the values of the two
//! inputs multiply to the value of the output. Agreement at `2n - 1` distinct
//! points fixes a polynomial of `2n - 1` coefficients, so over the integers
//! the pointwise relation is the polynomial identity.
//!
//! The values are formed in the backend's field, not modulo the ring
//! modulus. On the row that the builder writes the relation holds modulo the
//! ring modulus; in the field it holds, and is sound, only as long as nothing
//! wraps. No reduction is added to make up for that.

use crate::backend::{matrix_cells, matrix_from_canonical, matrix_width, NATIVE_ORDER};
use crate::constraint::{
    all_hold_on, bind_inputs, check_boundary, input_bindings, lemma_input_bindings_hold,
    BoundaryConstraint,
};
use crate::layout::{
    a_columns, b_columns, polymul_out_columns, polymul_width, polymul_width_of, product_len,
    product_len_of, MAX_DEGREE, TRACE_HEIGHT,
};
use crate::modpow::{mod_exp, pow_mod};
use crate::poly::{
    coeffs, conv_coeff, conv_term, conv_upto, lemma_point_eval_congruent, lemma_point_eval_exact,
    lemma_point_eval_zero, lemma_poly_eval_congruent, lemma_poly_eval_nonnegative,
    lemma_poly_eval_upto_agrees, lemma_poly_product_eval, point_eval, point_eval_upto, poly_eval,
    poly_product,
};
use crate::uniqueness::lemma_agreeing_are_equal;
use crate::trace::{padded_cells, padded_rows, zero_row, TraceTable};
use p3_matrix::dense::RowMajorMatrix;
use p3_mersenne_31::Mersenne31;
use vstd::arithmetic::div_mod::{
    lemma_add_mod_noop, lemma_mod_multiples_basic, lemma_mod_twice, lemma_mul_mod_noop_general,
    lemma_small_mod,
};
use vstd::arithmetic::power::pow;
use vstd::prelude::*;

verus! {

/// The `out` columns that belong to `a` and `b`: coefficient `k` of their
/// product, reduced by `modulus`.
pub open spec fn polymul_out(a: Seq<u32>, b: Seq<u32>, modulus: u32) -> Seq<u32>
    recommends
        a.len() >= 1,
        a.len() == b.len(),
        modulus > 0,
{
    Seq::new(
        product_len_of(a.len()),
        |k: int| (conv_coeff(coeffs(a), coeffs(b), k) % (modulus as int)) as u32,
    )
}

/// Row 0 of the multiplication table for `a` and `b`.
pub open spec fn polymul_row(a: Seq<u32>, b: Seq<u32>, modulus: u32) -> Seq<u32> {
    a + b + polymul_out(a, b, modulus)
}

/// Terms that all vanish add nothing to a convolution sum.
proof fn lemma_conv_upto_skips(a: Seq<int>, b: Seq<int>, k: int, from: nat, to: nat)
    requires
        from <= to,
        forall|i: int| from <= i < to ==> conv_term(a, b, k, i) == 0,
    ensures
        conv_upto(a, b, k, to) == conv_upto(a, b, k, from),
    decreases to - from,
{
    if from < to {
        lemma_conv_upto_skips(a, b, k, from, (to - 1) as nat);
    }
}

/// Coefficient `k` of the product of `a` and `b`, unreduced. The sum runs
/// over the index pairs that exist and is formed in 128 bits.
pub fn conv_coefficient(a: &Vec<u32>, b: &Vec<u32>, k: usize) -> (sum: u128)
    requires
        a.len() == b.len(),
        1 <= a.len() <= MAX_DEGREE,
        k < 2 * a.len() - 1,
    ensures
        sum == conv_coeff(coeffs(a@), coeffs(b@), k as int),
{
    let n: usize = a.len();
    let ghost ca = coeffs(a@);
    let ghost cb = coeffs(b@);
    // a's index runs over [lo, hi); b's index runs down from k - lo.
    let lo: usize = if k < n { 0 } else { k - n + 1 };
    let hi: usize = if k < n { k + 1 } else { n };
    let mut sum: u128 = 0;
    let mut a_idx: usize = lo;
    proof {
        lemma_conv_upto_skips(ca, cb, k as int, 0, lo as nat);
    }
    while a_idx < hi
        invariant
            n == a.len(),
            n == b.len(),
            n <= MAX_DEGREE,
            ca == coeffs(a@),
            cb == coeffs(b@),
            lo <= a_idx <= hi,
            hi <= n,
            hi <= k + 1,
            k < lo + n,
            sum == conv_upto(ca, cb, k as int, a_idx as nat),
            sum <= (a_idx - lo) * 0xffff_ffff_ffff_ffff,
        decreases hi - a_idx,
    {
        let b_idx: usize = k - a_idx;
        let x: u64 = a[a_idx] as u64;
        let y: u64 = b[b_idx] as u64;
        assert(x * y <= 0xffff_ffff * 0xffff_ffff) by (nonlinear_arith)
            requires
                0 <= x <= 0xffff_ffff,
                0 <= y <= 0xffff_ffff,
        ;
        let term: u64 = x * y;
        assert((a_idx - lo) * 0xffff_ffff_ffff_ffff + 0xffff_ffff_ffff_ffff <= 0x0fff_ffff
            * 0xffff_ffff_ffff_ffff) by (nonlinear_arith)
            requires
                a_idx - lo < 0x0fff_ffff,
        ;
        assert(conv_term(ca, cb, k as int, a_idx as int) == term);
        sum = sum + term as u128;
        a_idx = a_idx + 1;
    }
    proof {
        lemma_conv_upto_skips(ca, cb, k as int, hi as nat, n as nat);
    }
    sum
}

/// Builds the multiplication table: row 0 is `a`, then `b`, then the reduced
/// product coefficients; three zero rows follow.
///
/// The coefficients are taken as they come. Entries at or above `modulus`
/// are not rejected.
pub fn polymul_trace(a: &Vec<u32>, b: &Vec<u32>, modulus: u32) -> (table: TraceTable)
    requires
        a.len() == b.len(),
        1 <= a.len() <= MAX_DEGREE,
        modulus > 0,
    ensures
        table@ == padded_rows(polymul_row(a@, b@, modulus)),
        table.cells() == padded_cells(polymul_row(a@, b@, modulus)),
        table@[0].len() == polymul_width_of(a.len() as nat),
        forall|i: int| 0 <= i < a.len() ==> table@[0][i] == a[i],
        forall|i: int| 0 <= i < a.len() ==> table@[0][a.len() + i] == b[i],
        forall|k: int|
            0 <= k < 2 * a.len() - 1 ==> table@[0][2 * a.len() + k] == conv_coeff(
                coeffs(a@),
                coeffs(b@),
                k,
            ) % (modulus as int),
        forall|r: int, c: int|
            1 <= r < TRACE_HEIGHT && 0 <= c < polymul_width_of(a.len() as nat) ==> table@[r][c]
                == 0,
{
    let n: usize = a.len();
    let out_len: usize = product_len(n);
    let mut row: Vec<u32> = Vec::new();
    let mut i: usize = 0;
    while i < n
        invariant
            i <= n,
            n == a.len(),
            row@ == a@.subrange(0, i as int),
        decreases n - i,
    {
        row.push(a[i]);
        i = i + 1;
        assert(row@ =~= a@.subrange(0, i as int));
    }
    assert(row@ =~= a@);
    i = 0;
    while i < n
        invariant
            i <= n,
            n == b.len(),
            row@ == a@ + b@.subrange(0, i as int),
        decreases n - i,
    {
        row.push(b[i]);
        i = i + 1;
        assert(row@ =~= a@ + b@.subrange(0, i as int));
    }
    assert(row@ =~= a@ + b@);
    let ghost out = polymul_out(a@, b@, modulus);
    let mut k: usize = 0;
    while k < out_len
        invariant
            k <= out_len,
            out_len == 2 * n - 1,
            n == a.len(),
            n == b.len(),
            1 <= n <= MAX_DEGREE,
            modulus > 0,
            out == polymul_out(a@, b@, modulus),
            row@ == a@ + b@ + out.subrange(0, k as int),
        decreases out_len - k,
    {
        let sum: u128 = conv_coefficient(a, b, k);
        let reduced: u32 = (sum % (modulus as u128)) as u32;
        row.push(reduced);
        k = k + 1;
        assert(row@ =~= a@ + b@ + out.subrange(0, k as int));
    }
    assert(row@ =~= polymul_row(a@, b@, modulus));
    TraceTable::from_first_row(row)
}

/// Builds the multiplication table as the backend's matrix over its native
/// field. Every cell must be canonical there, which the bounds on the inputs
/// see to.
pub fn generate_polymul_trace(a: Vec<u32>, b: Vec<u32>, modulus: u32) -> (trace: RowMajorMatrix<
    Mersenne31,
>)
    requires
        a.len() == b.len(),
        1 <= a.len() <= MAX_DEGREE,
        0 < modulus <= NATIVE_ORDER,
        forall|i: int| 0 <= i < a.len() ==> a[i] < NATIVE_ORDER,
        forall|i: int| 0 <= i < b.len() ==> b[i] < NATIVE_ORDER,
    ensures
        matrix_cells(trace) == padded_cells(polymul_row(a@, b@, modulus)),
        matrix_width(trace) == polymul_width_of(a.len() as nat),
{
    let table = polymul_trace(&a, &b, modulus);
    let width: usize = table.width();
    let cells: Vec<u32> = table.into_cells();
    proof {
        let n = a.len() as int;
        let row = polymul_row(a@, b@, modulus);
        assert(cells@.len() == row.len() + (TRACE_HEIGHT - 1) * row.len());
        lemma_mod_multiples_basic(TRACE_HEIGHT as int, width as int);
        assert forall|i: int| 0 <= i < cells@.len() implies cells@[i] < NATIVE_ORDER by {
            if 2 * n <= i < row.len() {
                assert(cells@[i] == polymul_out(a@, b@, modulus)[i - 2 * n]);
            }
        }
    }
    matrix_from_canonical(cells, width)
}

/// An instance of the multiplication gadget: the two declared input
/// polynomials and the modulus their product is reduced by.
pub struct PolyMulAir {
    pub a: Vec<u32>,
    pub b: Vec<u32>,
    pub modulus: u32,
}

/// The sum of `values[start + j] * powers[j]` over `j < len`, reduced by
/// `field_order`.
fn weighted_sum(
    values: &Vec<u32>,
    start: usize,
    len: usize,
    powers: &Vec<u64>,
    field_order: u32,
    Ghost(x): Ghost<nat>,
    Ghost(modulus): Ghost<nat>,
) -> (sum: u32)
    requires
        start + len <= values.len(),
        len <= powers.len(),
        field_order > 0,
        modulus > 0,
        forall|j: int| 0 <= j < len ==> powers[j] == pow_mod(x, j as nat, modulus),
        forall|j: int| 0 <= j < len ==> powers[j] <= u32::MAX,
    ensures
        sum == point_eval(coeffs(values@.subrange(start as int, start + len)), x, modulus) % (
        field_order as int),
{
    let ghost c = coeffs(values@.subrange(start as int, start + len));
    let ghost q = field_order as int;
    let mut acc: u64 = 0;
    let mut j: usize = 0;
    proof {
        lemma_small_mod(0, field_order as nat);
    }
    while j < len
        invariant
            j <= len,
            start + len <= values.len(),
            len <= powers.len(),
            field_order > 0,
            modulus > 0,
            q == field_order,
            c == coeffs(values@.subrange(start as int, start + len)),
            forall|i: int| 0 <= i < len ==> powers[i] == pow_mod(x, i as nat, modulus),
            forall|i: int| 0 <= i < len ==> powers[i] <= u32::MAX,
            acc < field_order,
            acc == point_eval_upto(c, x, modulus, j as nat) % q,
        decreases len - j,
    {
        let value: u64 = values[start + j] as u64;
        let power: u64 = powers[j];
        assert(value * power <= 0xffff_ffff * 0xffff_ffff) by (nonlinear_arith)
            requires
                0 <= value <= 0xffff_ffff,
                0 <= power <= 0xffff_ffff,
        ;
        let term: u64 = (value * power) % (field_order as u64);
        proof {
            assert(c[j as int] == value);
            lemma_add_mod_noop(
                point_eval_upto(c, x, modulus, j as nat),
                value as int * power as int,
                q,
            );
        }
        acc = (acc + term) % (field_order as u64);
        j = j + 1;
    }
    acc as u32
}

impl PolyMulAir {
    /// The degree bound `n`: the number of coefficients of each input.
    pub open spec fn degree(&self) -> nat {
        self.a@.len()
    }

    /// Both inputs have `n` coefficients, `n` is in range, and the modulus is
    /// not zero.
    pub open spec fn wf(&self) -> bool {
        &&& self.a@.len() == self.b@.len()
        &&& 1 <= self.a@.len() <= MAX_DEGREE
        &&& self.modulus > 0
    }

    /// Column count of the gadget's rows.
    pub fn width(&self) -> (width: usize)
        requires
            self.wf(),
        ensures
            width == 4 * self.degree() - 1,
            width == polymul_width_of(self.degree()),
    {
        polymul_width(self.a.len())
    }

    /// The boundary constraints of the gadget: the input columns of the first
    /// row are bound to the declared polynomials.
    pub fn boundary_constraints(&self) -> (constraints: Vec<BoundaryConstraint>)
        requires
            self.wf(),
        ensures
            constraints@ == input_bindings(self.a@, self.b@),
    {
        bind_inputs(&self.a, &self.b)
    }

    /// Row `x` of the power table: `x^j mod modulus` for each `j` below
    /// `2n - 1`. The first `n` entries weigh the inputs, all of them the
    /// output.
    pub fn power_row(&self, x: usize) -> (powers: Vec<u64>)
        requires
            self.wf(),
        ensures
            powers.len() == product_len_of(self.degree()),
            forall|j: int|
                0 <= j < powers.len() ==> powers[j] == pow_mod(
                    x as nat,
                    j as nat,
                    self.modulus as nat,
                ),
    {
        let len: usize = product_len(self.a.len());
        let mut powers: Vec<u64> = Vec::new();
        let mut j: usize = 0;
        while j < len
            invariant
                j <= len,
                self.modulus > 0,
                powers.len() == j,
                forall|i: int|
                    0 <= i < j ==> powers[i] == pow_mod(x as nat, i as nat, self.modulus as nat),
            decreases len - j,
        {
            powers.push(mod_exp(x as u64, j as u64, self.modulus as u64));
            j = j + 1;
        }
        powers
    }

    /// The product relation at the point `x`, in a field of `field_order`
    /// elements: the two input polynomials read from `row`, each evaluated at
    /// `x` through the power table, multiply to the evaluation of the output
    /// polynomial read from `row`.
    pub open spec fn product_holds_at(&self, row: Seq<u32>, x: nat, field_order: nat) -> bool {
        let n = self.degree();
        let m = self.modulus as nat;
        let q = field_order as int;
        (point_eval(coeffs(a_columns(row, n)), x, m) * point_eval(coeffs(b_columns(row, n)), x, m))
            % q == point_eval(coeffs(polymul_out_columns(row, n)), x, m) % q
    }

    /// The gadget's relation on one row: on the first row the input columns
    /// are bound to the declared polynomials, and on every row the product
    /// relation holds at each point of the domain `[0, 2n - 2]`.
    pub open spec fn holds_on(&self, row: Seq<u32>, is_first_row: bool, field_order: nat) -> bool {
        &&& is_first_row ==> all_hold_on(input_bindings(self.a@, self.b@), row)
        &&& forall|x: nat|
            x < product_len_of(self.degree()) ==> #[trigger] self.product_holds_at(
                row,
                x,
                field_order,
            )
    }

    /// Evaluates the gadget's relation on `row`, whose cells are canonical
    /// values of a field of `field_order` elements.
    pub fn eval(&self, row: &Vec<u32>, is_first_row: bool, field_order: u32) -> (ok: bool)
        requires
            self.wf(),
            row.len() == polymul_width_of(self.degree()),
            field_order > 0,
        ensures
            ok == self.holds_on(row@, is_first_row, field_order as nat),
    {
        let n: usize = self.a.len();
        let points: usize = product_len(n);
        if is_first_row {
            let constraints = self.boundary_constraints();
            if !check_boundary(&constraints, row) {
                return false;
            }
        }
        let mut x: usize = 0;
        while x < points
            invariant
                x <= points,
                points == product_len_of(self.degree()),
                n == self.degree(),
                self.wf(),
                row.len() == polymul_width_of(self.degree()),
                field_order > 0,
                forall|y: nat|
                    y < x ==> #[trigger] self.product_holds_at(row@, y, field_order as nat),
            decreases points - x,
        {
            let powers = self.power_row(x);
            let ghost m = self.modulus as nat;
            let a_eval: u32 = weighted_sum(row, 0, n, &powers, field_order, Ghost(x as nat), Ghost(m));
            let b_eval: u32 = weighted_sum(row, n, n, &powers, field_order, Ghost(x as nat), Ghost(m));
            let out_eval: u32 = weighted_sum(
                row,
                2 * n,
                points,
                &powers,
                field_order,
                Ghost(x as nat),
                Ghost(m),
            );
            assert(a_eval * b_eval <= 0xffff_ffff * 0xffff_ffff) by (nonlinear_arith)
                requires
                    0 <= a_eval <= 0xffff_ffff,
                    0 <= b_eval <= 0xffff_ffff,
            ;
            let product: u64 = ((a_eval as u64) * (b_eval as u64)) % (field_order as u64);
            proof {
                let q = field_order as int;
                let av = point_eval(coeffs(a_columns(row@, n as nat)), x as nat, m);
                let bv = point_eval(coeffs(b_columns(row@, n as nat)), x as nat, m);
                lemma_mul_mod_noop_general(av, bv, q);
            }
            if product != out_eval as u64 {
                assert(!self.product_holds_at(row@, x as nat, field_order as nat));
                return false;
            }
            x = x + 1;
        }
        true
    }
}

/// The columns of the row the builder writes are the inputs and the reduced
/// product, each in its place.
pub proof fn lemma_polymul_row_columns(a: Seq<u32>, b: Seq<u32>, modulus: u32)
    requires
        a.len() == b.len(),
        a.len() >= 1,
    ensures
        polymul_row(a, b, modulus).len() == polymul_width_of(a.len()),
        a_columns(polymul_row(a, b, modulus), a.len()) == a,
        b_columns(polymul_row(a, b, modulus), a.len()) == b,
        polymul_out_columns(polymul_row(a, b, modulus), a.len()) == polymul_out(a, b, modulus),
{
    let row = polymul_row(a, b, modulus);
    let n = a.len();
    assert(a_columns(row, n) =~= a);
    assert(b_columns(row, n) =~= b);
    assert(polymul_out_columns(row, n) =~= polymul_out(a, b, modulus));
}

/// The point-evaluation identity of the multiplication gadget: for the
/// output that the builder writes, the values of the two inputs at `x`
/// multiply to the value of the output at `x`, modulo the ring modulus. The
/// values are those that the table of reduced powers gives.
pub proof fn lemma_polymul_point_identity(a: Seq<u32>, b: Seq<u32>, modulus: u32, x: nat)
    requires
        a.len() == b.len(),
        a.len() >= 1,
        modulus > 0,
    ensures
        (point_eval(coeffs(a), x, modulus as nat) * point_eval(coeffs(b), x, modulus as nat)) % (
        modulus as int) == point_eval(coeffs(polymul_out(a, b, modulus)), x, modulus as nat) % (
        modulus as int),
{
    let m = modulus as int;
    let ca = coeffs(a);
    let cb = coeffs(b);
    let out = coeffs(polymul_out(a, b, modulus));
    let exact = poly_product(ca, cb);
    let xi = x as int;
    // The inputs: reduced powers change neither value modulo m.
    lemma_point_eval_congruent(ca, x, modulus as nat, ca.len());
    lemma_point_eval_congruent(cb, x, modulus as nat, cb.len());
    lemma_mul_mod_noop_general(
        point_eval(ca, x, modulus as nat),
        point_eval(cb, x, modulus as nat),
        m,
    );
    lemma_mul_mod_noop_general(poly_eval(ca, xi), poly_eval(cb, xi), m);
    // The output: reduced coefficients and reduced powers change nothing
    // modulo m either, and the exact product evaluates to the product.
    lemma_point_eval_congruent(out, x, modulus as nat, out.len());
    assert forall|k: int| 0 <= k < out.len() implies out[k] % m == exact[k] % m by {
        lemma_mod_twice(exact[k], m);
    }
    lemma_poly_eval_congruent(out, exact, xi, m, out.len());
    lemma_poly_product_eval(ca, cb, xi);
}

/// In a field whose order is the ring modulus itself, the gadget's relation
/// holds on the first row that the builder writes.
pub proof fn lemma_polymul_trace_holds_modulo(air: PolyMulAir)
    requires
        air.wf(),
    ensures
        air.holds_on(polymul_row(air.a@, air.b@, air.modulus), true, air.modulus as nat),
{
    let row = polymul_row(air.a@, air.b@, air.modulus);
    lemma_polymul_row_columns(air.a@, air.b@, air.modulus);
    lemma_input_bindings_hold(air.a@, air.b@, row);
    assert(row.subrange(0, 2 * air.a@.len() as int) =~= air.a@ + air.b@);
    assert forall|x: nat| x < product_len_of(air.degree()) implies #[trigger] air.product_holds_at(
        row,
        x,
        air.modulus as nat,
    ) by {
        lemma_polymul_point_identity(air.a@, air.b@, air.modulus, x);
    }
}

/// The point-evaluation identity where reduction never takes place: if no
/// product coefficient reaches the modulus and no power of `x` below
/// `2n - 1` does, the values of the two inputs at `x` multiply to the value
/// of the output at `x`, as integers.
pub proof fn lemma_polymul_point_identity_unwrapped(
    a: Seq<u32>,
    b: Seq<u32>,
    modulus: u32,
    x: nat,
)
    requires
        a.len() == b.len(),
        a.len() >= 1,
        forall|k: int|
            0 <= k < product_len_of(a.len()) ==> conv_coeff(coeffs(a), coeffs(b), k) < modulus,
        forall|j: nat| j < product_len_of(a.len()) ==> pow(x as int, j) < modulus,
    ensures
        point_eval(coeffs(a), x, modulus as nat) * point_eval(coeffs(b), x, modulus as nat)
            == point_eval(coeffs(polymul_out(a, b, modulus)), x, modulus as nat),
{
    let m = modulus as nat;
    let ca = coeffs(a);
    let cb = coeffs(b);
    let out = coeffs(polymul_out(a, b, modulus));
    let exact = poly_product(ca, cb);
    assert forall|k: int| 0 <= k < out.len() implies out[k] == exact[k] by {
        lemma_conv_coeff_nonnegative(ca, cb, k, ca.len());
        lemma_small_mod(exact[k] as nat, m);
    }
    lemma_point_eval_exact(ca, x, m, ca.len());
    lemma_point_eval_exact(cb, x, m, cb.len());
    lemma_point_eval_exact(out, x, m, out.len());
    lemma_poly_eval_upto_agrees(out, exact, x as int, out.len());
    lemma_poly_product_eval(ca, cb, x as int);
}

/// Where reduction never takes place, the gadget's relation holds on the
/// first row that the builder writes, in a field of any order: no product
/// coefficient reaches the modulus, and no power of a point of the domain
/// does.
pub proof fn lemma_polymul_trace_holds_unwrapped(air: PolyMulAir, field_order: nat)
    requires
        air.wf(),
        field_order > 0,
        forall|k: int|
            0 <= k < product_len_of(air.degree()) ==> conv_coeff(
                coeffs(air.a@),
                coeffs(air.b@),
                k,
            ) < air.modulus,
        forall|x: nat, j: nat|
            x < product_len_of(air.degree()) && j < product_len_of(air.degree()) ==> pow(
                x as int,
                j,
            ) < air.modulus,
    ensures
        air.holds_on(polymul_row(air.a@, air.b@, air.modulus), true, field_order),
{
    let row = polymul_row(air.a@, air.b@, air.modulus);
    lemma_polymul_row_columns(air.a@, air.b@, air.modulus);
    lemma_input_bindings_hold(air.a@, air.b@, row);
    assert(row.subrange(0, 2 * air.a@.len() as int) =~= air.a@ + air.b@);
    assert forall|x: nat| x < product_len_of(air.degree()) implies #[trigger] air.product_holds_at(
        row,
        x,
        field_order,
    ) by {
        lemma_polymul_point_identity_unwrapped(air.a@, air.b@, air.modulus, x);
    }
}

/// Soundness of the point-evaluation check where nothing wraps. Let the
/// gadget's relation hold on a first row, let no power of a point of the
/// domain reach the ring modulus, and let neither the product of the input
/// values nor the output value reach the field order at any point. Then the
/// `out` columns of the row are the coefficients of the product of the
/// declared polynomials: agreement at `2n - 1` distinct points fixes the
/// `2n - 1` coefficients.
pub proof fn lemma_polymul_eval_sound(air: PolyMulAir, row: Seq<u32>, field_order: nat)
    requires
        air.wf(),
        row.len() == polymul_width_of(air.degree()),
        field_order > 0,
        air.holds_on(row, true, field_order),
        forall|x: nat, j: nat|
            x < product_len_of(air.degree()) && j < product_len_of(air.degree()) ==> pow(
                x as int,
                j,
            ) < air.modulus,
        forall|x: nat|
            x < product_len_of(air.degree()) ==> poly_eval(coeffs(air.a@), x as int) * poly_eval(
                coeffs(air.b@),
                x as int,
            ) < field_order,
        forall|x: nat|
            x < product_len_of(air.degree()) ==> poly_eval(
                coeffs(polymul_out_columns(row, air.degree())),
                x as int,
            ) < field_order,
    ensures
        coeffs(polymul_out_columns(row, air.degree())) == poly_product(
            coeffs(air.a@),
            coeffs(air.b@),
        ),
        forall|k: int|
            0 <= k < product_len_of(air.degree()) ==> polymul_out_columns(row, air.degree())[k]
                == conv_coeff(coeffs(air.a@), coeffs(air.b@), k),
{
    let n = air.degree();
    let m = air.modulus as nat;
    let ca = coeffs(air.a@);
    let cb = coeffs(air.b@);
    let out = coeffs(polymul_out_columns(row, n));
    let exact = poly_product(ca, cb);
    let points = Seq::new(product_len_of(n), |i: int| i);
    lemma_input_bindings_hold(air.a@, air.b@, row);
    assert(a_columns(row, n) =~= (air.a@ + air.b@).subrange(0, n as int));
    assert(b_columns(row, n) =~= (air.a@ + air.b@).subrange(n as int, 2 * n as int));
    assert(a_columns(row, n) =~= air.a@);
    assert(b_columns(row, n) =~= air.b@);
    assert forall|i: int| 0 <= i < points.len() implies poly_eval(out, #[trigger] points[i])
        == poly_eval(exact, points[i]) by {
        let x = i as nat;
        let av = poly_eval(ca, i);
        let bv = poly_eval(cb, i);
        let ov = poly_eval(out, i);
        assert(air.product_holds_at(row, x, field_order));
        lemma_point_eval_exact(ca, x, m, ca.len());
        lemma_point_eval_exact(cb, x, m, cb.len());
        lemma_point_eval_exact(out, x, m, out.len());
        lemma_poly_eval_nonnegative(ca, i, ca.len());
        lemma_poly_eval_nonnegative(cb, i, cb.len());
        lemma_poly_eval_nonnegative(out, i, out.len());
        assert(av * bv >= 0) by (nonlinear_arith)
            requires
                av >= 0,
                bv >= 0,
        ;
        lemma_small_mod((av * bv) as nat, field_order);
        lemma_small_mod(ov as nat, field_order);
        lemma_poly_product_eval(ca, cb, i);
    }
    lemma_agreeing_are_equal(out, exact, points);
    assert forall|k: int| 0 <= k < product_len_of(n) implies polymul_out_columns(row, n)[k]
        == conv_coeff(ca, cb, k) by {
        assert(out[k] == exact[k]);
    }
}

/// A convolution sum of non-negative coefficients is not negative.
proof fn lemma_conv_coeff_nonnegative(a: Seq<int>, b: Seq<int>, k: int, upto: nat)
    requires
        forall|i: int| 0 <= i < a.len() ==> a[i] >= 0,
        forall|i: int| 0 <= i < b.len() ==> b[i] >= 0,
    ensures
        conv_upto(a, b, k, upto) >= 0,
    decreases upto,
{
    if upto > 0 {
        let i = upto - 1;
        lemma_conv_coeff_nonnegative(a, b, k, i as nat);
        if 0 <= i < a.len() && 0 <= k - i < b.len() {
            assert(a[i] * b[k - i] >= 0) by (nonlinear_arith)
                requires
                    a[i] >= 0,
                    b[k - i] >= 0,
            ;
        }
    }
}

/// On a row of zeros that is not the first, the gadget's relation holds in a
/// field of any order: the padding rows satisfy it.
pub proof fn lemma_polymul_zero_row_holds(air: PolyMulAir, field_order: nat)
    requires
        air.wf(),
        field_order > 0,
    ensures
        air.holds_on(zero_row(polymul_width_of(air.degree())), false, field_order),
{
    let n = air.degree();
    let m = air.modulus as nat;
    let row = zero_row(polymul_width_of(n));
    let ca = coeffs(a_columns(row, n));
    let cb = coeffs(b_columns(row, n));
    let out = coeffs(polymul_out_columns(row, n));
    assert forall|x: nat| x < product_len_of(n) implies #[trigger] air.product_holds_at(
        row,
        x,
        field_order,
    ) by {
        lemma_point_eval_zero(ca, x, m, ca.len());
        lemma_point_eval_zero(cb, x, m, cb.len());
        lemma_point_eval_zero(out, x, m, out.len());
        assert(0int * 0int == 0);
    }
}

} // verus!
