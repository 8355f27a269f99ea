//! Polynomials as coefficient sequences: evaluation at a point, the
//! convolution that multiplies two of them, and the identity between the two.

use crate::modpow::pow_mod;
use vstd::arithmetic::div_mod::{
    lemma_add_mod_noop, lemma_mul_mod_noop_left, lemma_mul_mod_noop_right, lemma_small_mod,
};
use vstd::arithmetic::power::{lemma0_pow, lemma_pow0, lemma_pow_adds, lemma_pow_positive, pow};
use vstd::prelude::*;

verus! {

/// The coefficients of a polynomial as mathematical integers; index `j`
/// belongs to the power `j` of the formal variable.
pub open spec fn coeffs(p: Seq<u32>) -> Seq<int> {
    Seq::new(p.len(), |j: int| p[j] as int)
}

/// The sum of `c[j] * x^j` over `j < upto`.
pub open spec fn poly_eval_upto(c: Seq<int>, x: int, upto: nat) -> int
    decreases upto,
{
    if upto == 0 {
        0
    } else {
        poly_eval_upto(c, x, (upto - 1) as nat) + c[upto - 1] * pow(x, (upto - 1) as nat)
    }
}

/// The value of the polynomial `c` at `x`.
pub open spec fn poly_eval(c: Seq<int>, x: int) -> int {
    poly_eval_upto(c, x, c.len())
}

/// The sum of `c[j] * (x^j mod modulus)` over `j < upto`: evaluation through
/// a table of reduced powers.
pub open spec fn point_eval_upto(c: Seq<int>, x: nat, modulus: nat, upto: nat) -> int
    decreases upto,
{
    if upto == 0 {
        0
    } else {
        point_eval_upto(c, x, modulus, (upto - 1) as nat) + c[upto - 1] * pow_mod(
            x,
            (upto - 1) as nat,
            modulus,
        )
    }
}

/// The value that the table of reduced powers gives the polynomial `c` at `x`.
pub open spec fn point_eval(c: Seq<int>, x: nat, modulus: nat) -> int {
    point_eval_upto(c, x, modulus, c.len())
}

/// The contribution of `a[i]` to coefficient `k` of the product: `a[i] * b[k - i]`
/// where both indices exist, and nothing otherwise.
pub open spec fn conv_term(a: Seq<int>, b: Seq<int>, k: int, i: int) -> int {
    if 0 <= i < a.len() && 0 <= k - i < b.len() {
        a[i] * b[k - i]
    } else {
        0
    }
}

/// The sum of `conv_term(a, b, k, i)` over `i < upto`.
pub open spec fn conv_upto(a: Seq<int>, b: Seq<int>, k: int, upto: nat) -> int
    decreases upto,
{
    if upto == 0 {
        0
    } else {
        conv_upto(a, b, k, (upto - 1) as nat) + conv_term(a, b, k, upto - 1)
    }
}

/// Coefficient `k` of the product of `a` and `b`: the sum of `a[i] * b[j]`
/// over `i + j == k`.
pub open spec fn conv_coeff(a: Seq<int>, b: Seq<int>, k: int) -> int {
    conv_upto(a, b, k, a.len())
}

/// The product of two non-empty polynomials, unreduced.
pub open spec fn poly_product(a: Seq<int>, b: Seq<int>) -> Seq<int>
    recommends
        a.len() >= 1,
        b.len() >= 1,
{
    Seq::new((a.len() + b.len() - 1) as nat, |k: int| conv_coeff(a, b, k))
}

/// Evaluation reads only the coefficients below `upto`.
pub proof fn lemma_poly_eval_upto_agrees(c: Seq<int>, d: Seq<int>, x: int, upto: nat)
    requires
        forall|j: int| 0 <= j < upto ==> c[j] == d[j],
    ensures
        poly_eval_upto(c, x, upto) == poly_eval_upto(d, x, upto),
    decreases upto,
{
    if upto > 0 {
        lemma_poly_eval_upto_agrees(c, d, x, (upto - 1) as nat);
    }
}

/// Evaluation is additive in the coefficients.
pub proof fn lemma_poly_eval_upto_adds(s: Seq<int>, c: Seq<int>, d: Seq<int>, x: int, upto: nat)
    requires
        forall|j: int| 0 <= j < upto ==> s[j] == c[j] + d[j],
    ensures
        poly_eval_upto(s, x, upto) == poly_eval_upto(c, x, upto) + poly_eval_upto(d, x, upto),
    decreases upto,
{
    if upto > 0 {
        let j = (upto - 1) as nat;
        lemma_poly_eval_upto_adds(s, c, d, x, j);
        assert(s[j as int] * pow(x, j) == c[j as int] * pow(x, j) + d[j as int] * pow(x, j))
            by (nonlinear_arith)
            requires
                s[j as int] == c[j as int] + d[j as int],
        ;
    }
}

/// A polynomial whose coefficients are those of `b`, scaled by `s` and moved
/// up by `shift` places, evaluates to `s * x^shift` times the value of `b`.
pub proof fn lemma_poly_eval_upto_shifted(
    t: Seq<int>,
    b: Seq<int>,
    s: int,
    shift: nat,
    x: int,
    upto: nat,
)
    requires
        forall|k: int|
            0 <= k < upto ==> t[k] == if shift <= k < shift + b.len() {
                s * b[k - shift]
            } else {
                0
            },
    ensures
        upto <= shift ==> poly_eval_upto(t, x, upto) == 0,
        shift <= upto <= shift + b.len() ==> poly_eval_upto(t, x, upto) == s * pow(x, shift)
            * poly_eval_upto(b, x, (upto - shift) as nat),
        shift + b.len() <= upto ==> poly_eval_upto(t, x, upto) == s * pow(x, shift) * poly_eval(
            b,
            x,
        ),
    decreases upto,
{
    let sx = s * pow(x, shift);
    if upto == 0 {
        assert(sx * 0 == 0) by (nonlinear_arith);
    } else {
        let k = (upto - 1) as nat;
        lemma_poly_eval_upto_shifted(t, b, s, shift, x, k);
        if k < shift {
            assert(0 * pow(x, k) == 0) by (nonlinear_arith);
            if upto == shift {
                assert(sx * 0 == 0) by (nonlinear_arith);
            }
        } else if k < shift + b.len() {
            let j = (k - shift) as nat;
            lemma_pow_adds(x, shift, j);
            let prev = poly_eval_upto(b, x, j);
            assert(sx * prev + (s * b[j as int]) * pow(x, k) == sx * (prev + b[j as int] * pow(x, j)))
                by (nonlinear_arith)
                requires
                    sx == s * pow(x, shift),
                    pow(x, k) == pow(x, shift) * pow(x, j),
            ;
        } else {
            assert(0 * pow(x, k) == 0) by (nonlinear_arith);
        }
    }
}

/// The product polynomial evaluates to the product of the two values:
/// `(a * b)(x) == a(x) * b(x)`.
pub proof fn lemma_poly_product_eval(a: Seq<int>, b: Seq<int>, x: int)
    requires
        a.len() >= 1,
        b.len() >= 1,
    ensures
        poly_eval(poly_product(a, b), x) == poly_eval(a, x) * poly_eval(b, x),
{
    lemma_partial_product_eval(a, b, x, a.len());
    let whole = Seq::new((a.len() + b.len() - 1) as nat, |k: int| conv_upto(a, b, k, a.len()));
    assert(whole =~= poly_product(a, b));
}

/// The product identity with only the first `upto` coefficients of `a` taken
/// into the convolution.
proof fn lemma_partial_product_eval(a: Seq<int>, b: Seq<int>, x: int, upto: nat)
    requires
        a.len() >= 1,
        b.len() >= 1,
        upto <= a.len(),
    ensures
        poly_eval(
            Seq::new((a.len() + b.len() - 1) as nat, |k: int| conv_upto(a, b, k, upto)),
            x,
        ) == poly_eval_upto(a, x, upto) * poly_eval(b, x),
    decreases upto,
{
    let len = (a.len() + b.len() - 1) as nat;
    let cur = Seq::new(len, |k: int| conv_upto(a, b, k, upto));
    let bx = poly_eval(b, x);
    if upto == 0 {
        let zero = Seq::new(len, |k: int| 0int);
        assert(cur =~= zero);
        lemma_poly_eval_upto_shifted(zero, Seq::<int>::empty(), 0, 0, x, len);
        assert(0 * pow(x, 0) * poly_eval(Seq::<int>::empty(), x) == 0) by (nonlinear_arith);
        assert(0 * bx == 0) by (nonlinear_arith);
    } else {
        let i = (upto - 1) as nat;
        let prev = Seq::new(len, |k: int| conv_upto(a, b, k, i));
        let step = Seq::new(len, |k: int| conv_term(a, b, k, i as int));
        lemma_partial_product_eval(a, b, x, i);
        lemma_poly_eval_upto_adds(cur, prev, step, x, len);
        lemma_poly_eval_upto_shifted(step, b, a[i as int], i, x, len);
        let ax = poly_eval_upto(a, x, i);
        assert(ax * bx + a[i as int] * pow(x, i) * bx == (ax + a[i as int] * pow(x, i)) * bx)
            by (nonlinear_arith);
    }
}

/// Evaluation through the table of reduced powers agrees with true
/// evaluation modulo `modulus`.
pub proof fn lemma_point_eval_congruent(c: Seq<int>, x: nat, modulus: nat, upto: nat)
    requires
        modulus > 0,
    ensures
        point_eval_upto(c, x, modulus, upto) % (modulus as int) == poly_eval_upto(
            c,
            x as int,
            upto,
        ) % (modulus as int),
    decreases upto,
{
    if upto > 0 {
        let j = (upto - 1) as nat;
        let m = modulus as int;
        let reduced = point_eval_upto(c, x, modulus, j);
        let exact = poly_eval_upto(c, x as int, j);
        let cj = c[j as int];
        lemma_point_eval_congruent(c, x, modulus, j);
        lemma_mul_mod_noop_right(cj, pow(x as int, j), m);
        lemma_add_mod_noop(reduced, cj * (pow_mod(x, j, modulus) as int), m);
        lemma_add_mod_noop(exact, cj * pow(x as int, j), m);
    }
}

/// Coefficients that agree modulo `modulus` give values that agree modulo
/// `modulus`.
pub proof fn lemma_poly_eval_congruent(c: Seq<int>, d: Seq<int>, x: int, modulus: int, upto: nat)
    requires
        modulus > 0,
        forall|j: int| 0 <= j < upto ==> c[j] % modulus == d[j] % modulus,
    ensures
        poly_eval_upto(c, x, upto) % modulus == poly_eval_upto(d, x, upto) % modulus,
    decreases upto,
{
    if upto > 0 {
        let j = (upto - 1) as nat;
        lemma_poly_eval_congruent(c, d, x, modulus, j);
        lemma_mul_mod_noop_left(c[j as int], pow(x, j), modulus);
        lemma_mul_mod_noop_left(d[j as int], pow(x, j), modulus);
        lemma_add_mod_noop(poly_eval_upto(c, x, j), c[j as int] * pow(x, j), modulus);
        lemma_add_mod_noop(poly_eval_upto(d, x, j), d[j as int] * pow(x, j), modulus);
    }
}

/// A polynomial without negative coefficients has no negative value at a
/// point that is not negative.
pub proof fn lemma_poly_eval_nonnegative(c: Seq<int>, x: int, upto: nat)
    requires
        x >= 0,
        forall|j: int| 0 <= j < upto ==> c[j] >= 0,
    ensures
        poly_eval_upto(c, x, upto) >= 0,
    decreases upto,
{
    if upto > 0 {
        let j = (upto - 1) as nat;
        lemma_poly_eval_nonnegative(c, x, j);
        if x > 0 {
            lemma_pow_positive(x, j);
        } else if j == 0 {
            lemma_pow0(0);
        } else {
            lemma0_pow(j);
        }
        assert(c[j as int] * pow(x, j) >= 0) by (nonlinear_arith)
            requires
                c[j as int] >= 0,
                pow(x, j) >= 0,
        ;
    }
}

/// A polynomial whose coefficients are all zero evaluates to zero.
pub proof fn lemma_point_eval_zero(c: Seq<int>, x: nat, modulus: nat, upto: nat)
    requires
        forall|j: int| 0 <= j < upto ==> c[j] == 0,
    ensures
        point_eval_upto(c, x, modulus, upto) == 0,
    decreases upto,
{
    if upto > 0 {
        let j = (upto - 1) as nat;
        lemma_point_eval_zero(c, x, modulus, j);
        assert(0 * (pow_mod(x, j, modulus) as int) == 0) by (nonlinear_arith);
    }
}

/// Where no power of `x` below `upto` reaches `modulus`, the table of
/// reduced powers holds the powers themselves, and the two evaluations
/// coincide.
pub proof fn lemma_point_eval_exact(c: Seq<int>, x: nat, modulus: nat, upto: nat)
    requires
        forall|j: nat| j < upto ==> pow(x as int, j) < modulus,
    ensures
        point_eval_upto(c, x, modulus, upto) == poly_eval_upto(c, x as int, upto),
    decreases upto,
{
    if upto > 0 {
        let j = (upto - 1) as nat;
        lemma_point_eval_exact(c, x, modulus, j);
        if x > 0 {
            lemma_pow_positive(x as int, j);
        } else if j == 0 {
            lemma_pow0(0);
        } else {
            lemma0_pow(j);
        }
        lemma_small_mod(pow(x as int, j) as nat, modulus);
    }
}

} // verus!
