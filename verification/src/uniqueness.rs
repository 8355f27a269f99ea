//! A polynomial is fixed by its values at as many distinct points as it has
//! coefficients.

use crate::poly::{poly_eval, poly_eval_upto};
use vstd::arithmetic::power::{lemma_pow0, pow};
use vstd::prelude::*;

verus! {

/// Coefficient `k` of the quotient of `c` by `x - r`, by synthetic division
/// from the leading coefficient down.
pub open spec fn quotient_at(c: Seq<int>, r: int, k: int) -> int
    decreases c.len() - k,
{
    if k < 0 || k + 1 >= c.len() {
        0
    } else {
        c[k + 1] + r * quotient_at(c, r, k + 1)
    }
}

/// The quotient of `c` by `x - r`.
pub open spec fn quotient(c: Seq<int>, r: int) -> Seq<int> {
    Seq::new((c.len() - 1) as nat, |k: int| quotient_at(c, r, k))
}

/// The remainder of `c` by `x - r`.
pub open spec fn remainder(c: Seq<int>, r: int) -> int {
    c[0] + r * quotient_at(c, r, 0)
}

/// `x * x^n == x^(n + 1)`.
proof fn lemma_pow_step(x: int, n: nat)
    ensures
        x * pow(x, n) == pow(x, n + 1),
{
    reveal(pow);
}

/// The division identity on the coefficients below `upto`, the leading one
/// left out.
proof fn lemma_division_partial(c: Seq<int>, r: int, x: int, upto: nat)
    requires
        c.len() >= 2,
        1 <= upto <= c.len() - 1,
    ensures
        poly_eval_upto(c, x, upto) == remainder(c, r) + x * poly_eval_upto(
            quotient(c, r),
            x,
            (upto - 1) as nat,
        ) - r * poly_eval_upto(quotient(c, r), x, upto),
    decreases upto,
{
    let q = quotient(c, r);
    if upto == 1 {
        lemma_pow0(x);
        reveal_with_fuel(poly_eval_upto, 2);
        assert(poly_eval_upto(c, x, 1) == c[0] * pow(x, 0));
        assert(poly_eval_upto(q, x, 1) == q[0] * pow(x, 0));
        assert(c[0] * 1 == c[0] && q[0] * 1 == q[0] && x * 0 == 0) by (nonlinear_arith);
    } else {
        let n = (upto - 1) as nat;
        let m = (n - 1) as nat;
        lemma_division_partial(c, r, x, n);
        lemma_pow_step(x, m);
        let low = poly_eval_upto(q, x, m);
        let mid = poly_eval_upto(q, x, n);
        let top = poly_eval_upto(q, x, upto);
        let xn = pow(x, n);
        let xm = pow(x, m);
        assert(mid == low + q[m as int] * xm);
        assert(top == mid + q[n as int] * xn);
        assert(c[n as int] == q[m as int] - r * q[n as int]);
        let qm = q[m as int];
        let qn = q[n as int];
        assert(x * mid == x * low + qm * xn) by (nonlinear_arith)
            requires
                mid == low + qm * xm,
                x * xm == xn,
        ;
        assert(r * top == r * mid + r * (qn * xn)) by (nonlinear_arith)
            requires
                top == mid + qn * xn,
        ;
        assert(c[n as int] * xn == qm * xn - r * (qn * xn)) by (nonlinear_arith)
            requires
                c[n as int] == qm - r * qn,
        ;
    }
}

/// The division identity: `c(x) == remainder + (x - r) * quotient(x)`.
pub proof fn lemma_division(c: Seq<int>, r: int, x: int)
    requires
        c.len() >= 1,
    ensures
        poly_eval(c, x) == remainder(c, r) + (x - r) * poly_eval(quotient(c, r), x),
{
    let q = quotient(c, r);
    if c.len() == 1 {
        lemma_pow0(x);
        reveal_with_fuel(poly_eval_upto, 2);
        assert(poly_eval_upto(c, x, 1) == c[0] * pow(x, 0));
        assert(c[0] * 1 == c[0] && r * 0 == 0 && (x - r) * 0 == 0) by (nonlinear_arith);
    } else {
        let n = (c.len() - 1) as nat;
        let m = (n - 1) as nat;
        lemma_division_partial(c, r, x, n);
        lemma_pow_step(x, m);
        let low = poly_eval_upto(q, x, m);
        let mid = poly_eval_upto(q, x, n);
        let xn = pow(x, n);
        let xm = pow(x, m);
        assert(quotient_at(c, r, n as int) == 0);
        assert(c[n as int] == q[m as int]) by {
            assert(r * 0 == 0) by (nonlinear_arith);
        }
        let qm = q[m as int];
        assert(x * mid == x * low + qm * xn) by (nonlinear_arith)
            requires
                mid == low + qm * xm,
                x * xm == xn,
        ;
        assert((x - r) * mid == x * mid - r * mid) by (nonlinear_arith);
    }
}

/// A polynomial that vanishes at as many distinct points as it has
/// coefficients is the zero polynomial.
pub proof fn lemma_vanishing_is_zero(c: Seq<int>, points: Seq<int>)
    requires
        points.len() == c.len(),
        forall|i: int, j: int| 0 <= i < j < points.len() ==> points[i] != points[j],
        forall|i: int| 0 <= i < points.len() ==> poly_eval(c, #[trigger] points[i]) == 0,
    ensures
        forall|k: int| 0 <= k < c.len() ==> c[k] == 0,
    decreases c.len(),
{
    if c.len() > 0 {
        let last = c.len() - 1;
        let r = points[last];
        let q = quotient(c, r);
        let rest = points.subrange(0, last);
        lemma_division(c, r, r);
        assert((r - r) * poly_eval(q, r) == 0) by (nonlinear_arith);
        assert(remainder(c, r) == 0);
        assert forall|i: int| 0 <= i < rest.len() implies poly_eval(q, #[trigger] rest[i]) == 0 by {
            let x = points[i];
            lemma_division(c, r, x);
            assert(poly_eval(q, x) == 0) by (nonlinear_arith)
                requires
                    (x - r) * poly_eval(q, x) == 0,
                    x != r,
            ;
        }
        lemma_vanishing_is_zero(q, rest);
        assert forall|k: int| 0 <= k < c.len() implies c[k] == 0 by {
            let above = quotient_at(c, r, k);
            assert(above == 0) by {
                if k < last {
                    assert(q[k] == 0);
                }
            }
            assert(r * above == 0) by (nonlinear_arith)
                requires
                    above == 0,
            ;
            if k > 0 {
                assert(q[k - 1] == 0);
                assert(quotient_at(c, r, k - 1) == c[k] + r * above);
            }
        }
    }
}

/// Two polynomials of `n` coefficients each that agree at `n` distinct
/// points have the same coefficients.
pub proof fn lemma_agreeing_are_equal(c: Seq<int>, d: Seq<int>, points: Seq<int>)
    requires
        c.len() == d.len(),
        points.len() == c.len(),
        forall|i: int, j: int| 0 <= i < j < points.len() ==> points[i] != points[j],
        forall|i: int|
            0 <= i < points.len() ==> poly_eval(c, #[trigger] points[i]) == poly_eval(d, points[i]),
    ensures
        c == d,
{
    let diff = Seq::new(c.len(), |k: int| c[k] - d[k]);
    assert forall|i: int| 0 <= i < points.len() implies poly_eval(diff, #[trigger] points[i])
        == 0 by {
        lemma_poly_eval_upto_subtracts(diff, c, d, points[i], c.len());
    }
    lemma_vanishing_is_zero(diff, points);
    assert forall|k: int| 0 <= k < c.len() implies c[k] == d[k] by {
        assert(diff[k] == 0);
    }
    assert(c =~= d);
}

/// Evaluation takes differences of coefficients to differences of values.
proof fn lemma_poly_eval_upto_subtracts(s: Seq<int>, c: Seq<int>, d: Seq<int>, x: int, upto: nat)
    requires
        forall|j: int| 0 <= j < upto ==> s[j] == c[j] - d[j],
    ensures
        poly_eval_upto(s, x, upto) == poly_eval_upto(c, x, upto) - poly_eval_upto(d, x, upto),
    decreases upto,
{
    if upto > 0 {
        let j = (upto - 1) as nat;
        lemma_poly_eval_upto_subtracts(s, c, d, x, j);
        assert(s[j as int] * pow(x, j) == c[j as int] * pow(x, j) - d[j as int] * pow(x, j))
            by (nonlinear_arith)
            requires
                s[j as int] == c[j as int] - d[j as int],
        ;
    }
}

} // verus!
