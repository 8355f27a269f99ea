//! A plan for checking reduced sums against a modulus that is foreign to the
//! backend's field.
//!
//! For coefficients `a, b < p` the relation `a + b == q * p + out` cannot be
//! checked in a field of `n` elements alone, since `a + b` may reach `n`. It
//! is split into two congruences, one modulo a power of two `2^t` and one
//! modulo `n`, with `2^t` and `n` coprime and `2^t * n > 2p`. The quotient
//! `q` is computed outside and supplied with the row.
//!
//! The plan stands by itself: neither gadget's relation includes it.

use crate::gadgets::add::{lemma_polyadd_boundary_holds, polyadd_out, PolyAddAir};
use crate::layout::{a_columns, b_columns, polyadd_out_columns, polyadd_width_of, MAX_DEGREE};
use vstd::arithmetic::div_mod::{
    lemma_fundamental_div_mod, lemma_mod_equivalence, lemma_mod_multiples_basic,
};
use vstd::arithmetic::power2::{lemma2_to64, lemma_pow2_pos, lemma_pow2_unfold, pow2};
use vstd::prelude::*;

verus! {

/// Whether `d` divides `x`.
pub open spec fn divides(d: int, x: int) -> bool
    recommends
        d > 0,
{
    x % d == 0
}

/// Whether `a` and `b` have no common divisor above 1.
pub open spec fn coprime(a: nat, b: nat) -> bool {
    forall|d: int| d > 1 ==> !(#[trigger] divides(d, a as int) && divides(d, b as int))
}

/// The two moduli of the split: `2^log_power`, kept as `power`, and the
/// order of the backend's field.
#[derive(Clone, Copy, Debug, PartialEq, Eq, Structural)]
pub struct CrtPlan {
    pub log_power: u32,
    pub power: u64,
    pub field_order: u32,
}

/// The quotient and remainder of `a + b` by `modulus`, for coefficients
/// below the modulus: what an honest prover supplies as `q` and `out`.
pub fn sum_witness(a: u32, b: u32, modulus: u32) -> (witness: (u32, u32))
    requires
        a < modulus,
        b < modulus,
    ensures
        witness.0 == (a + b) / (modulus as int),
        witness.1 == (a + b) % (modulus as int),
        witness.0 <= 1,
        witness.1 < modulus,
{
    let sum: u64 = a as u64 + b as u64;
    if sum >= modulus as u64 {
        proof {
            vstd::arithmetic::div_mod::lemma_fundamental_div_mod_converse(
                sum as int,
                modulus as int,
                1,
                sum - modulus,
            );
        }
        (1, (sum - modulus as u64) as u32)
    } else {
        proof {
            vstd::arithmetic::div_mod::lemma_fundamental_div_mod_converse(
                sum as int,
                modulus as int,
                0,
                sum as int,
            );
        }
        (0, sum as u32)
    }
}

/// Whether `power * field_order` exceeds `bound`, with the product formed in
/// 128 bits.
fn product_exceeds(power: u64, field_order: u32, bound: u64) -> (exceeds: bool)
    ensures
        exceeds == (power * field_order > bound),
{
    assert(power * field_order <= 0xffff_ffff_ffff_ffff * 0xffff_ffff) by (nonlinear_arith)
        requires
            0 <= power <= 0xffff_ffff_ffff_ffff,
            0 <= field_order <= 0xffff_ffff,
    ;
    (power as u128) * (field_order as u128) > bound as u128
}

impl CrtPlan {
    /// The plan's own consistency: `power` is `2^log_power`, the field has
    /// an element, and the two moduli are coprime, which for a power of two
    /// means that the other is odd or the power is 1.
    pub open spec fn wf(&self) -> bool {
        &&& self.power == pow2(self.log_power as nat)
        &&& self.field_order >= 1
        &&& (self.log_power == 0 || self.field_order % 2 == 1)
    }

    /// Whether the product of the two moduli exceeds every sum of two
    /// coefficients below `modulus`, and every `q * modulus + out` with
    /// `q <= 1` and `out < modulus`.
    pub open spec fn covers(&self, modulus: nat) -> bool {
        self.wf() && self.power * self.field_order > 2 * modulus
    }

    /// The two congruences for one coefficient: `a + b` and
    /// `quotient * modulus + out` agree modulo the power of two and modulo
    /// the field order.
    pub open spec fn admits(&self, a: u32, b: u32, out: u32, quotient: u32, modulus: u32) -> bool {
        let lhs = a + b;
        let rhs = quotient * modulus + out;
        &&& lhs % (self.power as int) == rhs % (self.power as int)
        &&& lhs % (self.field_order as int) == rhs % (self.field_order as int)
    }

    /// The two congruences for each coefficient of an addition row of degree
    /// bound `n`, with one quotient supplied for each.
    pub open spec fn admits_row(&self, row: Seq<u32>, quotients: Seq<u32>, n: nat) -> bool {
        forall|i: int|
            0 <= i < n ==> self.admits(
                row[i],
                row[n + i],
                row[2 * n + 1 + i],
                #[trigger] quotients[i],
                row[2 * n as int],
            )
    }

    /// Plans the split for `modulus` in a field of `field_order` elements:
    /// the least power of two whose product with `field_order` exceeds
    /// `2 * modulus`. There is no plan where the field is empty, or where a
    /// power above 1 is needed and `field_order` is even.
    pub fn for_modulus(modulus: u32, field_order: u32) -> (plan: Option<CrtPlan>)
        ensures
            plan is Some <==> field_order >= 1 && (field_order % 2 == 1 || field_order > 2
                * modulus),
            plan matches Some(p) ==> {
                &&& p.field_order == field_order
                &&& p.covers(modulus as nat)
                &&& (p.log_power == 0 || pow2((p.log_power - 1) as nat) * field_order <= 2
                    * modulus)
            },
    {
        if field_order == 0 {
            return None;
        }
        let bound: u64 = 2 * (modulus as u64);
        let mut power: u64 = 1;
        let mut log_power: u32 = 0;
        proof {
            lemma2_to64();
        }
        while !product_exceeds(power, field_order, bound)
            invariant
                field_order >= 1,
                bound == 2 * modulus,
                power == pow2(log_power as nat),
                1 <= power <= 2 * bound + 1,
                log_power <= 33,
                log_power == 0 || pow2((log_power - 1) as nat) * field_order <= bound,
            decreases 2 * bound + 2 - power,
        {
            proof {
                assert(power <= bound) by (nonlinear_arith)
                    requires
                        power * field_order <= bound,
                        field_order >= 1,
                        power >= 1,
                ;
                lemma_pow2_exponent_bound(log_power as nat);
                lemma_pow2_unfold((log_power + 1) as nat);
            }
            power = power * 2;
            log_power = log_power + 1;
        }
        if log_power > 0 && field_order % 2 == 0 {
            proof {
                assert(pow2((log_power - 1) as nat) >= 1) by {
                    lemma_pow2_pos((log_power - 1) as nat);
                }
                assert(pow2((log_power - 1) as nat) * field_order >= field_order)
                    by (nonlinear_arith)
                    requires
                        pow2((log_power - 1) as nat) >= 1,
                ;
            }
            return None;
        }
        proof {
            if log_power == 0 {
                assert(power * field_order == field_order) by (nonlinear_arith)
                    requires
                        power == 1,
                ;
            }
        }
        Some(CrtPlan { log_power, power, field_order })
    }

    /// Checks the two congruences for one coefficient.
    pub fn check(&self, a: u32, b: u32, out: u32, quotient: u32, modulus: u32) -> (ok: bool)
        requires
            self.wf(),
        ensures
            ok == self.admits(a, b, out, quotient, modulus),
    {
        proof {
            lemma_pow2_pos(self.log_power as nat);
            assert(quotient * modulus <= 0xffff_ffff * 0xffff_ffff) by (nonlinear_arith)
                requires
                    0 <= quotient <= 0xffff_ffff,
                    0 <= modulus <= 0xffff_ffff,
            ;
        }
        let lhs: u64 = a as u64 + b as u64;
        let rhs: u64 = (quotient as u64) * (modulus as u64) + out as u64;
        let order: u64 = self.field_order as u64;
        lhs % self.power == rhs % self.power && lhs % order == rhs % order
    }

    /// Checks the two congruences for each coefficient of an addition row,
    /// with one quotient supplied for each.
    pub fn check_row(&self, row: &Vec<u32>, quotients: &Vec<u32>) -> (ok: bool)
        requires
            self.wf(),
            1 <= quotients.len() <= MAX_DEGREE,
            row.len() == polyadd_width_of(quotients.len() as nat),
        ensures
            ok == self.admits_row(row@, quotients@, quotients.len() as nat),
    {
        let n: usize = quotients.len();
        let modulus: u32 = row[2 * n];
        let mut i: usize = 0;
        while i < n
            invariant
                i <= n,
                self.wf(),
                n == quotients.len(),
                1 <= n <= MAX_DEGREE,
                row.len() == 3 * n + 1,
                modulus == row[2 * n as int],
                forall|j: int|
                    0 <= j < i ==> self.admits(
                        row[j],
                        row[n + j],
                        row[2 * n + 1 + j],
                        #[trigger] quotients[j],
                        modulus,
                    ),
            decreases n - i,
        {
            if !self.check(row[i], row[n + i], row[2 * n + 1 + i], quotients[i], modulus) {
                assert(!self.admits(
                    row[i as int],
                    row[n + i],
                    row[2 * n + 1 + i],
                    quotients[i as int],
                    modulus,
                ));
                return false;
            }
            i = i + 1;
        }
        true
    }
}

/// A power of two below `2^33` has an exponent below 33.
proof fn lemma_pow2_exponent_bound(e: nat)
    requires
        pow2(e) < 0x2_0000_0000,
    ensures
        e < 33,
{
    if e >= 33 {
        vstd::arithmetic::power2::lemma2_to64_rest();
        if e > 33 {
            vstd::arithmetic::power2::lemma_pow2_strictly_increases(33, e);
        }
    }
}

/// An odd factor does not change the parity of a product.
proof fn lemma_odd_factor_parity(n: int, k: int)
    requires
        n % 2 == 1,
        (n * k) % 2 == 0,
    ensures
        k % 2 == 0,
{
    let h = n / 2;
    assert(n * k == 2 * (h * k) + k) by (nonlinear_arith)
        requires
            n == 2 * h + 1,
    ;
}

/// A power of two that divides the product of an odd number and `k`
/// divides `k`.
proof fn lemma_odd_factor_cancels(n: int, k: int, t: nat)
    requires
        n % 2 == 1,
        (n * k) % (pow2(t) as int) == 0,
    ensures
        k % (pow2(t) as int) == 0,
    decreases t,
{
    if t == 0 {
        lemma2_to64();
    } else {
        let h = pow2((t - 1) as nat) as int;
        lemma_pow2_unfold(t);
        lemma_pow2_pos((t - 1) as nat);
        let j = (n * k) / (2 * h);
        lemma_fundamental_div_mod(n * k, 2 * h);
        assert(n * k == 2 * (h * j)) by (nonlinear_arith)
            requires
                n * k == (2 * h) * j + 0,
        ;
        lemma_odd_factor_parity(n, k);
        let half = k / 2;
        assert(n * half == h * j) by (nonlinear_arith)
            requires
                n * k == 2 * (h * j),
                k == 2 * half,
        ;
        assert((n * half) % h == 0) by {
            lemma_mod_multiples_basic(j, h);
            assert(h * j == j * h) by (nonlinear_arith);
        }
        lemma_odd_factor_cancels(n, half, (t - 1) as nat);
        let i = half / h;
        lemma_fundamental_div_mod(half, h);
        assert(k == i * (2 * h)) by (nonlinear_arith)
            requires
                k == 2 * half,
                half == h * i + 0,
        ;
        lemma_mod_multiples_basic(i, 2 * h);
    }
}

/// Two numbers below `2^t * n` that agree modulo `2^t` and modulo `n` are
/// equal, where `n` is odd or `t` is 0.
pub proof fn lemma_split_is_unique(x: int, y: int, t: nat, n: int)
    requires
        n >= 1,
        t == 0 || n % 2 == 1,
        0 <= x < pow2(t) * n,
        0 <= y < pow2(t) * n,
        x % (pow2(t) as int) == y % (pow2(t) as int),
        x % n == y % n,
    ensures
        x == y,
{
    let p = pow2(t) as int;
    let d = x - y;
    lemma_pow2_pos(t);
    lemma_mod_equivalence(x, y, p);
    lemma_mod_equivalence(x, y, n);
    let k = d / n;
    lemma_fundamental_div_mod(d, n);
    assert(d == n * k);
    assert(k % p == 0) by {
        if t == 0 {
            lemma2_to64();
        } else {
            lemma_odd_factor_cancels(n, k, t);
        }
    }
    let i = k / p;
    lemma_fundamental_div_mod(k, p);
    assert(i == 0) by (nonlinear_arith)
        requires
            d == n * k,
            k == p * i + 0,
            -(p * n) < d < p * n,
            p >= 1,
            n >= 1,
    ;
    assert(d == 0) by (nonlinear_arith)
        requires
            d == n * k,
            k == p * i + 0,
            i == 0,
    ;
}

/// Soundness of the split. For coefficients below the modulus, an output
/// below the modulus and a quotient of 0 or 1, the two congruences of a plan
/// that covers the modulus hold only of the true quotient and remainder:
/// the output is the reduced sum.
pub proof fn lemma_crt_check_sound(
    plan: CrtPlan,
    a: u32,
    b: u32,
    out: u32,
    quotient: u32,
    modulus: u32,
)
    requires
        plan.covers(modulus as nat),
        a < modulus,
        b < modulus,
        out < modulus,
        quotient <= 1,
        plan.admits(a, b, out, quotient, modulus),
    ensures
        a + b == quotient * modulus + out,
        out == (a + b) % (modulus as int),
        quotient == (a + b) / (modulus as int),
{
    let lhs = a + b;
    let rhs = quotient * modulus + out;
    assert(0 <= rhs < 2 * modulus) by (nonlinear_arith)
        requires
            rhs == quotient * modulus + out,
            0 <= quotient <= 1,
            0 <= out < modulus,
    ;
    lemma_split_is_unique(lhs, rhs, plan.log_power as nat, plan.field_order as int);
    vstd::arithmetic::div_mod::lemma_fundamental_div_mod_converse(
        lhs,
        modulus as int,
        quotient as int,
        out as int,
    );
    assert(quotient * modulus == modulus * quotient) by (nonlinear_arith);
}

/// The split closes the gap that the addition gadget leaves. Let a first row
/// meet the gadget's relation, let the declared coefficients and the row's
/// `out` columns lie below the modulus and the quotients be 0 or 1, and let
/// the row with its quotients meet the congruences of a plan that covers the
/// modulus. Then the `out` columns are the reduced sums.
pub proof fn lemma_crt_binds_sums(air: PolyAddAir, plan: CrtPlan, row: Seq<u32>, quotients: Seq<u32>)
    requires
        air.wf(),
        row.len() == polyadd_width_of(air.degree()),
        quotients.len() == air.degree(),
        air.holds_on(row, true),
        plan.covers(air.modulus as nat),
        plan.admits_row(row, quotients, air.degree()),
        forall|i: int| 0 <= i < air.degree() ==> air.a@[i] < air.modulus,
        forall|i: int| 0 <= i < air.degree() ==> air.b@[i] < air.modulus,
        forall|i: int| 0 <= i < air.degree() ==> quotients[i] <= 1,
        forall|i: int|
            0 <= i < air.degree() ==> polyadd_out_columns(row, air.degree())[i] < air.modulus,
    ensures
        polyadd_out_columns(row, air.degree()) == polyadd_out(air.a@, air.b@, air.modulus),
{
    let n = air.degree();
    let out = polyadd_out_columns(row, n);
    lemma_polyadd_boundary_holds(air, row);
    assert forall|i: int| 0 <= i < n implies out[i] == polyadd_out(
        air.a@,
        air.b@,
        air.modulus,
    )[i] by {
        assert(a_columns(row, n)[i] == row[i]);
        assert(b_columns(row, n)[i] == row[n + i]);
        assert(out[i] == row[2 * n + 1 + i]);
        assert(plan.admits(row[i], row[n + i], row[2 * n + 1 + i], quotients[i], row[2 * n as int]));
        lemma_crt_check_sound(plan, air.a@[i], air.b@[i], out[i], quotients[i], air.modulus);
    }
    assert(out =~= polyadd_out(air.a@, air.b@, air.modulus));
}

/// Completeness of the split: the true quotient and remainder of a sum meet
/// the two congruences of every plan.
pub proof fn lemma_crt_check_complete(plan: CrtPlan, a: u32, b: u32, modulus: u32)
    requires
        a < modulus,
        b < modulus,
    ensures
        plan.admits(
            a,
            b,
            ((a + b) % (modulus as int)) as u32,
            ((a + b) / (modulus as int)) as u32,
            modulus,
        ),
{
    let sum = a + b;
    let m = modulus as int;
    lemma_fundamental_div_mod(sum, m);
    assert(0 <= sum / m <= 1) by (nonlinear_arith)
        requires
            0 <= sum < 2 * m,
            m >= 1,
            sum == m * (sum / m) + sum % m,
            0 <= sum % m < m,
    ;
    assert((sum / m) * m == m * (sum / m)) by (nonlinear_arith);
}

/// Where `n` is odd, `2^t` and `n` are coprime.
pub proof fn lemma_pow2_coprime_to_odd(t: nat, n: nat)
    requires
        n % 2 == 1,
    ensures
        coprime(pow2(t), n),
{
    assert forall|d: int| d > 1 implies !(#[trigger] divides(d, pow2(t) as int) && divides(
        d,
        n as int,
    )) by {
        if divides(d, pow2(t) as int) && divides(d, n as int) {
            lemma_fundamental_div_mod(n as int, d);
            let y = (n as int) / d;
            if d % 2 == 0 {
                let h = d / 2;
                assert((n as int) == 2 * (h * y)) by (nonlinear_arith)
                    requires
                        n == d * y + 0,
                        d == 2 * h,
                ;
            } else {
                lemma_odd_divisor_of_pow2(d, t);
            }
        }
    }
}

/// The two moduli of a consistent plan are coprime.
pub proof fn lemma_plan_moduli_coprime(plan: CrtPlan)
    requires
        plan.wf(),
    ensures
        coprime(plan.power as nat, plan.field_order as nat),
{
    if plan.log_power == 0 {
        lemma2_to64();
        assert forall|d: int| d > 1 implies !(#[trigger] divides(d, plan.power as int) && divides(
            d,
            plan.field_order as int,
        )) by {
            vstd::arithmetic::div_mod::lemma_small_mod(1, d as nat);
        }
    } else {
        lemma_pow2_coprime_to_odd(plan.log_power as nat, plan.field_order as nat);
    }
}

/// An odd divisor of a power of two is 1.
proof fn lemma_odd_divisor_of_pow2(d: int, t: nat)
    requires
        d >= 1,
        d % 2 == 1,
        (pow2(t) as int) % d == 0,
    ensures
        d == 1,
    decreases t,
{
    let p = pow2(t) as int;
    let j = p / d;
    lemma_fundamental_div_mod(p, d);
    lemma_pow2_pos(t);
    if t == 0 {
        lemma2_to64();
        assert(d == 1) by (nonlinear_arith)
            requires
                1 == d * j + 0,
                d >= 1,
        ;
    } else {
        let h = pow2((t - 1) as nat) as int;
        lemma_pow2_unfold(t);
        assert((d * j) % 2 == 0);
        lemma_odd_factor_parity(d, j);
        let half = j / 2;
        assert(h == d * half) by (nonlinear_arith)
            requires
                2 * h == d * j + 0,
                j == 2 * half,
        ;
        assert(h % d == 0) by {
            lemma_mod_multiples_basic(half, d);
            assert(d * half == half * d) by (nonlinear_arith);
        }
        lemma_odd_divisor_of_pow2(d, (t - 1) as nat);
    }
}

/// Integers `u` and `v` with `u * a - v * b == 1` show that `a` and `b` are
/// coprime.
pub proof fn lemma_coprime_by_combination(a: nat, b: nat, u: int, v: int)
    requires
        u * a - v * b == 1,
    ensures
        coprime(a, b),
{
    assert forall|d: int| d > 1 implies !(#[trigger] divides(d, a as int) && divides(
        d,
        b as int,
    )) by {
        if divides(d, a as int) && divides(d, b as int) {
            let x = (a as int) / d;
            let y = (b as int) / d;
            lemma_fundamental_div_mod(a as int, d);
            lemma_fundamental_div_mod(b as int, d);
            let z = u * x - v * y;
            assert(d * z == 1) by (nonlinear_arith)
                requires
                    u * a - v * b == 1,
                    a == d * x + 0,
                    b == d * y + 0,
                    z == u * x - v * y,
            ;
            assert(false) by (nonlinear_arith)
                requires
                    d * z == 1,
                    d > 1,
            ;
        }
    }
}

} // verus!
