//! Modular exponentiation by square-and-multiply.

use vstd::arithmetic::div_mod::{lemma_mul_mod_noop_general, lemma_small_mod};
use vstd::arithmetic::power::{lemma_pow0, lemma_pow_mod_noop, pow};
use vstd::prelude::*;

verus! {

/// `base` raised to `exp`, reduced into `[0, modulus)`.
pub open spec fn pow_mod(base: nat, exp: nat, modulus: nat) -> nat
    recommends
        modulus > 0,
{
    (pow(base as int, exp) % (modulus as int)) as nat
}

/// Any base to the power 0 is 1 modulo a modulus above 1.
pub proof fn lemma_pow_mod_exponent_zero(base: nat, modulus: nat)
    requires
        modulus > 1,
    ensures
        pow_mod(base, 0, modulus) == 1,
{
    lemma_pow0(base as int);
    lemma_small_mod(1, modulus);
}

/// Modulo 1 every power is 0.
pub proof fn lemma_pow_mod_modulus_one(base: nat, exp: nat)
    ensures
        pow_mod(base, exp, 1) == 0,
{
}

/// A reduced power lies below the modulus.
pub proof fn lemma_pow_mod_range(base: nat, exp: nat, modulus: nat)
    requires
        modulus > 0,
    ensures
        pow_mod(base, exp, modulus) < modulus,
{
}

/// One unfolding of `pow` at an even or odd exponent: the exponent is halved
/// and the base squared, with one extra factor when the low bit is set.
proof fn lemma_pow_halves(b: int, e: nat)
    requires
        e > 0,
    ensures
        e % 2 == 0 ==> pow(b, e) == pow(b * b, e / 2),
        e % 2 == 1 ==> pow(b, e) == b * pow(b * b, e / 2),
    decreases e,
{
    reveal(pow);
    if e == 1 {
        assert(pow(b * b, 0) == 1);
        assert(pow(b, 0) == 1);
        assert(pow(b, 1) == b * pow(b, 0));
    } else {
        let e2 = (e - 2) as nat;
        assert(pow(b, e) == b * pow(b, (e - 1) as nat));
        assert(pow(b, (e - 1) as nat) == b * pow(b, e2));
        assert(pow(b, e) == (b * b) * pow(b, e2)) by (nonlinear_arith)
            requires
                pow(b, e) == b * pow(b, (e - 1) as nat),
                pow(b, (e - 1) as nat) == b * pow(b, e2),
        ;
        assert(e / 2 == e2 / 2 + 1);
        assert(pow(b * b, e / 2) == (b * b) * pow(b * b, (e / 2 - 1) as nat));
        if e2 == 0 {
            assert(pow(b, 0) == 1);
            assert(pow(b * b, 0) == 1);
        } else {
            lemma_pow_halves(b, e2);
            if e % 2 == 1 {
                assert(pow(b, e) == b * pow(b * b, e / 2)) by (nonlinear_arith)
                    requires
                        pow(b, e) == (b * b) * pow(b, e2),
                        pow(b, e2) == b * pow(b * b, e2 / 2),
                        pow(b * b, e / 2) == (b * b) * pow(b * b, e2 / 2),
                ;
            }
        }
    }
}

/// Computes `base^exp mod modulus`, walking the bits of `exp` from the least
/// significant upward. Products are formed in 128 bits, so every 64-bit
/// modulus is served.
pub fn mod_exp(base: u64, exp: u64, modulus: u64) -> (result: u64)
    requires
        modulus > 0,
    ensures
        result == pow_mod(base as nat, exp as nat, modulus as nat),
        result < modulus,
        modulus == 1 ==> result == 0,
        exp == 0 && modulus > 1 ==> result == 1,
{
    proof {
        lemma_pow0(base as int);
    }
    if modulus == 1 {
        return 0;
    }
    let m: u128 = modulus as u128;
    let mut result: u64 = 1;
    let mut b: u64 = base % modulus;
    let mut e: u64 = exp;
    proof {
        lemma_pow_mod_noop(base as int, exp as nat, modulus as int);
        lemma_small_mod(1, modulus as nat);
        assert(result as int * pow(b as int, e as nat) == pow(b as int, e as nat)) by (nonlinear_arith)
            requires
                result == 1,
        ;
    }
    while e > 0
        invariant
            modulus > 1,
            m == modulus,
            result < modulus,
            b < modulus,
            (result as int * pow(b as int, e as nat)) % (modulus as int) == pow(
                base as int,
                exp as nat,
            ) % (modulus as int),
        decreases e,
    {
        let ghost r0 = result as int;
        let ghost b0 = b as int;
        let ghost e0 = e as nat;
        let ghost mi = modulus as int;
        if e % 2 == 1 {
            assert((b as int) * (result as int) <= 0xffff_ffff_ffff_ffff * 0xffff_ffff_ffff_ffff)
                by (nonlinear_arith)
                requires
                    0 <= (b as int) <= 0xffff_ffff_ffff_ffff,
                    0 <= (result as int) <= 0xffff_ffff_ffff_ffff,
            ;
            result = (((b as u128) * (result as u128)) % m) as u64;
        }
        assert(e >> 1 == e / 2) by (bit_vector);
        e = e >> 1;
        assert((b as int) * (b as int) <= 0xffff_ffff_ffff_ffff * 0xffff_ffff_ffff_ffff)
            by (nonlinear_arith)
            requires
                0 <= (b as int) <= 0xffff_ffff_ffff_ffff,
        ;
        b = (((b as u128) * (b as u128)) % m) as u64;
        proof {
            let p2 = pow(b0 * b0, e as nat);
            lemma_pow_halves(b0, e0);
            lemma_pow_mod_noop(b0 * b0, e as nat, mi);
            // r0 * pow(b0, e0) is congruent to result * pow(b, e)
            if e0 % 2 == 1 {
                assert(r0 * pow(b0, e0) == (b0 * r0) * p2) by (nonlinear_arith)
                    requires
                        pow(b0, e0) == b0 * p2,
                ;
                lemma_mul_mod_noop_general(b0 * r0, p2, mi);
                lemma_mul_mod_noop_general(result as int, pow(b as int, e as nat), mi);
                lemma_small_mod(result as nat, modulus as nat);
            } else {
                lemma_mul_mod_noop_general(r0, p2, mi);
                lemma_mul_mod_noop_general(result as int, pow(b as int, e as nat), mi);
            }
        }
    }
    proof {
        lemma_pow0(b as int);
        lemma_small_mod(result as nat, modulus as nat);
        assert(result as int * pow(b as int, 0) == result as int) by (nonlinear_arith)
            requires
                pow(b as int, 0) == 1,
        ;
        if exp == 0 {
            lemma_small_mod(1, modulus as nat);
        }
    }
    result
}

} // verus!
