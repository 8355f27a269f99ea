//! Fixed numeric parameters of the ciphertext ring.

use crate::crt::{coprime, lemma_coprime_by_combination};
use vstd::prelude::*;

verus! {

/// Number of coefficients of a ciphertext polynomial.
pub const N: usize = 3500;

/// First ciphertext modulus of the residue number system, a 31-bit prime.
pub const P1: u32 = 1085276161;

/// Second ciphertext modulus of the residue number system, a 31-bit prime.
pub const P2: u32 = 1092616193;

/// Third ciphertext modulus of the residue number system, a 31-bit prime.
pub const P3: u32 = 1095761921;

/// Ciphertext modulus of the undecomposed ring, the 91-bit product of the
/// three primes.
pub const P: u128 = 1299343865123888653488095233;

/// Three moduli of a residue number system. A gadget instance works against
/// one of them at a time.
#[derive(Clone, Copy, Debug, PartialEq, Eq, Structural)]
pub struct ModulusTriple {
    pub p1: u32,
    pub p2: u32,
    pub p3: u32,
}

impl ModulusTriple {
    /// The modulus of the ring that the triple decomposes.
    pub open spec fn product_value(&self) -> nat {
        (self.p1 as nat) * (self.p2 as nat) * (self.p3 as nat)
    }

    /// Whether no two of the three moduli share a divisor above 1.
    pub open spec fn pairwise_coprime(&self) -> bool {
        &&& coprime(self.p1 as nat, self.p2 as nat)
        &&& coprime(self.p1 as nat, self.p3 as nat)
        &&& coprime(self.p2 as nat, self.p3 as nat)
    }

    /// Multiplies the three moduli.
    pub fn product(&self) -> (p: u128)
        ensures
            p == self.product_value(),
    {
        assert(self.p1 as int * self.p2 as int <= 0xffff_ffff * 0xffff_ffff) by (nonlinear_arith)
            requires
                0 <= self.p1 <= 0xffff_ffff,
                0 <= self.p2 <= 0xffff_ffff,
        ;
        let p12: u64 = (self.p1 as u64) * (self.p2 as u64);
        assert(p12 as int * self.p3 as int <= 0xffff_ffff_ffff_ffff * 0xffff_ffff) by (nonlinear_arith)
            requires
                0 <= p12 <= 0xffff_ffff_ffff_ffff,
                0 <= self.p3 <= 0xffff_ffff,
        ;
        (p12 as u128) * (self.p3 as u128)
    }
}

/// The ring's parameters as one immutable value: the degree bound and the
/// moduli.
#[derive(Clone, Copy, Debug, PartialEq, Eq, Structural)]
pub struct RingParams {
    pub degree: usize,
    pub moduli: ModulusTriple,
}

impl RingParams {
    /// The parameters declared in this module.
    pub fn standard() -> (params: RingParams)
        ensures
            params.degree == N,
            params.moduli == (ModulusTriple { p1: P1, p2: P2, p3: P3 }),
            params.moduli.product_value() == P,
            params.moduli.pairwise_coprime(),
    {
        proof {
            lemma_standard_product();
            lemma_standard_moduli_coprime();
        }
        RingParams { degree: N, moduli: ModulusTriple { p1: P1, p2: P2, p3: P3 } }
    }
}

/// The declared ring modulus is the product of the three declared primes.
pub proof fn lemma_standard_product()
    ensures
        (ModulusTriple { p1: P1, p2: P2, p3: P3 }).product_value() == P,
        P == (P1 as nat) * (P2 as nat) * (P3 as nat),
{
    assert((1085276161 as nat) * (1092616193 as nat) == 1185790307385475073);
    assert((1185790307385475073 as nat) * (1095761921 as nat) == 1299343865123888653488095233);
}

/// The three declared primes are pairwise coprime.
pub proof fn lemma_standard_moduli_coprime()
    ensures
        (ModulusTriple { p1: P1, p2: P2, p3: P3 }).pairwise_coprime(),
{
    lemma_coprime_by_combination(P1 as nat, P2 as nat, 312176204, 310079051);
    lemma_coprime_by_combination(P1 as nat, P3 as nat, -547880856, -542637977);
    lemma_coprime_by_combination(P2 as nat, P3 as nat, 365254322, 364205745);
}

} // verus!
