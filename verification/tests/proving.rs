use std::fmt::Debug;
use std::marker::PhantomData;

use p3_air::{Air, AirBuilder, BaseAir};
use p3_challenger::{HashChallenger, SerializingChallenger32};
use p3_circle::CirclePcs;
use p3_commit::ExtensionMmcs;
use p3_field::extension::BinomialExtensionField;
use p3_field::{AbstractField, Field};
use p3_fri::FriConfig;
use p3_keccak::Keccak256Hash;
use p3_matrix::Matrix;
use p3_merkle_tree::FieldMerkleTreeMmcs;
use p3_mersenne_31::Mersenne31;
use p3_symmetric::{CompressionFunctionFromHasher, SerializingHasher32};
use p3_uni_stark::{prove, verify, StarkConfig};
use poly_gadgets::gadgets::add::{generate_polyadd_trace, PolyAddAir};
use poly_gadgets::gadgets::mul::{generate_polymul_trace, PolyMulAir};
use poly_gadgets::params::{N, P1};
use rand::{thread_rng, Rng};

type Val = Mersenne31;
type Challenge = BinomialExtensionField<Val, 3>;
type ByteHash = Keccak256Hash;
type FieldHash = SerializingHasher32<ByteHash>;
type MyCompress = CompressionFunctionFromHasher<u8, ByteHash, 2, 32>;
type ValMmcs = FieldMerkleTreeMmcs<Val, u8, FieldHash, MyCompress, 32>;
type ChallengeMmcs = ExtensionMmcs<Val, Challenge, ValMmcs>;
type Challenger = SerializingChallenger32<Val, HashChallenger<u8, ByteHash, 32>>;
type Pcs = CirclePcs<Val, ValMmcs, ChallengeMmcs>;

struct ZkConfig {
    config: StarkConfig<Pcs, Challenge, Challenger>,
    byte_hash: Keccak256Hash,
}

fn initialize_config() -> ZkConfig {
    let byte_hash = ByteHash {};
    let field_hash = FieldHash::new(Keccak256Hash {});
    let compress = MyCompress::new(byte_hash);
    let val_mmcs = ValMmcs::new(field_hash, compress);
    let challenge_mmcs = ChallengeMmcs::new(val_mmcs.clone());
    let fri_config = FriConfig {
        log_blowup: 1,
        num_queries: 100,
        proof_of_work_bits: 16,
        mmcs: challenge_mmcs,
    };
    let pcs = Pcs { mmcs: val_mmcs, fri_config, _phantom: PhantomData };
    ZkConfig { config: StarkConfig::new(pcs), byte_hash }
}

/// Lays the addition gadget's boundary constraints on a backend builder.
struct AddAir(PolyAddAir);

impl<F: Field> BaseAir<F> for AddAir {
    fn width(&self) -> usize {
        self.0.width()
    }
}

impl<AB: AirBuilder> Air<AB> for AddAir {
    fn eval(&self, builder: &mut AB) {
        let main = builder.main();
        let row = main.row_slice(0);
        for constraint in self.0.boundary_constraints() {
            builder
                .when_first_row()
                .assert_eq(row[constraint.column], AB::Expr::from_canonical_u32(constraint.value));
        }
    }
}

/// Lays the multiplication gadget's constraints on a backend builder.
struct MulAir(PolyMulAir);

impl<F: Field> BaseAir<F> for MulAir {
    fn width(&self) -> usize {
        self.0.width()
    }
}

impl<AB: AirBuilder> Air<AB> for MulAir {
    fn eval(&self, builder: &mut AB) {
        let main = builder.main();
        let row = main.row_slice(0);
        for constraint in self.0.boundary_constraints() {
            builder
                .when_first_row()
                .assert_eq(row[constraint.column], AB::Expr::from_canonical_u32(constraint.value));
        }
        let n = self.0.a.len();
        for x in 0..2 * n - 1 {
            let powers = self.0.power_row(x);
            let mut a_eval = AB::Expr::zero();
            let mut b_eval = AB::Expr::zero();
            let mut out_eval = AB::Expr::zero();
            for j in 0..n {
                let power = AB::Expr::from_canonical_u64(powers[j]);
                a_eval = a_eval + row[j] * power.clone();
                b_eval = b_eval + row[j + n] * power;
            }
            for j in 0..2 * n - 1 {
                out_eval = out_eval + row[j + 2 * n] * AB::Expr::from_canonical_u64(powers[j]);
            }
            builder.assert_eq(a_eval * b_eval, out_eval);
        }
    }
}

fn prove_and_verify_add(a: Vec<u32>, b: Vec<u32>, modulus: u32) -> Result<(), impl Debug> {
    let ZkConfig { config, byte_hash } = initialize_config();
    let air = AddAir(PolyAddAir { a: a.clone(), b: b.clone(), modulus });
    let trace = generate_polyadd_trace(a, b, modulus);
    let mut challenger: Challenger = Challenger::from_hasher(vec![], byte_hash);
    let proof = prove(&config, &air, &mut challenger, trace, &vec![]);
    let mut challenger = Challenger::from_hasher(vec![], byte_hash);
    verify(&config, &air, &mut challenger, &proof, &vec![])
}

#[test]
fn test_poly_add() -> Result<(), impl Debug> {
    let ZkConfig { config, byte_hash } = initialize_config();

    let mut rng = thread_rng();
    let random_poly1: Vec<u32> = (0..N).map(|_| rng.gen_range(0..P1)).collect();
    let random_poly2: Vec<u32> = (0..N).map(|_| rng.gen_range(0..P1)).collect();

    let air = AddAir(PolyAddAir { a: random_poly1.clone(), b: random_poly2.clone(), modulus: P1 });

    let trace = generate_polyadd_trace(random_poly1, random_poly2, P1);

    let mut challenger: SerializingChallenger32<Mersenne31, HashChallenger<u8, Keccak256Hash, 32>> =
        Challenger::from_hasher(vec![], byte_hash);
    let proof = prove(&config, &air, &mut challenger, trace, &vec![]);

    let mut challenger = Challenger::from_hasher(vec![], byte_hash);
    verify(&config, &air, &mut challenger, &proof, &vec![])
}

#[test]
fn small_addition_proves() {
    assert!(prove_and_verify_add(vec![1, 2, 3], vec![4, 5, 6], 7).is_ok());
}

#[test]
fn addition_proof_is_bound_to_the_inputs() {
    let ZkConfig { config, byte_hash } = initialize_config();
    let air = AddAir(PolyAddAir { a: vec![1, 2, 3], b: vec![4, 5, 6], modulus: 7 });
    let trace = generate_polyadd_trace(vec![1, 2, 3], vec![4, 5, 6], 7);
    let mut challenger: Challenger = Challenger::from_hasher(vec![], byte_hash);
    let proof = prove(&config, &air, &mut challenger, trace, &vec![]);
    let other = AddAir(PolyAddAir { a: vec![1, 2, 4], b: vec![4, 5, 6], modulus: 7 });
    let mut challenger = Challenger::from_hasher(vec![], byte_hash);
    assert!(verify(&config, &other, &mut challenger, &proof, &vec![]).is_err());
}

#[test]
fn addition_proof_accepts_a_wrong_sum() {
    let ZkConfig { config, byte_hash } = initialize_config();
    let air = AddAir(PolyAddAir { a: vec![1, 2, 3], b: vec![4, 5, 6], modulus: 7 });
    let mut trace = generate_polyadd_trace(vec![1, 2, 3], vec![4, 5, 6], 7);
    trace.values[7] = Mersenne31::from_canonical_u32(6);
    let mut challenger: Challenger = Challenger::from_hasher(vec![], byte_hash);
    let proof = prove(&config, &air, &mut challenger, trace, &vec![]);
    let mut challenger = Challenger::from_hasher(vec![], byte_hash);
    assert!(verify(&config, &air, &mut challenger, &proof, &vec![]).is_ok());
}

#[test]
fn small_multiplication_proves_without_reduction() {
    let ZkConfig { config, byte_hash } = initialize_config();
    let air = MulAir(PolyMulAir { a: vec![1, 2, 3], b: vec![4, 5, 6], modulus: P1 });
    let trace = generate_polymul_trace(vec![1, 2, 3], vec![4, 5, 6], P1);
    let mut challenger: Challenger = Challenger::from_hasher(vec![], byte_hash);
    let proof = prove(&config, &air, &mut challenger, trace, &vec![]);
    let mut challenger = Challenger::from_hasher(vec![], byte_hash);
    assert!(verify(&config, &air, &mut challenger, &proof, &vec![]).is_ok());
}
