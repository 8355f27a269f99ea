use poly_gadgets::modpow::mod_exp;

#[test]
fn small_powers() {
    assert_eq!(mod_exp(2, 10, 1000), 24);
    assert_eq!(mod_exp(3, 200, 1_000_000_007), 136318165);
    assert_eq!(mod_exp(123456789, 987654321, 1085276161), 335098283);
}

#[test]
fn exponent_zero_gives_one() {
    for modulus in [2u64, 3, 7, 1085276161, u64::MAX] {
        for base in [0u64, 1, 2, 12345, u64::MAX] {
            assert_eq!(mod_exp(base, 0, modulus), 1);
        }
    }
}

#[test]
fn modulus_one_gives_zero() {
    for base in [0u64, 1, 2, 99, u64::MAX] {
        for exp in [0u64, 1, 2, 31, u64::MAX] {
            assert_eq!(mod_exp(base, exp, 1), 0);
        }
    }
}

#[test]
fn zero_base() {
    assert_eq!(mod_exp(0, 0, 7), 1);
    assert_eq!(mod_exp(0, 1, 7), 0);
    assert_eq!(mod_exp(0, 5, 7), 0);
}

#[test]
fn base_is_reduced_first() {
    assert_eq!(mod_exp(9, 3, 7), mod_exp(2, 3, 7));
    assert_eq!(mod_exp(9, 3, 7), 1);
}

#[test]
fn result_is_below_modulus() {
    for modulus in [2u64, 5, 97, 1085276161] {
        for base in 0..20u64 {
            for exp in 0..20u64 {
                assert!(mod_exp(base, exp, modulus) < modulus);
            }
        }
    }
}

#[test]
fn agrees_with_repeated_multiplication() {
    let modulus: u64 = 1092616193;
    for base in [2u64, 3, 5, 1092616192] {
        let mut expected: u64 = 1;
        for exp in 0..64u64 {
            assert_eq!(mod_exp(base, exp, modulus), expected);
            expected = (expected as u128 * base as u128 % modulus as u128) as u64;
        }
    }
}

#[test]
fn fermat_little_theorem_on_the_ring_primes() {
    assert_eq!(mod_exp(7, 1085276160, 1085276161), 1);
    assert_eq!(mod_exp(11, 542638080, 1085276161), 1085276160);
}

#[test]
fn wide_modulus_does_not_overflow() {
    let modulus: u64 = 18446744073709551557;
    assert_eq!(mod_exp(u64::MAX, u64::MAX, modulus), 4959809447704153900);
    assert_eq!(mod_exp(1 << 32, 5, (1 << 61) - 1), 274877906944);
}

#[test]
fn point_power_table() {
    let expected: [[u64; 5]; 5] = [
        [1, 0, 0, 0, 0],
        [1, 1, 1, 1, 1],
        [1, 2, 4, 1, 2],
        [1, 3, 2, 6, 4],
        [1, 4, 2, 1, 4],
    ];
    for x in 0..5u64 {
        for j in 0..5u64 {
            assert_eq!(mod_exp(x, j, 7), expected[x as usize][j as usize]);
        }
    }
}
