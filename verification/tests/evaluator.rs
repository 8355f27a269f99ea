use poly_gadgets::constraint::{bind_inputs, check_boundary, BoundaryConstraint};
use poly_gadgets::gadgets::add::{polyadd_trace, PolyAddAir};
use poly_gadgets::gadgets::mul::{polymul_trace, PolyMulAir};
use poly_gadgets::params::P1;

const NATIVE: u32 = (1 << 31) - 1;

fn add_air() -> PolyAddAir {
    PolyAddAir { a: vec![1, 2, 3], b: vec![4, 5, 6], modulus: 7 }
}

fn mul_air(modulus: u32) -> PolyMulAir {
    PolyMulAir { a: vec![1, 2, 3], b: vec![4, 5, 6], modulus }
}

#[test]
fn input_bindings_alternate_between_a_and_b() {
    let constraints = bind_inputs(&vec![1, 2, 3], &vec![4, 5, 6]);
    let expected = vec![
        BoundaryConstraint { column: 0, value: 1 },
        BoundaryConstraint { column: 3, value: 4 },
        BoundaryConstraint { column: 1, value: 2 },
        BoundaryConstraint { column: 4, value: 5 },
        BoundaryConstraint { column: 2, value: 3 },
        BoundaryConstraint { column: 5, value: 6 },
    ];
    assert_eq!(constraints, expected);
}

#[test]
fn addition_boundary_ends_with_the_modulus() {
    let constraints = add_air().boundary_constraints();
    assert_eq!(constraints.len(), 7);
    assert_eq!(constraints[0], BoundaryConstraint { column: 0, value: 1 });
    assert_eq!(constraints[1], BoundaryConstraint { column: 3, value: 4 });
    assert_eq!(constraints[6], BoundaryConstraint { column: 6, value: 7 });
}

#[test]
fn multiplication_boundary_binds_inputs_only() {
    let constraints = mul_air(7).boundary_constraints();
    assert_eq!(constraints, bind_inputs(&vec![1, 2, 3], &vec![4, 5, 6]));
}

#[test]
fn boundary_check_on_rows() {
    let constraints = vec![
        BoundaryConstraint { column: 0, value: 9 },
        BoundaryConstraint { column: 2, value: 7 },
    ];
    assert!(check_boundary(&constraints, &vec![9, 0, 7]));
    assert!(check_boundary(&constraints, &vec![9, 5, 7, 1]));
    assert!(!check_boundary(&constraints, &vec![9, 0, 8]));
    assert!(!check_boundary(&constraints, &vec![8, 0, 7]));
    assert!(!check_boundary(&constraints, &vec![9, 0]));
    assert!(check_boundary(&vec![], &vec![]));
}

#[test]
fn addition_accepts_every_row_of_its_table() {
    let air = add_air();
    let table = polyadd_trace(&air.a, &air.b, air.modulus);
    assert!(air.eval(&table.row(0), true));
    for r in 1..4 {
        assert!(air.eval(&table.row(r), false));
    }
}

#[test]
fn addition_rejects_a_first_row_with_other_inputs() {
    let air = add_air();
    let honest = polyadd_trace(&air.a, &air.b, air.modulus).row(0);
    for column in 0..7 {
        let mut row = honest.clone();
        row[column] += 1;
        assert!(!air.eval(&row, true));
        assert!(air.eval(&row, false));
    }
    assert!(!air.eval(&vec![0; 10], true));
}

#[test]
fn addition_accepts_a_wrong_sum() {
    let air = add_air();
    let honest = polyadd_trace(&air.a, &air.b, air.modulus).row(0);
    for column in 7..10 {
        let mut row = honest.clone();
        row[column] = (row[column] + 1) % 7;
        assert!(air.eval(&row, true));
    }
    assert!(air.eval(&vec![1, 2, 3, 4, 5, 6, 7, 6, 6, 6], true));
}

#[test]
fn power_rows_of_the_domain() {
    let air = mul_air(7);
    assert_eq!(air.power_row(0), vec![1, 0, 0, 0, 0]);
    assert_eq!(air.power_row(1), vec![1, 1, 1, 1, 1]);
    assert_eq!(air.power_row(2), vec![1, 2, 4, 1, 2]);
    assert_eq!(air.power_row(3), vec![1, 3, 2, 6, 4]);
    assert_eq!(air.power_row(4), vec![1, 4, 2, 1, 4]);
    assert_eq!(mul_air(P1).power_row(4), vec![1, 4, 16, 64, 256]);
    assert_eq!(mul_air(1).power_row(3), vec![0, 0, 0, 0, 0]);
}

#[test]
fn multiplication_holds_modulo_the_ring_modulus() {
    for modulus in [1u32, 2, 5, 7, 11, 97, 1000, P1] {
        let air = mul_air(modulus);
        let table = polymul_trace(&air.a, &air.b, modulus);
        assert!(air.eval(&table.row(0), true, modulus));
    }
}

#[test]
fn multiplication_point_identity_at_every_point() {
    let modulus: u32 = 1085276161;
    let n = 6usize;
    let a: Vec<u32> = vec![1085276160, 5, 77777, 0, 1085276000, 3];
    let b: Vec<u32> = vec![2, 1085276160, 1085276160, 12345, 1, 999999999];
    let air = PolyMulAir { a: a.clone(), b: b.clone(), modulus };
    let out: Vec<u32> = polymul_trace(&a, &b, modulus).row(0)[2 * n..].to_vec();
    for x in 0..2 * n - 1 {
        let powers = air.power_row(x);
        let value = |c: &[u32]| -> u128 {
            c.iter().zip(powers.iter()).map(|(c, w)| *c as u128 * *w as u128).sum()
        };
        let lhs = (value(&a) % modulus as u128) * (value(&b) % modulus as u128);
        assert_eq!(lhs % modulus as u128, value(&out) % modulus as u128);
    }
}

#[test]
fn multiplication_holds_in_the_native_field_without_reduction() {
    let air = mul_air(P1);
    let table = polymul_trace(&air.a, &air.b, P1);
    assert_eq!(table.row(0), vec![1, 2, 3, 4, 5, 6, 4, 13, 28, 27, 18]);
    assert!(air.eval(&table.row(0), true, NATIVE));
    assert!(air.eval(&table.row(0), false, NATIVE));
    assert!(air.eval(&table.row(0), true, 3));
}

#[test]
fn multiplication_fails_in_the_native_field_once_reduced() {
    // At x = 1 the inputs evaluate to 6 and 15, the reduced output to 20.
    let air = mul_air(7);
    let table = polymul_trace(&air.a, &air.b, 7);
    assert!(!air.eval(&table.row(0), true, NATIVE));
    assert!(!air.eval(&table.row(0), false, NATIVE));
}

#[test]
fn multiplication_accepts_padding_rows() {
    let air = mul_air(7);
    let table = polymul_trace(&air.a, &air.b, 7);
    for r in 1..4 {
        assert!(air.eval(&table.row(r), false, NATIVE));
        assert!(air.eval(&table.row(r), false, 7));
        assert!(!air.eval(&table.row(r), true, 7));
    }
}

#[test]
fn multiplication_rejects_a_wrong_product() {
    let air = mul_air(P1);
    let honest = polymul_trace(&air.a, &air.b, P1).row(0);
    for column in 6..11 {
        let mut row = honest.clone();
        row[column] += 1;
        assert!(!air.eval(&row, true, NATIVE));
        assert!(!air.eval(&row, false, NATIVE));
    }
}

#[test]
fn multiplication_rejects_a_first_row_with_other_inputs() {
    let air = mul_air(P1);
    let other = polymul_trace(&vec![1, 2, 4], &vec![4, 5, 6], P1).row(0);
    assert!(!air.eval(&other, true, NATIVE));
    assert!(air.eval(&other, false, NATIVE));
}

#[test]
fn multiplication_accepts_a_wrapped_witness() {
    // In a field of 5 elements the output 9 stands for 4: the row passes
    // although 9 is no coefficient of the product.
    let air = PolyMulAir { a: vec![2], b: vec![2], modulus: 7 };
    assert!(air.eval(&vec![2, 2, 9], true, 5));
    assert!(air.eval(&vec![2, 2, 4], true, 5));
    assert!(!air.eval(&vec![2, 2, 3], true, 5));
}

#[test]
fn multiplication_of_one_coefficient_in_field_order_one() {
    let air = PolyMulAir { a: vec![3], b: vec![4], modulus: 5 };
    assert!(air.eval(&vec![3, 4, 0], true, 1));
    assert!(!air.eval(&vec![3, 5, 0], true, 1));
}

#[test]
fn multiplication_without_wrapping_accepts_the_product_only() {
    // Values stay far below both moduli, so agreement at the three points
    // of the domain fixes the three output coefficients.
    let air = PolyMulAir { a: vec![1, 2], b: vec![3, 4], modulus: P1 };
    let mut accepted: Vec<Vec<u32>> = Vec::new();
    for c0 in 0..12u32 {
        for c1 in 0..12u32 {
            for c2 in 0..12u32 {
                if air.eval(&vec![1, 2, 3, 4, c0, c1, c2], true, NATIVE) {
                    accepted.push(vec![c0, c1, c2]);
                }
            }
        }
    }
    assert_eq!(accepted, vec![vec![3, 10, 8]]);
}
