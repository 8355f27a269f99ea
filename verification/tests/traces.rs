use p3_field::PrimeField32;
use p3_matrix::Matrix;
use poly_gadgets::gadgets::add::{generate_polyadd_trace, polyadd_trace};
use poly_gadgets::gadgets::mul::{conv_coefficient, generate_polymul_trace, polymul_trace};
use poly_gadgets::params::P1;
use poly_gadgets::trace::TraceTable;

fn rows_of(table: &TraceTable) -> Vec<Vec<u32>> {
    (0..table.height()).map(|r| table.row(r)).collect()
}

#[test]
fn addition_scenario() {
    let table = polyadd_trace(&vec![1, 2, 3], &vec![4, 5, 6], 7);
    assert_eq!(table.width(), 10);
    assert_eq!(table.height(), 4);
    assert_eq!(table.row(0), vec![1, 2, 3, 4, 5, 6, 7, 5, 0, 2]);
}

#[test]
fn addition_binds_inputs_and_modulus() {
    let a: Vec<u32> = vec![17, 0, 1085276160, 5, 99];
    let b: Vec<u32> = vec![1085276160, 1, 1085276160, 0, 3];
    let table = polyadd_trace(&a, &b, P1);
    let row = table.row(0);
    assert_eq!(row.len(), 16);
    assert_eq!(&row[0..5], &a[..]);
    assert_eq!(&row[5..10], &b[..]);
    assert_eq!(row[10], P1);
    assert_eq!(&row[11..16], &[16, 1, 1085276159, 5, 102]);
    for i in 0..5 {
        assert_eq!(row[11 + i] as u64, (a[i] as u64 + b[i] as u64) % P1 as u64);
    }
}

#[test]
fn addition_padding_rows_are_zero() {
    let table = polyadd_trace(&vec![1, 2, 3], &vec![4, 5, 6], 7);
    for r in 1..4 {
        assert_eq!(table.row(r), vec![0; 10]);
        for c in 0..10 {
            assert_eq!(table.get(r, c), 0);
        }
    }
}

#[test]
fn addition_of_one_coefficient() {
    let table = polyadd_trace(&vec![3], &vec![4], 5);
    assert_eq!(rows_of(&table), vec![vec![3, 4, 5, 2], vec![0; 4], vec![0; 4], vec![0; 4]]);
}

#[test]
fn addition_sums_wider_than_32_bits() {
    let table = polyadd_trace(&vec![u32::MAX, u32::MAX], &vec![u32::MAX, 1], u32::MAX);
    assert_eq!(table.row(0), vec![u32::MAX, u32::MAX, u32::MAX, 1, u32::MAX, 0, 1]);
    let table = polyadd_trace(&vec![u32::MAX], &vec![u32::MAX], 1000);
    assert_eq!(table.row(0), vec![u32::MAX, u32::MAX, 1000, 590]);
}

#[test]
fn addition_takes_unreduced_inputs_as_they_come() {
    let table = polyadd_trace(&vec![10, 7], &vec![20, 7], 7);
    assert_eq!(table.row(0), vec![10, 7, 20, 7, 7, 2, 0]);
}

#[test]
fn addition_modulus_one() {
    let table = polyadd_trace(&vec![3, 4], &vec![5, 6], 1);
    assert_eq!(table.row(0), vec![3, 4, 5, 6, 1, 0, 0]);
}

#[test]
fn addition_is_deterministic() {
    let a: Vec<u32> = (0..50).map(|i| i * 7919 % 1000).collect();
    let b: Vec<u32> = (0..50).map(|i| i * 104729 % 1000).collect();
    let first = polyadd_trace(&a, &b, 1000);
    let second = polyadd_trace(&a, &b, 1000);
    assert_eq!(rows_of(&first), rows_of(&second));
}

#[test]
fn raw_convolution_scenario() {
    let a: Vec<u32> = vec![1, 2, 3];
    let b: Vec<u32> = vec![4, 5, 6];
    let raw: Vec<u128> = (0..5).map(|k| conv_coefficient(&a, &b, k)).collect();
    assert_eq!(raw, vec![4, 13, 28, 27, 18]);
}

#[test]
fn raw_convolution_does_not_overflow() {
    let a: Vec<u32> = vec![u32::MAX; 4];
    let b: Vec<u32> = vec![u32::MAX; 4];
    let square: u128 = (u32::MAX as u128) * (u32::MAX as u128);
    let raw: Vec<u128> = (0..7).map(|k| conv_coefficient(&a, &b, k)).collect();
    assert_eq!(
        raw,
        vec![square, 2 * square, 3 * square, 4 * square, 3 * square, 2 * square, square]
    );
}

#[test]
fn multiplication_scenario() {
    let table = polymul_trace(&vec![1, 2, 3], &vec![4, 5, 6], 7);
    assert_eq!(table.width(), 11);
    assert_eq!(table.height(), 4);
    assert_eq!(table.row(0), vec![1, 2, 3, 4, 5, 6, 4, 6, 0, 6, 4]);
}

#[test]
fn multiplication_padding_rows_are_zero() {
    let table = polymul_trace(&vec![1, 2, 3], &vec![4, 5, 6], 7);
    for r in 1..4 {
        assert_eq!(table.row(r), vec![0; 11]);
    }
}

#[test]
fn multiplication_of_one_coefficient() {
    let table = polymul_trace(&vec![3], &vec![4], 5);
    assert_eq!(rows_of(&table), vec![vec![3, 4, 2], vec![0; 3], vec![0; 3], vec![0; 3]]);
}

#[test]
fn multiplication_reduces_wide_sums() {
    let top = P1 - 1;
    let table = polymul_trace(&vec![top, top], &vec![top, top], P1);
    assert_eq!(table.row(0), vec![top, top, top, top, 1, 2, 1]);
}

#[test]
fn multiplication_matches_schoolbook_product() {
    let n = 40usize;
    let modulus: u32 = 1092616193;
    let a: Vec<u32> = (0..n as u64).map(|i| ((i * 2654435761 + 17) % modulus as u64) as u32).collect();
    let b: Vec<u32> = (0..n as u64).map(|i| ((i * 40503 + 977) % modulus as u64) as u32).collect();
    let table = polymul_trace(&a, &b, modulus);
    let row = table.row(0);
    assert_eq!(row.len(), 4 * n - 1);
    assert_eq!(&row[0..n], &a[..]);
    assert_eq!(&row[n..2 * n], &b[..]);
    for k in 0..2 * n - 1 {
        let mut sum: u128 = 0;
        for i in 0..n {
            if k >= i && k - i < n {
                sum += a[i] as u128 * b[k - i] as u128;
            }
        }
        assert_eq!(row[2 * n + k] as u128, sum % modulus as u128);
    }
}

#[test]
fn multiplication_is_deterministic() {
    let a: Vec<u32> = (0..30).map(|i| i * 7919 % 1000).collect();
    let b: Vec<u32> = (0..30).map(|i| i * 104729 % 1000).collect();
    let first = polymul_trace(&a, &b, 1000);
    let second = polymul_trace(&a, &b, 1000);
    assert_eq!(rows_of(&first), rows_of(&second));
}

#[test]
fn table_cells_in_row_major_order() {
    let table = polyadd_trace(&vec![3], &vec![4], 5);
    assert_eq!(table.get(0, 0), 3);
    assert_eq!(table.get(0, 3), 2);
    assert_eq!(table.get(3, 3), 0);
    assert_eq!(table.into_cells(), vec![3, 4, 5, 2, 0, 0, 0, 0, 0, 0, 0, 0, 0, 0, 0, 0]);
}

#[test]
fn first_row_is_padded_to_four_rows() {
    let table = TraceTable::from_first_row(vec![9, 8, 7]);
    assert_eq!(table.width(), 3);
    assert_eq!(rows_of(&table), vec![vec![9, 8, 7], vec![0; 3], vec![0; 3], vec![0; 3]]);
}

#[test]
fn addition_matrix_holds_the_table_as_field_elements() {
    let trace = generate_polyadd_trace(vec![1, 2, 3], vec![4, 5, 6], 7);
    assert_eq!(trace.width, 10);
    assert_eq!(trace.width(), 10);
    assert_eq!(trace.height(), 4);
    let cells: Vec<u32> = trace.values.iter().map(|cell| cell.as_canonical_u32()).collect();
    let mut expected: Vec<u32> = vec![1, 2, 3, 4, 5, 6, 7, 5, 0, 2];
    expected.extend(vec![0; 30]);
    assert_eq!(cells, expected);
}

#[test]
fn multiplication_matrix_holds_the_table_as_field_elements() {
    let trace = generate_polymul_trace(vec![1, 2, 3], vec![4, 5, 6], 7);
    assert_eq!(trace.width, 11);
    assert_eq!(trace.height(), 4);
    let cells: Vec<u32> = trace.values.iter().map(|cell| cell.as_canonical_u32()).collect();
    let mut expected: Vec<u32> = vec![1, 2, 3, 4, 5, 6, 4, 6, 0, 6, 4];
    expected.extend(vec![0; 33]);
    assert_eq!(cells, expected);
}

#[test]
fn matrix_takes_the_largest_canonical_values() {
    let top: u32 = (1 << 31) - 2;
    let trace = generate_polyadd_trace(vec![top], vec![top], top);
    let cells: Vec<u32> = trace.values.iter().map(|cell| cell.as_canonical_u32()).collect();
    assert_eq!(&cells[0..4], &[top, top, top, 0]);
    let trace = generate_polymul_trace(vec![top], vec![top], top + 1);
    let cells: Vec<u32> = trace.values.iter().map(|cell| cell.as_canonical_u32()).collect();
    assert_eq!(&cells[0..3], &[top, top, 1]);
}
