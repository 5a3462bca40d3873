//! Matrices of zeros and ones, composite states and density matrices.

use roqoqo_mock::composite::{basis_state, composite_state, density_matrix};
use roqoqo_mock::matrix::{kronecker_fn, zero_matrix};
use roqoqo_mock::values::{copy_rows, copy_vec, ONE_BITS, ZERO_BITS};
use roqoqo_mock::{Complex, Real};

/// A matrix of zeros and ones from rows of digits.
fn matrix(rows: &[&[u8]]) -> Vec<Vec<Complex>> {
    rows.iter()
        .map(|row| {
            row.iter()
                .map(|digit| {
                    if *digit == 1 {
                        Complex::one()
                    } else {
                        Complex::zero()
                    }
                })
                .collect()
        })
        .collect()
}

#[test]
fn zero_and_one_are_the_binary64_patterns() {
    assert_eq!(ZERO_BITS, 0.0_f64.to_bits());
    assert_eq!(ONE_BITS, 1.0_f64.to_bits());
    assert_eq!(Real::zero(), Real { bits: 0.0_f64.to_bits() });
    assert_eq!(Real::one(), Real { bits: 1.0_f64.to_bits() });
    assert_eq!(Complex::zero(), Complex::new(Real::zero(), Real::zero()));
    assert_eq!(Complex::one(), Complex::new(Real::one(), Real::zero()));
    assert_eq!(f64::from_bits(Complex::one().re.bits), 1.0);
    assert_eq!(f64::from_bits(Complex::one().im.bits), 0.0);
}

#[test]
fn unit_interval_is_from_zero_to_below_one() {
    let unit = |value: f64| Real { bits: value.to_bits() }.in_unit_interval();
    assert!(unit(0.0));
    assert!(unit(f64::MIN_POSITIVE));
    assert!(unit(0.5));
    assert!(unit(1.0 - f64::EPSILON / 2.0));
    assert!(!unit(1.0));
    assert!(!unit(1.5));
    assert!(!unit(-0.5));
    assert!(!unit(f64::INFINITY));
    assert!(!unit(f64::NAN));
}

#[test]
fn product_of_zeros_and_ones() {
    let zero = Complex::zero();
    let one = Complex::one();
    assert_eq!(one.times_bit(&one), one);
    assert_eq!(one.times_bit(&zero), zero);
    assert_eq!(zero.times_bit(&one), zero);
    assert_eq!(zero.times_bit(&zero), zero);
}

#[test]
fn copies_hold_the_same_entries() {
    assert_eq!(copy_vec(&vec![3_u8, 1, 2]), vec![3_u8, 1, 2]);
    assert_eq!(copy_vec(&Vec::<bool>::new()), Vec::<bool>::new());
    let rows = vec![vec![true], vec![], vec![false, true]];
    assert_eq!(copy_rows(&rows), rows);
    assert_eq!(copy_rows(&Vec::<Vec<u8>>::new()), Vec::<Vec<u8>>::new());
}

#[test]
fn zero_matrix_has_rows_and_columns() {
    assert_eq!(zero_matrix(2, 3), matrix(&[&[0, 0, 0], &[0, 0, 0]]));
    assert_eq!(zero_matrix(0, 3), Vec::<Vec<Complex>>::new());
    assert_eq!(zero_matrix(2, 0), vec![Vec::<Complex>::new(), Vec::new()]);
    assert_eq!(zero_matrix(1, 1), matrix(&[&[0]]));
}

#[test]
fn kronecker_product_of_rows() {
    let first = matrix(&[&[1, 0]]);
    let second = matrix(&[&[0, 1]]);
    assert_eq!(kronecker_fn(&first, &second), matrix(&[&[0, 1, 0, 0]]));
    assert_eq!(kronecker_fn(&second, &first), matrix(&[&[0, 0, 1, 0]]));
    assert_eq!(kronecker_fn(&second, &second), matrix(&[&[0, 0, 0, 1]]));
}

#[test]
fn kronecker_product_lays_blocks_out_by_rows() {
    let a = matrix(&[&[1, 0], &[1, 1]]);
    let b = matrix(&[&[1, 1, 0], &[0, 1, 0]]);
    let product = kronecker_fn(&a, &b);
    assert_eq!(
        product,
        matrix(&[
            &[1, 1, 0, 0, 0, 0],
            &[0, 1, 0, 0, 0, 0],
            &[1, 1, 0, 1, 1, 0],
            &[0, 1, 0, 0, 1, 0],
        ])
    );
    for i in 0..2 {
        for j in 0..2 {
            for k in 0..2 {
                for l in 0..3 {
                    assert_eq!(product[2 * i + k][3 * j + l], a[i][j].times_bit(&b[k][l]));
                }
            }
        }
    }
}

#[test]
fn kronecker_product_is_associative() {
    let a = matrix(&[&[1, 0], &[0, 1]]);
    let b = matrix(&[&[0, 1]]);
    let c = matrix(&[&[1], &[1], &[0]]);
    assert_eq!(
        kronecker_fn(&kronecker_fn(&a, &b), &c),
        kronecker_fn(&a, &kronecker_fn(&b, &c))
    );
}

#[test]
fn kronecker_product_of_row_and_column() {
    let row = matrix(&[&[0, 1, 0]]);
    let column = matrix(&[&[0], &[1], &[0]]);
    assert_eq!(
        kronecker_fn(&row, &column),
        matrix(&[&[0, 0, 0], &[0, 1, 0], &[0, 0, 0]])
    );
}

#[test]
fn kronecker_product_with_empty_rows() {
    let a = matrix(&[&[1, 1]]);
    let none: Vec<Vec<Complex>> = vec![vec![], vec![]];
    assert_eq!(kronecker_fn(&a, &none), none);
    assert_eq!(kronecker_fn(&none, &a), none);
}

#[test]
fn basis_states_of_one_qubit() {
    assert_eq!(basis_state(0), matrix(&[&[1, 0]]));
    assert_eq!(basis_state(1), matrix(&[&[0, 1]]));
    assert_eq!(basis_state(7), matrix(&[&[0, 1]]));
}

#[test]
fn composite_state_reads_the_choices_as_a_binary_number() {
    assert_eq!(composite_state(&vec![0]), matrix(&[&[1, 0]]));
    assert_eq!(composite_state(&vec![1]), matrix(&[&[0, 1]]));
    assert_eq!(composite_state(&vec![1, 0]), matrix(&[&[0, 0, 1, 0]]));
    assert_eq!(composite_state(&vec![0, 1]), matrix(&[&[0, 1, 0, 0]]));
    assert_eq!(
        composite_state(&vec![1, 1, 0]),
        matrix(&[&[0, 0, 0, 0, 0, 0, 1, 0]])
    );
    assert_eq!(
        composite_state(&vec![0, 0, 0]),
        matrix(&[&[1, 0, 0, 0, 0, 0, 0, 0]])
    );
}

#[test]
fn composite_state_without_qubits_is_empty() {
    assert_eq!(composite_state(&vec![]), Vec::<Vec<Complex>>::new());
    assert_eq!(density_matrix(&vec![]), Vec::<Vec<Complex>>::new());
}

#[test]
fn density_matrix_has_its_one_on_the_diagonal() {
    assert_eq!(density_matrix(&vec![0]), matrix(&[&[1, 0], &[0, 0]]));
    assert_eq!(density_matrix(&vec![1]), matrix(&[&[0, 0], &[0, 1]]));
    assert_eq!(
        density_matrix(&vec![1, 0]),
        matrix(&[&[0, 0, 0, 0], &[0, 0, 0, 0], &[0, 0, 1, 0], &[0, 0, 0, 0]])
    );
    let large = density_matrix(&vec![1, 0, 1, 1]);
    assert_eq!(large.len(), 16);
    for (r, row) in large.iter().enumerate() {
        assert_eq!(row.len(), 16);
        for (c, entry) in row.iter().enumerate() {
            let expected = if r == 11 && c == 11 {
                Complex::one()
            } else {
                Complex::zero()
            };
            assert_eq!(*entry, expected);
        }
    }
}

#[test]
fn density_matrix_rows_and_columns_sum_to_one_or_zero() {
    let matrix = density_matrix(&vec![0, 1, 1]);
    let ones = |entries: Vec<Complex>| entries.iter().filter(|e| **e == Complex::one()).count();
    for r in 0..8 {
        let expected = if r == 3 { 1 } else { 0 };
        assert_eq!(ones(matrix[r].clone()), expected);
        assert_eq!(ones(matrix.iter().map(|row| row[r]).collect()), expected);
    }
}
