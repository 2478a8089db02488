use fri_pcs::bits::{log2_checked, log2_strict, pow2_exec, reverse_bits};
use fri_pcs::coset::{coset_points, coset_table, Domain};
use fri_pcs::field::{two_adic_generator, val_mul, GENERATOR, P};
use fri_pcs::matrix::{bit_reversed_rows, Matrix};

#[test]
fn log2_of_powers_of_two() {
    assert_eq!(log2_checked(1), Some(0));
    assert_eq!(log2_checked(8), Some(3));
    assert_eq!(log2_checked(1 << 27), Some(27));
    assert_eq!(log2_strict(64), 6);
}

#[test]
fn log2_rejects_other_numbers() {
    assert_eq!(log2_checked(0), None);
    assert_eq!(log2_checked(3), None);
    assert_eq!(log2_checked(12), None);
    assert_eq!(log2_checked(usize::MAX), None);
}

#[test]
fn pow2_values() {
    assert_eq!(pow2_exec(0), 1);
    assert_eq!(pow2_exec(5), 32);
    assert_eq!(pow2_exec(27), 134217728);
}

#[test]
fn reverse_bits_values() {
    assert_eq!(reverse_bits(0, 0), 0);
    assert_eq!(reverse_bits(1, 3), 4);
    assert_eq!(reverse_bits(3, 3), 6);
    assert_eq!(reverse_bits(6, 3), 3);
    assert_eq!(reverse_bits(1, 1), 1);
}

#[test]
fn domain_new_checks_shift_and_size() {
    assert!(Domain::new(0, 3).is_none());
    assert!(Domain::new(P, 3).is_none());
    assert!(Domain::new(1, 28).is_none());
    let d = Domain::new(31, 3).unwrap();
    assert_eq!(d.shift(), 31);
    assert_eq!(d.log_size(), 3);
    assert_eq!(d.size(), 8);
    assert_eq!(Domain::new(P + 2, 0).unwrap().shift(), 2);
}

#[test]
fn coset_points_are_shifted_powers() {
    let w = two_adic_generator(2);
    let pts = coset_points(5, 2);
    assert_eq!(pts.len(), 4);
    assert_eq!(pts[0], 5);
    assert_eq!(pts[1], val_mul(5, w));
    assert_eq!(pts[2], P - 5);
    assert_eq!(pts[3], val_mul(P - 5, w));
}

#[test]
fn coset_table_is_bit_reversed() {
    let w = two_adic_generator(2);
    let t = coset_table(2);
    assert_eq!(t, vec![GENERATOR, P - GENERATOR, val_mul(GENERATOR, w), val_mul(P - GENERATOR, w)]);
    assert_eq!(coset_table(0), vec![GENERATOR]);
}

#[test]
fn coset_table_prefix_matches_smaller_table() {
    let big = coset_table(3);
    let small = coset_table(2);
    assert_eq!(big.len(), 8);
    assert_eq!(small.len(), 4);
    assert_eq!(&big[..4], &small[..]);
}

#[test]
fn coset_table_prefix_holds_at_every_height() {
    let big = coset_table(7);
    for j in 0..7usize {
        let small = coset_table(j);
        assert_eq!(&big[..small.len()], &small[..]);
    }
}

#[test]
fn bit_reversed_rows_permutes_rows() {
    let m = Matrix { rows: vec![vec![0, 10], vec![1, 11], vec![2, 12], vec![3, 13]], width: 2 };
    let r = bit_reversed_rows(&m, 2);
    assert_eq!(r.rows, vec![vec![0, 10], vec![2, 12], vec![1, 11], vec![3, 13]]);
    assert_eq!(r.width(), 2);
    let first = bit_reversed_rows(&m, 1);
    assert_eq!(first.rows, vec![vec![0, 10], vec![1, 11]]);
    assert_eq!(first.height(), 2);
}
