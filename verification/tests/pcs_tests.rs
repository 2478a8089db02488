use fri_pcs::coset::{coset_table, Domain};
use fri_pcs::denominators::{compute_inverse_denominators, max_log_heights};
use fri_pcs::extension::{embed, ext_add, ext_exp, ext_mul, ext_one, ext_sub, ext_zero, Ext};
use fri_pcs::field::{val_mul, GENERATOR, P};
use fri_pcs::matrix::Matrix;
use fri_pcs::pcs::TwoAdicFriPcs;
use fri_pcs::quotient::widths_fit;
use fri_pcs::transcript::transcript_order;

fn e(c0: u32, c1: u32, c2: u32, c3: u32) -> Ext {
    Ext { c0, c1, c2, c3 }
}

/// The column of values `scale * x` over the canonical coset of height `2^k`.
fn linear_column(k: usize, scale: u32) -> Matrix {
    let rows: Vec<Vec<u32>> = coset_table(k).iter().map(|x| vec![val_mul(*x, scale)]).collect();
    Matrix { rows, width: 1 }
}

#[test]
fn natural_domain_is_the_subgroup() {
    let pcs = TwoAdicFriPcs::new(1);
    let d = pcs.natural_domain_for_degree(8);
    assert_eq!(d, Domain { shift: 1, log_size: 3 });
    assert_eq!(pcs.natural_domain_for_degree(1), Domain { shift: 1, log_size: 0 });
}

#[test]
fn commit_rejects_a_height_that_is_not_the_domain_size() {
    let pcs = TwoAdicFriPcs::new(1);
    let d = Domain::new(1, 1).unwrap();
    let two = Matrix { rows: vec![vec![1], vec![2]], width: 1 };
    let four = Matrix { rows: vec![vec![1], vec![2], vec![3], vec![4]], width: 1 };
    assert!(pcs.can_commit(&d, &two));
    assert!(!pcs.can_commit(&d, &four));
    assert!(pcs.try_commit(&vec![(d, four)]).is_none());
    let ok = pcs.try_commit(&vec![(d, two)]).unwrap();
    assert_eq!(ok.len(), 1);
    assert_eq!(ok[0].height(), 4);
}

#[test]
fn commit_rejects_ragged_rows_and_oversized_cosets() {
    let pcs = TwoAdicFriPcs::new(2);
    let ragged = Matrix { rows: vec![vec![1], vec![2, 3]], width: 1 };
    assert!(!ragged.is_rectangular());
    assert!(!pcs.can_commit(&Domain::new(1, 1).unwrap(), &ragged));
    let one_row = Matrix { rows: vec![vec![1]], width: 1 };
    assert!(one_row.is_rectangular());
    assert!(!pcs.can_commit(&Domain { shift: 0, log_size: 0 }, &one_row));
    assert!(!pcs.can_commit(&Domain { shift: 1, log_size: 26 }, &one_row));
    let no_columns = Matrix { rows: vec![vec![]], width: 0 };
    assert!(!no_columns.is_rectangular());
}

#[test]
fn can_open_checks_the_batch() {
    let pcs = TwoAdicFriPcs::new(1);
    let z = e(5, 1, 0, 0);
    assert!(pcs.can_open(&vec![linear_column(2, 1)], &vec![vec![z]]));
    assert!(!pcs.can_open(&vec![], &vec![]));
    assert!(!pcs.can_open(&vec![linear_column(2, 1)], &vec![]));
    // A height below the blow-up.
    assert!(!pcs.can_open(&vec![linear_column(0, 1)], &vec![vec![z]]));
    // A height that is no power of two.
    let three = Matrix { rows: vec![vec![1], vec![2], vec![3]], width: 1 };
    assert!(!pcs.can_open(&vec![three], &vec![vec![z]]));
    // A point of the coset itself.
    let inside = embed(coset_table(2)[3]);
    assert!(!pcs.can_open(&vec![linear_column(2, 1)], &vec![vec![z, inside]]));
    // The same point is outside the smaller coset.
    assert!(pcs.can_open(&vec![linear_column(1, 1)], &vec![vec![inside]]));
    // But not once a taller matrix is opened at it.
    assert!(!pcs.can_open(&vec![linear_column(1, 1), linear_column(2, 1)], &vec![vec![inside], vec![inside]]));
}

#[test]
fn widths_fit_counts_the_columns() {
    assert!(widths_fit(&vec![linear_column(1, 1), linear_column(2, 1)]));
    let wide = Matrix { rows: vec![], width: usize::MAX };
    let one = Matrix { rows: vec![], width: 1 };
    assert!(widths_fit(&vec![wide]));
    let wide = Matrix { rows: vec![], width: usize::MAX };
    assert!(!widths_fit(&vec![wide, one]));
}

#[test]
fn extend_moves_the_identity_onto_the_canonical_coset() {
    // The polynomial x over the subgroup {1, -1}.
    let pcs = TwoAdicFriPcs::new(1);
    let d = Domain::new(1, 1).unwrap();
    let evals = Matrix { rows: vec![vec![1], vec![P - 1]], width: 1 };
    let lde = pcs.extend(&d, &evals);
    let column: Vec<u32> = lde.rows.iter().map(|r| r[0]).collect();
    assert_eq!(column, coset_table(2));
}

#[test]
fn extend_undoes_the_shift_of_the_domain() {
    // The polynomial x over the coset {5, -5}, next to the constant 9.
    let pcs = TwoAdicFriPcs::new(2);
    let d = Domain::new(5, 1).unwrap();
    let evals = Matrix { rows: vec![vec![5, 9], vec![P - 5, 9]], width: 2 };
    let lde = pcs.extend(&d, &evals);
    assert_eq!(lde.width(), 2);
    assert_eq!(lde.height(), 8);
    let table = coset_table(3);
    for i in 0..8usize {
        assert_eq!(lde.rows[i], vec![table[i], 9]);
    }
}

#[test]
fn commit_extends_each_matrix() {
    let pcs = TwoAdicFriPcs::new(1);
    let batch = vec![
        (Domain::new(1, 1).unwrap(), Matrix { rows: vec![vec![1], vec![P - 1]], width: 1 }),
        (Domain::new(1, 0).unwrap(), Matrix { rows: vec![vec![7, 8]], width: 2 }),
    ];
    let ldes = pcs.commit(&batch);
    assert_eq!(ldes.len(), 2);
    assert_eq!(ldes[0].height(), 4);
    assert_eq!(ldes[1].rows, vec![vec![7, 8], vec![7, 8]]);
}

#[test]
fn evaluations_on_domain_come_in_natural_order() {
    let pcs = TwoAdicFriPcs::new(1);
    let ldes = vec![linear_column(3, 1)];
    let d = Domain::new(GENERATOR, 2).unwrap();
    let out = pcs.get_evaluations_on_domain(&ldes, 0, d);
    let table = coset_table(2);
    let natural = vec![vec![table[0]], vec![table[2]], vec![table[1]], vec![table[3]]];
    assert_eq!(out.rows, natural);
}

#[test]
fn reading_back_the_whole_coset_undoes_the_bit_reversal() {
    let pcs = TwoAdicFriPcs::new(1);
    let d = Domain::new(1, 2).unwrap();
    let evals = Matrix { rows: vec![vec![3, 1], vec![4, 1], vec![1, 5], vec![5, 9]], width: 2 };
    let ldes = pcs.commit(&vec![(d, evals)]);
    let whole = pcs.get_evaluations_on_domain(&ldes, 0, Domain::new(GENERATOR, 3).unwrap());
    let again = fri_pcs::matrix::bit_reversed_rows(&whole, 3);
    assert_eq!(again.rows, ldes[0].rows);
    assert_ne!(whole.rows, ldes[0].rows);
}

#[test]
fn max_log_heights_keeps_the_tallest_matrix_of_each_point() {
    let z1 = e(5, 1, 0, 0);
    let z2 = e(6, 0, 2, 0);
    let mats = vec![linear_column(2, 1), linear_column(3, 1), linear_column(1, 1)];
    let points = vec![vec![z1, z2], vec![z1], vec![z2, z2]];
    let entries = max_log_heights(&mats, &points);
    assert_eq!(entries, vec![((5, 1, 0, 0), 3), ((6, 0, 2, 0), 2)]);
}

#[test]
fn inverse_denominators_invert_the_differences() {
    let z1 = e(5, 1, 0, 0);
    let z2 = e(6, 0, 2, 0);
    let mats = vec![linear_column(2, 1), linear_column(3, 1)];
    let points = vec![vec![z1, z2], vec![z1]];
    let coset = coset_table(3);
    let inv = compute_inverse_denominators(&mats, &points, &coset);
    assert_eq!(inv.points, vec![z1, z2]);
    assert_eq!(inv.tables[0].len(), 8);
    assert_eq!(inv.tables[1].len(), 4);
    for (idx, z) in [z1, z2].iter().enumerate() {
        for (i, d) in inv.tables[idx].iter().enumerate() {
            assert_eq!(ext_mul(*d, ext_sub(*z, embed(coset[i]))), ext_one());
        }
    }
    assert_eq!(inv.position(z2), Some(1));
    assert_eq!(inv.position(e(1, 1, 1, 1)), None);
}

#[test]
fn opened_values_are_the_polynomials_at_the_point() {
    // Columns x and 7 over the canonical coset, blown up once.
    let pcs = TwoAdicFriPcs::new(1);
    let rows: Vec<Vec<u32>> = coset_table(3).iter().map(|x| vec![*x, 7]).collect();
    let mats = vec![Matrix { rows, width: 2 }];
    let z = e(5, 1, 0, 0);
    let w = e(0, 0, 3, 1);
    let points = vec![vec![z, w]];
    let batch = pcs.open_values(&mats, &points);
    assert_eq!(batch.log_max_height, 3);
    assert_eq!(batch.values, vec![vec![vec![z, embed(7)], vec![w, embed(7)]]]);
}

#[test]
fn quotient_of_the_identity_is_one() {
    let pcs = TwoAdicFriPcs::new(1);
    let mats = vec![linear_column(2, 1)];
    let points = vec![vec![e(5, 1, 0, 0)]];
    let batch = pcs.open_values(&mats, &points);
    let input = pcs.open(&mats, &points, &batch, e(3, 1, 4, 1));
    assert_eq!(input, vec![vec![ext_one(); 4]]);
}

#[test]
fn combined_quotient_is_linear_in_the_matrices() {
    // Two matrices of width one and equal height, opened at the same point:
    // the quotient of x is 1, the quotient of 2x is 2.
    let pcs = TwoAdicFriPcs::new(1);
    let alpha = e(3, 1, 4, 1);
    let z = e(5, 1, 0, 0);
    let first = pcs.open(&vec![linear_column(2, 1)], &vec![vec![z]], &pcs.open_values(&vec![linear_column(2, 1)], &vec![vec![z]]), alpha);
    let second = pcs.open(&vec![linear_column(2, 2)], &vec![vec![z]], &pcs.open_values(&vec![linear_column(2, 2)], &vec![vec![z]]), alpha);
    assert_eq!(second, vec![vec![embed(2); 4]]);
    let mats = vec![linear_column(2, 1), linear_column(2, 2)];
    let points = vec![vec![z], vec![z]];
    let batch = pcs.open_values(&mats, &points);
    let both = pcs.open(&mats, &points, &batch, alpha);
    assert_eq!(both.len(), 1);
    for i in 0..4usize {
        let stacked = ext_add(ext_mul(ext_exp(alpha, 0), first[0][i]), ext_mul(ext_exp(alpha, 1), second[0][i]));
        assert_eq!(both[0][i], stacked);
        assert_eq!(both[0][i], ext_add(ext_one(), ext_mul(alpha, embed(2))));
    }
}

#[test]
fn offset_grows_by_the_width_of_each_matrix() {
    // A matrix of width two, then one of width one: the second is scaled by alpha^2.
    let pcs = TwoAdicFriPcs::new(1);
    let alpha = e(3, 1, 4, 1);
    let z = e(5, 1, 0, 0);
    let rows: Vec<Vec<u32>> = coset_table(2).iter().map(|x| vec![*x, val_mul(*x, 3)]).collect();
    let mats = vec![Matrix { rows, width: 2 }, linear_column(2, 1)];
    let points = vec![vec![z], vec![z]];
    let batch = pcs.open_values(&mats, &points);
    let input = pcs.open(&mats, &points, &batch, alpha);
    // 1 + 3 alpha from the first matrix, alpha^2 from the second.
    let expected = ext_add(ext_add(ext_one(), ext_mul(alpha, embed(3))), ext_exp(alpha, 2));
    assert_eq!(input, vec![vec![expected; 4]]);
}

#[test]
fn points_of_one_matrix_share_its_offset() {
    let pcs = TwoAdicFriPcs::new(1);
    let alpha = e(3, 1, 4, 1);
    let mats = vec![linear_column(2, 1), linear_column(2, 1)];
    let points = vec![vec![e(5, 1, 0, 0), e(0, 2, 0, 0)], vec![e(5, 1, 0, 0)]];
    let batch = pcs.open_values(&mats, &points);
    let input = pcs.open(&mats, &points, &batch, alpha);
    // Two points of the first matrix at alpha^0, the second matrix at alpha^1.
    let expected = ext_add(ext_add(ext_one(), ext_one()), alpha);
    assert_eq!(input, vec![vec![expected; 4]]);
}

#[test]
fn quotient_vectors_come_tallest_first() {
    let pcs = TwoAdicFriPcs::new(1);
    let alpha = e(3, 1, 4, 1);
    let z = e(5, 1, 0, 0);
    let mats = vec![linear_column(2, 1), linear_column(4, 2), linear_column(2, 1)];
    let points = vec![vec![z], vec![z], vec![]];
    let batch = pcs.open_values(&mats, &points);
    assert_eq!(batch.log_max_height, 4);
    let input = pcs.open(&mats, &points, &batch, alpha);
    assert_eq!(input.len(), 2);
    assert_eq!(input[0], vec![embed(2); 16]);
    assert_eq!(input[1], vec![ext_one(); 4]);
}

#[test]
fn a_matrix_without_points_leaves_a_zero_vector() {
    let pcs = TwoAdicFriPcs::new(1);
    let mats = vec![linear_column(1, 1)];
    let points = vec![vec![]];
    let batch = pcs.open_values(&mats, &points);
    let input = pcs.open(&mats, &points, &batch, e(3, 1, 4, 1));
    assert_eq!(input, vec![vec![ext_zero(); 2]]);
}

#[test]
fn transcript_takes_matrix_then_point_then_column() {
    let opened = vec![
        vec![vec![e(1, 0, 0, 0), e(2, 0, 0, 0)], vec![e(3, 0, 0, 0), e(4, 0, 0, 0)]],
        vec![],
        vec![vec![e(5, 0, 0, 0)]],
    ];
    let order = transcript_order(&opened);
    assert_eq!(order, vec![e(1, 0, 0, 0), e(2, 0, 0, 0), e(3, 0, 0, 0), e(4, 0, 0, 0), e(5, 0, 0, 0)]);
}

#[test]
fn verifier_replays_the_order_of_the_prover() {
    let pcs = TwoAdicFriPcs::new(1);
    let rows: Vec<Vec<u32>> = coset_table(3).iter().map(|x| vec![*x, 7]).collect();
    let mats = vec![Matrix { rows, width: 2 }, linear_column(2, 5)];
    let z = e(5, 1, 0, 0);
    let w = e(0, 0, 3, 1);
    let points = vec![vec![z, w], vec![w]];
    let batch = pcs.open_values(&mats, &points);
    let claims = vec![
        (Domain::new(GENERATOR, 2).unwrap(), vec![(z, batch.values[0][0].clone()), (w, batch.values[0][1].clone())]),
        (Domain::new(GENERATOR, 1).unwrap(), vec![(w, batch.values[1][0].clone())]),
    ];
    let replay = pcs.verify(&claims);
    assert_eq!(replay, transcript_order(&batch.values));
    assert_eq!(replay.len(), 5);
    assert_eq!(replay[4], ext_mul(w, embed(5)));
}

#[test]
fn a_changed_claim_changes_what_the_verifier_observes() {
    let pcs = TwoAdicFriPcs::new(1);
    let z = e(5, 1, 0, 0);
    let d = Domain::new(GENERATOR, 1).unwrap();
    let honest = vec![(d, vec![(z, vec![e(1, 2, 3, 4), e(5, 6, 7, 8)])])];
    let observed = pcs.verify(&honest);
    for column in 0..2usize {
        let mut tampered = vec![(d, vec![(z, vec![e(1, 2, 3, 4), e(5, 6, 7, 8)])])];
        tampered[0].1[0].1[column].c2 += 1;
        let replay = pcs.verify(&tampered);
        assert_eq!(replay.len(), observed.len());
        assert_ne!(replay, observed);
    }
}
