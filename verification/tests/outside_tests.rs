use fri_pcs::bits::{log2_strict, reverse_bits};
use fri_pcs::coset::{coset_points, coset_table, Domain};
use fri_pcs::extension::{
    embed, ext_add, ext_exp, ext_inverse, ext_mul, ext_scale, ext_sub, Ext,
};
use fri_pcs::field::{
    shifted_powers, two_adic_generator, val_add, val_exp, val_halve, val_inverse_or_zero, val_mul,
    val_sub, GENERATOR, HALF, P, TWO_ADICITY, TWO_ADIC_ROOT,
};
use fri_pcs::folding::TwoAdicFriFolding;
use fri_pcs::matrix::Matrix;
use fri_pcs::pcs::TwoAdicFriPcs;
use p3_baby_bear::BabyBear;
use p3_field::coset::TwoAdicMultiplicativeCoset;
use p3_field::extension::BinomialExtensionField;
use p3_field::{
    BasedVectorSpace, Field, PrimeCharacteristicRing, PrimeField32, TwoAdicField,
};
use p3_interpolation::interpolate_coset;
use p3_matrix::dense::RowMajorMatrix;
use p3_util::{log2_strict_usize, reverse_bits_len, reverse_slice_index_bits};

type EF = BinomialExtensionField<BabyBear, 4>;

fn to_ef(a: Ext) -> EF {
    EF::new([a.c0, a.c1, a.c2, a.c3].map(BabyBear::new))
}

fn from_ef(x: EF) -> Ext {
    let c: &[BabyBear] = x.as_basis_coefficients_slice();
    Ext {
        c0: c[0].as_canonical_u32(),
        c1: c[1].as_canonical_u32(),
        c2: c[2].as_canonical_u32(),
        c3: c[3].as_canonical_u32(),
    }
}

/// A fixed sequence of residues.
fn residues(n: usize, seed: u64) -> Vec<u32> {
    let mut state = seed;
    let mut out = Vec::new();
    for _ in 0..n {
        state = state.wrapping_mul(6364136223846793005).wrapping_add(1442695040888963407);
        out.push(((state >> 33) % (P as u64)) as u32);
    }
    out
}

fn exts(n: usize, seed: u64) -> Vec<Ext> {
    residues(4 * n, seed).chunks(4).map(|c| Ext { c0: c[0], c1: c[1], c2: c[2], c3: c[3] }).collect()
}

#[test]
fn constants_are_those_of_the_field() {
    assert_eq!(P, BabyBear::ORDER_U32);
    assert_eq!(GENERATOR, BabyBear::GENERATOR.as_canonical_u32());
    assert_eq!(HALF, BabyBear::ONE.halve().as_canonical_u32());
    assert_eq!(TWO_ADICITY, BabyBear::TWO_ADICITY);
    assert_eq!(TWO_ADIC_ROOT, BabyBear::two_adic_generator(27).as_canonical_u32());
}

#[test]
fn base_operations_agree_with_the_field() {
    let xs = residues(40, 1);
    for pair in xs.chunks(2) {
        let (a, b) = (pair[0], pair[1]);
        let (fa, fb) = (BabyBear::new(a), BabyBear::new(b));
        assert_eq!(val_add(a, b), (fa + fb).as_canonical_u32());
        assert_eq!(val_sub(a, b), (fa - fb).as_canonical_u32());
        assert_eq!(val_mul(a, b), (fa * fb).as_canonical_u32());
        assert_eq!(val_halve(a), fa.halve().as_canonical_u32());
        assert_eq!(val_inverse_or_zero(a), fa.inverse().as_canonical_u32());
        assert_eq!(val_exp(a, b as u64), fa.exp_u64(b as u64).as_canonical_u32());
    }
    assert_eq!(val_add(u32::MAX, u32::MAX), (BabyBear::new(u32::MAX) + BabyBear::new(u32::MAX)).as_canonical_u32());
    assert_eq!(val_mul(u32::MAX, P + 3), (BabyBear::new(u32::MAX) * BabyBear::new(3)).as_canonical_u32());
}

#[test]
fn extension_operations_agree_with_the_field() {
    let xs = exts(20, 2);
    let scalars = residues(10, 3);
    for (i, pair) in xs.chunks(2).enumerate() {
        let (a, b) = (pair[0], pair[1]);
        let s = scalars[i];
        assert_eq!(ext_add(a, b), from_ef(to_ef(a) + to_ef(b)));
        assert_eq!(ext_sub(a, b), from_ef(to_ef(a) - to_ef(b)));
        assert_eq!(ext_mul(a, b), from_ef(to_ef(a) * to_ef(b)));
        assert_eq!(ext_scale(a, s), from_ef(to_ef(a) * BabyBear::new(s)));
        assert_eq!(ext_sub(a, embed(s)), from_ef(to_ef(a) - BabyBear::new(s)));
        assert_eq!(ext_inverse(a), Some(from_ef(to_ef(a).inverse())));
        assert_eq!(ext_exp(a, 13), from_ef(to_ef(a).exp_u64(13)));
        assert_eq!(ext_scale(a, HALF), from_ef(to_ef(a).halve()));
    }
}

#[test]
fn generators_and_powers_agree_with_the_field() {
    for bits in 0..=27usize {
        assert_eq!(two_adic_generator(bits), BabyBear::two_adic_generator(bits).as_canonical_u32());
    }
    let expected: Vec<u32> = BabyBear::new(7)
        .shifted_powers(BabyBear::new(5))
        .collect_n(9)
        .iter()
        .map(|x| x.as_canonical_u32())
        .collect();
    assert_eq!(shifted_powers(5, 7, 9), expected);
}

#[test]
fn bit_helpers_agree_with_the_utilities() {
    for k in 0..10usize {
        assert_eq!(log2_strict(1 << k), log2_strict_usize(1 << k));
        for x in 0..(1usize << k) {
            assert_eq!(reverse_bits(x, k), reverse_bits_len(x, k));
        }
    }
}

#[test]
fn coset_tables_agree_with_the_coset_type() {
    for k in 0..8usize {
        let coset = TwoAdicMultiplicativeCoset::new(BabyBear::GENERATOR, k).unwrap();
        let mut pts: Vec<BabyBear> = coset.iter().collect();
        let natural: Vec<u32> = pts.iter().map(|x| x.as_canonical_u32()).collect();
        assert_eq!(coset_points(GENERATOR, k), natural);
        reverse_slice_index_bits(&mut pts);
        let reversed: Vec<u32> = pts.iter().map(|x| x.as_canonical_u32()).collect();
        assert_eq!(coset_table(k), reversed);
    }
}

#[test]
fn fold_row_agrees_with_the_interpolation_over_the_field() {
    let folding = TwoAdicFriFolding::new();
    let vals = exts(3, 4);
    let (beta, e0, e1) = (vals[0], vals[1], vals[2]);
    for log_height in 0..6usize {
        for index in 0..(1usize << log_height) {
            let start = BabyBear::two_adic_generator(log_height + 1)
                .exp_u64(reverse_bits_len(index, log_height) as u64);
            let mut xs = BabyBear::two_adic_generator(1).shifted_powers(start).collect_n(2);
            reverse_slice_index_bits(&mut xs);
            let expected = to_ef(e0)
                + (to_ef(beta) - xs[0]) * (to_ef(e1) - to_ef(e0)) * (xs[1] - xs[0]).inverse();
            assert_eq!(folding.fold_row(index, log_height, beta, &vec![e0, e1]), from_ef(expected));
        }
    }
}

#[test]
fn fold_matrix_agrees_with_the_decomposition_over_the_field() {
    let folding = TwoAdicFriFolding::new();
    let beta = exts(1, 5)[0];
    let vals = exts(32, 6);
    let rows: Vec<Vec<Ext>> = vals.chunks(2).map(|c| c.to_vec()).collect();
    let g_inv = BabyBear::two_adic_generator(log2_strict_usize(rows.len()) + 1).inverse();
    let mut powers = g_inv.shifted_powers(BabyBear::ONE.halve()).collect_n(rows.len());
    reverse_slice_index_bits(&mut powers);
    let expected: Vec<Ext> = rows
        .iter()
        .zip(powers)
        .map(|(row, power)| {
            let (lo, hi) = (to_ef(row[0]), to_ef(row[1]));
            from_ef((lo + hi).halve() + (lo - hi) * to_ef(beta) * power)
        })
        .collect();
    assert_eq!(folding.fold_matrix(beta, &rows), expected);
}

#[test]
fn opening_a_commitment_evaluates_the_committed_polynomials() {
    // Three polynomials given over the coset 5 H, |H| = 8, committed with a
    // blow-up of four and opened at two points.
    let pcs = TwoAdicFriPcs::new(2);
    let domain = Domain::new(5, 3).unwrap();
    let values = residues(24, 7);
    let evals = Matrix { rows: values.chunks(3).map(|r| r.to_vec()).collect(), width: 3 };
    let ldes = pcs.commit(&vec![(domain, evals)]);
    assert_eq!(ldes[0].height(), 32);
    let points = vec![exts(2, 8)];
    assert!(pcs.can_open(&ldes, &points));
    let batch = pcs.open_values(&ldes, &points);
    let dense = RowMajorMatrix::new(values.iter().map(|x| BabyBear::new(*x)).collect(), 3);
    for (k, z) in points[0].iter().enumerate() {
        let expected: Vec<Ext> =
            interpolate_coset(&dense, BabyBear::new(5), to_ef(*z)).into_iter().map(from_ef).collect();
        assert_eq!(batch.values[0][k], expected);
    }
}

#[test]
fn quotient_entries_follow_the_formula() {
    // One matrix of two random columns, two points: entry i is the sum over
    // the points of (C(z) - C(x_i)) / (z - x_i).
    let pcs = TwoAdicFriPcs::new(1);
    let values = residues(16, 9);
    let mats = vec![Matrix { rows: values.chunks(2).map(|r| r.to_vec()).collect(), width: 2 }];
    let points = vec![exts(2, 10)];
    let alpha = exts(1, 11)[0];
    let batch = pcs.open_values(&mats, &points);
    let input = pcs.open(&mats, &points, &batch, alpha);
    assert_eq!(input.len(), 1);
    let table = coset_table(3);
    for i in 0..8usize {
        let row = &mats[0].rows[i];
        let at_row = EF::from(BabyBear::new(row[0])) + to_ef(alpha) * BabyBear::new(row[1]);
        let mut expected = EF::ZERO;
        for (k, z) in points[0].iter().enumerate() {
            let ys = &batch.values[0][k];
            let at_point = to_ef(ys[0]) + to_ef(alpha) * to_ef(ys[1]);
            expected += (at_point - at_row) * (to_ef(*z) - BabyBear::new(table[i])).inverse();
        }
        assert_eq!(input[0][i], from_ef(expected));
    }
}
