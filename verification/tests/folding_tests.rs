use fri_pcs::extension::{embed, ext_add, ext_mul, ext_scale, ext_sub, Ext};
use fri_pcs::field::{two_adic_generator, val_inverse_or_zero, val_mul, HALF, P};
use fri_pcs::folding::TwoAdicFriFolding;

fn e(c0: u32, c1: u32, c2: u32, c3: u32) -> Ext {
    Ext { c0, c1, c2, c3 }
}

#[test]
fn extra_query_index_bits_is_zero() {
    assert_eq!(TwoAdicFriFolding::new().extra_query_index_bits(), 0);
}

#[test]
fn fold_row_interpolates_the_line() {
    // The two points are 1 and -1: the line through (1, 3) and (-1, 7) is 5 - 2x.
    let folding = TwoAdicFriFolding::new();
    let out = folding.fold_row(0, 0, embed(5), &vec![embed(3), embed(7)]);
    assert_eq!(out, embed(P - 5));
}

#[test]
fn fold_matrix_single_row_exact_value() {
    let folding = TwoAdicFriFolding::new();
    let out = folding.fold_matrix(embed(5), &vec![vec![embed(3), embed(7)]]);
    assert_eq!(out, vec![embed(P - 5)]);
}

#[test]
fn fold_matrix_follows_even_odd_formula() {
    let folding = TwoAdicFriFolding::new();
    let beta = e(2, 3, 5, 7);
    let lo = e(11, 13, 17, 19);
    let hi = e(23, 29, 31, 37);
    let rows = vec![vec![e(1, 0, 0, 0), e(2, 0, 0, 0)], vec![lo, hi]];
    let out = folding.fold_matrix(beta, &rows);
    // Row 1 of two rows sits at the point w, the generator of order 4.
    let w_inv = val_inverse_or_zero(two_adic_generator(2));
    let t = val_mul(HALF, w_inv);
    let expected = ext_add(ext_scale(ext_add(lo, hi), HALF), ext_scale(ext_mul(ext_sub(lo, hi), beta), t));
    assert_eq!(out[1], expected);
}

#[test]
fn folding_agreement_on_four_evaluations() {
    let folding = TwoAdicFriFolding::new();
    let beta = e(123456, 7, 0, 99);
    let evals = vec![e(1, 2, 3, 4), e(5, 6, 7, 8), e(9, 10, 11, 12), e(13, 14, 15, 16)];
    let rows = vec![vec![evals[0], evals[1]], vec![evals[2], evals[3]]];
    let folded = folding.fold_matrix(beta, &rows);
    assert_eq!(folded.len(), 2);
    for i in 0..2usize {
        let by_row = folding.fold_row(i, 1, beta, &rows[i]);
        assert_eq!(by_row, folded[i]);
    }
}

#[test]
fn folding_agreement_on_a_taller_vector() {
    let folding = TwoAdicFriFolding::new();
    let beta = e(31, 41, 59, 26);
    let mut rows: Vec<Vec<Ext>> = Vec::new();
    for i in 0..16u32 {
        rows.push(vec![e(i, i + 1, 2 * i, 7), e(100 + i, 3, i * i, P - 1)]);
    }
    let folded = folding.fold_matrix(beta, &rows);
    for i in 0..16usize {
        assert_eq!(folding.fold_row(i, 4, beta, &rows[i]), folded[i]);
    }
}

#[test]
fn folding_a_constant_keeps_it() {
    let folding = TwoAdicFriFolding::new();
    let c = e(4, 5, 6, 7);
    let rows = vec![vec![c, c], vec![c, c], vec![c, c], vec![c, c]];
    let folded = folding.fold_matrix(e(9, 9, 9, 9), &rows);
    assert_eq!(folded, vec![c, c, c, c]);
}
