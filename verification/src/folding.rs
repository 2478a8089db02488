//! The folding rule of arity two: how an evaluation vector over a coset of
//! size `2^(k+1)` becomes one over a coset of size `2^k`, given a challenge.

use crate::bits::{
    is_pow2, lemma_pow2_strict, lemma_rev_bits_bound, log2_spec, log2_strict, pow2, rev_bits,
    reverse_bits, reverse_index_bits_outside,
};
use crate::extension::{
    embed, embed_spec, ext_add, ext_add_spec, ext_mul, ext_mul_spec, ext_scale, ext_scale_spec,
    ext_sub, ext_sub_spec, Ext,
};
use crate::field::{
    shifted_powers, two_adic_generator, two_adic_generator_spec, val_exp, val_inv_spec,
    val_inverse_or_zero, val_mul, val_mul_pow, val_mul_spec, val_pow, val_sub, val_sub_spec, HALF,
};
use vstd::prelude::*;

verus! {

/// The folding strategy for two-adic cosets held in bit-reversed order.
#[derive(Clone, Copy, Debug)]
pub struct TwoAdicFriFolding {}

/// The first of the two points that square to the point at `index`: the
/// generator of order `2^(log_height + 1)` raised to the reversed index.
pub open spec fn sibling_start_spec(index: nat, log_height: nat) -> u32 {
    val_pow(two_adic_generator_spec(log_height + 1), rev_bits(index, log_height))
}

/// The line through `(x0, e0)` and `(x1, e1)` at `beta`, where `x0` and `x1`
/// are the two points that square to the point at `index`.
pub open spec fn fold_row_spec(index: nat, log_height: nat, beta: Ext, e0: Ext, e1: Ext) -> Ext {
    let x0 = sibling_start_spec(index, log_height);
    let x1 = val_mul_spec(x0, two_adic_generator_spec(1));
    ext_add_spec(
        e0,
        ext_scale_spec(
            ext_mul_spec(ext_sub_spec(beta, embed_spec(x0)), ext_sub_spec(e1, e0)),
            val_inv_spec(val_sub_spec(x1, x0)),
        ),
    )
}

/// Half the inverse of the point at `index`: `(1/2) * w^(-rev(index))`, where
/// `w` generates the subgroup of order `2^(log_height + 1)`.
pub open spec fn halve_inv_power_spec(index: nat, log_height: nat) -> u32 {
    val_mul_pow(
        HALF,
        val_inv_spec(two_adic_generator_spec(log_height + 1)),
        rev_bits(index, log_height),
    )
}

/// The even part plus `beta` times the odd part of the pair `(lo, hi)`:
/// `(lo + hi) / 2 + beta * (lo - hi) * t`, where `t` is half the inverse of
/// the pair's point.
pub open spec fn fold_pair_spec(beta: Ext, lo: Ext, hi: Ext, t: u32) -> Ext {
    ext_add_spec(
        ext_scale_spec(ext_add_spec(lo, hi), HALF),
        ext_scale_spec(ext_mul_spec(ext_sub_spec(lo, hi), beta), t),
    )
}

impl TwoAdicFriFolding {
    pub fn new() -> (r: Self) {
        TwoAdicFriFolding {  }
    }

    /// The number of index bits beyond the folded height that a query needs.
    pub fn extra_query_index_bits(&self) -> (r: usize)
        ensures
            r == 0,
    {
        0
    }

    /// Folds one sibling pair: interpolates the two evaluations over their
    /// two points and evaluates the line at `beta`.
    pub fn fold_row(&self, index: usize, log_height: usize, beta: Ext, evals: &Vec<Ext>) -> (r: Ext)
        requires
            log_height < 27,
            index < pow2(log_height as nat),
            evals@.len() == 2,
        ensures
            r == fold_row_spec(index as nat, log_height as nat, beta, evals@[0], evals@[1]),
    {
        let e0: Ext = evals[0];
        let e1: Ext = evals[1];
        let rev: usize = reverse_bits(index, log_height);
        let x0: u32 = val_exp(two_adic_generator(log_height + 1), rev as u64);
        let x1: u32 = val_mul(x0, two_adic_generator(1));
        let inv: u32 = val_inverse_or_zero(val_sub(x1, x0));
        ext_add(e0, ext_scale(ext_mul(ext_sub(beta, embed(x0)), ext_sub(e1, e0)), inv))
    }

    /// Folds a whole vector, given as rows of sibling pairs: row `i` becomes
    /// its even part plus `beta` times its odd part.
    pub fn fold_matrix(&self, beta: Ext, m: &Vec<Vec<Ext>>) -> (r: Vec<Ext>)
        requires
            is_pow2(m@.len()),
            m@.len() <= pow2(26),
            forall|i: int| 0 <= i < m@.len() ==> (#[trigger] m@[i])@.len() >= 2,
        ensures
            r@.len() == m@.len(),
            forall|i: int|
                0 <= i < m@.len() ==> #[trigger] r@[i] == fold_pair_spec(
                    beta,
                    m@[i]@[0],
                    m@[i]@[1],
                    halve_inv_power_spec(i as nat, log2_spec(m@.len())),
                ),
    {
        let n: usize = m.len();
        let log_height: usize = log2_strict(n);
        proof {
            if log_height > 26 {
                lemma_pow2_strict(26, log_height as nat);
            }
        }
        let g_inv: u32 = val_inverse_or_zero(two_adic_generator(log_height + 1));
        let mut halve_inv_powers: Vec<u32> = shifted_powers(HALF, g_inv, n);
        let ghost natural = halve_inv_powers@;
        reverse_index_bits_outside(&mut halve_inv_powers);
        proof {
            assert forall|j: int| 0 <= j < n implies #[trigger] halve_inv_powers@[j]
                == halve_inv_power_spec(j as nat, log_height as nat) by {
                lemma_rev_bits_bound(j as nat, log_height as nat);
            }
        }
        let mut out: Vec<Ext> = Vec::new();
        let mut i: usize = 0;
        while i < n
            invariant
                n == m@.len(),
                n == pow2(log_height as nat),
                log_height == log2_spec(n as nat),
                i <= n,
                out@.len() == i,
                halve_inv_powers@.len() == n,
                forall|j: int|
                    0 <= j < n ==> #[trigger] halve_inv_powers@[j] == halve_inv_power_spec(
                        j as nat,
                        log_height as nat,
                    ),
                forall|j: int| 0 <= j < m@.len() ==> (#[trigger] m@[j])@.len() >= 2,
                forall|j: int|
                    0 <= j < i ==> #[trigger] out@[j] == fold_pair_spec(
                        beta,
                        m@[j]@[0],
                        m@[j]@[1],
                        halve_inv_power_spec(j as nat, log_height as nat),
                    ),
            decreases n - i,
        {
            let lo: Ext = m[i][0];
            let hi: Ext = m[i][1];
            let t: u32 = halve_inv_powers[i];
            let folded: Ext = ext_add(
                ext_scale(ext_add(lo, hi), HALF),
                ext_scale(ext_mul(ext_sub(lo, hi), beta), t),
            );
            out.push(folded);
            i = i + 1;
        }
        out
    }
}

} // verus!
