//! The commitment scheme: what is committed, and which evaluations of a
//! committed matrix a caller may read back.

use crate::bits::{
    is_pow2, lemma_log2_unique, lemma_pow2_positive, lemma_pow2_strict, log2_spec, log2_strict,
    pow2,
};
use crate::coset::Domain;
use crate::field::{val_inv_spec, val_inverse_or_zero, val_mul, val_mul_spec, GENERATOR, P};
use crate::matrix::{
    bit_reversed_rows, bit_reversed_rows_spec, lemma_bit_reversed_rows_twice, Matrix,
};
use p3_baby_bear::BabyBear;
use p3_dft::{Radix2Dit, TwoAdicSubgroupDft};
use p3_field::PrimeField32;
use p3_matrix::dense::RowMajorMatrix;
use p3_matrix::Matrix as DenseRows;
use vstd::prelude::*;

verus! {

/// A polynomial commitment scheme that opens by a FRI proof.
///
/// A polynomial is committed by its values over the coset `g K`, where `K`
/// is `2^log_blowup` times larger than the coset on which it was given.
#[derive(Clone, Copy, Debug)]
pub struct TwoAdicFriPcs {
    pub log_blowup: usize,
}

/// The low-degree extension of the columns of `evals`, read as values over a
/// subgroup `H`, to the coset `shift * K` with `|K| = |H| * 2^added_bits`.
pub uninterp spec fn lde_result(evals: Seq<Seq<u32>>, added_bits: nat, shift: u32) -> Seq<Seq<u32>>;

/// The widest matrix whose extension to the tallest coset of the field can
/// still be indexed.
pub open spec fn max_lde_width() -> nat {
    (usize::MAX / 134217728) as nat
}

/// `TwoAdicSubgroupDft::coset_lde_batch` of `Radix2Dit` on BabyBear, with
/// the rows of the result in natural order. The result has the width of the
/// input and `2^added_bits` times its height; the number of its entries must
/// fit a machine word.
#[verifier::external_body]
pub(crate) fn coset_lde_outside(m: &Matrix, added_bits: usize, shift: u32) -> (r: Matrix)
    requires
        m.wf(),
        0 < m.width <= max_lde_width(),
        is_pow2(m.rows@.len()),
        log2_spec(m.rows@.len()) + added_bits <= 27,
    ensures
        r@ == lde_result(m@, added_bits as nat, shift),
        r.wf(),
        r.width == m.width,
        r.rows@.len() == pow2(log2_spec(m.rows@.len()) + added_bits as nat),
{
    let values: Vec<BabyBear> = m.rows.iter().flatten().map(|x| BabyBear::new(*x)).collect();
    let lde = Radix2Dit::<BabyBear>::default()
        .coset_lde_batch(RowMajorMatrix::new(values, m.width), added_bits, BabyBear::new(shift))
        .to_row_major_matrix();
    let rows = lde.values.chunks(m.width).map(
        |row| row.iter().map(|x| x.as_canonical_u32()).collect(),
    ).collect();
    Matrix { rows, width: m.width }
}

/// The shift that moves the coset of `domain` onto the canonical coset.
pub open spec fn lde_shift_spec(domain: Domain) -> u32 {
    val_mul_spec(GENERATOR, val_inv_spec(domain.shift))
}

/// What is committed for a matrix given over `domain`: its extension to the
/// canonical coset of `2^log_blowup` times the size, in bit-reversed order.
pub open spec fn committed_spec(domain: Domain, evals: Seq<Seq<u32>>, log_blowup: nat) -> Seq<
    Seq<u32>,
> {
    bit_reversed_rows_spec(
        lde_result(evals, log_blowup, lde_shift_spec(domain)),
        domain.log_size as nat + log_blowup,
    )
}

/// Reading a committed matrix back over its whole coset undoes the
/// bit reversal: the rows are those of the low-degree extension, in natural
/// order.
pub proof fn lemma_committed_reads_back(domain: Domain, evals: Seq<Seq<u32>>, log_blowup: nat)
    requires
        lde_result(evals, log_blowup, lde_shift_spec(domain)).len() == pow2(
            domain.log_size as nat + log_blowup,
        ),
    ensures
        bit_reversed_rows_spec(
            committed_spec(domain, evals, log_blowup),
            domain.log_size as nat + log_blowup,
        ) == lde_result(evals, log_blowup, lde_shift_spec(domain)),
{
    let lde = lde_result(evals, log_blowup, lde_shift_spec(domain));
    let k = domain.log_size as nat + log_blowup;
    lemma_bit_reversed_rows_twice(lde, k);
    assert(lde.take(pow2(k) as int) =~= lde);
}

impl TwoAdicFriPcs {
    pub fn new(log_blowup: usize) -> (r: Self)
        ensures
            r.log_blowup == log_blowup,
    {
        TwoAdicFriPcs { log_blowup }
    }

    /// The subgroup of order `degree`.
    pub fn natural_domain_for_degree(&self, degree: usize) -> (r: Domain)
        requires
            is_pow2(degree as nat),
            degree <= pow2(27),
        ensures
            r.wf(),
            r.shift == 1,
            r.log_size == log2_spec(degree as nat),
            r.spec_size() == degree,
    {
        let log_size: usize = log2_strict(degree);
        proof {
            if log_size > 27 {
                lemma_pow2_strict(27, log_size as nat);
            }
        }
        Domain { shift: 1, log_size }
    }

    /// Whether `evals` can be committed over `domain`: the matrix is
    /// rectangular with one row for each point of the domain, the field has
    /// a subgroup for the extended coset, and the extended matrix can be
    /// indexed.
    pub open spec fn committable(&self, domain: Domain, evals: Matrix) -> bool {
        &&& domain.wf()
        &&& evals.wf()
        &&& domain.spec_size() == evals.spec_height()
        &&& domain.log_size + self.log_blowup <= 27
        &&& evals.width <= max_lde_width()
    }

    /// Whether `evals` can be committed over `domain`.
    pub fn can_commit(&self, domain: &Domain, evals: &Matrix) -> (r: bool)
        ensures
            r == self.committable(*domain, *evals),
    {
        domain.shift % P != 0 && domain.log_size <= 27 && self.log_blowup <= 27 - domain.log_size
            && evals.width <= usize::MAX / 134217728 && evals.is_rectangular() && domain.size()
            == evals.height()
    }

    /// The matrix that is committed for `evals`, given over `domain`.
    pub fn extend(&self, domain: &Domain, evals: &Matrix) -> (r: Matrix)
        requires
            self.committable(*domain, *evals),
        ensures
            r.wf(),
            r.width == evals.width,
            r.spec_height() == pow2((domain.log_size + self.log_blowup) as nat),
            r@ == committed_spec(*domain, evals@, self.log_blowup as nat),
    {
        proof {
            lemma_log2_unique(domain.log_size as nat);
            lemma_pow2_positive(domain.log_size as nat);
        }
        let shift: u32 = val_mul(GENERATOR, val_inverse_or_zero(domain.shift));
        let lde: Matrix = coset_lde_outside(evals, self.log_blowup, shift);
        bit_reversed_rows(&lde, domain.log_size + self.log_blowup)
    }

    /// The matrices that are committed for a batch, or `None` where a matrix
    /// cannot be committed over its domain: in particular where its height
    /// is not the size of the domain.
    pub fn try_commit(&self, evaluations: &Vec<(Domain, Matrix)>) -> (r: Option<Vec<Matrix>>)
        ensures
            r.is_some() <==> forall|i: int|
                0 <= i < evaluations@.len() ==> self.committable(
                    (#[trigger] evaluations@[i]).0,
                    evaluations@[i].1,
                ),
            r matches Some(ldes) ==> ldes@.len() == evaluations@.len() && forall|i: int|
                0 <= i < ldes@.len() ==> (#[trigger] ldes@[i])@ == committed_spec(
                    evaluations@[i].0,
                    evaluations@[i].1@,
                    self.log_blowup as nat,
                ),
    {
        let mut i: usize = 0;
        while i < evaluations.len()
            invariant
                i <= evaluations@.len(),
                forall|j: int|
                    0 <= j < i ==> self.committable((#[trigger] evaluations@[j]).0, evaluations@[j].1),
            decreases evaluations@.len() - i,
        {
            if !self.can_commit(&evaluations[i].0, &evaluations[i].1) {
                return None;
            }
            i = i + 1;
        }
        Some(self.commit(evaluations))
    }

    /// The matrices that are committed for a batch of evaluation matrices,
    /// in the order of the batch.
    pub fn commit(&self, evaluations: &Vec<(Domain, Matrix)>) -> (r: Vec<Matrix>)
        requires
            forall|i: int|
                0 <= i < evaluations@.len() ==> self.committable(
                    (#[trigger] evaluations@[i]).0,
                    evaluations@[i].1,
                ),
        ensures
            r@.len() == evaluations@.len(),
            forall|i: int|
                0 <= i < r@.len() ==> {
                    let (domain, evals) = evaluations@[i];
                    &&& (#[trigger] r@[i]).wf()
                    &&& r@[i].width == evals.width
                    &&& r@[i].spec_height() == pow2((domain.log_size + self.log_blowup) as nat)
                    &&& r@[i]@ == committed_spec(domain, evals@, self.log_blowup as nat)
                },
    {
        let mut ldes: Vec<Matrix> = Vec::new();
        let mut i: usize = 0;
        while i < evaluations.len()
            invariant
                i <= evaluations@.len(),
                ldes@.len() == i,
                forall|i: int|
                    0 <= i < evaluations@.len() ==> self.committable(
                        (#[trigger] evaluations@[i]).0,
                        evaluations@[i].1,
                    ),
                forall|j: int|
                    0 <= j < i ==> {
                        let (domain, evals) = evaluations@[j];
                        &&& (#[trigger] ldes@[j]).wf()
                        &&& ldes@[j].width == evals.width
                        &&& ldes@[j].spec_height() == pow2((domain.log_size + self.log_blowup) as nat)
                        &&& ldes@[j]@ == committed_spec(domain, evals@, self.log_blowup as nat)
                    },
            decreases evaluations@.len() - i,
        {
            let lde: Matrix = self.extend(&evaluations[i].0, &evaluations[i].1);
            ldes.push(lde);
            i = i + 1;
        }
        ldes
    }

    /// The values of committed matrix `idx` over `domain`, in natural order.
    ///
    /// The domain must be a canonical coset no larger than the one over
    /// which the matrix is held.
    pub fn get_evaluations_on_domain(&self, ldes: &Vec<Matrix>, idx: usize, domain: Domain) -> (r:
        Matrix)
        requires
            idx < ldes@.len(),
            domain.wf(),
            domain.shift == GENERATOR,
            ldes@[idx as int].wf(),
            domain.spec_size() <= ldes@[idx as int].spec_height(),
        ensures
            r.wf(),
            r.width == ldes@[idx as int].width,
            r@ == bit_reversed_rows_spec(ldes@[idx as int]@, domain.log_size as nat),
    {
        bit_reversed_rows(&ldes[idx], domain.log_size)
    }
}

} // verus!
