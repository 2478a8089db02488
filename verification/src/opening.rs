//! Opening a batch of committed matrices: the evaluations at the opening
//! points, the order in which they enter the transcript, and the vectors
//! that are handed to the low-degree test.

use crate::bits::{
    is_pow2, lemma_log2_unique, lemma_pow2_monotone, lemma_pow2_positive, log2_checked,
    log2_strict, pow2, pow2_exec,
};
use crate::coset::{
    coset_point_spec, coset_table, coset_table_spec, lemma_coset_point_prefix,
    lemma_coset_table_prefix,
};
use crate::denominators::{
    avoids_coset, compute_inverse_denominators, ext_key_spec, inv_denominator_spec, key_ext_spec,
    lemma_point_height_bounded, mat_log_height, max_log_heights, point_height, views,
    InverseDenominators, PointKey,
};
use crate::extension::{embed, embed_spec, ext_is_zero, ext_sub, ext_sub_spec, Ext};
use crate::field::{GENERATOR, P};
use crate::matrix::Matrix;
use crate::pcs::TwoAdicFriPcs;
use crate::quotient::{
    batch_wf, columns_fit, combined_quotients, fri_input_spec, mat_ok, opened_view,
};
use p3_baby_bear::BabyBear;
use p3_field::extension::BinomialExtensionField;
use p3_field::{BasedVectorSpace, PrimeField32};
use p3_interpolation::interpolate_coset_with_precomputation;
use p3_matrix::dense::RowMajorMatrix;
use vstd::prelude::*;

verus! {

/// The values at `point` of the polynomials whose values over `coset` are
/// the columns of `evals`, computed from the inverse differences between the
/// point and the coset points.
pub uninterp spec fn interpolation_result(
    evals: Seq<Seq<u32>>,
    shift: u32,
    point: Ext,
    coset: Seq<u32>,
    diff_invs: Seq<Ext>,
) -> Seq<Ext>;

/// `p3_interpolation::interpolate_coset_with_precomputation` on BabyBear and
/// its quartic extension: one value for each column of the matrix.
#[verifier::external_body]
pub(crate) fn interpolate_outside(
    m: &Matrix,
    shift: u32,
    point: Ext,
    coset: &Vec<u32>,
    diff_invs: &Vec<Ext>,
) -> (r: Vec<Ext>)
    requires
        m.wf(),
        m.width > 0,
        is_pow2(m.rows@.len()),
        coset@.len() == m.rows@.len(),
        diff_invs@.len() == m.rows@.len(),
        shift % P != 0,
    ensures
        r@ == interpolation_result(m@, shift, point, coset@, diff_invs@),
        r@.len() == m.width,
{
    let ef = |a: &Ext| BinomialExtensionField::<BabyBear, 4>::new(a.coefficients().map(BabyBear::new));
    let mat = RowMajorMatrix::new(m.rows.concat().into_iter().map(BabyBear::new).collect(), m.width);
    let xs: Vec<_> = coset.iter().copied().map(BabyBear::new).collect();
    let invs: Vec<_> = diff_invs.iter().map(ef).collect();
    interpolate_coset_with_precomputation(&mat, BabyBear::new(shift), ef(&point), &xs, &invs).iter().map(|y| {
        let b: &[BabyBear] = y.as_basis_coefficients_slice();
        Ext::from_coefficients(core::array::from_fn(|i| b[i].as_canonical_u32()))
    }).collect()
}

/// The values at `z` of the polynomials of degree below `2^low` whose values
/// over the canonical coset of that size are the first `2^low` rows of `m`.
pub open spec fn opening_spec(m: Seq<Seq<u32>>, low: nat, z: Ext) -> Seq<Ext> {
    interpolation_result(
        m.take(pow2(low) as int),
        GENERATOR,
        z,
        coset_table_spec(low),
        Seq::new(pow2(low), |i: int| inv_denominator_spec(z, coset_point_spec(low, i as nat))),
    )
}

/// The first `n` entries of a vector.
pub fn prefix<T: Copy>(v: &Vec<T>, n: usize) -> (r: Vec<T>)
    requires
        n <= v@.len(),
    ensures
        r@ == v@.take(n as int),
{
    let mut out: Vec<T> = Vec::new();
    let mut i: usize = 0;
    while i < n
        invariant
            i <= n <= v@.len(),
            out@ == v@.take(i as int),
        decreases n - i,
    {
        out.push(v[i]);
        proof {
            assert(v@.take(i + 1) =~= v@.take(i as int).push(v@[i as int]));
        }
        i = i + 1;
    }
    out
}

/// The first `n` rows of a matrix.
pub fn first_rows(m: &Matrix, n: usize) -> (r: Matrix)
    requires
        m.wf(),
        0 < n <= m.rows@.len(),
    ensures
        r.wf(),
        r.width == m.width,
        r.rows@.len() == n,
        r@ == m@.take(n as int),
{
    let mut rows: Vec<Vec<u32>> = Vec::new();
    let mut i: usize = 0;
    while i < n
        invariant
            i <= n <= m.rows@.len(),
            m.wf(),
            rows@.len() == i,
            forall|j: int| 0 <= j < i ==> (#[trigger] rows@[j])@ == m.rows@[j]@,
        decreases n - i,
    {
        let row: Vec<u32> = m.rows[i].clone();
        rows.push(row);
        i = i + 1;
    }
    let r = Matrix { rows, width: m.width };
    proof {
        assert(r@ =~= m@.take(n as int));
    }
    r
}

/// The opened values of one matrix: for each of its points, the value of
/// each column's polynomial.
pub fn evaluate_matrix(
    m: &Matrix,
    pts: &Vec<Ext>,
    log_blowup: usize,
    coset: &Vec<u32>,
    inv: &InverseDenominators,
    log_max_height: usize,
) -> (r: Vec<Vec<Ext>>)
    requires
        log_max_height <= 27,
        mat_ok(*m, log_max_height as nat),
        log_blowup <= mat_log_height(*m),
        coset@ == coset_table_spec(log_max_height as nat),
        forall|k: int| 0 <= k < pts@.len() ==> inv.covers(#[trigger] pts@[k], mat_log_height(*m)),
    ensures
        r@.len() == pts@.len(),
        forall|k: int|
            0 <= k < r@.len() ==> (#[trigger] r@[k])@ == opening_spec(
                m@,
                (mat_log_height(*m) - log_blowup) as nat,
                pts@[k],
            ) && r@[k]@.len() == m.width,
{
    let lh: usize = log2_strict(m.rows.len());
    let low: usize = lh - log_blowup;
    let h: usize = pow2_exec(low);
    proof {
        lemma_pow2_monotone(low as nat, lh as nat);
        lemma_pow2_monotone(lh as nat, log_max_height as nat);
        lemma_pow2_positive(low as nat);
        lemma_log2_unique(low as nat);
        lemma_coset_table_prefix(low as nat, log_max_height as nat);
    }
    let low_rows: Matrix = first_rows(m, h);
    let coset_h: Vec<u32> = prefix(coset, h);
    let mut out: Vec<Vec<Ext>> = Vec::new();
    let mut k: usize = 0;
    while k < pts.len()
        invariant
            k <= pts@.len(),
            out@.len() == k,
            lh == mat_log_height(*m),
            lh <= 27,
            low == lh - log_blowup,
            h == pow2(low as nat),
            h <= pow2(lh as nat),
            low_rows.wf(),
            low_rows.width == m.width,
            m.width > 0,
            low_rows@ == m@.take(h as int),
            low_rows.rows@.len() == h,
            coset_h@ == coset_table_spec(low as nat),
            forall|k: int| 0 <= k < pts@.len() ==> inv.covers(#[trigger] pts@[k], lh as nat),
            forall|j: int|
                0 <= j < k ==> (#[trigger] out@[j])@ == opening_spec(m@, low as nat, pts@[j])
                    && out@[j]@.len() == m.width,
        decreases pts@.len() - k,
    {
        let z: Ext = pts[k];
        assert(inv.covers(pts@[k as int], lh as nat));
        match inv.position(z) {
            Some(idx) => {
                assert(inv.serves(idx as int, z, lh as nat));
                let inv_h: Vec<Ext> = prefix(&inv.tables[idx], h);
                proof {
                    assert forall|i: int| 0 <= i < h implies #[trigger] inv_h@[i]
                        == inv_denominator_spec(z, coset_point_spec(low as nat, i as nat)) by {
                        lemma_coset_point_prefix(low as nat, lh as nat, i as nat);
                    }
                    assert(inv_h@ =~= Seq::new(
                        pow2(low as nat),
                        |i: int| inv_denominator_spec(z, coset_point_spec(low as nat, i as nat)),
                    ));
                    assert(is_pow2(low_rows.rows@.len()));
                }
                let ys: Vec<Ext> = interpolate_outside(&low_rows, GENERATOR, z, &coset_h, &inv_h);
                out.push(ys);
            },
            None => {
                proof {
                    assert(false);
                }
            },
        }
        k = k + 1;
    }
    out
}

/// What the first stage of an opening leaves for the second: the opened
/// values, one list for each matrix and point, and the cache of inverse
/// denominators.
#[derive(Debug)]
pub struct OpenedBatch {
    pub log_max_height: usize,
    pub inv_denoms: InverseDenominators,
    pub values: Vec<Vec<Vec<Ext>>>,
}

impl OpenedBatch {
    /// Whether this is what opening `mats` at `points` yields: the tallest
    /// matrix's log-height, the cache over the canonical coset of that
    /// height, and for every matrix and point the interpolated values.
    pub open spec fn matches(&self, mats: Seq<Matrix>, points: Seq<Vec<Ext>>, log_blowup: nat) -> bool {
        &&& self.log_max_height <= 27
        &&& batch_wf(mats, points, self.values@, self.log_max_height as nat)
        &&& exists|j: int|
            0 <= j < mats.len() && mat_log_height(#[trigger] mats[j]) == self.log_max_height
        &&& self.inv_denoms.matches(
            mats,
            views(points),
            coset_table_spec(self.log_max_height as nat),
        )
        &&& forall|j: int, k: int|
            0 <= j < mats.len() && 0 <= k < points[j]@.len() ==> (#[trigger] self.values@[j]@[k])@
                == opening_spec(
                mats[j]@,
                (mat_log_height(mats[j]) - log_blowup) as nat,
                points[j]@[k],
            )
    }
}

/// The largest log-height of the batch.
pub fn max_log_height(mats: &Vec<Matrix>) -> (r: usize)
    requires
        mats@.len() > 0,
        forall|j: int| 0 <= j < mats@.len() ==> mat_ok(#[trigger] mats@[j], 27),
    ensures
        r <= 27,
        forall|j: int| 0 <= j < mats@.len() ==> mat_log_height(#[trigger] mats@[j]) <= r,
        exists|j: int| 0 <= j < mats@.len() && mat_log_height(#[trigger] mats@[j]) == r,
{
    assert(mat_ok(mats@[0], 27));
    let mut best: usize = log2_strict(mats[0].rows.len());
    let mut j: usize = 1;
    while j < mats.len()
        invariant
            1 <= j <= mats@.len(),
            best <= 27,
            forall|j: int| 0 <= j < mats@.len() ==> mat_ok(#[trigger] mats@[j], 27),
            forall|i: int| 0 <= i < j ==> mat_log_height(#[trigger] mats@[i]) <= best,
            exists|i: int| 0 <= i < j && mat_log_height(#[trigger] mats@[i]) == best,
        decreases mats@.len() - j,
    {
        assert(mat_ok(mats@[j as int], 27));
        let lh: usize = log2_strict(mats[j].rows.len());
        if lh > best {
            best = lh;
        }
        j = j + 1;
    }
    best
}

/// Whether `z` differs from each of the first `n` points of `coset`.
pub fn point_avoids_coset(z: Ext, coset: &Vec<u32>, n: usize) -> (r: bool)
    requires
        n <= coset@.len(),
    ensures
        r == avoids_coset(z, coset@, n as nat),
{
    let mut x: usize = 0;
    while x < n
        invariant
            x <= n <= coset@.len(),
            avoids_coset(z, coset@, x as nat),
        decreases n - x,
    {
        let d: Ext = ext_sub(z, embed(coset[x]));
        if d.c0 == 0 && d.c1 == 0 && d.c2 == 0 && d.c3 == 0 {
            proof {
                assert(ext_is_zero(ext_sub_spec(z, embed_spec(coset@[x as int]))));
            }
            return false;
        }
        x = x + 1;
    }
    true
}

impl TwoAdicFriPcs {
    /// Whether a stored matrix can be opened: it is rectangular, of a
    /// power-of-two height that the field allows, and at least as tall as
    /// the blow-up.
    pub open spec fn mat_openable(&self, m: Matrix) -> bool {
        mat_ok(m, 27) && self.log_blowup <= mat_log_height(m)
    }

    /// Whether a batch can be opened: there is a matrix, every matrix can be
    /// opened and has its list of points, and no point lies in the coset of
    /// the tallest matrix that is opened at it.
    pub open spec fn openable(&self, mats: Seq<Matrix>, points: Seq<Vec<Ext>>) -> bool {
        &&& mats.len() > 0
        &&& mats.len() == points.len()
        &&& forall|j: int| 0 <= j < mats.len() ==> self.mat_openable(#[trigger] mats[j])
        &&& forall|z: Ext|
            (#[trigger] point_height(mats, views(points), mats.len(), z)) matches Some(h)
                ==> avoids_coset(z, coset_table_spec(h), pow2(h))
    }

    /// Whether a stored matrix can be opened.
    pub fn can_open_matrix(&self, m: &Matrix) -> (r: bool)
        ensures
            r == self.mat_openable(*m),
    {
        if !m.is_rectangular() {
            return false;
        }
        match log2_checked(m.rows.len()) {
            Some(lh) => {
                proof {
                    lemma_log2_unique(lh as nat);
                }
                lh <= 27 && self.log_blowup <= lh
            },
            None => false,
        }
    }

    /// Whether a batch can be opened.
    pub fn can_open(&self, mats: &Vec<Matrix>, points: &Vec<Vec<Ext>>) -> (r: bool)
        ensures
            r == self.openable(mats@, points@),
    {
        if mats.len() == 0 || mats.len() != points.len() {
            return false;
        }
        let mut j: usize = 0;
        while j < mats.len()
            invariant
                j <= mats@.len(),
                forall|i: int| 0 <= i < j ==> self.mat_openable(#[trigger] mats@[i]),
            decreases mats@.len() - j,
        {
            if !self.can_open_matrix(&mats[j]) {
                return false;
            }
            j = j + 1;
        }
        let log_max_height: usize = max_log_height(mats);
        let coset: Vec<u32> = coset_table(log_max_height);
        let entries: Vec<(PointKey, usize)> = max_log_heights(mats, points);
        let mut e: usize = 0;
        while e < entries.len()
            invariant
                e <= entries@.len(),
                log_max_height <= 27,
                coset@ == coset_table_spec(log_max_height as nat),
                forall|j: int| 0 <= j < mats@.len() ==> mat_log_height(#[trigger] mats@[j]) <= log_max_height,
                forall|i: int|
                    0 <= i < entries@.len() ==> point_height(
                        mats@,
                        views(points@),
                        mats@.len(),
                        key_ext_spec((#[trigger] entries@[i]).0),
                    ) == Some(entries@[i].1 as nat),
                forall|i: int|
                    0 <= i < e ==> avoids_coset(
                        key_ext_spec((#[trigger] entries@[i]).0),
                        coset_table_spec(entries@[i].1 as nat),
                        pow2(entries@[i].1 as nat),
                    ),
            decreases entries@.len() - e,
        {
            let key: PointKey = entries[e].0;
            let h: usize = entries[e].1;
            let z: Ext = Ext { c0: key.0, c1: key.1, c2: key.2, c3: key.3 };
            proof {
                assert(point_height(mats@, views(points@), mats@.len(), key_ext_spec(entries@[e as int].0))
                    == Some(h as nat));
                lemma_point_height_bounded(
                    mats@,
                    views(points@),
                    mats@.len(),
                    z,
                    log_max_height as nat,
                );
                lemma_pow2_monotone(h as nat, log_max_height as nat);
            }
            let clear: bool = point_avoids_coset(z, &coset, pow2_exec(h));
            proof {
                let small = coset_table_spec(h as nat);
                assert forall|x: int| 0 <= x < pow2(h as nat) implies #[trigger] small[x] == coset@[x] by {
                    lemma_coset_point_prefix(h as nat, log_max_height as nat, x as nat);
                }
                if clear {
                    assert forall|x: int| 0 <= x < pow2(h as nat) implies !ext_is_zero(
                        ext_sub_spec(z, embed_spec(#[trigger] small[x])),
                    ) by {
                        assert(small[x] == coset@[x]);
                    }
                }
                if avoids_coset(z, small, pow2(h as nat)) {
                    assert forall|x: int| 0 <= x < pow2(h as nat) implies !ext_is_zero(
                        ext_sub_spec(z, embed_spec(#[trigger] coset@[x])),
                    ) by {
                        assert(small[x] == coset@[x]);
                    }
                }
            }
            if !clear {
                return false;
            }
            e = e + 1;
        }
        proof {
            assert forall|z: Ext|
                (#[trigger] point_height(mats@, views(points@), mats@.len(), z)) matches Some(h)
                    ==> avoids_coset(z, coset_table_spec(h), pow2(h)) by {
                if point_height(mats@, views(points@), mats@.len(), z).is_some() {
                    let i = choose|i: int|
                        0 <= i < entries@.len() && (#[trigger] entries@[i]).0 == ext_key_spec(z);
                    assert(key_ext_spec(entries@[i].0) == z);
                }
            }
        }
        true
    }

    /// The first stage of an opening: evaluates every committed matrix at
    /// each of its opening points.
    ///
    /// Only the first `height / 2^log_blowup` rows of a matrix take part:
    /// they determine its polynomials. No opening point may lie in the coset
    /// of the tallest matrix that is opened at it.
    pub fn open_values(&self, mats: &Vec<Matrix>, points: &Vec<Vec<Ext>>) -> (r: OpenedBatch)
        requires
            self.openable(mats@, points@),
        ensures
            r.matches(mats@, points@, self.log_blowup as nat),
    {
        proof {
            assert forall|j: int| 0 <= j < mats@.len() implies mat_ok(#[trigger] mats@[j], 27) by {
                assert(self.mat_openable(mats@[j]));
            }
        }
        let log_max_height: usize = max_log_height(mats);
        let coset: Vec<u32> = coset_table(log_max_height);
        proof {
            lemma_pow2_monotone(log_max_height as nat, 27);
            assert forall|z: Ext|
                (#[trigger] point_height(mats@, views(points@), mats@.len(), z)) matches Some(h)
                    ==> pow2(h) <= coset@.len() && avoids_coset(z, coset@, pow2(h)) by {
                let ph = point_height(mats@, views(points@), mats@.len(), z);
                if ph.is_some() {
                    let h = ph.unwrap();
                    lemma_point_height_bounded(
                        mats@,
                        views(points@),
                        mats@.len(),
                        z,
                        log_max_height as nat,
                    );
                    lemma_pow2_monotone(h, log_max_height as nat);
                    let small = coset_table_spec(h);
                    assert(avoids_coset(z, small, pow2(h)));
                    assert forall|x: int| 0 <= x < pow2(h) implies !ext_is_zero(
                        ext_sub_spec(z, embed_spec(#[trigger] coset@[x])),
                    ) by {
                        lemma_coset_point_prefix(h, log_max_height as nat, x as nat);
                        assert(small[x] == coset_point_spec(h, x as nat));
                    }
                }
            }
            assert forall|j: int| 0 <= j < mats@.len() implies is_pow2(
                (#[trigger] mats@[j]).rows@.len(),
            ) by {
                assert(mat_ok(mats@[j], 27));
            }
        }
        let inv: InverseDenominators = compute_inverse_denominators(mats, points, &coset);
        let mut values: Vec<Vec<Vec<Ext>>> = Vec::new();
        let mut j: usize = 0;
        while j < mats.len()
            invariant
                j <= mats@.len(),
                mats@.len() == points@.len(),
                values@.len() == j,
                log_max_height <= 27,
                coset@ == coset_table_spec(log_max_height as nat),
                forall|j: int| 0 <= j < mats@.len() ==> self.mat_openable(#[trigger] mats@[j]),
                forall|j: int| 0 <= j < mats@.len() ==> mat_log_height(#[trigger] mats@[j]) <= log_max_height,
                inv.matches(mats@, views(points@), coset@),
                forall|i: int| 0 <= i < j ==> (#[trigger] values@[i])@.len() == points@[i]@.len(),
                forall|i: int, k: int|
                    0 <= i < j && 0 <= k < points@[i]@.len() ==> (#[trigger] values@[i]@[k])@
                        == opening_spec(
                        mats@[i]@,
                        (mat_log_height(mats@[i]) - self.log_blowup) as nat,
                        points@[i]@[k],
                    ) && values@[i]@[k]@.len() == mats@[i].width,
            decreases mats@.len() - j,
        {
            proof {
                assert(self.mat_openable(mats@[j as int]));
                assert(views(points@)[j as int] == points@[j as int]@);
                assert forall|k: int| 0 <= k < points@[j as int]@.len() implies inv.covers(
                    #[trigger] points@[j as int]@[k],
                    mat_log_height(mats@[j as int]),
                ) by {
                    inv.lemma_matches_covers(
                        mats@,
                        views(points@),
                        log_max_height as nat,
                        j as int,
                        points@[j as int]@[k],
                    );
                }
            }
            let ys: Vec<Vec<Ext>> = evaluate_matrix(
                &mats[j],
                &points[j],
                self.log_blowup,
                &coset,
                &inv,
                log_max_height,
            );
            values.push(ys);
            j = j + 1;
        }
        OpenedBatch { log_max_height, inv_denoms: inv, values }
    }

    /// The second stage of an opening: the vectors whose low degree proves
    /// the opened values, one for each height of the batch, tallest first.
    ///
    /// `alpha` is the challenge that the transcript yields once it has
    /// taken in the opened values, in the order of [`transcript_order`].
    pub fn open(
        &self,
        mats: &Vec<Matrix>,
        points: &Vec<Vec<Ext>>,
        batch: &OpenedBatch,
        alpha: Ext,
    ) -> (r: Vec<Vec<Ext>>)
        requires
            batch.matches(mats@, points@, self.log_blowup as nat),
            columns_fit(mats@),
        ensures
            views(r@) == fri_input_spec(
                mats@,
                views(points@),
                opened_view(batch.values@),
                alpha,
                28,
            ),
    {
        combined_quotients(mats, points, &batch.values, &batch.inv_denoms, batch.log_max_height, alpha)
    }
}

} // verus!
