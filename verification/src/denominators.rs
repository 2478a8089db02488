//! The inverse-denominator cache: for every distinct opening point `z`, the
//! values `1 / (z - x)` over the largest coset at which `z` is opened.
//!
//! The coset is held in bit-reversed order, so the table that a smaller
//! matrix needs is a prefix of the table kept for the point.

use crate::bits::{
    is_pow2, lemma_pow2_monotone, lemma_pow2_strict, log2_spec, log2_strict, pow2, pow2_exec,
};
use crate::coset::{coset_point_spec, coset_table_spec, lemma_coset_point_prefix};
use crate::extension::{
    embed, embed_spec, ext_inverse_of, ext_is_zero, ext_sub, ext_sub_spec, ext_zero_spec, Ext,
};
use crate::matrix::Matrix;
use p3_baby_bear::BabyBear;
use p3_field::extension::BinomialExtensionField;
use p3_field::{batch_multiplicative_inverse, BasedVectorSpace, PrimeField32};
use p3_util::linear_map::LinearMap;
use vstd::prelude::*;

verus! {

#[verifier::external_type_specification]
#[verifier::external_body]
#[verifier::reject_recursive_types(K)]
#[verifier::reject_recursive_types(V)]
pub struct ExLinearMap<K, V>(LinearMap<K, V>);

/// The key under which a point is stored: its four coefficients.
pub type PointKey = (u32, u32, u32, u32);

/// What a map from points to log-heights holds: each key with its value.
pub uninterp spec fn linear_map_contents(m: LinearMap<PointKey, usize>) -> Map<PointKey, usize>;

/// The four coefficients of a point, as the key under which it is stored.
pub open spec fn ext_key_spec(z: Ext) -> PointKey {
    (z.c0, z.c1, z.c2, z.c3)
}

pub open spec fn key_ext_spec(k: PointKey) -> Ext {
    Ext { c0: k.0, c1: k.1, c2: k.2, c3: k.3 }
}

/// The inverse of `a`, and zero where `a` is zero.
pub open spec fn ext_inv_spec(a: Ext) -> Ext {
    match ext_inverse_of(a) {
        Some(v) => v,
        None => ext_zero_spec(),
    }
}

/// `1 / (z - x)` for a point `z` of the extension and a point `x` of a coset.
pub open spec fn inv_denominator_spec(z: Ext, x: u32) -> Ext {
    ext_inv_spec(ext_sub_spec(z, embed_spec(x)))
}

/// The log-height of a stored matrix.
pub open spec fn mat_log_height(m: Matrix) -> nat {
    log2_spec(m.rows@.len())
}

/// The largest log-height among those of the first `n` matrices that are
/// opened at `z`, or `None` where none of them is.
pub open spec fn point_height(mats: Seq<Matrix>, points: Seq<Seq<Ext>>, n: nat, z: Ext) -> Option<
    nat,
>
    decreases n,
{
    if n == 0 {
        None
    } else {
        let prev = point_height(mats, points, (n - 1) as nat, z);
        raise_height(prev, points[n - 1].contains(z), mat_log_height(mats[n - 1]))
    }
}

/// The height kept for a point after one more matrix, of log-height `lh`,
/// which is opened at the point where `hit` holds.
pub open spec fn raise_height(prev: Option<nat>, hit: bool, lh: nat) -> Option<nat> {
    if hit {
        match prev {
            Some(h) => Some(if h >= lh { h } else { lh }),
            None => Some(lh),
        }
    } else {
        prev
    }
}

/// `LinearMap::new`: a map that holds nothing.
#[verifier::external_body]
pub(crate) fn height_map_new() -> (r: LinearMap<PointKey, usize>)
    ensures
        linear_map_contents(r) =~= Map::empty(),
{
    LinearMap::new()
}

/// `LinearMap::get`: the value stored under the key, if there is one.
#[verifier::external_body]
pub(crate) fn height_map_get(
    m: &LinearMap<PointKey, usize>,
    k: PointKey,
) -> (r: Option<usize>)
    ensures
        r == (if linear_map_contents(*m).dom().contains(k) {
            Some(linear_map_contents(*m)[k])
        } else {
            None
        }),
{
    m.get(&k).copied()
}

/// `LinearMap::insert`: the key holds the new value afterwards, whether or
/// not it was present; the other keys keep theirs.
#[verifier::external_body]
pub(crate) fn height_map_insert(
    m: &mut LinearMap<PointKey, usize>,
    k: PointKey,
    v: usize,
)
    ensures
        linear_map_contents(*final(m)) == linear_map_contents(*old(m)).insert(k, v),
{
    m.insert(k, v);
}

/// `LinearMap::into_iter`: every key once, each with its value.
#[verifier::external_body]
pub(crate) fn height_map_entries(
    m: LinearMap<PointKey, usize>,
) -> (r: Vec<(PointKey, usize)>)
    ensures
        forall|i: int|
            0 <= i < r@.len() ==> linear_map_contents(m).dom().contains((#[trigger] r@[i]).0)
                && linear_map_contents(m)[r@[i].0] == r@[i].1,
        forall|k: PointKey| #[trigger]
            linear_map_contents(m).dom().contains(k) ==> exists|i: int|
                0 <= i < r@.len() && (#[trigger] r@[i]).0 == k,
        forall|i: int, j: int|
            0 <= i < j < r@.len() ==> (#[trigger] r@[i]).0 != (#[trigger] r@[j]).0,
{
    m.into_iter().collect()
}

/// `p3_field::batch_multiplicative_inverse` on the quartic extension: the
/// inverse of every entry, none of which may be zero.
#[verifier::external_body]
pub(crate) fn batch_inverse_outside(xs: &Vec<Ext>) -> (r: Vec<Ext>)
    requires
        forall|i: int| 0 <= i < xs@.len() ==> !ext_is_zero(#[trigger] xs@[i]),
    ensures
        r@.len() == xs@.len(),
        forall|i: int| 0 <= i < xs@.len() ==> ext_inverse_of(xs@[i]) == Some(#[trigger] r@[i]),
{
    let v: Vec<BinomialExtensionField<BabyBear, 4>> = xs.iter().map(
        |a| BinomialExtensionField::new([a.c0, a.c1, a.c2, a.c3].map(BabyBear::new)),
    ).collect();
    batch_multiplicative_inverse(&v).iter().map(
        |z| {
            let c: &[BabyBear] = z.as_basis_coefficients_slice();
            Ext {
                c0: c[0].as_canonical_u32(),
                c1: c[1].as_canonical_u32(),
                c2: c[2].as_canonical_u32(),
                c3: c[3].as_canonical_u32(),
            }
        },
    ).collect()
}

/// Whether `t` holds `1 / (z - x)` for the first `2^h` points `x` of `coset`.
pub open spec fn is_table(t: Seq<Ext>, z: Ext, h: nat, coset: Seq<u32>) -> bool {
    &&& t.len() == pow2(h)
    &&& t.len() <= coset.len()
    &&& forall|x: int| 0 <= x < t.len() ==> #[trigger] t[x] == inv_denominator_spec(z, coset[x])
}

/// Whether `z` differs from each of the first `n` points of `coset`.
pub open spec fn avoids_coset(z: Ext, coset: Seq<u32>, n: nat) -> bool {
    forall|x: int| 0 <= x < n ==> !ext_is_zero(ext_sub_spec(z, embed_spec(#[trigger] coset[x])))
}

/// The views of the vectors of a sequence.
pub open spec fn views<T>(v: Seq<Vec<T>>) -> Seq<Seq<T>> {
    Seq::new(v.len(), |i: int| v[i]@)
}

/// The height that the map holds for a point, if any.
pub open spec fn recorded_height(m: Map<PointKey, usize>, z: Ext) -> Option<nat> {
    if m.dom().contains(ext_key_spec(z)) {
        Some(m[ext_key_spec(z)] as nat)
    } else {
        None
    }
}

pub fn ext_key(z: Ext) -> (r: PointKey)
    ensures
        r == ext_key_spec(z),
{
    (z.c0, z.c1, z.c2, z.c3)
}

/// For each distinct opening point, the largest log-height among the
/// matrices that are opened at it.
pub fn max_log_heights(mats: &Vec<Matrix>, points: &Vec<Vec<Ext>>) -> (r: Vec<(PointKey, usize)>)
    requires
        mats@.len() == points@.len(),
        forall|j: int| 0 <= j < mats@.len() ==> is_pow2((#[trigger] mats@[j]).rows@.len()),
    ensures
        forall|i: int, j: int| 0 <= i < j < r@.len() ==> (#[trigger] r@[i]).0 != (#[trigger] r@[j]).0,
        forall|i: int|
            0 <= i < r@.len() ==> point_height(
                mats@,
                views(points@),
                mats@.len(),
                key_ext_spec((#[trigger] r@[i]).0),
            ) == Some(r@[i].1 as nat),
        forall|z: Ext|
            (#[trigger] point_height(mats@, views(points@), mats@.len(), z)).is_some() ==> exists|
                i: int,
            |
                0 <= i < r@.len() && (#[trigger] r@[i]).0 == ext_key_spec(z),
{
    let n: usize = mats.len();
    let mut map = height_map_new();
    let mut j: usize = 0;
    while j < n
        invariant
            j <= n,
            n == mats@.len(),
            n == points@.len(),
            forall|j: int| 0 <= j < mats@.len() ==> is_pow2((#[trigger] mats@[j]).rows@.len()),
            forall|z: Ext| #[trigger]
                recorded_height(linear_map_contents(map), z) == point_height(
                    mats@,
                    views(points@),
                    j as nat,
                    z,
                ),
        decreases n - j,
    {
        let lh: usize = log2_strict(mats[j].rows.len());
        let pts: &Vec<Ext> = &points[j];
        let mut k: usize = 0;
        while k < pts.len()
            invariant
                j < n,
                n == mats@.len(),
                n == points@.len(),
                pts@ == points@[j as int]@,
                k <= pts@.len(),
                lh == mat_log_height(mats@[j as int]),
                forall|z: Ext| #[trigger]
                    recorded_height(linear_map_contents(map), z) == raise_height(
                        point_height(mats@, views(points@), j as nat, z),
                        pts@.take(k as int).contains(z),
                        lh as nat,
                    ),
            decreases pts@.len() - k,
        {
            let z: Ext = pts[k];
            let key: PointKey = ext_key(z);
            let ghost before = linear_map_contents(map);
            let found: Option<usize> = height_map_get(&map, key);
            let v: usize = match found {
                Some(h) => if h >= lh {
                    h
                } else {
                    lh
                },
                None => lh,
            };
            height_map_insert(&mut map, key, v);
            proof {
                assert(pts@.take(k + 1) =~= pts@.take(k as int).push(z));
                assert forall|w: Ext| #[trigger]
                    recorded_height(linear_map_contents(map), w) == raise_height(
                        point_height(mats@, views(points@), j as nat, w),
                        pts@.take(k + 1).contains(w),
                        lh as nat,
                    ) by {
                    let old_hit = pts@.take(k as int).contains(w);
                    assert(recorded_height(before, w) == raise_height(
                        point_height(mats@, views(points@), j as nat, w),
                        old_hit,
                        lh as nat,
                    ));
                    if w == z {
                        assert(pts@.take(k + 1)[k as int] == w);
                    } else {
                        assert(ext_key_spec(w) != key);
                        let s0 = pts@.take(k as int);
                        let s1 = pts@.take(k + 1);
                        if old_hit {
                            let i = choose|i: int| 0 <= i < s0.len() && s0[i] == w;
                            assert(s1[i] == w);
                        }
                        if s1.contains(w) {
                            let i = choose|i: int| 0 <= i < s1.len() && s1[i] == w;
                            assert(s0[i] == w);
                        }
                    }
                }
            }
            k = k + 1;
        }
        proof {
            assert(pts@.take(k as int) =~= pts@);
            assert(views(points@)[j as int] == pts@);
        }
        j = j + 1;
    }
    let ghost contents = linear_map_contents(map);
    let r = height_map_entries(map);
    proof {
        assert forall|i: int| 0 <= i < r@.len() implies point_height(
            mats@,
            views(points@),
            mats@.len(),
            key_ext_spec((#[trigger] r@[i]).0),
        ) == Some(r@[i].1 as nat) by {
            let z = key_ext_spec(r@[i].0);
            assert(ext_key_spec(z) == r@[i].0);
            assert(recorded_height(contents, z) == Some(r@[i].1 as nat));
        }
        assert forall|z: Ext|
            (#[trigger] point_height(mats@, views(points@), mats@.len(), z)).is_some() implies exists|
            i: int,
        |
            0 <= i < r@.len() && (#[trigger] r@[i]).0 == ext_key_spec(z) by {
            assert(recorded_height(contents, z).is_some());
            assert(contents.dom().contains(ext_key_spec(z)));
        }
    }
    r
}

/// The cache: `tables[i]` holds the inverse denominators of `points[i]`.
#[derive(Debug)]
pub struct InverseDenominators {
    pub points: Vec<Ext>,
    pub tables: Vec<Vec<Ext>>,
}

impl InverseDenominators {
    /// The table of every distinct opening point of the batch, and of no
    /// other point: as long as the largest coset at which the point is
    /// opened, with `1 / (z - x)` at the position of each coset point `x`.
    pub open spec fn matches(&self, mats: Seq<Matrix>, points: Seq<Seq<Ext>>, coset: Seq<u32>) -> bool {
        &&& self.points@.len() == self.tables@.len()
        &&& forall|i: int, j: int|
            0 <= i < j < self.points@.len() ==> #[trigger] self.points@[i] != #[trigger] self.points@[j]
        &&& forall|z: Ext|
            (#[trigger] point_height(mats, points, mats.len(), z)).is_some() ==> self.points@.contains(z)
        &&& forall|i: int|
            0 <= i < self.points@.len() ==> self.table_matches(i, mats, points, coset)
    }

    pub open spec fn table_matches(
        &self,
        i: int,
        mats: Seq<Matrix>,
        points: Seq<Seq<Ext>>,
        coset: Seq<u32>,
    ) -> bool {
        let z = self.points@[i];
        point_height(mats, points, mats.len(), z) matches Some(h) && is_table(
            self.tables@[i]@,
            z,
            h,
            coset,
        )
    }

    /// Whether table `idx` holds `1 / (z - x)` for every point `x` of the
    /// canonical coset of log-height `lh`.
    pub open spec fn serves(&self, idx: int, z: Ext, lh: nat) -> bool {
        &&& self.tables@[idx]@.len() >= pow2(lh)
        &&& forall|x: int|
            0 <= x < pow2(lh) ==> #[trigger] self.tables@[idx]@[x] == inv_denominator_spec(
                z,
                coset_point_spec(lh, x as nat),
            )
    }

    /// Whether the cache holds `z`, with a table that serves the canonical
    /// coset of log-height `lh`.
    pub open spec fn covers(&self, z: Ext, lh: nat) -> bool {
        &&& self.points@.len() == self.tables@.len()
        &&& self.points@.contains(z)
        &&& forall|idx: int|
            0 <= idx < self.points@.len() && #[trigger] self.points@[idx] == z ==> self.serves(
                idx,
                z,
                lh,
            )
    }

    /// A cache built over the canonical coset of log-height `k_max` covers
    /// every opening point of every matrix, at the matrix's own height.
    pub proof fn lemma_matches_covers(
        &self,
        mats: Seq<Matrix>,
        points: Seq<Seq<Ext>>,
        k_max: nat,
        j: int,
        z: Ext,
    )
        requires
            self.matches(mats, points, coset_table_spec(k_max)),
            k_max <= 27,
            0 <= j < mats.len(),
            points[j].contains(z),
            mat_log_height(mats[j]) <= k_max,
        ensures
            self.covers(z, mat_log_height(mats[j])),
    {
        let lh = mat_log_height(mats[j]);
        lemma_point_height_covers(mats, points, mats.len(), j, z);
        let h = point_height(mats, points, mats.len(), z).unwrap();
        lemma_pow2_monotone(lh, h);
        assert forall|idx: int|
            0 <= idx < self.points@.len() && #[trigger] self.points@[idx] == z implies self.serves(
            idx,
            z,
            lh,
        ) by {
            assert(self.table_matches(idx, mats, points, coset_table_spec(k_max)));
            let t = self.tables@[idx]@;
            assert forall|x: int| 0 <= x < pow2(lh) implies #[trigger] t[x] == inv_denominator_spec(
                z,
                coset_point_spec(lh, x as nat),
            ) by {
                lemma_coset_point_prefix(lh, k_max, x as nat);
                assert(coset_table_spec(k_max)[x] == coset_point_spec(k_max, x as nat));
            }
        }
    }

    /// The position of `z` among the points, if it is one of them.
    pub fn position(&self, z: Ext) -> (r: Option<usize>)
        ensures
            r matches Some(i) ==> i < self.points@.len() && self.points@[i as int] == z,
            r.is_none() ==> !self.points@.contains(z),
    {
        let mut i: usize = 0;
        while i < self.points.len()
            invariant
                i <= self.points@.len(),
                forall|j: int| 0 <= j < i ==> self.points@[j] != z,
            decreases self.points@.len() - i,
        {
            if self.points[i] == z {
                return Some(i);
            }
            i = i + 1;
        }
        None
    }
}

/// The inverse denominators of one point over the first `2^lh` points of the
/// coset.
pub fn inverse_denominators_for_point(z: Ext, lh: usize, coset: &Vec<u32>) -> (r: Vec<Ext>)
    requires
        lh <= 27,
        pow2(lh as nat) <= coset@.len(),
        avoids_coset(z, coset@, pow2(lh as nat)),
    ensures
        is_table(r@, z, lh as nat, coset@),
{
    let size: usize = pow2_exec(lh);
    let mut diffs: Vec<Ext> = Vec::new();
    let mut x: usize = 0;
    while x < size
        invariant
            x <= size,
            size <= coset@.len(),
            diffs@.len() == x,
            avoids_coset(z, coset@, size as nat),
            forall|i: int|
                0 <= i < x ==> #[trigger] diffs@[i] == ext_sub_spec(z, embed_spec(coset@[i])),
        decreases size - x,
    {
        diffs.push(ext_sub(z, embed(coset[x])));
        x = x + 1;
    }
    proof {
        assert forall|i: int| 0 <= i < diffs@.len() implies !ext_is_zero(#[trigger] diffs@[i]) by {
            assert(!ext_is_zero(ext_sub_spec(z, embed_spec(coset@[i]))));
        }
    }
    batch_inverse_outside(&diffs)
}

/// Computes the inverse denominators of every distinct opening point.
///
/// For each point `z`, the table covers the coset of the tallest matrix that
/// is opened at `z`; `coset` holds the canonical coset in bit-reversed order
/// and is at least as long as the tallest matrix of the batch.
pub fn compute_inverse_denominators(
    mats: &Vec<Matrix>,
    points: &Vec<Vec<Ext>>,
    coset: &Vec<u32>,
) -> (r: InverseDenominators)
    requires
        mats@.len() == points@.len(),
        coset@.len() <= pow2(27),
        forall|j: int| 0 <= j < mats@.len() ==> is_pow2((#[trigger] mats@[j]).rows@.len()),
        forall|z: Ext|
            (#[trigger] point_height(mats@, views(points@), mats@.len(), z)) matches Some(h) ==> pow2(h)
                <= coset@.len() && avoids_coset(z, coset@, pow2(h)),
    ensures
        r.matches(mats@, views(points@), coset@),
{
    let entries: Vec<(PointKey, usize)> = max_log_heights(mats, points);
    let mut out_points: Vec<Ext> = Vec::new();
    let mut tables: Vec<Vec<Ext>> = Vec::new();
    let mut e: usize = 0;
    while e < entries.len()
        invariant
            e <= entries@.len(),
            out_points@.len() == e,
            tables@.len() == e,
            coset@.len() <= pow2(27),
            forall|i: int|
                0 <= i < entries@.len() ==> point_height(
                    mats@,
                    views(points@),
                    mats@.len(),
                    key_ext_spec((#[trigger] entries@[i]).0),
                ) == Some(entries@[i].1 as nat),
            forall|z: Ext|
                (#[trigger] point_height(mats@, views(points@), mats@.len(), z)) matches Some(h)
                    ==> pow2(h) <= coset@.len() && avoids_coset(z, coset@, pow2(h)),
            forall|i: int| 0 <= i < e ==> #[trigger] out_points@[i] == key_ext_spec(entries@[i].0),
            forall|i: int|
                0 <= i < e ==> is_table(
                    (#[trigger] tables@[i])@,
                    key_ext_spec(entries@[i].0),
                    entries@[i].1 as nat,
                    coset@,
                ),
        decreases entries@.len() - e,
    {
        let key: PointKey = entries[e].0;
        let lh: usize = entries[e].1;
        let z: Ext = Ext { c0: key.0, c1: key.1, c2: key.2, c3: key.3 };
        proof {
            assert(point_height(mats@, views(points@), mats@.len(), key_ext_spec(entries@[e as int].0))
                == Some(lh as nat));
            if lh > 27 {
                lemma_pow2_strict(27, lh as nat);
            }
        }
        let table: Vec<Ext> = inverse_denominators_for_point(z, lh, coset);
        out_points.push(z);
        tables.push(table);
        e = e + 1;
    }
    let r = InverseDenominators { points: out_points, tables };
    proof {
        assert forall|i: int, j: int| 0 <= i < j < r.points@.len() implies #[trigger] r.points@[i]
            != #[trigger] r.points@[j] by {
            assert(entries@[i].0 != entries@[j].0);
        }
        assert forall|z: Ext|
            (#[trigger] point_height(mats@, views(points@), mats@.len(), z)).is_some() implies r.points@.contains(
            z,
        ) by {
            let i = choose|i: int| 0 <= i < entries@.len() && (#[trigger] entries@[i]).0 == ext_key_spec(z);
            assert(r.points@[i] == z);
        }
        assert forall|i: int| 0 <= i < r.points@.len() implies r.table_matches(
            i,
            mats@,
            views(points@),
            coset@,
        ) by {
            assert(is_table(
                r.tables@[i]@,
                key_ext_spec(entries@[i].0),
                entries@[i].1 as nat,
                coset@,
            ));
        }
    }
    r
}

/// A matrix that is opened at `z` keeps the height recorded for `z` at or
/// above its own.
pub proof fn lemma_point_height_covers(
    mats: Seq<Matrix>,
    points: Seq<Seq<Ext>>,
    n: nat,
    j: int,
    z: Ext,
)
    requires
        0 <= j < n,
        points[j].contains(z),
    ensures
        point_height(mats, points, n, z) matches Some(h) && h >= mat_log_height(mats[j]),
    decreases n,
{
    if j < n - 1 {
        lemma_point_height_covers(mats, points, (n - 1) as nat, j, z);
    }
}

/// No point is recorded above the tallest matrix.
pub proof fn lemma_point_height_bounded(
    mats: Seq<Matrix>,
    points: Seq<Seq<Ext>>,
    n: nat,
    z: Ext,
    k_max: nat,
)
    requires
        n <= mats.len(),
        forall|j: int| 0 <= j < mats.len() ==> mat_log_height(#[trigger] mats[j]) <= k_max,
    ensures
        point_height(mats, points, n, z) matches Some(h) ==> h <= k_max,
    decreases n,
{
    if n > 0 {
        lemma_point_height_bounded(mats, points, (n - 1) as nat, z, k_max);
        assert(mat_log_height(mats[n - 1]) <= k_max);
    }
}

} // verus!
