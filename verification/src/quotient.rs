//! The batched quotient: for every height, one vector that combines, by
//! powers of a challenge, the quotients `(p(z) - p(x)) / (z - x)` of all
//! polynomials of that height at all their opening points.

use crate::bits::{is_pow2, log2_strict, pow2};
use crate::coset::{coset_point_spec, coset_table_spec};
use crate::denominators::{
    inv_denominator_spec, mat_log_height, views, InverseDenominators,
};
use crate::extension::{
    ext_add, ext_add_spec, ext_exp, ext_mul, ext_mul_spec, ext_one, ext_pow, ext_scale,
    ext_scale_spec, ext_sub, ext_sub_spec, ext_zero, ext_zero_spec, Ext,
};
use crate::matrix::Matrix;
use vstd::prelude::*;

verus! {

/// `sum of alpha^c * row[c]` over the first `n` columns.
pub open spec fn row_combination(row: Seq<u32>, alpha: Ext, n: nat) -> Ext
    decreases n,
{
    if n == 0 {
        ext_zero_spec()
    } else {
        ext_add_spec(
            row_combination(row, alpha, (n - 1) as nat),
            ext_scale_spec(ext_pow(alpha, (n - 1) as nat), row[n - 1]),
        )
    }
}

/// `sum of alpha^c * ys[c]` over the first `n` values.
pub open spec fn value_combination(ys: Seq<Ext>, alpha: Ext, n: nat) -> Ext
    decreases n,
{
    if n == 0 {
        ext_zero_spec()
    } else {
        ext_add_spec(
            value_combination(ys, alpha, (n - 1) as nat),
            ext_mul_spec(ext_pow(alpha, (n - 1) as nat), ys[n - 1]),
        )
    }
}

/// `scale * (at_point - at_row) * inv`: one polynomial combination at one
/// opening point and one coset point.
pub open spec fn quotient_term(scale: Ext, at_point: Ext, at_row: Ext, inv: Ext) -> Ext {
    ext_mul_spec(ext_mul_spec(scale, ext_sub_spec(at_point, at_row)), inv)
}

/// The number of columns of the matrices of log-height `lh` among the first
/// `n` matrices.
pub open spec fn columns_before(mats: Seq<Matrix>, lh: nat, n: nat) -> nat
    decreases n,
{
    if n == 0 {
        0
    } else {
        columns_before(mats, lh, (n - 1) as nat) + if mat_log_height(mats[n - 1]) == lh {
            mats[n - 1].width as nat
        } else {
            0
        }
    }
}

/// `base` plus the quotient terms of one matrix row at the first `k` opening
/// points of the matrix. The row is given by its combination `at_row` and
/// its coset point `x`.
pub open spec fn points_sum(
    base: Ext,
    scale: Ext,
    at_row: Ext,
    x: u32,
    alpha: Ext,
    width: nat,
    pts: Seq<Ext>,
    ys: Seq<Seq<Ext>>,
    k: nat,
) -> Ext
    decreases k,
{
    if k == 0 {
        base
    } else {
        ext_add_spec(
            points_sum(base, scale, at_row, x, alpha, width, pts, ys, (k - 1) as nat),
            quotient_term(
                scale,
                value_combination(ys[k - 1], alpha, width),
                at_row,
                inv_denominator_spec(pts[k - 1], x),
            ),
        )
    }
}

/// Entry `i` of the combined quotient of log-height `lh` over the first `n`
/// matrices: each matrix of that height adds its terms, scaled by `alpha`
/// to the number of columns that were combined at that height before it.
pub open spec fn quotient_entry(
    mats: Seq<Matrix>,
    points: Seq<Seq<Ext>>,
    opened: Seq<Seq<Seq<Ext>>>,
    alpha: Ext,
    lh: nat,
    i: int,
    n: nat,
) -> Ext
    decreases n,
{
    if n == 0 {
        ext_zero_spec()
    } else {
        let prev = quotient_entry(mats, points, opened, alpha, lh, i, (n - 1) as nat);
        let m = mats[n - 1];
        if mat_log_height(m) == lh {
            points_sum(
                prev,
                ext_pow(alpha, columns_before(mats, lh, (n - 1) as nat)),
                row_combination(m@[i], alpha, m.width as nat),
                coset_point_spec(lh, i as nat),
                alpha,
                m.width as nat,
                points[n - 1],
                opened[n - 1],
                points[n - 1].len(),
            )
        } else {
            prev
        }
    }
}

/// The combined quotient vector of log-height `lh`.
pub open spec fn quotient_vector(
    mats: Seq<Matrix>,
    points: Seq<Seq<Ext>>,
    opened: Seq<Seq<Seq<Ext>>>,
    alpha: Ext,
    lh: nat,
) -> Seq<Ext> {
    Seq::new(pow2(lh), |i: int| quotient_entry(mats, points, opened, alpha, lh, i, mats.len()))
}

/// Whether one of the first `n` matrices has log-height `lh`.
pub open spec fn height_present(mats: Seq<Matrix>, lh: nat, n: nat) -> bool {
    exists|j: int| 0 <= j < n && mat_log_height(#[trigger] mats[j]) == lh
}

/// The combined quotient vectors of the `top` largest log-heights that the
/// field allows, tallest first; a height without a matrix has no vector.
pub open spec fn fri_input_spec(
    mats: Seq<Matrix>,
    points: Seq<Seq<Ext>>,
    opened: Seq<Seq<Seq<Ext>>>,
    alpha: Ext,
    top: nat,
) -> Seq<Seq<Ext>>
    decreases top,
{
    if top == 0 {
        Seq::empty()
    } else {
        let rest = fri_input_spec(mats, points, opened, alpha, (top - 1) as nat);
        let lh = (28 - top) as nat;
        if height_present(mats, lh, mats.len()) {
            rest.push(quotient_vector(mats, points, opened, alpha, lh))
        } else {
            rest
        }
    }
}

/// The views of the opened values: matrix, point, column.
pub open spec fn opened_view(opened: Seq<Vec<Vec<Ext>>>) -> Seq<Seq<Seq<Ext>>> {
    Seq::new(opened.len(), |j: int| views(opened[j]@))
}

/// Whether `pw` holds the powers `alpha^0, alpha^1, ...`.
pub open spec fn is_powers(pw: Seq<Ext>, alpha: Ext) -> bool {
    forall|c: int| 0 <= c < pw.len() ==> #[trigger] pw[c] == ext_pow(alpha, c as nat)
}

/// The powers `alpha^0, ..., alpha^(n-1)`.
pub fn alpha_powers(alpha: Ext, n: usize) -> (r: Vec<Ext>)
    ensures
        r@.len() == n,
        is_powers(r@, alpha),
{
    let mut pw: Vec<Ext> = Vec::new();
    let mut cur: Ext = ext_one();
    let mut c: usize = 0;
    while c < n
        invariant
            c <= n,
            pw@.len() == c,
            cur == ext_pow(alpha, c as nat),
            is_powers(pw@, alpha),
        decreases n - c,
    {
        pw.push(cur);
        cur = ext_mul(cur, alpha);
        c = c + 1;
    }
    pw
}

/// The combination of one row by the powers of `alpha`.
pub fn combine_row(row: &Vec<u32>, pw: &Vec<Ext>, alpha: Ext) -> (r: Ext)
    requires
        row@.len() <= pw@.len(),
        is_powers(pw@, alpha),
    ensures
        r == row_combination(row@, alpha, row@.len()),
{
    let mut acc: Ext = ext_zero();
    let mut c: usize = 0;
    while c < row.len()
        invariant
            c <= row@.len(),
            row@.len() <= pw@.len(),
            is_powers(pw@, alpha),
            acc == row_combination(row@, alpha, c as nat),
        decreases row@.len() - c,
    {
        acc = ext_add(acc, ext_scale(pw[c], row[c]));
        c = c + 1;
    }
    acc
}

/// The combination of the opened values of one point by the powers of
/// `alpha`.
pub fn combine_values(ys: &Vec<Ext>, pw: &Vec<Ext>, alpha: Ext) -> (r: Ext)
    requires
        ys@.len() <= pw@.len(),
        is_powers(pw@, alpha),
    ensures
        r == value_combination(ys@, alpha, ys@.len()),
{
    let mut acc: Ext = ext_zero();
    let mut c: usize = 0;
    while c < ys.len()
        invariant
            c <= ys@.len(),
            ys@.len() <= pw@.len(),
            is_powers(pw@, alpha),
            acc == value_combination(ys@, alpha, c as nat),
        decreases ys@.len() - c,
    {
        acc = ext_add(acc, ext_mul(pw[c], ys[c]));
        c = c + 1;
    }
    acc
}

/// The combination of every row of a matrix by the powers of `alpha`.
pub fn compress_matrix(m: &Matrix, pw: &Vec<Ext>, alpha: Ext) -> (r: Vec<Ext>)
    requires
        m.wf(),
        m.width <= pw@.len(),
        is_powers(pw@, alpha),
    ensures
        r@.len() == m.rows@.len(),
        forall|i: int|
            0 <= i < r@.len() ==> #[trigger] r@[i] == row_combination(m@[i], alpha, m.width as nat),
{
    let mut out: Vec<Ext> = Vec::new();
    let mut i: usize = 0;
    while i < m.rows.len()
        invariant
            i <= m.rows@.len(),
            out@.len() == i,
            m.wf(),
            m.width <= pw@.len(),
            is_powers(pw@, alpha),
            forall|j: int|
                0 <= j < i ==> #[trigger] out@[j] == row_combination(m@[j], alpha, m.width as nat),
        decreases m.rows@.len() - i,
    {
        let c: Ext = combine_row(&m.rows[i], pw, alpha);
        out.push(c);
        i = i + 1;
    }
    out
}

/// Adds to every entry of `acc` the quotient term of its row at one point.
pub fn add_point_quotient(
    acc: &Vec<Ext>,
    scale: Ext,
    at_point: Ext,
    compressed: &Vec<Ext>,
    table: &Vec<Ext>,
) -> (r: Vec<Ext>)
    requires
        compressed@.len() == acc@.len(),
        table@.len() >= acc@.len(),
    ensures
        r@.len() == acc@.len(),
        forall|i: int|
            0 <= i < r@.len() ==> #[trigger] r@[i] == ext_add_spec(
                acc@[i],
                quotient_term(scale, at_point, compressed@[i], table@[i]),
            ),
{
    let mut out: Vec<Ext> = Vec::new();
    let mut i: usize = 0;
    while i < acc.len()
        invariant
            i <= acc@.len(),
            out@.len() == i,
            compressed@.len() == acc@.len(),
            table@.len() >= acc@.len(),
            forall|j: int|
                0 <= j < i ==> #[trigger] out@[j] == ext_add_spec(
                    acc@[j],
                    quotient_term(scale, at_point, compressed@[j], table@[j]),
                ),
        decreases acc@.len() - i,
    {
        let term: Ext = ext_mul(ext_mul(scale, ext_sub(at_point, compressed[i])), table[i]);
        out.push(ext_add(acc[i], term));
        i = i + 1;
    }
    out
}

/// Two matrices of equal height, opened at the same point, stack: entry `i`
/// of their combined quotient is the quotient term of the first, scaled by
/// `alpha^0`, plus the quotient term of the second, scaled by `alpha` to the
/// width of the first.
pub proof fn lemma_equal_height_quotients_stack(
    m1: Matrix,
    m2: Matrix,
    z: Ext,
    y1: Seq<Ext>,
    y2: Seq<Ext>,
    alpha: Ext,
    lh: nat,
    i: int,
)
    requires
        mat_log_height(m1) == lh,
        mat_log_height(m2) == lh,
    ensures
        quotient_entry(seq![m1, m2], seq![seq![z], seq![z]], seq![seq![y1], seq![y2]], alpha, lh, i, 2)
            == ext_add_spec(
            ext_add_spec(
                ext_zero_spec(),
                quotient_term(
                    ext_pow(alpha, 0),
                    value_combination(y1, alpha, m1.width as nat),
                    row_combination(m1@[i], alpha, m1.width as nat),
                    inv_denominator_spec(z, coset_point_spec(lh, i as nat)),
                ),
            ),
            quotient_term(
                ext_pow(alpha, m1.width as nat),
                value_combination(y2, alpha, m2.width as nat),
                row_combination(m2@[i], alpha, m2.width as nat),
                inv_denominator_spec(z, coset_point_spec(lh, i as nat)),
            ),
        ),
{
    let mats = seq![m1, m2];
    let points = seq![seq![z], seq![z]];
    let opened = seq![seq![y1], seq![y2]];
    reveal_with_fuel(quotient_entry, 3);
    reveal_with_fuel(points_sum, 2);
    reveal_with_fuel(columns_before, 3);
    assert(mats[0] == m1 && mats[1] == m2);
    assert(points[0] == seq![z] && points[1] == seq![z]);
    assert(points[0].len() == 1 && points[1].len() == 1);
    assert(points[0][0] == z && points[1][0] == z);
    assert(opened[0][0] == y1 && opened[1][0] == y2);
    assert(columns_before(mats, lh, 0) == 0);
    assert(columns_before(mats, lh, 1) == m1.width as nat);
}

/// A vector of `n` zeros.
pub fn zeros(n: usize) -> (r: Vec<Ext>)
    ensures
        r@.len() == n,
        forall|i: int| 0 <= i < n ==> #[trigger] r@[i] == ext_zero_spec(),
{
    let mut out: Vec<Ext> = Vec::new();
    let mut i: usize = 0;
    while i < n
        invariant
            i <= n,
            out@.len() == i,
            forall|j: int| 0 <= j < i ==> #[trigger] out@[j] == ext_zero_spec(),
        decreases n - i,
    {
        out.push(ext_zero());
        i = i + 1;
    }
    out
}

/// Adds to `acc` the quotient terms of one matrix at all its opening points.
pub fn add_matrix_quotient(
    acc: Vec<Ext>,
    m: &Matrix,
    pts: &Vec<Ext>,
    ys: &Vec<Vec<Ext>>,
    alpha: Ext,
    pw: &Vec<Ext>,
    scale: Ext,
    inv: &InverseDenominators,
    lh: usize,
) -> (r: Vec<Ext>)
    requires
        m.wf(),
        m.width <= pw@.len(),
        is_powers(pw@, alpha),
        acc@.len() == m.rows@.len(),
        m.rows@.len() == pow2(lh as nat),
        ys@.len() == pts@.len(),
        forall|k: int| 0 <= k < ys@.len() ==> (#[trigger] ys@[k])@.len() == m.width,
        forall|k: int| 0 <= k < pts@.len() ==> inv.covers(#[trigger] pts@[k], lh as nat),
    ensures
        r@.len() == acc@.len(),
        forall|i: int|
            0 <= i < r@.len() ==> #[trigger] r@[i] == points_sum(
                acc@[i],
                scale,
                row_combination(m@[i], alpha, m.width as nat),
                coset_point_spec(lh as nat, i as nat),
                alpha,
                m.width as nat,
                pts@,
                views(ys@),
                pts@.len(),
            ),
{
    let compressed: Vec<Ext> = compress_matrix(m, pw, alpha);
    let ghost base = acc@;
    let mut cur: Vec<Ext> = acc;
    let mut k: usize = 0;
    while k < pts.len()
        invariant
            k <= pts@.len(),
            m.wf(),
            m.width <= pw@.len(),
            is_powers(pw@, alpha),
            base.len() == m.rows@.len(),
            m.rows@.len() == pow2(lh as nat),
            ys@.len() == pts@.len(),
            forall|k: int| 0 <= k < ys@.len() ==> (#[trigger] ys@[k])@.len() == m.width,
            forall|k: int| 0 <= k < pts@.len() ==> inv.covers(#[trigger] pts@[k], lh as nat),
            compressed@.len() == m.rows@.len(),
            forall|i: int|
                0 <= i < compressed@.len() ==> #[trigger] compressed@[i] == row_combination(
                    m@[i],
                    alpha,
                    m.width as nat,
                ),
            cur@.len() == base.len(),
            forall|i: int|
                0 <= i < cur@.len() ==> #[trigger] cur@[i] == points_sum(
                    base[i],
                    scale,
                    row_combination(m@[i], alpha, m.width as nat),
                    coset_point_spec(lh as nat, i as nat),
                    alpha,
                    m.width as nat,
                    pts@,
                    views(ys@),
                    k as nat,
                ),
        decreases pts@.len() - k,
    {
        let z: Ext = pts[k];
        assert(inv.covers(pts@[k as int], lh as nat));
        match inv.position(z) {
            Some(idx) => {
                let at_point: Ext = combine_values(&ys[k], pw, alpha);
                let next: Vec<Ext> = add_point_quotient(
                    &cur,
                    scale,
                    at_point,
                    &compressed,
                    &inv.tables[idx],
                );
                proof {
                    assert(inv.serves(idx as int, z, lh as nat));
                    assert(views(ys@)[k as int] == ys@[k as int]@);
                    assert forall|i: int| 0 <= i < next@.len() implies #[trigger] next@[i]
                        == points_sum(
                        base[i],
                        scale,
                        row_combination(m@[i], alpha, m.width as nat),
                        coset_point_spec(lh as nat, i as nat),
                        alpha,
                        m.width as nat,
                        pts@,
                        views(ys@),
                        (k + 1) as nat,
                    ) by {
                        assert(inv.tables@[idx as int]@[i] == inv_denominator_spec(
                            z,
                            coset_point_spec(lh as nat, i as nat),
                        ));
                        assert(next@[i] == ext_add_spec(
                            cur@[i],
                            quotient_term(scale, at_point, compressed@[i], inv.tables@[idx as int]@[i]),
                        ));
                    }
                }
                cur = next;
            },
            None => {
                proof {
                    assert(false);
                }
            },
        }
        k = k + 1;
    }
    cur
}

/// Whether a stored matrix is rectangular, of a power-of-two height that
/// is at most `2^k_max`.
pub open spec fn mat_ok(m: Matrix, k_max: nat) -> bool {
    &&& m.wf()
    &&& is_pow2(m.rows@.len())
    &&& mat_log_height(m) <= k_max
}

/// Whether every matrix has its list of points, every point its opened
/// values, and every list of opened values one value for each column.
pub open spec fn batch_wf(
    mats: Seq<Matrix>,
    points: Seq<Vec<Ext>>,
    opened: Seq<Vec<Vec<Ext>>>,
    k_max: nat,
) -> bool {
    &&& mats.len() == points.len()
    &&& mats.len() == opened.len()
    &&& forall|j: int| 0 <= j < mats.len() ==> mat_ok(#[trigger] mats[j], k_max)
    &&& forall|j: int| 0 <= j < mats.len() ==> (#[trigger] opened[j])@.len() == points[j]@.len()
    &&& forall|j: int, k: int|
        0 <= j < mats.len() && 0 <= k < opened[j]@.len() ==> (#[trigger] opened[j]@[k])@.len()
            == mats[j].width
}

/// Whether the column counts of every height fit the machine word.
pub open spec fn columns_fit(mats: Seq<Matrix>) -> bool {
    forall|lh: nat, n: nat| n <= mats.len() ==> #[trigger] columns_before(mats, lh, n) <= usize::MAX
}

/// The number of columns of the first `n` matrices.
pub open spec fn total_width(mats: Seq<Matrix>, n: nat) -> nat
    decreases n,
{
    if n == 0 {
        0
    } else {
        total_width(mats, (n - 1) as nat) + mats[n - 1].width as nat
    }
}

/// The columns of one height among the first `n` matrices are at most the
/// columns of the first `len` matrices.
pub proof fn lemma_columns_bounded(mats: Seq<Matrix>, lh: nat, n: nat, len: nat)
    requires
        n <= len,
    ensures
        columns_before(mats, lh, n) <= total_width(mats, len),
    decreases len,
{
    if n < len {
        lemma_columns_bounded(mats, lh, n, (len - 1) as nat);
    } else if n > 0 {
        lemma_columns_bounded(mats, lh, (n - 1) as nat, (len - 1) as nat);
    }
}

/// Whether the columns of the batch can be counted in a machine word; where
/// they can, the column counts of every height fit.
pub fn widths_fit(mats: &Vec<Matrix>) -> (r: bool)
    ensures
        r == (total_width(mats@, mats@.len()) <= usize::MAX),
        r ==> columns_fit(mats@),
{
    let mut total: usize = 0;
    let mut j: usize = 0;
    while j < mats.len()
        invariant
            j <= mats@.len(),
            total == total_width(mats@, j as nat),
        decreases mats@.len() - j,
    {
        if mats[j].width > usize::MAX - total {
            proof {
                lemma_total_width_monotone(mats@, (j + 1) as nat, mats@.len());
            }
            return false;
        }
        total = total + mats[j].width;
        j = j + 1;
    }
    proof {
        assert forall|lh: nat, n: nat| n <= mats@.len() implies #[trigger] columns_before(
            mats@,
            lh,
            n,
        ) <= usize::MAX by {
            lemma_columns_bounded(mats@, lh, n, mats@.len());
        }
    }
    true
}

/// More matrices have at least as many columns.
pub proof fn lemma_total_width_monotone(mats: Seq<Matrix>, n: nat, len: nat)
    requires
        n <= len,
    ensures
        total_width(mats, n) <= total_width(mats, len),
    decreases len,
{
    if n < len {
        lemma_total_width_monotone(mats, n, (len - 1) as nat);
    }
}

/// While no matrix of log-height `lh` has been seen, the combined quotient
/// of that height is zero.
pub proof fn lemma_absent_entry_zero(
    mats: Seq<Matrix>,
    points: Seq<Seq<Ext>>,
    opened: Seq<Seq<Seq<Ext>>>,
    alpha: Ext,
    lh: nat,
    i: int,
    n: nat,
)
    requires
        n <= mats.len(),
        !height_present(mats, lh, n),
    ensures
        quotient_entry(mats, points, opened, alpha, lh, i, n) == ext_zero_spec(),
    decreases n,
{
    if n > 0 {
        assert(mat_log_height(mats[n - 1]) != lh);
        assert(!height_present(mats, lh, (n - 1) as nat)) by {
            if height_present(mats, lh, (n - 1) as nat) {
                let j = choose|j: int| 0 <= j < n - 1 && mat_log_height(#[trigger] mats[j]) == lh;
                assert(mat_log_height(mats[j]) == lh);
            }
        }
        lemma_absent_entry_zero(mats, points, opened, alpha, lh, i, (n - 1) as nat);
    }
}

/// The combined quotient vector of log-height `lh`, or `None` where no
/// matrix has that height.
pub fn reduced_opening(
    lh: usize,
    mats: &Vec<Matrix>,
    points: &Vec<Vec<Ext>>,
    opened: &Vec<Vec<Vec<Ext>>>,
    inv: &InverseDenominators,
    log_max_height: usize,
    alpha: Ext,
    pw: &Vec<Ext>,
) -> (r: Option<Vec<Ext>>)
    requires
        lh <= 27,
        log_max_height <= 27,
        batch_wf(mats@, points@, opened@, log_max_height as nat),
        columns_fit(mats@),
        inv.matches(mats@, views(points@), coset_table_spec(log_max_height as nat)),
        is_powers(pw@, alpha),
        forall|j: int| 0 <= j < mats@.len() ==> (#[trigger] mats@[j]).width <= pw@.len(),
    ensures
        r.is_some() <==> height_present(mats@, lh as nat, mats@.len()),
        r matches Some(v) ==> v@ == quotient_vector(
            mats@,
            views(points@),
            opened_view(opened@),
            alpha,
            lh as nat,
        ),
{
    let n: usize = mats.len();
    let mut acc: Vec<Ext> = Vec::new();
    let mut present: bool = false;
    let mut offset: usize = 0;
    let mut j: usize = 0;
    while j < n
        invariant
            j <= n,
            n == mats@.len(),
            lh <= 27,
            log_max_height <= 27,
            batch_wf(mats@, points@, opened@, log_max_height as nat),
            columns_fit(mats@),
            inv.matches(mats@, views(points@), coset_table_spec(log_max_height as nat)),
            is_powers(pw@, alpha),
            forall|j: int| 0 <= j < mats@.len() ==> (#[trigger] mats@[j]).width <= pw@.len(),
            present == height_present(mats@, lh as nat, j as nat),
            offset == columns_before(mats@, lh as nat, j as nat),
            present ==> acc@.len() == pow2(lh as nat),
            present ==> forall|i: int|
                0 <= i < acc@.len() ==> #[trigger] acc@[i] == quotient_entry(
                    mats@,
                    views(points@),
                    opened_view(opened@),
                    alpha,
                    lh as nat,
                    i,
                    j as nat,
                ),
        decreases n - j,
    {
        let m: &Matrix = &mats[j];
        assert(mat_ok(mats@[j as int], log_max_height as nat));
        let h: usize = log2_strict(m.rows.len());
        proof {
            assert(columns_before(mats@, lh as nat, (j + 1) as nat) <= usize::MAX);
        }
        if h == lh {
            if !present {
                acc = zeros(m.rows.len());
                proof {
                    assert forall|i: int| 0 <= i < acc@.len() implies #[trigger] acc@[i]
                        == quotient_entry(
                        mats@,
                        views(points@),
                        opened_view(opened@),
                        alpha,
                        lh as nat,
                        i,
                        j as nat,
                    ) by {
                        lemma_absent_entry_zero(
                            mats@,
                            views(points@),
                            opened_view(opened@),
                            alpha,
                            lh as nat,
                            i,
                            j as nat,
                        );
                    }
                }
            }
            let scale: Ext = ext_exp(alpha, offset as u64);
            proof {
                assert(opened@[j as int]@.len() == points@[j as int]@.len());
                assert forall|k: int| 0 <= k < opened@[j as int]@.len() implies (
                #[trigger] opened@[j as int]@[k])@.len() == m.width by {}
                assert forall|k: int| 0 <= k < points@[j as int]@.len() implies inv.covers(
                    #[trigger] points@[j as int]@[k],
                    lh as nat,
                ) by {
                    assert(views(points@)[j as int] == points@[j as int]@);
                    inv.lemma_matches_covers(
                        mats@,
                        views(points@),
                        log_max_height as nat,
                        j as int,
                        points@[j as int]@[k],
                    );
                }
            }
            let ghost before = acc@;
            acc = add_matrix_quotient(acc, m, &points[j], &opened[j], alpha, pw, scale, inv, lh);
            proof {
                assert(views(points@)[j as int] == points@[j as int]@);
                assert(opened_view(opened@)[j as int] == views(opened@[j as int]@));
                assert forall|i: int| 0 <= i < acc@.len() implies #[trigger] acc@[i]
                    == quotient_entry(
                    mats@,
                    views(points@),
                    opened_view(opened@),
                    alpha,
                    lh as nat,
                    i,
                    (j + 1) as nat,
                ) by {
                    assert(before[i] == quotient_entry(
                        mats@,
                        views(points@),
                        opened_view(opened@),
                        alpha,
                        lh as nat,
                        i,
                        j as nat,
                    ));
                }
            }
            offset = offset + m.width;
            present = true;
            proof {
                assert(mat_log_height(mats@[j as int]) == lh);
            }
        } else {
            proof {
                if height_present(mats@, lh as nat, (j + 1) as nat) {
                    let w = choose|w: int|
                        0 <= w < j + 1 && mat_log_height(#[trigger] mats@[w]) == lh as nat;
                    assert(w < j);
                }
                if present {
                    let w = choose|w: int| 0 <= w < j && mat_log_height(#[trigger] mats@[w]) == lh as nat;
                    assert(mat_log_height(mats@[w]) == lh as nat);
                }
            }
        }
        j = j + 1;
    }
    if present {
        proof {
            assert(acc@ =~= quotient_vector(
                mats@,
                views(points@),
                opened_view(opened@),
                alpha,
                lh as nat,
            ));
        }
        Some(acc)
    } else {
        None
    }
}

/// The widest matrix's number of columns.
pub fn max_width(mats: &Vec<Matrix>) -> (r: usize)
    ensures
        forall|j: int| 0 <= j < mats@.len() ==> (#[trigger] mats@[j]).width <= r,
        mats@.len() == 0 ==> r == 0,
        mats@.len() > 0 ==> exists|j: int| 0 <= j < mats@.len() && (#[trigger] mats@[j]).width == r,
{
    let mut w: usize = 0;
    let mut j: usize = 0;
    while j < mats.len()
        invariant
            j <= mats@.len(),
            forall|i: int| 0 <= i < j ==> (#[trigger] mats@[i]).width <= w,
            j == 0 ==> w == 0,
            j > 0 ==> exists|i: int| 0 <= i < j && (#[trigger] mats@[i]).width == w,
        decreases mats@.len() - j,
    {
        if mats[j].width > w {
            w = mats[j].width;
        }
        j = j + 1;
    }
    w
}

/// The combined quotient vectors of all heights of the batch, tallest first.
pub fn combined_quotients(
    mats: &Vec<Matrix>,
    points: &Vec<Vec<Ext>>,
    opened: &Vec<Vec<Vec<Ext>>>,
    inv: &InverseDenominators,
    log_max_height: usize,
    alpha: Ext,
) -> (r: Vec<Vec<Ext>>)
    requires
        log_max_height <= 27,
        batch_wf(mats@, points@, opened@, log_max_height as nat),
        columns_fit(mats@),
        inv.matches(mats@, views(points@), coset_table_spec(log_max_height as nat)),
    ensures
        views(r@) == fri_input_spec(mats@, views(points@), opened_view(opened@), alpha, 28),
{
    let pw: Vec<Ext> = alpha_powers(alpha, max_width(mats));
    let mut out: Vec<Vec<Ext>> = Vec::new();
    let mut top: usize = 0;
    while top < 28
        invariant
            top <= 28,
            log_max_height <= 27,
            batch_wf(mats@, points@, opened@, log_max_height as nat),
            columns_fit(mats@),
            inv.matches(mats@, views(points@), coset_table_spec(log_max_height as nat)),
            is_powers(pw@, alpha),
            forall|j: int| 0 <= j < mats@.len() ==> (#[trigger] mats@[j]).width <= pw@.len(),
            views(out@) == fri_input_spec(
                mats@,
                views(points@),
                opened_view(opened@),
                alpha,
                top as nat,
            ),
        decreases 28 - top,
    {
        let lh: usize = 27 - top;
        let ghost before = views(out@);
        match reduced_opening(lh, mats, points, opened, inv, log_max_height, alpha, &pw) {
            Some(v) => {
                out.push(v);
                proof {
                    assert(views(out@) =~= before.push(v@));
                }
            },
            None => {},
        }
        top = top + 1;
    }
    out
}

} // verus!
