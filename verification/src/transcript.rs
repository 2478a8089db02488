//! The order in which opened values enter the transcript.
//!
//! Prover and verifier must feed the same values in the same order: matrix
//! by matrix, within a matrix point by point, within a point column by
//! column. Several commitments are opened as one batch, their matrices in
//! the order of the commitments.

use crate::coset::Domain;
use crate::extension::Ext;
use crate::pcs::TwoAdicFriPcs;
use crate::quotient::opened_view;
use vstd::prelude::*;

verus! {

/// The first `n` sequences of `s`, one after the other.
pub open spec fn concat_prefix(s: Seq<Seq<Ext>>, n: nat) -> Seq<Ext>
    decreases n,
{
    if n == 0 {
        Seq::empty()
    } else {
        concat_prefix(s, (n - 1) as nat) + s[n - 1]
    }
}

/// The values of the first `n` matrices in transcript order.
pub open spec fn transcript_spec(opened: Seq<Seq<Seq<Ext>>>, n: nat) -> Seq<Ext>
    decreases n,
{
    if n == 0 {
        Seq::empty()
    } else {
        transcript_spec(opened, (n - 1) as nat) + concat_prefix(opened[n - 1], opened[n - 1].len())
    }
}

/// The claimed values of a batch: for each matrix and each of its points,
/// the values that are claimed at the point.
pub open spec fn claims_view(claims: Seq<(Domain, Vec<(Ext, Vec<Ext>)>)>) -> Seq<Seq<Seq<Ext>>> {
    Seq::new(
        claims.len(),
        |j: int| Seq::new(claims[j].1@.len(), |k: int| claims[j].1@[k].1@),
    )
}

/// Appends the values of `ys` to `out`.
pub fn append_values(out: &mut Vec<Ext>, ys: &Vec<Ext>)
    ensures
        final(out)@ == old(out)@ + ys@,
{
    let ghost before = out@;
    let mut c: usize = 0;
    while c < ys.len()
        invariant
            c <= ys@.len(),
            out@ == before + ys@.take(c as int),
        decreases ys@.len() - c,
    {
        out.push(ys[c]);
        proof {
            assert(ys@.take(c + 1) =~= ys@.take(c as int).push(ys@[c as int]));
            assert(before + ys@.take(c + 1) =~= (before + ys@.take(c as int)).push(ys@[c as int]));
        }
        c = c + 1;
    }
    proof {
        assert(ys@.take(ys@.len() as int) =~= ys@);
    }
}

/// The opened values of a batch in the order in which the transcript takes
/// them in.
pub fn transcript_order(opened: &Vec<Vec<Vec<Ext>>>) -> (r: Vec<Ext>)
    ensures
        r@ == transcript_spec(opened_view(opened@), opened@.len()),
{
    let mut out: Vec<Ext> = Vec::new();
    let mut j: usize = 0;
    while j < opened.len()
        invariant
            j <= opened@.len(),
            out@ == transcript_spec(opened_view(opened@), j as nat),
        decreases opened@.len() - j,
    {
        let ghost start = out@;
        let for_mat: &Vec<Vec<Ext>> = &opened[j];
        let ghost here = opened_view(opened@)[j as int];
        let mut k: usize = 0;
        while k < for_mat.len()
            invariant
                k <= for_mat@.len(),
                here.len() == for_mat@.len(),
                forall|i: int| 0 <= i < here.len() ==> #[trigger] here[i] == for_mat@[i]@,
                out@ == start + concat_prefix(here, k as nat),
            decreases for_mat@.len() - k,
        {
            append_values(&mut out, &for_mat[k]);
            proof {
                assert(start + concat_prefix(here, (k + 1) as nat) =~= (start + concat_prefix(
                    here,
                    k as nat,
                )) + here[k as int]);
            }
            k = k + 1;
        }
        j = j + 1;
    }
    out
}

impl TwoAdicFriPcs {
    /// The verifier's part before the low-degree test: the claimed values in
    /// the order in which the transcript takes them in, which is the order
    /// of the prover.
    pub fn verify(&self, claims: &Vec<(Domain, Vec<(Ext, Vec<Ext>)>)>) -> (r: Vec<Ext>)
        ensures
            r@ == transcript_spec(claims_view(claims@), claims@.len()),
    {
        let mut out: Vec<Ext> = Vec::new();
        let mut j: usize = 0;
        while j < claims.len()
            invariant
                j <= claims@.len(),
                out@ == transcript_spec(claims_view(claims@), j as nat),
            decreases claims@.len() - j,
        {
            let ghost start = out@;
            let for_mat: &Vec<(Ext, Vec<Ext>)> = &claims[j].1;
            let ghost here = claims_view(claims@)[j as int];
            let mut k: usize = 0;
            while k < for_mat.len()
                invariant
                    k <= for_mat@.len(),
                    here.len() == for_mat@.len(),
                    forall|i: int| 0 <= i < here.len() ==> #[trigger] here[i] == for_mat@[i].1@,
                    out@ == start + concat_prefix(here, k as nat),
                decreases for_mat@.len() - k,
            {
                append_values(&mut out, &for_mat[k].1);
                proof {
                    assert(start + concat_prefix(here, (k + 1) as nat) =~= (start + concat_prefix(
                        here,
                        k as nat,
                    )) + here[k as int]);
                }
                k = k + 1;
            }
            j = j + 1;
        }
        out
    }
}

/// A verifier that is given the values that the prover opened feeds its
/// transcript exactly what the prover fed.
pub proof fn lemma_transcript_fidelity(
    opened: Seq<Vec<Vec<Ext>>>,
    claims: Seq<(Domain, Vec<(Ext, Vec<Ext>)>)>,
)
    requires
        claims.len() == opened.len(),
        forall|j: int| 0 <= j < opened.len() ==> (#[trigger] claims[j]).1@.len() == opened[j]@.len(),
        forall|j: int, k: int|
            0 <= j < opened.len() && 0 <= k < opened[j]@.len() ==> (#[trigger] claims[j].1@[k]).1@
                == opened[j]@[k]@,
    ensures
        transcript_spec(claims_view(claims), claims.len()) == transcript_spec(
            opened_view(opened),
            opened.len(),
        ),
{
    assert forall|j: int| 0 <= j < opened.len() implies #[trigger] claims_view(claims)[j]
        == opened_view(opened)[j] by {
        assert(claims_view(claims)[j] =~= opened_view(opened)[j]);
    }
    assert(claims_view(claims) =~= opened_view(opened));
}

} // verus!
