//! Two-adic cosets and the canonical coset table.
//!
//! Every committed polynomial is held by its values on a coset `g H`, where
//! `g` is the field's generator and `H` the subgroup of the needed order. The
//! table of such a coset is kept in bit-reversed order, so that the table of
//! a smaller subgroup is a prefix of the table of a larger one.

use crate::bits::{
    is_pow2, lemma_log2_unique, lemma_rev_bits_bound, lemma_rev_bits_widen, pow2, pow2_exec,
    rev_bits, reverse_index_bits_outside,
};
use crate::field::{
    shifted_powers, two_adic_generator, two_adic_generator_spec, val_mul_pow, val_mul_spec, val_pow_pow2,
    GENERATOR, P, TWO_ADICITY, TWO_ADIC_ROOT,
};
use vstd::arithmetic::div_mod::lemma_mul_mod_noop_general;
use vstd::arithmetic::mul::lemma_mul_is_associative;
use vstd::prelude::*;

verus! {

/// The coset `shift * H`, where `H` is the subgroup of order `2^log_size`.
#[derive(Clone, Copy, Debug, PartialEq, Eq, Structural)]
pub struct Domain {
    pub shift: u32,
    pub log_size: usize,
}

impl Domain {
    /// The shift is a nonzero residue and the subgroup exists in the field.
    pub open spec fn wf(&self) -> bool {
        self.shift % P != 0 && self.log_size <= 27
    }

    pub open spec fn spec_size(&self) -> nat {
        pow2(self.log_size as nat)
    }

    /// The coset with the given shift, or `None` where the shift is zero or
    /// the field has no subgroup of order `2^log_size`.
    pub fn new(shift: u32, log_size: usize) -> (r: Option<Domain>)
        ensures
            r.is_some() <==> (shift % P != 0 && log_size <= 27),
            r matches Some(d) ==> d.wf() && d.shift == shift % P && d.log_size == log_size,
    {
        if shift % P != 0 && log_size <= TWO_ADICITY {
            Some(Domain { shift: shift % P, log_size })
        } else {
            None
        }
    }

    /// The number of points of the coset.
    pub fn size(&self) -> (r: usize)
        requires
            self.wf(),
        ensures
            r == self.spec_size(),
    {
        pow2_exec(self.log_size)
    }

    pub fn shift(&self) -> (r: u32)
        ensures
            r == self.shift,
    {
        self.shift
    }

    pub fn log_size(&self) -> (r: usize)
        ensures
            r == self.log_size,
    {
        self.log_size
    }
}

/// The point at position `i` of the canonical coset table of height `2^k`:
/// the generator times the subgroup generator raised to the reversed index.
pub open spec fn coset_point_spec(k: nat, i: nat) -> u32 {
    val_mul_pow(GENERATOR, two_adic_generator_spec(k), rev_bits(i, k))
}

/// The canonical coset table of height `2^k`, in bit-reversed order.
pub open spec fn coset_table_spec(k: nat) -> Seq<u32> {
    Seq::new(pow2(k), |i: int| coset_point_spec(k, i as nat))
}

/// The points `shift * w^i` for `i` below `2^k`, where `w` generates the
/// subgroup of order `2^k`.
pub fn coset_points(shift: u32, k: usize) -> (r: Vec<u32>)
    requires
        k <= 27,
    ensures
        r@.len() == pow2(k as nat),
        forall|i: int|
            0 <= i < r@.len() ==> #[trigger] r@[i] == val_mul_pow(
                shift,
                two_adic_generator_spec(k as nat),
                i as nat,
            ),
{
    let w: u32 = two_adic_generator(k);
    let n: usize = pow2_exec(k);
    shifted_powers(shift, w, n)
}

/// The canonical coset table of height `2^k`: the points of `g H` in
/// bit-reversed order.
pub fn coset_table(k: usize) -> (r: Vec<u32>)
    requires
        k <= 27,
    ensures
        r@ == coset_table_spec(k as nat),
{
    let mut v: Vec<u32> = coset_points(GENERATOR, k);
    let ghost before = v@;
    proof {
        assert(is_pow2(v@.len()));
    }
    reverse_index_bits_outside(&mut v);
    proof {
        lemma_log2_unique(k as nat);
        assert forall|i: int| 0 <= i < v@.len() implies v@[i] == coset_table_spec(k as nat)[i] by {
            lemma_rev_bits_bound(i as nat, k as nat);
            assert(v@[i] == before[rev_bits(i as nat, k as nat) as int]);
        }
        assert(v@ =~= coset_table_spec(k as nat));
    }
    v
}

/// Multiplication of residues is associative.
pub proof fn lemma_val_mul_assoc(a: u32, b: u32, c: u32)
    ensures
        val_mul_spec(val_mul_spec(a, b), c) == val_mul_spec(a, val_mul_spec(b, c)),
{
    let p = P as int;
    let x = a as int;
    let y = b as int;
    let z = c as int;
    lemma_mul_mod_noop_general(x * y, z, p);
    lemma_mul_mod_noop_general(x, y * z, p);
    lemma_mul_is_associative(x, y, z);
}

/// Stepping twice as far by `w` is stepping by `w * w`.
pub proof fn lemma_mul_pow_double(s: u32, w: u32, n: nat)
    ensures
        val_mul_pow(s, w, 2 * n) == val_mul_pow(s, val_mul_spec(w, w), n),
    decreases n,
{
    if n > 0 {
        lemma_mul_pow_double(s, w, (n - 1) as nat);
        let t = val_mul_pow(s, w, (2 * n - 2) as nat);
        assert(val_mul_pow(s, w, (2 * n - 1) as nat) == val_mul_spec(t, w));
        assert(val_mul_pow(s, w, 2 * n) == val_mul_spec(val_mul_spec(t, w), w));
        lemma_val_mul_assoc(t, w, w);
    }
}

/// The table of height `2^(k+1)` starts with the table of height `2^k`.
pub proof fn lemma_coset_point_widen(k: nat, i: nat)
    requires
        k < 27,
        i < pow2(k),
    ensures
        coset_point_spec(k + 1, i) == coset_point_spec(k, i),
{
    let w = two_adic_generator_spec(k + 1);
    lemma_rev_bits_widen(i, k);
    lemma_mul_pow_double(GENERATOR, w, rev_bits(i, k));
    assert(two_adic_generator_spec(k) == val_mul_spec(w, w)) by {
        assert(val_pow_pow2(TWO_ADIC_ROOT, (27 - k) as nat) == val_mul_spec(
            val_pow_pow2(TWO_ADIC_ROOT, (27 - k - 1) as nat),
            val_pow_pow2(TWO_ADIC_ROOT, (27 - k - 1) as nat),
        ));
    }
}

/// The canonical coset table of height `2^k` agrees, on its first `2^j`
/// entries, with the canonical coset table of height `2^j`.
pub proof fn lemma_coset_table_prefix(j: nat, k: nat)
    requires
        j <= k <= 27,
    ensures
        pow2(j) <= pow2(k),
        coset_table_spec(k).subrange(0, pow2(j) as int) == coset_table_spec(j),
{
    crate::bits::lemma_pow2_monotone(j, k);
    assert forall|i: int| 0 <= i < pow2(j) implies coset_table_spec(k)[i]
        == #[trigger] coset_table_spec(j)[i] by {
        lemma_coset_point_prefix(j, k, i as nat);
    }
    assert(coset_table_spec(k).subrange(0, pow2(j) as int) =~= coset_table_spec(j));
}

/// Entry `i` of the table of height `2^k` is entry `i` of the table of
/// height `2^j`, for every `i` below `2^j`.
pub proof fn lemma_coset_point_prefix(j: nat, k: nat, i: nat)
    requires
        j <= k <= 27,
        i < pow2(j),
    ensures
        coset_point_spec(k, i) == coset_point_spec(j, i),
    decreases k - j,
{
    if j < k {
        lemma_coset_point_prefix(j, (k - 1) as nat, i);
        crate::bits::lemma_pow2_monotone(j, (k - 1) as nat);
        lemma_coset_point_widen((k - 1) as nat, i);
    }
}

} // verus!
