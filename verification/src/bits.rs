//! Powers of two and bit reversal of indices.

use p3_util::{reverse_bits_len, reverse_slice_index_bits};
use vstd::prelude::*;

verus! {

/// `2^n`.
pub open spec fn pow2(n: nat) -> nat
    decreases n,
{
    if n == 0 {
        1
    } else {
        2 * pow2((n - 1) as nat)
    }
}

/// The number whose `n` low bits are those of `x` in reverse order.
pub open spec fn rev_bits(x: nat, n: nat) -> nat
    decreases n,
{
    if n == 0 {
        0
    } else {
        (x % 2) * pow2((n - 1) as nat) + rev_bits(x / 2, (n - 1) as nat)
    }
}

pub proof fn lemma_pow2_positive(n: nat)
    ensures
        pow2(n) >= 1,
    decreases n,
{
    if n > 0 {
        lemma_pow2_positive((n - 1) as nat);
    }
}

pub proof fn lemma_pow2_monotone(a: nat, b: nat)
    requires
        a <= b,
    ensures
        pow2(a) <= pow2(b),
    decreases b,
{
    if a < b {
        lemma_pow2_monotone(a, (b - 1) as nat);
    }
}

/// A reversed index stays below `2^n`.
pub proof fn lemma_rev_bits_bound(x: nat, n: nat)
    ensures
        rev_bits(x, n) < pow2(n),
    decreases n,
{
    if n > 0 {
        lemma_rev_bits_bound(x / 2, (n - 1) as nat);
        let h = pow2((n - 1) as nat);
        assert((x % 2) * h <= h) by (nonlinear_arith)
            requires
                x % 2 <= 1,
                h >= 0,
        ;
    }
}

/// Widening the reversal by one bit doubles the reversed index.
pub proof fn lemma_rev_bits_widen(x: nat, n: nat)
    requires
        x < pow2(n),
    ensures
        rev_bits(x, n + 1) == 2 * rev_bits(x, n),
    decreases n,
{
    if n > 0 {
        let m = (n - 1) as nat;
        lemma_rev_bits_widen(x / 2, m);
        let b = x % 2;
        let h = pow2(m);
        assert(pow2(n) == 2 * h);
        assert(b * pow2(n) == 2 * (b * h)) by (nonlinear_arith)
            requires
                pow2(n) == 2 * h,
        ;
        assert(rev_bits(x, n) == b * h + rev_bits(x / 2, m));
        assert(rev_bits(x / 2, m + 1) == 2 * rev_bits(x / 2, m));
        assert(rev_bits(x, n + 1) == b * pow2(n) + rev_bits(x / 2, n));
    } else {
        assert(pow2(0) == 1);
        assert(x == 0);
        assert(rev_bits(0, 0) == 0);
        assert(rev_bits(0, 1) == (0nat % 2) * pow2(0) + rev_bits(0nat / 2, 0));
    }
}

/// Reversing `m + 1` bits moves the top bit `a` to the bottom.
pub proof fn lemma_rev_bits_top(a: nat, b: nat, m: nat)
    requires
        a <= 1,
        b < pow2(m),
    ensures
        rev_bits(a * pow2(m) + b, m + 1) == 2 * rev_bits(b, m) + a,
    decreases m,
{
    let x = a * pow2(m) + b;
    assert(rev_bits(x, m + 1) == (x % 2) * pow2(m) + rev_bits(x / 2, m));
    if m == 0 {
        assert(pow2(0) == 1);
        assert(b == 0);
        assert(x == a) by (nonlinear_arith)
            requires
                x == a * 1 + 0,
        ;
        assert(rev_bits(x / 2, 0) == 0);
        assert(rev_bits(b, 0) == 0);
        assert((x % 2) * 1 == a) by (nonlinear_arith)
            requires
                x == a,
                a <= 1,
        ;
    } else {
        let h = pow2((m - 1) as nat);
        assert(pow2(m) == 2 * h);
        assert(x == 2 * (a * h) + b) by (nonlinear_arith)
            requires
                x == a * pow2(m) + b,
                pow2(m) == 2 * h,
        ;
        assert(x % 2 == b % 2);
        assert(x / 2 == a * h + b / 2);
        lemma_rev_bits_top(a, b / 2, (m - 1) as nat);
        assert(rev_bits(b, m) == (b % 2) * h + rev_bits(b / 2, (m - 1) as nat));
        assert((b % 2) * pow2(m) == 2 * ((b % 2) * h)) by (nonlinear_arith)
            requires
                pow2(m) == 2 * h,
        ;
    }
}

/// Reversing the bits twice gives the index back.
pub proof fn lemma_rev_bits_involution(x: nat, n: nat)
    requires
        x < pow2(n),
    ensures
        rev_bits(rev_bits(x, n), n) == x,
    decreases n,
{
    if n == 0 {
        assert(pow2(0) == 1);
    } else {
        let m = (n - 1) as nat;
        lemma_rev_bits_involution(x / 2, m);
        lemma_rev_bits_bound(x / 2, m);
        lemma_rev_bits_top(x % 2, rev_bits(x / 2, m), m);
        assert(rev_bits(x, n) == (x % 2) * pow2(m) + rev_bits(x / 2, m));
    }
}

/// `2^27`, the largest subgroup order of the field, as a number.
pub proof fn lemma_pow2_27()
    ensures
        pow2(27) == 134217728,
{
    reveal_with_fuel(pow2, 28);
}

/// Whether `n` is a power of two.
pub open spec fn is_pow2(n: nat) -> bool {
    exists|k: nat| pow2(k) == n
}

/// The exponent `k` with `2^k == n`, or `None` where `n` is no power of two.
pub fn log2_checked(n: usize) -> (r: Option<usize>)
    ensures
        r matches Some(k) ==> pow2(k as nat) == n,
        r.is_none() ==> !is_pow2(n as nat),
{
    let mut k: usize = 0;
    let mut p: usize = 1;
    while p < n
        invariant
            p == pow2(k as nat),
            1 <= p,
            k <= p,
            k > 0 ==> pow2((k - 1) as nat) < n,
        decreases usize::MAX - p,
    {
        if p > usize::MAX / 2 {
            proof {
                assert forall|j: nat| pow2(j) != n by {
                    if j <= k {
                        lemma_pow2_monotone(j, k as nat);
                    } else {
                        lemma_pow2_monotone((k + 1) as nat, j);
                    }
                }
            }
            return None;
        }
        p = p * 2;
        k = k + 1;
    }
    if p == n {
        Some(k)
    } else {
        proof {
            assert forall|j: nat| pow2(j) != n by {
                if j >= k {
                    lemma_pow2_monotone(k as nat, j);
                } else {
                    lemma_pow2_monotone(j, (k - 1) as nat);
                }
            }
        }
        None
    }
}

/// Distinct exponents give distinct powers of two.
pub proof fn lemma_pow2_strict(a: nat, b: nat)
    requires
        a < b,
    ensures
        pow2(a) < pow2(b),
{
    lemma_pow2_monotone(a + 1, b);
    lemma_pow2_positive(a);
}

/// The exponent `k` with `2^k == n`, for an `n` that is a power of two.
pub open spec fn log2_spec(n: nat) -> nat {
    choose|k: nat| pow2(k) == n
}

/// The logarithm of `2^k` is `k`.
pub proof fn lemma_log2_unique(k: nat)
    ensures
        log2_spec(pow2(k)) == k,
{
    let c = log2_spec(pow2(k));
    assert(pow2(c) == pow2(k));
    if c < k {
        lemma_pow2_strict(c, k);
    }
    if k < c {
        lemma_pow2_strict(k, c);
    }
}

/// The exponent `k` with `2^k == n`, for an `n` that is a power of two.
pub fn log2_strict(n: usize) -> (r: usize)
    requires
        is_pow2(n as nat),
    ensures
        pow2(r as nat) == n,
        r == log2_spec(n as nat),
{
    match log2_checked(n) {
        Some(k) => {
            proof {
                lemma_log2_unique(k as nat);
            }
            k
        },
        None => {
            proof {
                assert(false);
            }
            0
        },
    }
}

/// `2^k` for an exponent that the field's subgroups allow.
pub fn pow2_exec(k: usize) -> (r: usize)
    requires
        k <= 27,
    ensures
        r == pow2(k as nat),
        1 <= r <= 134217728,
{
    let mut i: usize = 0;
    let mut p: usize = 1;
    while i < k
        invariant
            i <= k <= 27,
            p == pow2(i as nat),
            p <= 134217728,
        decreases k - i,
    {
        proof {
            lemma_pow2_monotone((i + 1) as nat, 27);
            lemma_pow2_27();
        }
        p = p * 2;
        i = i + 1;
    }
    proof {
        lemma_pow2_positive(k as nat);
    }
    p
}

/// `p3_util::reverse_bits_len`: the `bit_len` low bits of `x` in reverse
/// order, for an `x` that has no other bits set.
#[verifier::external_body]
pub(crate) fn reverse_bits_outside(x: usize, bit_len: usize) -> (r: usize)
    requires
        bit_len <= 32,
        x < pow2(bit_len as nat),
    ensures
        r == rev_bits(x as nat, bit_len as nat),
{
    reverse_bits_len(x, bit_len)
}

/// `p3_util::reverse_slice_index_bits`: the entry at each index moves to the
/// index with the bits reversed; the length must be zero or a power of two.
#[verifier::external_body]
pub(crate) fn reverse_index_bits_outside(v: &mut Vec<u32>)
    requires
        old(v)@.len() == 0 || is_pow2(old(v)@.len()),
    ensures
        final(v)@.len() == old(v)@.len(),
        forall|i: int|
            0 <= i < old(v)@.len() ==> #[trigger] final(v)@[i] == old(v)@[rev_bits(
                i as nat,
                log2_spec(old(v)@.len()),
            ) as int],
{
    reverse_slice_index_bits(v.as_mut_slice())
}

/// The index with its `bit_len` low bits reversed.
pub fn reverse_bits(x: usize, bit_len: usize) -> (r: usize)
    requires
        bit_len <= 32,
        x < pow2(bit_len as nat),
    ensures
        r == rev_bits(x as nat, bit_len as nat),
        r < pow2(bit_len as nat),
{
    proof {
        lemma_rev_bits_bound(x as nat, bit_len as nat);
    }
    reverse_bits_outside(x, bit_len)
}

} // verus!
