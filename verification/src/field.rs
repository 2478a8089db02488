//! The BabyBear base field, with elements held as `u32` residues.
//!
//! Every `u32` stands for its residue modulo [`P`]; every operation returns
//! the canonical residue, below [`P`].

use p3_baby_bear::BabyBear;
use p3_field::{Field, PrimeCharacteristicRing, PrimeField32, TwoAdicField};
use vstd::prelude::*;

verus! {

/// The BabyBear prime `2^31 - 2^27 + 1`.
pub const P: u32 = 2013265921;

/// The inverse of two modulo the prime.
pub const HALF: u32 = 1006632961;

/// The largest `k` such that `2^k` divides `P - 1`.
pub const TWO_ADICITY: usize = 27;

/// A generator of the subgroup of order `2^27`.
pub const TWO_ADIC_ROOT: u32 = 440564289;

/// The generator of the multiplicative group that fixes the canonical coset.
pub const GENERATOR: u32 = 31;

pub open spec fn val_add_spec(a: u32, b: u32) -> u32 {
    ((a as int + b as int) % (P as int)) as u32
}

pub open spec fn val_sub_spec(a: u32, b: u32) -> u32 {
    ((a as int - b as int) % (P as int)) as u32
}

pub open spec fn val_mul_spec(a: u32, b: u32) -> u32 {
    ((a as int * b as int) % (P as int)) as u32
}

pub open spec fn val_halve_spec(a: u32) -> u32 {
    val_mul_spec(a, HALF)
}

/// `s * w^n`, by `n` successive multiplications.
pub open spec fn val_mul_pow(s: u32, w: u32, n: nat) -> u32
    decreases n,
{
    if n == 0 {
        (s % P) as u32
    } else {
        val_mul_spec(val_mul_pow(s, w, (n - 1) as nat), w)
    }
}

/// `b^e`.
pub open spec fn val_pow(b: u32, e: nat) -> u32 {
    val_mul_pow(1, b, e)
}

/// `b^(2^n)`, by `n` successive squarings.
pub open spec fn val_pow_pow2(b: u32, n: nat) -> u32
    decreases n,
{
    if n == 0 {
        (b % P) as u32
    } else {
        val_mul_spec(val_pow_pow2(b, (n - 1) as nat), val_pow_pow2(b, (n - 1) as nat))
    }
}

/// The chosen generator of the subgroup of order `2^bits`.
pub open spec fn two_adic_generator_spec(bits: nat) -> u32
    recommends
        bits <= 27,
{
    val_pow_pow2(TWO_ADIC_ROOT, (27 - bits) as nat)
}

/// The multiplicative inverse that the field computes, `None` for zero.
pub uninterp spec fn val_inverse_of(a: u32) -> Option<u32>;

/// The inverse of `a`, and zero where `a` is zero.
pub open spec fn val_inv_spec(a: u32) -> u32 {
    match val_inverse_of(a) {
        Some(v) => v,
        None => 0,
    }
}

pub fn val_add(a: u32, b: u32) -> (r: u32)
    ensures
        r == val_add_spec(a, b),
        r < P,
{
    let s: u64 = a as u64 + b as u64;
    (s % (P as u64)) as u32
}

pub fn val_sub(a: u32, b: u32) -> (r: u32)
    ensures
        r == val_sub_spec(a, b),
        r < P,
{
    let x: u64 = (a % P) as u64 + (P as u64) - ((b % P) as u64);
    (x % (P as u64)) as u32
}

pub fn val_mul(a: u32, b: u32) -> (r: u32)
    ensures
        r == val_mul_spec(a, b),
        r < P,
{
    assert(a as int * b as int <= 0xffff_ffff * 0xffff_ffff) by (nonlinear_arith)
        requires
            a <= 0xffff_ffff,
            b <= 0xffff_ffff,
    ;
    let x: u64 = (a as u64) * (b as u64);
    (x % (P as u64)) as u32
}

pub fn val_halve(a: u32) -> (r: u32)
    ensures
        r == val_halve_spec(a),
        r < P,
{
    val_mul(a, HALF)
}

/// `Field::try_inverse` on BabyBear: `None` exactly for the zero residue,
/// otherwise the canonical residue whose product with `a` is one.
#[verifier::external_body]
pub(crate) fn val_try_inverse(a: u32) -> (r: Option<u32>)
    ensures
        r == val_inverse_of(a),
        r.is_none() <==> a % P == 0,
        r matches Some(v) ==> v < P && val_mul_spec(v, a) == 1,
{
    BabyBear::new(a).try_inverse().map(|x| x.as_canonical_u32())
}

/// `PrimeCharacteristicRing::exp_u64` on BabyBear: the canonical residue of
/// `a` raised to `e`.
#[verifier::external_body]
pub(crate) fn val_exp_u64(a: u32, e: u64) -> (r: u32)
    ensures
        r == val_pow(a, e as nat),
        r < P,
{
    BabyBear::new(a).exp_u64(e).as_canonical_u32()
}

/// `TwoAdicField::two_adic_generator` on BabyBear: the entry for `bits` of
/// the crate's table, which is the root of order `2^27` squared `27 - bits`
/// times.
#[verifier::external_body]
pub(crate) fn val_two_adic_generator(bits: usize) -> (r: u32)
    requires
        bits <= 27,
    ensures
        r == two_adic_generator_spec(bits as nat),
        r < P,
{
    BabyBear::two_adic_generator(bits).as_canonical_u32()
}

/// The inverse of `a`, and zero where `a` is zero.
pub fn val_inverse_or_zero(a: u32) -> (r: u32)
    ensures
        r == val_inv_spec(a),
        r < P,
        a % P != 0 ==> val_mul_spec(r, a) == 1,
{
    match val_try_inverse(a) {
        Some(v) => v,
        None => 0,
    }
}

/// `a^e`.
pub fn val_exp(a: u32, e: u64) -> (r: u32)
    ensures
        r == val_pow(a, e as nat),
        r < P,
{
    val_exp_u64(a, e)
}

/// The chosen generator of the subgroup of order `2^bits`.
pub fn two_adic_generator(bits: usize) -> (r: u32)
    requires
        bits <= TWO_ADICITY,
    ensures
        r == two_adic_generator_spec(bits as nat),
        r < P,
{
    val_two_adic_generator(bits)
}

/// The first `n` terms of `start, start * base, start * base^2, ...`.
pub fn shifted_powers(start: u32, base: u32, n: usize) -> (r: Vec<u32>)
    ensures
        r@.len() == n,
        forall|i: int| 0 <= i < n ==> #[trigger] r@[i] == val_mul_pow(start, base, i as nat),
{
    let mut v: Vec<u32> = Vec::new();
    let mut cur: u32 = start % P;
    let mut i: usize = 0;
    while i < n
        invariant
            i <= n,
            v@.len() == i,
            cur == val_mul_pow(start, base, i as nat),
            forall|j: int| 0 <= j < i ==> #[trigger] v@[j] == val_mul_pow(start, base, j as nat),
        decreases n - i,
    {
        v.push(cur);
        cur = val_mul(cur, base);
        i = i + 1;
    }
    v
}

} // verus!
