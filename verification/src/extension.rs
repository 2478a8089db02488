//! The quartic extension of BabyBear, `F[X] / (X^4 - 11)`.

use crate::field::{val_add, val_add_spec, val_mul, val_mul_spec, val_sub, val_sub_spec, P};
use p3_baby_bear::BabyBear;
use p3_field::extension::BinomialExtensionField;
use p3_field::{BasedVectorSpace, Field, PrimeCharacteristicRing, PrimeField32};
use vstd::prelude::*;

verus! {

/// An element `c0 + c1 X + c2 X^2 + c3 X^3`, each coefficient a residue.
#[derive(Clone, Copy, Debug, PartialEq, Eq, Structural)]
pub struct Ext {
    pub c0: u32,
    pub c1: u32,
    pub c2: u32,
    pub c3: u32,
}

/// The residue of an integer modulo the prime.
pub open spec fn residue(x: int) -> u32 {
    (x % (P as int)) as u32
}

pub open spec fn ext_zero_spec() -> Ext {
    Ext { c0: 0, c1: 0, c2: 0, c3: 0 }
}

pub open spec fn ext_one_spec() -> Ext {
    Ext { c0: 1, c1: 0, c2: 0, c3: 0 }
}

/// The base-field residue `b` as an element of the extension.
pub open spec fn embed_spec(b: u32) -> Ext {
    Ext { c0: residue(b as int), c1: 0, c2: 0, c3: 0 }
}

pub open spec fn ext_is_zero(a: Ext) -> bool {
    a.c0 % P == 0 && a.c1 % P == 0 && a.c2 % P == 0 && a.c3 % P == 0
}

pub open spec fn ext_add_spec(a: Ext, b: Ext) -> Ext {
    Ext {
        c0: val_add_spec(a.c0, b.c0),
        c1: val_add_spec(a.c1, b.c1),
        c2: val_add_spec(a.c2, b.c2),
        c3: val_add_spec(a.c3, b.c3),
    }
}

pub open spec fn ext_sub_spec(a: Ext, b: Ext) -> Ext {
    Ext {
        c0: val_sub_spec(a.c0, b.c0),
        c1: val_sub_spec(a.c1, b.c1),
        c2: val_sub_spec(a.c2, b.c2),
        c3: val_sub_spec(a.c3, b.c3),
    }
}

/// The product of an extension element and a base-field residue.
pub open spec fn ext_scale_spec(a: Ext, b: u32) -> Ext {
    Ext {
        c0: val_mul_spec(a.c0, b),
        c1: val_mul_spec(a.c1, b),
        c2: val_mul_spec(a.c2, b),
        c3: val_mul_spec(a.c3, b),
    }
}

/// The product of two polynomials of degree three, reduced by `X^4 = 11`.
pub open spec fn ext_mul_spec(a: Ext, b: Ext) -> Ext {
    Ext {
        c0: residue(a.c0 * b.c0 + 11 * (a.c1 * b.c3 + a.c2 * b.c2 + a.c3 * b.c1)),
        c1: residue(a.c0 * b.c1 + a.c1 * b.c0 + 11 * (a.c2 * b.c3 + a.c3 * b.c2)),
        c2: residue(a.c0 * b.c2 + a.c1 * b.c1 + a.c2 * b.c0 + 11 * (a.c3 * b.c3)),
        c3: residue(a.c0 * b.c3 + a.c1 * b.c2 + a.c2 * b.c1 + a.c3 * b.c0),
    }
}

/// The multiplicative inverse that the extension computes, `None` for zero.
pub uninterp spec fn ext_inverse_of(a: Ext) -> Option<Ext>;

/// `a^n`, by `n` successive multiplications.
pub open spec fn ext_pow(a: Ext, n: nat) -> Ext
    decreases n,
{
    if n == 0 {
        ext_one_spec()
    } else {
        ext_mul_spec(ext_pow(a, (n - 1) as nat), a)
    }
}

impl Ext {
    /// The four coefficients, lowest degree first.
    pub fn coefficients(&self) -> (r: [u32; 4])
        ensures
            r@ == seq![self.c0, self.c1, self.c2, self.c3],
    {
        let r: [u32; 4] = [self.c0, self.c1, self.c2, self.c3];
        assert(r@ =~= seq![self.c0, self.c1, self.c2, self.c3]);
        r
    }

    /// The element with the given coefficients, lowest degree first.
    pub fn from_coefficients(c: [u32; 4]) -> (r: Ext)
        ensures
            r == (Ext { c0: c@[0], c1: c@[1], c2: c@[2], c3: c@[3] }),
    {
        Ext { c0: c[0], c1: c[1], c2: c[2], c3: c[3] }
    }
}

pub fn ext_zero() -> (r: Ext)
    ensures
        r == ext_zero_spec(),
{
    Ext { c0: 0, c1: 0, c2: 0, c3: 0 }
}

pub fn ext_one() -> (r: Ext)
    ensures
        r == ext_one_spec(),
{
    Ext { c0: 1, c1: 0, c2: 0, c3: 0 }
}

pub fn embed(b: u32) -> (r: Ext)
    ensures
        r == embed_spec(b),
{
    Ext { c0: b % P, c1: 0, c2: 0, c3: 0 }
}

pub fn ext_add(a: Ext, b: Ext) -> (r: Ext)
    ensures
        r == ext_add_spec(a, b),
{
    Ext {
        c0: val_add(a.c0, b.c0),
        c1: val_add(a.c1, b.c1),
        c2: val_add(a.c2, b.c2),
        c3: val_add(a.c3, b.c3),
    }
}

pub fn ext_sub(a: Ext, b: Ext) -> (r: Ext)
    ensures
        r == ext_sub_spec(a, b),
{
    Ext {
        c0: val_sub(a.c0, b.c0),
        c1: val_sub(a.c1, b.c1),
        c2: val_sub(a.c2, b.c2),
        c3: val_sub(a.c3, b.c3),
    }
}

pub fn ext_scale(a: Ext, b: u32) -> (r: Ext)
    ensures
        r == ext_scale_spec(a, b),
{
    Ext {
        c0: val_mul(a.c0, b),
        c1: val_mul(a.c1, b),
        c2: val_mul(a.c2, b),
        c3: val_mul(a.c3, b),
    }
}

/// Multiplication in `BinomialExtensionField<BabyBear, 4>`: the product of
/// the two polynomials reduced by `X^4 = 11`, in canonical residues.
#[verifier::external_body]
pub(crate) fn ext_mul_outside(a: Ext, b: Ext) -> (r: Ext)
    ensures
        r == ext_mul_spec(a, b),
{
    let x = BinomialExtensionField::<BabyBear, 4>::new([a.c0, a.c1, a.c2, a.c3].map(BabyBear::new));
    let y = BinomialExtensionField::<BabyBear, 4>::new([b.c0, b.c1, b.c2, b.c3].map(BabyBear::new));
    let z = x * y;
    let c: &[BabyBear] = z.as_basis_coefficients_slice();
    Ext {
        c0: c[0].as_canonical_u32(),
        c1: c[1].as_canonical_u32(),
        c2: c[2].as_canonical_u32(),
        c3: c[3].as_canonical_u32(),
    }
}

/// `Field::try_inverse` on `BinomialExtensionField<BabyBear, 4>`: `None`
/// exactly for zero, otherwise the element whose product with `a` is one.
#[verifier::external_body]
pub(crate) fn ext_try_inverse(a: Ext) -> (r: Option<Ext>)
    ensures
        r == ext_inverse_of(a),
        r.is_none() <==> ext_is_zero(a),
        r matches Some(v) ==> ext_mul_spec(v, a) == ext_one_spec(),
{
    let x = BinomialExtensionField::<BabyBear, 4>::new([a.c0, a.c1, a.c2, a.c3].map(BabyBear::new));
    x.try_inverse().map(|z| {
        let c: &[BabyBear] = z.as_basis_coefficients_slice();
        Ext {
            c0: c[0].as_canonical_u32(),
            c1: c[1].as_canonical_u32(),
            c2: c[2].as_canonical_u32(),
            c3: c[3].as_canonical_u32(),
        }
    })
}

/// `PrimeCharacteristicRing::exp_u64` on `BinomialExtensionField<BabyBear, 4>`:
/// `a` raised to `e`.
#[verifier::external_body]
pub(crate) fn ext_exp_outside(a: Ext, e: u64) -> (r: Ext)
    ensures
        r == ext_pow(a, e as nat),
{
    let x = BinomialExtensionField::<BabyBear, 4>::new([a.c0, a.c1, a.c2, a.c3].map(BabyBear::new));
    let z = x.exp_u64(e);
    let c: &[BabyBear] = z.as_basis_coefficients_slice();
    Ext {
        c0: c[0].as_canonical_u32(),
        c1: c[1].as_canonical_u32(),
        c2: c[2].as_canonical_u32(),
        c3: c[3].as_canonical_u32(),
    }
}

/// `a^e`.
pub fn ext_exp(a: Ext, e: u64) -> (r: Ext)
    ensures
        r == ext_pow(a, e as nat),
{
    ext_exp_outside(a, e)
}

pub fn ext_mul(a: Ext, b: Ext) -> (r: Ext)
    ensures
        r == ext_mul_spec(a, b),
{
    ext_mul_outside(a, b)
}

/// The inverse of `a`, or `None` where `a` is zero.
pub fn ext_inverse(a: Ext) -> (r: Option<Ext>)
    ensures
        r == ext_inverse_of(a),
        r.is_none() <==> ext_is_zero(a),
        r matches Some(v) ==> ext_mul_spec(v, a) == ext_one_spec(),
{
    ext_try_inverse(a)
}

} // verus!
