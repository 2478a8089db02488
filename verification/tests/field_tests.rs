use fri_pcs::extension::{ext_inverse, ext_mul, ext_one, Ext};
use fri_pcs::field::{
    two_adic_generator, val_add, val_exp, val_halve, val_inverse_or_zero, val_mul, val_sub, P,
};

#[test]
fn add_wraps_at_the_prime() {
    assert_eq!(val_add(P - 1, 1), 0);
    assert_eq!(val_add(5, 7), 12);
}

#[test]
fn sub_wraps_below_zero() {
    assert_eq!(val_sub(0, 1), P - 1);
    assert_eq!(val_sub(7, 5), 2);
}

#[test]
fn mul_reduces() {
    assert_eq!(val_mul(P - 1, P - 1), 1);
    assert_eq!(val_mul(3, 5), 15);
}

#[test]
fn halve_is_inverse_of_doubling() {
    assert_eq!(val_halve(10), 5);
    assert_eq!(val_mul(val_halve(7), 2), 7);
}

#[test]
fn inverse_times_value_is_one() {
    let inv = val_inverse_or_zero(31);
    assert_eq!(val_mul(inv, 31), 1);
    assert_eq!(val_inverse_or_zero(0), 0);
    assert_eq!(val_inverse_or_zero(P), 0);
}

#[test]
fn exp_matches_repeated_multiplication() {
    assert_eq!(val_exp(3, 0), 1);
    assert_eq!(val_exp(3, 5), 243);
    assert_eq!(val_exp(2, 31), val_mul(1 << 30, 2));
}

#[test]
fn two_adic_generators_are_compatible() {
    assert_eq!(two_adic_generator(0), 1);
    assert_eq!(two_adic_generator(1), P - 1);
    assert_eq!(two_adic_generator(27), 440564289);
    for bits in 1..=27usize {
        let g = two_adic_generator(bits);
        assert_eq!(val_mul(g, g), two_adic_generator(bits - 1));
    }
}

#[test]
fn ext_mul_reduces_by_x4_eq_11() {
    let x = Ext { c0: 0, c1: 1, c2: 0, c3: 0 };
    let x2 = ext_mul(x, x);
    assert_eq!(x2, Ext { c0: 0, c1: 0, c2: 1, c3: 0 });
    let x4 = ext_mul(x2, x2);
    assert_eq!(x4, Ext { c0: 11, c1: 0, c2: 0, c3: 0 });
    let a = Ext { c0: 1, c1: 2, c2: 3, c3: 4 };
    let b = Ext { c0: 5, c1: 6, c2: 7, c3: 8 };
    assert_eq!(
        ext_mul(a, b),
        Ext { c0: 5 + 11 * (16 + 21 + 24), c1: 6 + 10 + 11 * (24 + 28), c2: 7 + 12 + 15 + 11 * 32, c3: 8 + 14 + 18 + 20 }
    );
}

#[test]
fn ext_inverse_of_zero_is_none() {
    assert!(ext_inverse(Ext { c0: 0, c1: 0, c2: 0, c3: 0 }).is_none());
    assert!(ext_inverse(Ext { c0: P, c1: 0, c2: 0, c3: 0 }).is_none());
    let a = Ext { c0: 1, c1: 2, c2: 3, c3: 4 };
    let inv = ext_inverse(a).unwrap();
    assert_eq!(ext_mul(inv, a), ext_one());
}
