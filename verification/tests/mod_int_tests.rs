use algebra::mod_int::ModInt;
use algebra::ring::{ringed, Ring, RingError};

#[test]
fn arithmetic() {
    let (x, y, z) = (ModInt::new(3, 21), ModInt::new(5, 21), ModInt::new(23, 21));
    let expected = ModInt::new(15, 21);
    assert_eq!(x.mul(&y.sub(&z)).add(&ringed::<ModInt>(3).mul(&z)), expected);
}

#[test]
fn inverse() {
    let x = ModInt::new(5, 7);
    assert_eq!(x.inverse(), Some(ModInt::new(3, 7)))
}

#[test]
fn mod_pow_test() {
    let x = ModInt::new(5, 7);

    let expected = ModInt::new(4, 7);
    assert_eq!(x.mod_pow(2).unwrap(), expected);

    let expected = ModInt::new(2, 7);
    assert_eq!(x.mod_pow(-2).unwrap(), expected)
}

#[test]
fn inverse_checks_out() {
    // 5 * 3 = 15 = 2*7 + 1, so 3 is the inverse of 5 modulo 7.
    assert_eq!(ModInt::new(5, 7).mul(&ModInt::new(3, 7)), ModInt::new(1, 7));
}

#[test]
fn inverse_of_non_unit_is_absent() {
    // gcd(6, 21) = 3, so 6 has no inverse modulo 21.
    assert_eq!(ModInt::new(6, 21).inverse(), None);
}

#[test]
fn mod_pow_negative_exponent_of_non_unit_fails() {
    assert_eq!(ModInt::new(6, 21).mod_pow(-1), Err(RingError::NotInvertible));
}

#[test]
fn mod_pow_of_unbound_identity() {
    let one = ModInt::one();
    assert_eq!(one.mod_pow(5).unwrap(), one);
}

#[test]
fn equality_is_congruence() {
    assert!(ModInt::new(23, 21).eq_elem(&ModInt::new(2, 21)));
    assert!(!ModInt::new(23, 21).eq_elem(&ModInt::new(3, 21)));
    assert_eq!(ModInt::new(23, 21), ModInt::new(2, 21));
}

#[test]
fn construction_reduces_canonically() {
    assert_eq!(ModInt::new(-5, 7), ModInt::new(2, 7));
    assert_eq!(ModInt::new(5, 1), ModInt::new(0, 1));
}

#[test]
fn field_flag() {
    assert_eq!(ModInt::new_field(3, 7).is_field(), Some(true));
    assert_eq!(ModInt::new(3, 7).is_field(), None);
    assert!(ModInt::zero().is_commutative());
}

#[test]
fn identities() {
    let z = ModInt::zero();
    let o = ModInt::one();
    assert!(z.is_zero());
    assert!(o.is_one());
    let x = ModInt::new(12, 17);
    assert_eq!(x.add(&z), x);
    assert_eq!(x.mul(&o), x);
    assert_eq!(x.add(&x.neg()), ModInt::new(0, 17));
}

#[test]
fn ring_axiom_samples() {
    let a = ModInt::new(11, 21);
    let b = ModInt::new(17, 21);
    let c = ModInt::new(5, 21);
    assert_eq!(a.add(&b), b.add(&a));
    assert_eq!(a.add(&b).add(&c), a.add(&b.add(&c)));
    assert_eq!(a.mul(&b), b.mul(&a));
    assert_eq!(a.mul(&b).mul(&c), a.mul(&b.mul(&c)));
    assert_eq!(a.mul(&b.add(&c)), a.mul(&b).add(&a.mul(&c)));
    assert_eq!(a.sub(&b), a.add(&b.neg()));
}

#[test]
fn ringed_is_a_morphism() {
    assert_eq!(ringed::<ModInt>(0), ModInt::zero());
    assert_eq!(ringed::<ModInt>(1), ModInt::one());
    assert_eq!(ringed::<ModInt>(5).add(&ringed::<ModInt>(7)), ringed::<ModInt>(12));
    assert_eq!(ringed::<i64>(13), 13i64);
    assert_eq!(ringed::<i64>(0), 0i64);
}

#[test]
fn assign_operations() {
    let mut x = ModInt::new(3, 21);
    x.add_assign(&ModInt::new(5, 21));
    assert_eq!(x, ModInt::new(8, 21));
    x.sub_assign(&ModInt::new(10, 21));
    assert_eq!(x, ModInt::new(19, 21));
    x.mul_assign(&ModInt::new(2, 21));
    assert_eq!(x, ModInt::new(17, 21));
}
