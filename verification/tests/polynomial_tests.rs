use algebra::mod_int::ModInt;
use algebra::polynomial::{Polynomial, UPolynomial};
use algebra::ring::{p1, Ring};

#[test]
fn test_add() {
    let p = UPolynomial::new(vec![2i64, -3, 5]);
    let q = UPolynomial::new(vec![4i64, 9, 4, 3]);
    let expected = UPolynomial::new(vec![6i64, 6, 9, 3]);
    assert_eq!(p.add(&q), expected);
}

#[test]
fn test_sub() {
    let p = UPolynomial::new(vec![2i64, -3, 5]);
    let q = UPolynomial::new(vec![4i64, 9, 4, 3]);
    let expected = UPolynomial::new(vec![-2i64, -12, 1, -3]);
    assert_eq!(p.sub(&q), expected);
}

#[test]
fn test_mul() {
    let p = UPolynomial::new(vec![2i64, -3, 5]);
    let q = UPolynomial::new(vec![4i64, 9, 4, 3]);
    let expected = UPolynomial::new(vec![8i64, 6, 1, 39, 11, 15]);
    assert_eq!(p.mul(&q), expected);
}

#[test]
fn test_add_assign() {
    let mut p = UPolynomial::new(vec![2i64, -3, 5]);
    let q = UPolynomial::new(vec![4i64, 9, 4, 3]);
    p.add_assign(&q);
    let expected = UPolynomial::new(vec![6i64, 6, 9, 3]);
    assert_eq!(p, expected);
}

#[test]
fn test_sub_assign() {
    let mut p = UPolynomial::new(vec![2i64, -3, 5]);
    let q = UPolynomial::new(vec![4i64, 9, 4, 3]);
    p.sub_assign(&q);
    let expected = UPolynomial::new(vec![-2i64, -12, 1, -3]);
    assert_eq!(p, expected);
}

#[test]
fn test_mul_assign() {
    let mut p = UPolynomial::new(vec![2i64, -3, 5]);
    let q = UPolynomial::new(vec![4i64, 9, 4, 3]);
    p.mul_assign(&q);
    let expected = UPolynomial::new(vec![8i64, 6, 1, 39, 11, 15]);
    assert_eq!(p, expected);
}

#[test]
fn eval_matches_direct_sum() {
    let p = UPolynomial::new(vec![2i64, -3, 5]);
    // 5*x^2 - 3*x + 2 at a few points, computed directly.
    for x in [-3i64, -1, 0, 1, 2, 7] {
        let direct = 2 - 3 * x + 5 * x * x;
        assert_eq!(p.eval(&x), direct);
    }
}

#[test]
fn eval_over_modular_coefficients() {
    let p = UPolynomial::new(vec![
        ModInt::new(2, 21),
        ModInt::new(18, 21),
        ModInt::new(5, 21),
    ]);
    // 5*4 + 18*2 + 2 = 58 = 2*21 + 16.
    assert_eq!(p.eval(&ModInt::new(2, 21)), ModInt::new(16, 21));
}

#[test]
fn scale_multiplies_every_coefficient() {
    let p = UPolynomial::new(vec![2i64, -3, 5]);
    let expected = UPolynomial::new(vec![4i64, -6, 10]);
    assert_eq!(p.scale(2), expected);
}

#[test]
fn neg_flips_every_coefficient() {
    let p = UPolynomial::new(vec![2i64, -3, 5]);
    let expected = UPolynomial::new(vec![-2i64, 3, -5]);
    assert_eq!(p.neg(), expected);
}

#[test]
fn swapped_subtraction_negates_the_tail() {
    let p = UPolynomial::new(vec![2i64, -3, 5]);
    let q = UPolynomial::new(vec![4i64, 9, 4, 3]);
    let expected = UPolynomial::new(vec![2i64, 12, -1, 3]);
    assert_eq!(q.sub(&p), expected);
}

#[test]
fn identities_and_zero_detection() {
    let z = UPolynomial::<i64>::zero();
    let o = UPolynomial::<i64>::one();
    assert!(z.is_zero());
    assert!(o.is_one());
    assert_eq!(z.dim(), 1);
    // A padded zero is not recognized: representation is not normalized.
    let padded = UPolynomial::new(vec![0i64, 0]);
    assert!(!padded.is_zero());
    let p = UPolynomial::new(vec![2i64, -3, 5]);
    assert_eq!(p.add(&z), p);
    assert_eq!(p.mul(&o), p);
    assert!(!UPolynomial::<i64>::zero().is_commutative());
}

#[test]
fn polynomial_ring_axiom_samples() {
    let p = UPolynomial::new(vec![2i64, -3, 5]);
    let q = UPolynomial::new(vec![4i64, 9, 4, 3]);
    let r = UPolynomial::new(vec![1i64, 1]);
    assert_eq!(p.add(&q), q.add(&p));
    assert_eq!(p.add(&q).add(&r), p.add(&q.add(&r)));
    assert_eq!(p.mul(&q).mul(&r), p.mul(&q.mul(&r)));
    assert_eq!(p.add(&q).mul(&r), p.mul(&r).add(&q.mul(&r)));
}

#[test]
fn polynomials_over_modular_integers() {
    let p = UPolynomial::new(vec![ModInt::new(2, 7), ModInt::new(4, 7)]);
    let q = UPolynomial::new(vec![ModInt::new(6, 7), ModInt::new(5, 7)]);
    // (2 + 4x)(6 + 5x) = 12 + 34x + 20x^2 = 5 + 6x + 6x^2 (mod 7).
    let expected = UPolynomial::new(vec![
        ModInt::new(5, 7),
        ModInt::new(6, 7),
        ModInt::new(6, 7),
    ]);
    assert_eq!(p.mul(&q), expected);
}

#[test]
fn p1_adds_one() {
    assert_eq!(p1(2i64), 3i64);
}
