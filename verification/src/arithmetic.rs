use vstd::prelude::*;

verus! {

use vstd::math::abs;

/// Euclidean greatest common divisor of two natural numbers.
pub open spec fn gcd_nat(a: nat, b: nat) -> nat
    decreases b,
{
    if b == 0 {
        a
    } else {
        gcd_nat(b, a % b)
    }
}

/// Greatest common divisor of two integers: the (non-negative) gcd of their
/// absolute values.
pub open spec fn gcd_int(a: int, b: int) -> int {
    gcd_nat(abs(a) as nat, abs(b) as nat) as int
}

/// Least common multiple of two integers, non-negative, and 0 when either
/// argument is 0.
pub open spec fn lcm_int(a: int, b: int) -> int {
    if a == 0 || b == 0 {
        0
    } else {
        (abs(a * b) as int) / gcd_int(a, b)
    }
}

/// `d` divides `x`.
pub open spec fn divides(d: int, x: int) -> bool {
    exists|k: int| x == #[trigger] (d * k)
}


/// A common divisor of `x` and `y` divides any integer combination of them.
proof fn lemma_divides_linear(d: int, x: int, y: int, p: int, q: int)
    requires
        divides(d, x),
        divides(d, y),
    ensures
        divides(d, p * x + q * y),
{
    let k1 = choose|k: int| x == #[trigger] (d * k);
    let k2 = choose|k: int| y == #[trigger] (d * k);
    assert(p * x + q * y == d * (p * k1 + q * k2)) by (nonlinear_arith)
        requires
            x == d * k1,
            y == d * k2,
    ;
}

/// The Euclidean gcd divides both of its arguments.
pub proof fn lemma_gcd_divides(a: nat, b: nat)
    ensures
        divides(gcd_nat(a, b) as int, a as int),
        divides(gcd_nat(a, b) as int, b as int),
    decreases b,
{
    let g = gcd_nat(a, b) as int;
    if b == 0 {
        assert(a as int == g * 1);
        assert(b as int == g * 0);
    } else {
        lemma_gcd_divides(b, a % b);
        let ai = a as int;
        let bi = b as int;
        vstd::arithmetic::div_mod::lemma_fundamental_div_mod(ai, bi);
        assert(divides(g, bi) && divides(g, ai % bi));
        lemma_divides_linear(g, bi, ai % bi, ai / bi, 1);
        assert((ai / bi) * bi + 1 * (ai % bi) == ai) by (nonlinear_arith)
            requires
                ai == bi * (ai / bi) + ai % bi,
        ;
    }
}

/// When `value` and `modulus` share a nontrivial common factor, no
/// multiplicative inverse of `value` exists: nothing multiplies with it to
/// one modulo `modulus`.
pub proof fn lemma_no_inverse_when_gcd_not_one(v: int, m: int, w: int)
    requires
        1 <= m,
        0 <= v,
        gcd_int(v, m) != 1,
    ensures
        (v * w) % m != 1int % m,
{
    if (v * w) % m == 1int % m {
        let g = gcd_int(v, m);
        assert(g == gcd_nat(v as nat, m as nat) as int) by {
            assert(abs(v) == v && abs(m) == m);
        }
        lemma_gcd_divides(v as nat, m as nat);
        assert(divides(g, v) && divides(g, m));
        vstd::arithmetic::div_mod::lemma_fundamental_div_mod(v * w, m);
        let q = (v * w) / m;
        assert(v * w == m * q + (v * w) % m);
        assert(1int % m == 1 - m * (1int / m)) by {
            vstd::arithmetic::div_mod::lemma_fundamental_div_mod(1, m);
        }
        let k1 = choose|k: int| v == #[trigger] (g * k);
        let k2 = choose|k: int| m == #[trigger] (g * k);
        assert(1 == g * (k1 * w - k2 * q + k2 * (1int / m))) by (nonlinear_arith)
            requires
                v == g * k1,
                m == g * k2,
                v * w == m * q + 1 - m * (1int / m),
        ;
        let kk = k1 * w - k2 * q + k2 * (1int / m);
        assert(g >= 0);
        assert(g != 0) by {
            if g == 0 {
                assert(1 == 0 * kk);
                assert(0 * kk == 0) by (nonlinear_arith);
            }
        }
        assert(g >= 2);
        assert(false) by (nonlinear_arith)
            requires
                g >= 2,
                1 == g * kk,
        ;
    }
}

/// Extended Euclidean algorithm: the non-negative greatest common divisor of
/// `n1` and `n2` together with Bezout coefficients `x`, `y` such that
/// `gcd == x*n1 + y*n2`.
///
/// Relies on `num_integer::Integer::extended_gcd` for `i128` (the classic
/// Euclidean loop with Bezout bookkeeping, sign-normalised so that the
/// returned gcd is non-negative); the argument bounds keep every
/// intermediate quotient and coefficient product within `i128`.
#[verifier::external_body]
pub fn xgcd(n1: &i128, n2: &i128) -> (r: (i128, i128, i128))
    requires
        -0x7fff_ffff_ffff_ffff <= *n1 <= 0x7fff_ffff_ffff_ffff,
        -0x7fff_ffff_ffff_ffff <= *n2 <= 0x7fff_ffff_ffff_ffff,
    ensures
        r.0 as int == gcd_int(*n1 as int, *n2 as int),
        r.0 as int == (r.1 as int) * (*n1 as int) + (r.2 as int) * (*n2 as int),
{
    let g = num::Integer::extended_gcd(n1, n2);
    (g.gcd, g.x, g.y)
}

/// Greatest common divisor, non-negative.
///
/// Relies on `num_integer::Integer::gcd` for `i128` (Stein's binary
/// algorithm; the result is documented and implemented as non-negative).
/// The argument bounds avoid the `abs` overflow on `i128::MIN`.
#[verifier::external_body]
pub fn gcd(n1: &i128, n2: &i128) -> (r: i128)
    requires
        -0x7fff_ffff_ffff_ffff <= *n1 <= 0x7fff_ffff_ffff_ffff,
        -0x7fff_ffff_ffff_ffff <= *n2 <= 0x7fff_ffff_ffff_ffff,
    ensures
        r as int == gcd_int(*n1 as int, *n2 as int),
{
    num::Integer::gcd(n1, n2)
}

/// Least common multiple, non-negative, 0 when either argument is 0.
///
/// Relies on `num_integer::Integer::lcm` for `i128`, which computes
/// `|n1 * (n2 / gcd)|` (0 when both are 0); the argument bounds keep the
/// product within `i128`.
#[verifier::external_body]
pub fn lcm(n1: &i128, n2: &i128) -> (r: i128)
    requires
        -0x7fff_ffff_ffff_ffff <= *n1 <= 0x7fff_ffff_ffff_ffff,
        -0x7fff_ffff_ffff_ffff <= *n2 <= 0x7fff_ffff_ffff_ffff,
    ensures
        r as int == lcm_int(*n1 as int, *n2 as int),
{
    num::Integer::lcm(n1, n2)
}

} // verus!
