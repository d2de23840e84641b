use vstd::prelude::*;

verus! {

use vstd::arithmetic::div_mod::{
    lemma_add_mod_noop,
    lemma_sub_mod_noop,
    lemma_mul_mod_noop_general,
    lemma_mul_mod_noop_right,
    lemma_mul_mod_noop_left,
    lemma_mod_bound,
    lemma_small_mod,
    lemma_mod_equivalence,
    lemma_mod_multiples_vanish,
    lemma_mod_twice,
};
use vstd::arithmetic::power::{pow, lemma_pow_distributes, lemma_pow_mod_noop, lemma1_pow, lemma0_pow};
use crate::arithmetic::{gcd_int, xgcd};
use crate::ring::{ringed_step, ringed_trace, AddLaws, MulLaws, Ring, RingError};
use vstd::arithmetic::power2::{pow2, lemma_pow2_pos, lemma_pow2_adds, lemma2_to64, lemma_pow2_strictly_increases};
use vstd::arithmetic::div_mod::{lemma_fundamental_div_mod, lemma_fundamental_div_mod_converse};

/// Largest accepted modulus: keeps every product of two reduced values
/// within `i128`.
pub const MOD_MAX: i128 = 0x7fff_ffff_ffff_ffff;

/// An integer considered modulo a runtime modulus.
///
/// The modulus `-1` is the "not yet bound" marker: the element is a
/// ring-generic identity (produced by `zero()` / `one()` or sums of them)
/// that adopts the other operand's modulus the first time they interact.
/// Elements bound to a modulus keep their value canonically reduced into
/// `[0, modulus)`.
///
/// The derived `PartialEq` compares raw fields and exists for unverified
/// callers; ring equality (congruence) is `eq_elem`.
#[derive(Clone, Copy, Debug, PartialEq)]
pub struct ModInt {
    pub value: i128,
    pub modulus: i128,
    /// Whether the modulus is known to be prime; set by the caller at
    /// construction and never verified against primality.
    pub is_field: Option<bool>,
}

impl ModInt {
    pub open spec fn spec_wf(&self) -> bool {
        self.modulus == -1 || (1 <= self.modulus <= MOD_MAX && 0 <= self.value < self.modulus)
    }

    /// The modulus two combined operands settle on: the larger of the two,
    /// which is the concrete one when exactly one operand is unbound.
    pub open spec fn comb(&self, other: &Self) -> i128 {
        if self.modulus >= other.modulus {
            self.modulus
        } else {
            other.modulus
        }
    }

    /// Keeps an unbounded (sentinel) arithmetic result total in specs.
    pub open spec fn clip(x: int) -> i128 {
        if i128::MIN <= x <= i128::MAX {
            x as i128
        } else {
            0
        }
    }

    /// The canonical element representing the integer `v` under the context
    /// modulus `m` (`-1` for an unbound value).
    pub open spec fn mk(v: int, m: i128) -> ModInt {
        if m == -1 {
            ModInt { value: Self::clip(v), modulus: -1i128, is_field: None }
        } else {
            ModInt { value: (v % (m as int)) as i128, modulus: m, is_field: None }
        }
    }

    /// The contract of `mod_pow`.
    pub open spec fn mod_pow_post(self, exp: i128, r: Result<ModInt, RingError>) -> bool {
        if self.modulus == -1 {
            if exp >= 0 {
                r == Ok::<ModInt, RingError>(self)
            } else {
                r == Err::<ModInt, RingError>(RingError::NotInvertible)
            }
        } else {
            let m = self.modulus as int;
            if exp >= 0 {
                r == Ok::<ModInt, RingError>(Self::mk(pow(self.value as int, exp as nat), self.modulus))
            } else if gcd_int(self.value as int, self.modulus as int) == 1 {
                match r {
                    Ok(p) => {
                        &&& p.modulus == self.modulus
                        &&& p.is_field is None
                        &&& 0 <= p.value < self.modulus
                        &&& ((p.value as int) * pow(self.value as int, (-(exp as int)) as nat)) % m
                            == 1int % m
                    },
                    Err(_) => false,
                }
            } else {
                r == Err::<ModInt, RingError>(RingError::NotInvertible)
            }
        }
    }

    /// Constructs `value` modulo `modulus` (field-ness unknown), reduced
    /// canonically into `[0, modulus)`.
    pub fn new(value: i128, modulus: i128) -> (r: Self)
        requires
            1 <= modulus <= MOD_MAX,
        ensures
            r == Self::mk(value as int, modulus),
            r.wf(),
    {
        let r = ModInt { value: reduce(value, modulus), modulus: modulus, is_field: None };
        proof {
            lemma_mod_bound(value as int, modulus as int);
        }
        r
    }

    /// Constructs `value` modulo `modulus`, asserting that `modulus` is
    /// prime. The claim is trusted, not checked: a composite modulus makes
    /// `is_field` silently wrong.
    pub fn new_field(value: i128, modulus: i128) -> (r: Self)
        requires
            1 <= modulus <= MOD_MAX,
        ensures
            r.value as int == (value as int) % (modulus as int),
            r.modulus == modulus,
            r.is_field == Some(true),
            r.wf(),
    {
        let r = ModInt { value: reduce(value, modulus), modulus: modulus, is_field: Some(true) };
        proof {
            lemma_mod_bound(value as int, modulus as int);
        }
        r
    }

    /// Square-and-multiply modular exponentiation. A negative exponent
    /// first inverts the base and fails with `NotInvertible` when the base
    /// has no inverse; an unbound base is returned unchanged for
    /// non-negative exponents.
    pub fn mod_pow(&self, exp: i128) -> (r: Result<ModInt, RingError>)
        requires
            self.wf(),
            exp > i128::MIN,
        ensures
            self.mod_pow_post(exp, r),
    {
        if self.modulus == -1 {
            if exp >= 0 {
                return Ok(*self);
            } else {
                return Err(RingError::NotInvertible);
            }
        }
        let m = self.modulus;
        if exp >= 0 {
            let v = pow_reduced(self.value, exp, m);
            return Ok(ModInt { value: v, modulus: m, is_field: None });
        }
        match self.inverse() {
            None => Err(RingError::NotInvertible),
            Some(w) => {
                let e = -exp;
                let p = pow_reduced(w.value, e, m);
                proof {
                    let wv = w.value as int;
                    let v = self.value as int;
                    let mi = m as int;
                    let en = e as nat;
                    lemma_mul_mod_noop_left(pow(wv, en), pow(v, en), mi);
                    lemma_pow_distributes(wv, v, en);
                    lemma_pow_mod_noop(wv * v, en, mi);
                    assert(wv * v == v * wv) by (nonlinear_arith);
                    assert((wv * v) % mi == (v * wv) % mi);
                    assert((wv * v) % mi == 1int % mi);
                    if mi == 1 {
                        assert(pow((wv * v) % mi, en) == pow(0, en)) by {
                            assert(1int % mi == 0);
                        }
                        lemma0_pow(en);
                    } else {
                        lemma_small_mod(1nat, m as nat);
                        assert(1int % mi == 1);
                        lemma1_pow(en);
                    }
                    assert((pow(wv, en) % mi * pow(v, en)) % mi == 1int % mi);
                }
                Ok(ModInt { value: p, modulus: m, is_field: None })
            },
        }
    }
}

/// Reduces `v` canonically into `[0, m)`.
fn reduce(v: i128, m: i128) -> (r: i128)
    requires
        1 <= m,
    ensures
        r as int == (v as int) % (m as int),
{
    proof {
        lemma_mod_bound(v as int, m as int);
    }
    match v.checked_rem_euclid(m) {
        Some(t) => t,
        None => {
            proof {
                assert(false);
            }
            0
        },
    }
}

/// `pow(base, e) % m`, by square-and-multiply over the bits of `e`.
fn pow_reduced(base: i128, e: i128, m: i128) -> (r: i128)
    requires
        1 <= m <= MOD_MAX,
        0 <= base < m,
        0 <= e,
    ensures
        r as int == pow(base as int, e as nat) % (m as int),
{
    let ghost b0 = base as int;
    let ghost e0 = e as nat;
    let ghost mi = m as int;
    let mut result = if m == 1 {
        0
    } else {
        1
    };
    let mut b = base;
    let mut ee = e;
    proof {
        if m == 1 {
            assert(1int % 1int == 0);
        } else {
            lemma_small_mod(1nat, m as nat);
        }
        assert(result as int == 1int % mi);
        assert(pow(b0, 0) == 1) by {
            vstd::arithmetic::power::lemma_pow0(b0);
        }
        lemma_mul_mod_noop_left(1, pow(b0, e0), mi);
        assert((result as int * pow(b as int, ee as nat)) % mi == pow(b0, e0) % mi);
    }
    while ee > 0
        invariant
            1 <= m <= MOD_MAX,
            mi == m as int,
            0 <= result < m,
            0 <= b < m,
            0 <= ee,
            (result as int * pow(b as int, ee as nat)) % mi == pow(b0, e0) % mi,
        decreases ee,
    {
        let ghost res_g = result as int;
        let ghost b_g = b as int;
        let ghost e_g = ee as nat;
        if ee % 2 == 1 {
            result = mul_mod(result, b, m);
            proof {
                assert(pow(b_g, e_g) == b_g * pow(b_g, (e_g - 1) as nat)) by {
                    vstd::arithmetic::power::lemma_pow_adds(b_g, 1, (e_g - 1) as nat);
                    vstd::arithmetic::power::lemma_pow1(b_g);
                }
                lemma_mul_mod_noop_left(res_g * b_g, pow(b_g, (e_g - 1) as nat), mi);
                lemma_mul_mod_noop_left(res_g, pow(b_g, e_g), mi);
                assert((res_g * b_g) * pow(b_g, (e_g - 1) as nat) == res_g * pow(b_g, e_g)) by {
                    vstd::arithmetic::mul::lemma_mul_is_associative(
                        res_g,
                        b_g,
                        pow(b_g, (e_g - 1) as nat),
                    );
                }
                assert((result as int * pow(b_g, (e_g - 1) as nat)) % mi == pow(b0, e0) % mi);
            }
        }
        let ghost res2_g = result as int;
        let ghost half_e = (if e_g % 2 == 1 { (e_g - 1) as nat } else { e_g }) as nat;
        b = mul_mod(b, b, m);
        ee = ee / 2;
        proof {
            assert(half_e == 2 * (ee as nat));
            assert(pow(b_g * b_g, ee as nat) == pow(b_g, half_e)) by {
                vstd::arithmetic::power::lemma_pow_multiplies(b_g, 2, ee as nat);
                assert(pow(b_g, 2) == b_g * b_g) by {
                    vstd::arithmetic::power::lemma_square_is_pow2(b_g);
                }
            }
            lemma_pow_mod_noop(b_g * b_g, ee as nat, mi);
            lemma_mul_mod_noop_right(res2_g, pow((b_g * b_g) % mi, ee as nat), mi);
            lemma_mul_mod_noop_right(res2_g, pow(b_g * b_g, ee as nat), mi);
            assert((res2_g * pow(b as int, ee as nat)) % mi == (res2_g * pow(b_g, half_e)) % mi);
            assert((res2_g * pow(b_g, half_e)) % mi == pow(b0, e0) % mi);
        }
    }
    proof {
        assert(pow(b as int, 0) == 1) by {
            vstd::arithmetic::power::lemma_pow0(b as int);
        }
        lemma_small_mod(result as nat, m as nat);
        assert(result as int % mi == result as int);
        assert(result as int * 1 == result as int);
    }
    result
}

/// `(a * b) % m` without overflow for reduced operands.
fn mul_mod(a: i128, b: i128, m: i128) -> (r: i128)
    requires
        1 <= m <= MOD_MAX,
        0 <= a < m,
        0 <= b < m,
    ensures
        r as int == (a as int * b as int) % (m as int),
        0 <= r < m,
{
    proof {
        assert(a as int * b as int <= (MOD_MAX - 1) * (MOD_MAX - 1)) by (nonlinear_arith)
            requires
                0 <= a as int <= MOD_MAX - 1,
                0 <= b as int <= MOD_MAX - 1,
        ;
        assert(a as int * b as int >= 0) by (nonlinear_arith)
            requires
                0 <= a as int,
                0 <= b as int,
        ;
    }
    let p = a * b;
    let r = reduce(p, m);
    proof {
        lemma_mod_bound(p as int, m as int);
    }
    r
}

impl Ring for ModInt {
    open spec fn wf(&self) -> bool {
        self.spec_wf()
    }

    open spec fn compat(&self, other: &Self) -> bool {
        self.modulus == -1 || other.modulus == -1 || self.modulus == other.modulus
    }

    open spec fn eqv(&self, other: &Self) -> bool {
        if self.comb(other) == -1 {
            self.value == other.value
        } else {
            (self.value - other.value) % (self.comb(other) as int) == 0
        }
    }

    open spec fn eq_spec(&self, other: &Self) -> bool {
        if self.modulus == -1 || other.modulus == -1 {
            self.value == other.value
        } else if self.modulus != other.modulus {
            false
        } else {
            (self.value - other.value) % (self.modulus as int) == 0
        }
    }

    open spec fn is_zero_val(&self) -> bool {
        self.value == 0 && self.modulus == -1 && self.is_field is None
    }

    open spec fn is_one_val(&self) -> bool {
        self.value == 1 && self.modulus == -1 && self.is_field is None
    }

    open spec fn zero_like(&self) -> bool {
        self.value == 0
    }

    open spec fn s_is_zero(&self) -> bool {
        self.value == 0
    }

    open spec fn s_is_one(&self) -> bool {
        self.value == 1
    }

    open spec fn is_dup(&self, a: &Self) -> bool {
        self == a
    }

    open spec fn is_add(&self, a: &Self, b: &Self) -> bool {
        *self == Self::mk(a.value + b.value, a.comb(b))
    }

    open spec fn is_sub(&self, a: &Self, b: &Self) -> bool {
        *self == Self::mk(a.value - b.value, a.comb(b))
    }

    open spec fn is_mul(&self, a: &Self, b: &Self) -> bool {
        *self == Self::mk(a.value * b.value, a.comb(b))
    }

    open spec fn is_neg(&self, a: &Self) -> bool {
        *self == Self::mk(-(a.value as int), a.modulus)
    }

    open spec fn sadd_ok(&self, other: &Self) -> bool {
        self.modulus == -1 && other.modulus == -1 ==> i128::MIN <= self.value + other.value
            <= i128::MAX
    }

    open spec fn ssub_ok(&self, other: &Self) -> bool {
        self.modulus == -1 && other.modulus == -1 ==> i128::MIN <= self.value - other.value
            <= i128::MAX
    }

    open spec fn smul_ok(&self, other: &Self) -> bool {
        self.modulus == -1 && other.modulus == -1 ==> i128::MIN <= self.value * other.value
            <= i128::MAX
    }

    open spec fn sneg_ok(&self) -> bool {
        self.modulus == -1 ==> self.value != i128::MIN
    }

    open spec fn s_commutative() -> bool {
        true
    }

    open spec fn s_field(&self) -> Option<bool> {
        self.is_field
    }

    open spec fn inverse_post(&self, r: Option<Self>) -> bool {
        if self.modulus == -1 {
            r is None
        } else {
            match r {
                Some(w) => {
                    &&& gcd_int(self.value as int, self.modulus as int) == 1
                    &&& w.modulus == self.modulus
                    &&& w.is_field is None
                    &&& 0 <= w.value < self.modulus
                    &&& ((self.value as int) * (w.value as int)) % (self.modulus as int) == 1int % (
                    self.modulus as int)
                },
                None => gcd_int(self.value as int, self.modulus as int) != 1,
            }
        }
    }

    fn zero() -> (r: Self) {
        ModInt { value: 0, modulus: -1, is_field: None }
    }

    fn one() -> (r: Self) {
        ModInt { value: 1, modulus: -1, is_field: None }
    }

    fn dup(&self) -> (r: Self) {
        *self
    }

    fn add(&self, other: &Self) -> (r: Self) {
        if self.modulus == -1 && other.modulus == -1 {
            ModInt { value: self.value + other.value, modulus: -1, is_field: None }
        } else {
            let m = if self.modulus >= other.modulus {
                self.modulus
            } else {
                other.modulus
            };
            let a = reduce(self.value, m);
            let b = reduce(other.value, m);
            proof {
                lemma_mod_bound(self.value as int, m as int);
                lemma_mod_bound(other.value as int, m as int);
                lemma_add_mod_noop(self.value as int, other.value as int, m as int);
            }
            ModInt { value: reduce(a + b, m), modulus: m, is_field: None }
        }
    }

    fn sub(&self, other: &Self) -> (r: Self) {
        if self.modulus == -1 && other.modulus == -1 {
            ModInt { value: self.value - other.value, modulus: -1, is_field: None }
        } else {
            let m = if self.modulus >= other.modulus {
                self.modulus
            } else {
                other.modulus
            };
            let a = reduce(self.value, m);
            let b = reduce(other.value, m);
            proof {
                lemma_mod_bound(self.value as int, m as int);
                lemma_mod_bound(other.value as int, m as int);
                lemma_sub_mod_noop(self.value as int, other.value as int, m as int);
            }
            ModInt { value: reduce(a - b, m), modulus: m, is_field: None }
        }
    }

    fn mul(&self, other: &Self) -> (r: Self) {
        if self.modulus == -1 && other.modulus == -1 {
            ModInt { value: self.value * other.value, modulus: -1, is_field: None }
        } else {
            let m = if self.modulus >= other.modulus {
                self.modulus
            } else {
                other.modulus
            };
            let a = reduce(self.value, m);
            let b = reduce(other.value, m);
            proof {
                lemma_mod_bound(self.value as int, m as int);
                lemma_mod_bound(other.value as int, m as int);
            }
            let p = mul_mod(a, b, m);
            proof {
                lemma_mul_mod_noop_general(self.value as int, other.value as int, m as int);
            }
            ModInt { value: p, modulus: m, is_field: None }
        }
    }

    fn neg(&self) -> (r: Self) {
        if self.modulus == -1 {
            ModInt { value: -self.value, modulus: -1, is_field: None }
        } else {
            let t = self.modulus - self.value;
            let v = if t == self.modulus {
                0
            } else {
                t
            };
            proof {
                let m = self.modulus as int;
                let val = self.value as int;
                if val == 0 {
                    assert((-val) % m == 0) by {
                        lemma_small_mod(0nat, m as nat);
                    }
                } else {
                    assert((-val) % m == m - val) by {
                        vstd::arithmetic::div_mod::lemma_fundamental_div_mod_converse(
                            -val,
                            m,
                            -1,
                            m - val,
                        );
                    }
                }
            }
            ModInt { value: v, modulus: self.modulus, is_field: None }
        }
    }

    fn eq_elem(&self, other: &Self) -> (r: bool) {
        if self.modulus == -1 || other.modulus == -1 {
            self.value == other.value
        } else if self.modulus != other.modulus {
            false
        } else {
            proof {
                let m = self.modulus as int;
                lemma_mod_equivalence(self.value as int, other.value as int, m);
                lemma_small_mod(self.value as nat, m as nat);
                lemma_small_mod(other.value as nat, m as nat);
                assert(self.value as int % m == self.value as int);
                assert(other.value as int % m == other.value as int);
            }
            self.value == other.value
        }
    }

    fn is_zero(&self) -> (r: bool) {
        self.value == 0
    }

    fn is_one(&self) -> (r: bool) {
        self.value == 1
    }

    fn is_field(&self) -> (r: Option<bool>) {
        self.is_field
    }

    fn is_commutative(&self) -> (r: bool) {
        true
    }

    fn inverse(&self) -> (r: Option<Self>) {
        if self.modulus == -1 {
            return None;
        }
        let (g, x, _y) = xgcd(&self.value, &self.modulus);
        if g == 1 {
            let w = reduce(x, self.modulus);
            proof {
                let m = self.modulus as int;
                let v = self.value as int;
                let xi = x as int;
                let yi = _y as int;
                lemma_mod_bound(xi, m);
                lemma_mul_mod_noop_right(v, xi, m);
                assert(v * xi == 1 - yi * m) by (nonlinear_arith)
                    requires
                        1 == xi * v + yi * m,
                ;
                lemma_mod_multiples_vanish(-yi, 1, m);
                assert((m * (-yi) + 1) % m == 1int % m);
                assert(m * (-yi) + 1 == 1 - yi * m) by (nonlinear_arith);
                assert((v * (xi % m)) % m == 1int % m);
            }
            Some(ModInt { value: w, modulus: self.modulus, is_field: None })
        } else {
            None
        }
    }

    proof fn lemma_dup_refl(a: Self) {
    }

    proof fn lemma_dup_props(a: Self, r: Self) {
    }

    proof fn lemma_compat_refl(a: Self) {
    }

    proof fn lemma_compat_sym(a: Self, b: Self) {
    }

    proof fn lemma_zero_wf(z: Self) {
    }

    proof fn lemma_zero_props(z: Self, a: Self) {
    }

    proof fn lemma_one_wf(o: Self) {
    }

    proof fn lemma_one_props(o: Self, a: Self) {
    }

    proof fn lemma_add_closed(a: Self, b: Self, r: Self) {
        let m = a.comb(&b);
        if m != -1 {
            lemma_mod_bound(a.value + b.value, m as int);
        }
    }

    proof fn lemma_sub_closed(a: Self, b: Self, r: Self) {
        let m = a.comb(&b);
        if m != -1 {
            lemma_mod_bound(a.value - b.value, m as int);
        }
    }

    proof fn lemma_mul_closed(a: Self, b: Self, r: Self) {
        let m = a.comb(&b);
        if m != -1 {
            lemma_mod_bound(a.value * b.value, m as int);
        }
    }

    proof fn lemma_neg_closed(a: Self, r: Self) {
        if a.modulus != -1 {
            lemma_mod_bound(-(a.value as int), a.modulus as int);
        }
    }
}



/// Splitting off the low bit of `s / 2^k`: the remainder of `s` modulo
/// `2^(k+1)` is the remainder modulo `2^k` plus bit `k` scaled by `2^k`.
proof fn lemma_mod_pow2_step(s: nat, k: nat)
    ensures
        s % pow2(k + 1) == s % pow2(k) + pow2(k) * ((s / pow2(k)) % 2),
{
    let p = pow2(k) as int;
    let si = s as int;
    lemma_pow2_pos(k);
    lemma_pow2_adds(k, 1);
    lemma2_to64();
    assert(pow2(k + 1) as int == 2 * p);
    let q = si / p;
    lemma_fundamental_div_mod(si, p);
    lemma_mod_bound(si, p);
    lemma_fundamental_div_mod(q, 2);
    lemma_mod_bound(q, 2);
    let r = p * (q % 2) + si % p;
    assert(si == (2 * p) * (q / 2) + r) by (nonlinear_arith)
        requires
            si == p * q + si % p,
            q == 2 * (q / 2) + q % 2,
            r == p * (q % 2) + si % p,
    ;
    assert(0 <= r < 2 * p) by (nonlinear_arith)
        requires
            0 <= q % 2 < 2,
            0 <= si % p < p,
            0 < p,
            r == p * (q % 2) + si % p,
    ;
    lemma_fundamental_div_mod_converse(si, 2 * p, q / 2, r);
    assert(si % (2 * p) == r);
}

/// Concrete powers of two used for the range reasoning below.
proof fn lemma_pow2_concrete()
    ensures
        pow2(126) == 0x40000000000000000000000000000000,
        pow2(127) == 0x80000000000000000000000000000000,
{
    lemma2_to64();
    vstd::arithmetic::power2::lemma2_to64_rest();
    lemma_pow2_adds(64, 62);
    lemma_pow2_adds(64, 63);
}

/// Along any trace of the binary embedding of `s` into the modular
/// integers, the result stays unbound and carries exactly the low bits of
/// `s` consumed so far, and the accumulator carries the matching power of
/// two.
pub proof fn lemma_ringed_trace_modint(s: u128, tr: Seq<(ModInt, ModInt)>)
    requires
        ringed_trace(s, tr),
        1 <= tr.len() <= 128,
        (s as nat) < pow2(126),
    ensures
        forall|k: int|
            0 <= k < tr.len() ==> {
                &&& (#[trigger] tr[k]).0.modulus == -1
                &&& tr[k].0.is_field is None
                &&& tr[k].0.value as int == (s as nat % pow2(k as nat)) as int
                &&& (k <= 126 ==> tr[k].1.modulus == -1 && tr[k].1.value as int == pow2(
                    k as nat,
                ) as int)
            },
    decreases tr.len(),
{
    lemma_pow2_concrete();
    if tr.len() == 1 {
        assert(pow2(0) == 1) by {
            lemma2_to64();
        }
        lemma_mod_bound(s as int, 1);
        assert(s as nat % pow2(0) == 0);
    } else {
        let pre = tr.subrange(0, tr.len() - 1);
        assert(ringed_trace(s, pre)) by {
            assert forall|k: int| 0 <= k < pre.len() - 1 implies ringed_step(
                s,
                k as nat,
                pre[k].0,
                pre[k].1,
                #[trigger] pre[k + 1].0,
                pre[k + 1].1,
            ) by {
                assert(pre[k] == tr[k] && pre[k + 1] == tr[k + 1]);
                assert(ringed_step(s, k as nat, tr[k].0, tr[k].1, tr[k + 1].0, tr[k + 1].1));
            }
        }
        lemma_ringed_trace_modint(s, pre);
        let k0 = tr.len() - 2;
        assert(ringed_step(s, k0 as nat, tr[k0].0, tr[k0].1, tr[k0 + 1].0, tr[k0 + 1].1));
        assert(tr[k0] == pre[k0]);
        let res0 = tr[k0].0;
        let acc0 = tr[k0].1;
        lemma_pow2_pos(k0 as nat);
        lemma_mod_bound(s as int, pow2(k0 as nat) as int);
        assert(pow2(k0 as nat) <= pow2(126)) by {
            if k0 < 126 {
                lemma_pow2_strictly_increases(k0 as nat, 126);
            }
        }
        lemma_mod_pow2_step(s as nat, k0 as nat);
        if k0 + 1 <= 126 {
            assert(pow2((k0 + 1) as nat) <= pow2(126)) by {
                if k0 + 1 < 126 {
                    lemma_pow2_strictly_increases((k0 + 1) as nat, 126);
                }
            }
            assert(pow2((k0 + 1) as nat) == 2 * pow2(k0 as nat)) by {
                lemma_pow2_adds(k0 as nat, 1);
                lemma2_to64();
            }
            assert(tr[k0 + 1].1 == ModInt::mk(acc0.value as int + acc0.value as int, -1i128));
            assert(tr[k0 + 1].1.value as int == pow2((k0 + 1) as nat) as int);
        }
        let bit = (s as nat / pow2(k0 as nat)) % 2;
        if bit == 1 {
            assert(tr[k0 + 1].0 == ModInt::mk(res0.value as int + acc0.value as int, -1i128));
            assert(res0.value as int + acc0.value as int == (s as nat % pow2(
                (k0 + 1) as nat,
            )) as int) by {
                assert(pow2(k0 as nat) * 1 == pow2(k0 as nat));
            }
            assert(res0.value as int + acc0.value as int <= i128::MAX) by {
                assert(pow2(k0 as nat) <= pow2(126));
            }
        } else {
            assert(tr[k0 + 1].0 == res0);
            assert((s as nat % pow2((k0 + 1) as nat)) as int == res0.value as int) by {
                assert(pow2(k0 as nat) * 0 == 0);
            }
        }
        assert forall|k: int| 0 <= k < tr.len() implies {
            &&& (#[trigger] tr[k]).0.modulus == -1
            &&& tr[k].0.is_field is None
            &&& tr[k].0.value as int == (s as nat % pow2(k as nat)) as int
            &&& (k <= 126 ==> tr[k].1.modulus == -1 && tr[k].1.value as int == pow2(
                k as nat,
            ) as int)
        } by {
            if k < tr.len() - 1 {
                assert(tr[k] == pre[k]);
            }
        }
    }
}

/// The embedding morphism into the modular integers is additive:
/// `ringed(s1 + s2)` is exactly the sum of `ringed(s1)` and `ringed(s2)`.
pub proof fn lemma_ringed_add_modint(
    s1: u128,
    s2: u128,
    tr1: Seq<(ModInt, ModInt)>,
    tr2: Seq<(ModInt, ModInt)>,
    tr12: Seq<(ModInt, ModInt)>,
    sum: ModInt,
)
    requires
        (s1 as nat) + (s2 as nat) < pow2(126),
        ringed_trace(s1, tr1),
        1 <= tr1.len() <= 128,
        tr1.len() == 128 || (s1 as nat) < pow2((tr1.len() - 1) as nat),
        ringed_trace(s2, tr2),
        1 <= tr2.len() <= 128,
        tr2.len() == 128 || (s2 as nat) < pow2((tr2.len() - 1) as nat),
        ringed_trace((s1 + s2) as u128, tr12),
        1 <= tr12.len() <= 128,
        tr12.len() == 128 || ((s1 + s2) as u128 as nat) < pow2((tr12.len() - 1) as nat),
        sum.is_add(&tr1.last().0, &tr2.last().0),
    ensures
        sum == tr12.last().0,
{
    lemma_pow2_concrete();
    lemma_ringed_trace_modint(s1, tr1);
    lemma_ringed_trace_modint(s2, tr2);
    lemma_ringed_trace_modint((s1 + s2) as u128, tr12);
    assert(tr1.last() == tr1[tr1.len() - 1]);
    assert(tr2.last() == tr2[tr2.len() - 1]);
    assert(tr12.last() == tr12[tr12.len() - 1]);
    lemma_value_is_s(s1, tr1);
    lemma_value_is_s(s2, tr2);
    lemma_value_is_s((s1 + s2) as u128, tr12);
    assert(sum == ModInt::mk(s1 as int + s2 as int, -1i128));
}

/// The final result of a complete embedding trace carries exactly `s`: the
/// image of `s` in the modular integers is the unbound element of value `s`.
pub proof fn lemma_value_is_s(s: u128, tr: Seq<(ModInt, ModInt)>)
    requires
        ringed_trace(s, tr),
        1 <= tr.len() <= 128,
        (s as nat) < pow2(126),
        tr.len() == 128 || (s as nat) < pow2((tr.len() - 1) as nat),
    ensures
        tr.last().0.modulus == -1,
        tr.last().0.is_field is None,
        tr.last().0.value as int == s as int,
{
    lemma_pow2_concrete();
    lemma_ringed_trace_modint(s, tr);
    assert(tr.last() == tr[tr.len() - 1]);
    let k = (tr.len() - 1) as nat;
    assert((s as nat) < pow2(k)) by {
        if tr.len() == 128 {
            lemma_pow2_strictly_increases(126, 127);
        }
    }
    vstd::arithmetic::div_mod::lemma_small_mod(s as nat, pow2(k));
}


/// The binary embedding of any `s` below `2^126` into the modular integers
/// stays within the machine bounds.
pub proof fn lemma_ringed_ok_modint(s: u128)
    requires
        (s as nat) < pow2(126),
    ensures
        crate::ring::ringed_ok::<ModInt>(s),
{
    lemma_pow2_concrete();
    assert forall|tr: Seq<(ModInt, ModInt)>|
        #[trigger] ringed_trace(s, tr) && tr.len() <= 127 && s as nat / pow2(
            (tr.len() - 1) as nat,
        ) > 0 implies tr.last().1.sadd_ok(&tr.last().1) && tr.last().0.sadd_ok(
        &tr.last().1,
    ) by {
        lemma_ringed_trace_modint(s, tr);
        let k = (tr.len() - 1) as nat;
        assert(tr.last() == tr[tr.len() - 1]);
        lemma_pow2_pos(k);
        assert(pow2(k) <= s as nat) by {
            if pow2(k) > s as nat {
                vstd::arithmetic::div_mod::lemma_basic_div(s as int, pow2(k) as int);
            }
        }
        assert(k <= 125) by {
            if k >= 126 {
                assert(pow2(126) <= pow2(k)) by {
                    if k > 126 {
                        lemma_pow2_strictly_increases(126, k);
                    }
                }
            }
        }
        assert(pow2(k) <= pow2(125)) by {
            if k < 125 {
                lemma_pow2_strictly_increases(k, 125);
            }
        }
        assert(pow2(125) < pow2(126)) by {
            lemma_pow2_strictly_increases(125, 126);
        }
        vstd::arithmetic::div_mod::lemma_mod_bound(s as int, pow2(k) as int);
    }
}

/// The value carried by `mk(v, m)` is congruent to `v` modulo `M`, whether
/// the context `m` is the bound modulus `M` or still unbound.
proof fn lemma_mk_val(v: int, m: i128, M: int)
    requires
        M >= 1,
        m == -1 || m as int == M,
        m == -1 ==> i128::MIN <= v <= i128::MAX,
    ensures
        (ModInt::mk(v, m).value as int) % M == v % M,
{
    if m == -1 {
        assert(ModInt::mk(v, m).value as int == v);
    } else {
        lemma_mod_twice(v, M);
    }
}

/// Two elements of the same bound context with congruent values are
/// equivalent.
proof fn lemma_eqv_of_cong(x: ModInt, y: ModInt, M: int)
    requires
        M >= 1,
        x.modulus as int == M || y.modulus as int == M,
        x.modulus == -1 || x.modulus as int == M,
        y.modulus == -1 || y.modulus as int == M,
        (x.value as int) % M == (y.value as int) % M,
    ensures
        x.eqv(&y),
{
    assert(x.comb(&y) as int == M);
    lemma_mod_equivalence(x.value as int, y.value as int, M);
}

impl AddLaws for ModInt {
    proof fn lemma_eqv_refl(a: Self) {
        if a.modulus != -1 {
            lemma_small_mod(0nat, a.modulus as nat);
        }
    }

    proof fn lemma_eqv_sym(a: Self, b: Self) {
        let m = a.comb(&b) as int;
        if a.comb(&b) != -1 {
            lemma_mod_equivalence(a.value as int, b.value as int, m);
            lemma_mod_equivalence(b.value as int, a.value as int, m);
        }
    }

    proof fn lemma_dup_eqv(a: Self, r: Self) {
        Self::lemma_eqv_refl(a);
    }

    proof fn lemma_dup_subst(x: Self, y: Self) {
    }

    proof fn lemma_add_det(a: Self, b: Self, r1: Self, r2: Self) {
        Self::lemma_add_closed(a, b, r1);
        Self::lemma_eqv_refl(r1);
    }

    proof fn lemma_add_comm(a: Self, b: Self, r1: Self, r2: Self) {
        Self::lemma_add_closed(a, b, r1);
        Self::lemma_eqv_refl(r1);
        assert(r1 == r2);
    }

    proof fn lemma_add_assoc(
        a: Self,
        b: Self,
        c: Self,
        ab: Self,
        abc1: Self,
        bc: Self,
        abc2: Self,
    ) {
        let va = a.value as int;
        let vb = b.value as int;
        let vc = c.value as int;
        if a.modulus == -1 && b.modulus == -1 && c.modulus == -1 {
            assert(ab.value as int == va + vb);
            assert(bc.value as int == vb + vc);
            assert(abc1.value as int == va + vb + vc);
            assert(abc2.value as int == va + vb + vc);
            assert(abc1.eqv(&abc2));
        } else {
            let M = if a.modulus >= 1 {
                a.modulus as int
            } else if b.modulus >= 1 {
                b.modulus as int
            } else {
                c.modulus as int
            };
            assert(M >= 1);
            lemma_mk_val(va + vb, a.comb(&b), M);
            lemma_mk_val(vb + vc, b.comb(&c), M);
            assert((ab.value as int) % M == (va + vb) % M);
            assert((bc.value as int) % M == (vb + vc) % M);
            assert(abc1 == Self::mk(ab.value as int + vc, M as i128));
            assert(abc2 == Self::mk(va + bc.value as int, M as i128));
            assert((abc1.value as int) % M == (ab.value as int + vc) % M) by {
                lemma_mk_val(ab.value as int + vc, M as i128, M);
            }
            assert((abc2.value as int) % M == (va + bc.value as int) % M) by {
                lemma_mk_val(va + bc.value as int, M as i128, M);
            }
            assert((ab.value as int + vc) % M == (va + vb + vc) % M) by {
                lemma_add_mod_noop(ab.value as int, vc, M);
                lemma_add_mod_noop(va + vb, vc, M);
            }
            assert((va + bc.value as int) % M == (va + (vb + vc)) % M) by {
                lemma_add_mod_noop(va, bc.value as int, M);
                lemma_add_mod_noop(va, vb + vc, M);
            }
            lemma_eqv_of_cong(abc1, abc2, M);
        }
    }

    proof fn lemma_add_zero(a: Self, z: Self, r: Self) {
        let va = a.value as int;
        if a.modulus == -1 {
            assert(r.value == a.value);
        } else {
            let M = a.modulus as int;
            lemma_mk_val(va + 0, a.comb(&z), M);
            lemma_mk_val(0 + va, z.comb(&a), M);
            lemma_small_mod(a.value as nat, a.modulus as nat);
            lemma_eqv_of_cong(r, a, M);
        }
    }

    proof fn lemma_add_neg(a: Self, n: Self, r: Self) {
        let va = a.value as int;
        if a.modulus == -1 {
            assert(n.value as int == -va);
            assert(r.value as int == 0);
        } else {
            let M = a.modulus as int;
            assert(n.value as int == (-va) % M);
            assert(r == Self::mk(va + ((-va) % M), M as i128));
            assert((va + ((-va) % M)) % M == (va + (-va)) % M) by {
                lemma_add_mod_noop(va, (-va) % M, M);
                lemma_mod_twice(-va, M);
                lemma_add_mod_noop(va, -va, M);
            }
            lemma_small_mod(0nat, a.modulus as nat);
            assert(r.value as int == 0);
        }
    }

    proof fn lemma_add_cong(a: Self, b: Self, a2: Self, b2: Self, r: Self, r2: Self) {
        let va = a.value as int;
        let vb = b.value as int;
        let va2 = a2.value as int;
        let vb2 = b2.value as int;
        if a.modulus == -1 && b.modulus == -1 && a2.modulus == -1 && b2.modulus == -1 {
            assert(va == va2 && vb == vb2);
            assert(r.value == r2.value);
        } else {
            let M = if a.modulus >= 1 {
                a.modulus as int
            } else if b.modulus >= 1 {
                b.modulus as int
            } else if a2.modulus >= 1 {
                a2.modulus as int
            } else {
                b2.modulus as int
            };
            assert(M >= 1);
            assert(va % M == va2 % M) by {
                if a.modulus == -1 && a2.modulus == -1 {
                    assert(va == va2);
                } else {
                    assert(a.comb(&a2) as int == M);
                    lemma_mod_equivalence(va, va2, M);
                }
            }
            assert(vb % M == vb2 % M) by {
                if b.modulus == -1 && b2.modulus == -1 {
                    assert(vb == vb2);
                } else {
                    assert(b.comb(&b2) as int == M);
                    lemma_mod_equivalence(vb, vb2, M);
                }
            }
            lemma_mk_val(va + vb, a.comb(&b), M);
            lemma_mk_val(va2 + vb2, a2.comb(&b2), M);
            assert((va + vb) % M == (va2 + vb2) % M) by {
                lemma_add_mod_noop(va, vb, M);
                lemma_add_mod_noop(va2, vb2, M);
            }
            lemma_eqv_of_cong(r, r2, M);
        }
    }

    proof fn lemma_sub_def(a: Self, b: Self, n: Self, r1: Self, r2: Self) {
        let va = a.value as int;
        let vb = b.value as int;
        if a.modulus == -1 && b.modulus == -1 {
            assert(n.value as int == -vb);
            assert(r1.value as int == va - vb);
            assert(r2.value as int == va + (-vb));
            Self::lemma_sub_closed(a, b, r1);
            Self::lemma_eqv_refl(r1);
            assert(r1.eqv(&r2));
        } else {
            let M = if a.modulus >= 1 {
                a.modulus as int
            } else {
                b.modulus as int
            };
            assert(M >= 1);
            lemma_mk_val(-vb, b.modulus, M);
            assert((n.value as int) % M == (-vb) % M);
            lemma_mk_val(va - vb, a.comb(&b), M);
            lemma_mk_val(va + n.value as int, a.comb(&n), M);
            assert((va + n.value as int) % M == (va - vb) % M) by {
                lemma_add_mod_noop(va, n.value as int, M);
                lemma_add_mod_noop(va, -vb, M);
            }
            lemma_eqv_of_cong(r1, r2, M);
        }
    }
}

impl MulLaws for ModInt {
    proof fn lemma_mul_det(a: Self, b: Self, r1: Self, r2: Self) {
        Self::lemma_mul_closed(a, b, r1);
        Self::lemma_eqv_refl(r1);
    }

    proof fn lemma_mul_comm(a: Self, b: Self, r1: Self, r2: Self) {
        vstd::arithmetic::mul::lemma_mul_is_commutative(a.value as int, b.value as int);
        Self::lemma_mul_closed(a, b, r1);
        Self::lemma_eqv_refl(r1);
        assert(r1 == r2);
    }

    proof fn lemma_mul_assoc(
        a: Self,
        b: Self,
        c: Self,
        ab: Self,
        abc1: Self,
        bc: Self,
        abc2: Self,
    ) {
        let va = a.value as int;
        let vb = b.value as int;
        let vc = c.value as int;
        vstd::arithmetic::mul::lemma_mul_is_associative(va, vb, vc);
        if a.modulus == -1 && b.modulus == -1 && c.modulus == -1 {
            assert(ab.value as int == va * vb);
            assert(bc.value as int == vb * vc);
            assert(abc1.value as int == (va * vb) * vc);
            assert(abc2.value as int == va * (vb * vc));
            assert(abc1.eqv(&abc2));
        } else {
            let M = if a.modulus >= 1 {
                a.modulus as int
            } else if b.modulus >= 1 {
                b.modulus as int
            } else {
                c.modulus as int
            };
            assert(M >= 1);
            lemma_mk_val(va * vb, a.comb(&b), M);
            lemma_mk_val(vb * vc, b.comb(&c), M);
            assert(abc1 == Self::mk(ab.value as int * vc, M as i128));
            assert(abc2 == Self::mk(va * bc.value as int, M as i128));
            lemma_mk_val(ab.value as int * vc, M as i128, M);
            lemma_mk_val(va * bc.value as int, M as i128, M);
            assert((ab.value as int * vc) % M == ((va * vb) * vc) % M) by {
                lemma_mul_mod_noop_general(ab.value as int, vc, M);
                lemma_mul_mod_noop_general(va * vb, vc, M);
            }
            assert((va * bc.value as int) % M == (va * (vb * vc)) % M) by {
                lemma_mul_mod_noop_general(va, bc.value as int, M);
                lemma_mul_mod_noop_general(va, vb * vc, M);
            }
            lemma_eqv_of_cong(abc1, abc2, M);
        }
    }

    proof fn lemma_mul_one(a: Self, o: Self, r: Self) {
        let va = a.value as int;
        vstd::arithmetic::mul::lemma_mul_basics(va);
        if a.modulus == -1 {
            assert(r.value as int == va);
        } else {
            let M = a.modulus as int;
            lemma_mk_val(va * 1, a.comb(&o), M);
            lemma_mk_val(1 * va, o.comb(&a), M);
            lemma_small_mod(a.value as nat, a.modulus as nat);
            lemma_eqv_of_cong(r, a, M);
        }
    }

    proof fn lemma_distrib_left(
        a: Self,
        b: Self,
        c: Self,
        bc: Self,
        abc: Self,
        ab: Self,
        ac: Self,
        sum: Self,
    ) {
        let va = a.value as int;
        let vb = b.value as int;
        let vc = c.value as int;
        vstd::arithmetic::mul::lemma_mul_is_distributive_add(va, vb, vc);
        if a.modulus == -1 && b.modulus == -1 && c.modulus == -1 {
            assert(bc.value as int == vb + vc);
            assert(abc.value as int == va * (vb + vc));
            assert(ab.value as int == va * vb);
            assert(ac.value as int == va * vc);
            assert(sum.value as int == va * vb + va * vc);
            assert(abc.eqv(&sum));
        } else {
            let M = if a.modulus >= 1 {
                a.modulus as int
            } else if b.modulus >= 1 {
                b.modulus as int
            } else {
                c.modulus as int
            };
            assert(M >= 1);
            lemma_mk_val(vb + vc, b.comb(&c), M);
            lemma_mk_val(va * vb, a.comb(&b), M);
            lemma_mk_val(va * vc, a.comb(&c), M);
            assert(abc == Self::mk(va * bc.value as int, M as i128));
            assert(sum == Self::mk(ab.value as int + ac.value as int, M as i128));
            lemma_mk_val(va * bc.value as int, M as i128, M);
            lemma_mk_val(ab.value as int + ac.value as int, M as i128, M);
            assert((va * bc.value as int) % M == (va * (vb + vc)) % M) by {
                lemma_mul_mod_noop_general(va, bc.value as int, M);
                lemma_mul_mod_noop_general(va, vb + vc, M);
            }
            assert((ab.value as int + ac.value as int) % M == (va * vb + va * vc) % M) by {
                lemma_add_mod_noop(ab.value as int, ac.value as int, M);
                lemma_add_mod_noop(va * vb, va * vc, M);
            }
            lemma_eqv_of_cong(abc, sum, M);
        }
    }

    proof fn lemma_distrib_right(
        a: Self,
        b: Self,
        c: Self,
        ab: Self,
        abc: Self,
        ac: Self,
        bc: Self,
        sum: Self,
    ) {
        let va = a.value as int;
        let vb = b.value as int;
        let vc = c.value as int;
        vstd::arithmetic::mul::lemma_mul_is_distributive_add_other_way(vc, va, vb);
        if a.modulus == -1 && b.modulus == -1 && c.modulus == -1 {
            assert(ab.value as int == va + vb);
            assert(abc.value as int == (va + vb) * vc);
            assert(ac.value as int == va * vc);
            assert(bc.value as int == vb * vc);
            assert(sum.value as int == va * vc + vb * vc);
            assert(abc.eqv(&sum));
        } else {
            let M = if a.modulus >= 1 {
                a.modulus as int
            } else if b.modulus >= 1 {
                b.modulus as int
            } else {
                c.modulus as int
            };
            assert(M >= 1);
            lemma_mk_val(va + vb, a.comb(&b), M);
            lemma_mk_val(va * vc, a.comb(&c), M);
            lemma_mk_val(vb * vc, b.comb(&c), M);
            assert(abc == Self::mk(ab.value as int * vc, M as i128));
            assert(sum == Self::mk(ac.value as int + bc.value as int, M as i128));
            lemma_mk_val(ab.value as int * vc, M as i128, M);
            lemma_mk_val(ac.value as int + bc.value as int, M as i128, M);
            assert((ab.value as int * vc) % M == ((va + vb) * vc) % M) by {
                lemma_mul_mod_noop_general(ab.value as int, vc, M);
                lemma_mul_mod_noop_general(va + vb, vc, M);
            }
            assert((ac.value as int + bc.value as int) % M == (va * vc + vb * vc) % M) by {
                lemma_add_mod_noop(ac.value as int, bc.value as int, M);
                lemma_add_mod_noop(va * vc, vb * vc, M);
            }
            lemma_eqv_of_cong(abc, sum, M);
        }
    }


    proof fn lemma_mul_negone_neg(b: Self, o: Self, no: Self, t: Self, r: Self) {
        assert(-1int * b.value as int == -(b.value as int)) by (nonlinear_arith);
        assert(t == Self::mk(-(b.value as int), b.modulus));
        assert(r == Self::mk(-(b.value as int), b.modulus));
        Self::lemma_neg_closed(b, r);
        Self::lemma_eqv_refl(r);
    }

    proof fn lemma_mul_negone_add_zero(a: Self, o: Self, no: Self, t: Self, r: Self) {
        assert(-1int * a.value as int == -(a.value as int)) by (nonlinear_arith);
        assert(t == Self::mk(-(a.value as int), a.modulus));
        assert(a.sneg_ok());
        assert(t.is_neg(&a));
        Self::lemma_add_neg(a, t, r);
    }

    proof fn lemma_sub_eqv_add_mul_negone(
        a: Self,
        b: Self,
        o: Self,
        no: Self,
        t: Self,
        r1: Self,
        r2: Self,
    ) {
        assert(-1int * b.value as int == -(b.value as int)) by (nonlinear_arith);
        assert(t == Self::mk(-(b.value as int), b.modulus));
        assert(b.sneg_ok());
        assert(t.is_neg(&b));
        Self::lemma_sub_def(a, b, t, r1, r2);
    }

    proof fn lemma_mul_cong(a: Self, b: Self, a2: Self, b2: Self, r: Self, r2: Self) {
        let va = a.value as int;
        let vb = b.value as int;
        let va2 = a2.value as int;
        let vb2 = b2.value as int;
        if a.modulus == -1 && b.modulus == -1 && a2.modulus == -1 && b2.modulus == -1 {
            assert(va == va2 && vb == vb2);
            assert(r.value == r2.value);
        } else {
            let M = if a.modulus >= 1 {
                a.modulus as int
            } else if b.modulus >= 1 {
                b.modulus as int
            } else if a2.modulus >= 1 {
                a2.modulus as int
            } else {
                b2.modulus as int
            };
            assert(M >= 1);
            assert(va % M == va2 % M) by {
                if a.modulus == -1 && a2.modulus == -1 {
                    assert(va == va2);
                } else {
                    assert(a.comb(&a2) as int == M);
                    lemma_mod_equivalence(va, va2, M);
                }
            }
            assert(vb % M == vb2 % M) by {
                if b.modulus == -1 && b2.modulus == -1 {
                    assert(vb == vb2);
                } else {
                    assert(b.comb(&b2) as int == M);
                    lemma_mod_equivalence(vb, vb2, M);
                }
            }
            lemma_mk_val(va * vb, a.comb(&b), M);
            lemma_mk_val(va2 * vb2, a2.comb(&b2), M);
            assert((va * vb) % M == (va2 * vb2) % M) by {
                lemma_mul_mod_noop_general(va, vb, M);
                lemma_mul_mod_noop_general(va2, vb2, M);
                assert((va % M) * (vb % M) == (va2 % M) * (vb2 % M));
            }
            lemma_eqv_of_cong(r, r2, M);
        }
    }
}


} // verus!
