use vstd::prelude::*;

verus! {

use crate::ring::{AddLaws, MulLaws, Ring};
use crate::mod_int::ModInt;
use vstd::arithmetic::power::pow;

/// Every element of the sequence is well formed and any two of them are
/// compatible.
pub open spec fn seq_wf<R: Ring>(s: Seq<R>) -> bool {
    &&& forall|i: int| 0 <= i < s.len() ==> (#[trigger] s[i]).wf()
    &&& forall|i: int, j: int|
        0 <= i < s.len() && 0 <= j < s.len() ==> #[trigger] s[i].compat(&s[j])
}

/// Every element of `a` is compatible with every element of `b`.
pub open spec fn seq_compat<R: Ring>(a: Seq<R>, b: Seq<R>) -> bool {
    forall|i: int, j: int| 0 <= i < a.len() && 0 <= j < b.len() ==> #[trigger] a[i].compat(&b[j])
}

/// `x` is compatible with every element of `av` and of `bv`.
pub open spec fn compat_with_all<R: Ring>(x: R, av: Seq<R>, bv: Seq<R>) -> bool {
    &&& forall|i: int| 0 <= i < av.len() ==> (#[trigger] av[i]).compat(&x)
    &&& forall|j: int| 0 <= j < bv.len() ==> (#[trigger] bv[j]).compat(&x)
}

/// `n` is the negated one of the ring.
pub open spec fn neg_one_val<R: Ring>(n: &R) -> bool {
    exists|o: R| (#[trigger] o.is_one_val()) && n.is_neg(&o)
}

/// `rc[i]` is `ac[i]` multiplied on the left by a negated one.
pub open spec fn neg_coeff_at<R: Ring>(rc: Seq<R>, ac: Seq<R>, i: int) -> bool {
    exists|n: R| (#[trigger] rc[i].is_mul(&n, &ac[i])) && neg_one_val(&n)
}

/// `rc[k]` is the value of the full convolution trace of `ac` and `bc` at
/// output index `k`.
pub open spec fn conv_coeff_at<R: Ring>(ac: Seq<R>, bc: Seq<R>, rc: Seq<R>, k: int) -> bool {
    exists|tr: Seq<R>| (#[trigger] conv_full(ac, bc, k, tr)) && rc[k].is_dup(&tr.last())
}

/// One step of Horner's method: `cur = prev * point + coeffs[idx]`.
pub open spec fn horner_step<R: Ring>(coeffs: Seq<R>, point: R, idx: int, prev: R, cur: R) -> bool {
    exists|t: R| (#[trigger] t.is_mul(&prev, &point)) && cur.is_add(&t, &coeffs[idx])
}

/// `tr` traces Horner's method on `coeffs` at `point`: `tr[0]` starts from
/// the leading coefficient and step `i` folds in the coefficient of the
/// `len-1-i` power.
pub open spec fn horner_partial<R: Ring>(coeffs: Seq<R>, point: R, tr: Seq<R>) -> bool {
    &&& 1 <= tr.len() <= coeffs.len()
    &&& tr[0].is_dup(&coeffs.last())
    &&& forall|i: int|
        1 <= i < tr.len() ==> horner_step(coeffs, point, coeffs.len() - 1 - i, tr[i - 1], #[trigger] tr[i])
}

/// A complete Horner trace: every coefficient folded in.
pub open spec fn horner_full<R: Ring>(coeffs: Seq<R>, point: R, tr: Seq<R>) -> bool {
    horner_partial(coeffs, point, tr) && tr.len() == coeffs.len()
}

/// Every multiplication and addition Horner's method makes on `coeffs` at
/// `point` stays within the machine bounds of `R`.
pub open spec fn horner_ok<R: Ring>(coeffs: Seq<R>, point: R) -> bool {
    &&& forall|tr: Seq<R>|
        (#[trigger] horner_partial(coeffs, point, tr)) && tr.len() < coeffs.len()
            ==> tr.last().smul_ok(&point)
    &&& forall|tr: Seq<R>, t: R|
        (#[trigger] horner_partial(coeffs, point, tr)) && tr.len() < coeffs.len() && (
        #[trigger] t.is_mul(&tr.last(), &point)) ==> t.sadd_ok(&coeffs[coeffs.len() - 1 - tr.len()])
}

/// A univariate polynomial over the coefficient ring `R`: `coefficients[i]`
/// is the coefficient of the `i`-th power of the indeterminate, and
/// `degree` is the index of the highest retained coefficient. Trailing zero
/// coefficients produced by cancellation are not stripped, so two
/// mathematically equal polynomials of different explicit length compare
/// unequal.
#[derive(Debug, Clone, PartialEq)]
pub struct UPolynomial<R: Ring> {
    pub coefficients: Vec<R>,
    pub degree: usize,
}

impl<R: Ring> UPolynomial<R> {
    /// Wraps an explicit coefficient sequence, lowest power first.
    pub fn new(coefficients: Vec<R>) -> (r: Self)
        requires
            coefficients@.len() >= 1,
            seq_wf(coefficients@),
        ensures
            r.coefficients == coefficients,
            r.degree + 1 == coefficients@.len(),
            r.wf(),
    {
        let degree = coefficients.len() - 1;
        UPolynomial { coefficients, degree }
    }

    /// `r` is `self` with every coefficient multiplied by `scalar` (on the
    /// left, as `scalar * c`).
    pub open spec fn is_scale(&self, a: &Self, scalar: &R) -> bool {
        &&& self.coefficients@.len() == a.coefficients@.len()
        &&& self.degree == a.degree
        &&& forall|i: int|
            0 <= i < a.coefficients@.len() ==> (#[trigger] self.coefficients@[i]).is_mul(
                scalar,
                &a.coefficients@[i],
            )
    }

    /// Multiplies every coefficient by `scalar`.
    pub fn scale(self, scalar: R) -> (r: Self)
        requires
            self.wf(),
            scalar.wf(),
            forall|i: int|
                0 <= i < self.coefficients@.len() ==> scalar.compat(
                    #[trigger] &self.coefficients@[i],
                ),
            forall|i: int|
                0 <= i < self.coefficients@.len() ==> scalar.smul_ok(
                    #[trigger] &self.coefficients@[i],
                ),
        ensures
            r.is_scale(&self, &scalar),
    {
        let n = self.coefficients.len();
        let mut out: Vec<R> = Vec::new();
        let mut i: usize = 0;
        while i < n
            invariant
                n == self.coefficients@.len(),
                self.wf(),
                scalar.wf(),
                forall|j: int|
                    0 <= j < self.coefficients@.len() ==> scalar.compat(
                        #[trigger] &self.coefficients@[j],
                    ),
                forall|j: int|
                    0 <= j < self.coefficients@.len() ==> scalar.smul_ok(
                        #[trigger] &self.coefficients@[j],
                    ),
                i <= n,
                out@.len() == i,
                forall|j: int|
                    0 <= j < i ==> (#[trigger] out@[j]).is_mul(&scalar, &self.coefficients@[j]),
            decreases n - i,
        {
            let c = scalar.mul(&self.coefficients[i]);
            out.push(c);
            i = i + 1;
        }
        UPolynomial { coefficients: out, degree: self.degree }
    }

    /// Evaluates the polynomial at `point` by Horner's method: start with
    /// the leading coefficient, then alternately multiply by the point and
    /// add the next lower coefficient.
    pub fn eval(&self, point: &R) -> (r: R)
        requires
            self.wf(),
            point.wf(),
            forall|i: int|
                0 <= i < self.coefficients@.len() ==> (#[trigger] self.coefficients@[i]).compat(
                    point,
                ),
            horner_ok(self.coefficients@, *point),
        ensures
            exists|tr: Seq<R>| (#[trigger] horner_full(self.coefficients@, *point, tr)) && r
                == tr.last(),
    {
        let cs = &self.coefficients;
        let n = cs.len();
        let mut s = cs[n - 1].dup();
        let ghost mut tr: Seq<R> = seq![s];
        proof {
            R::lemma_dup_props(cs@[n - 1], s);
            assert(s.compat(point));
            assert forall|i: int| 0 <= i < cs@.len() implies #[trigger] s.compat(&cs@[i]) by {}
            assert(horner_partial(cs@, *point, tr));
        }
        let mut k: usize = 1;
        while k < n
            invariant
                self.wf(),
                point.wf(),
                forall|i: int|
                    0 <= i < self.coefficients@.len() ==> (
                    #[trigger] self.coefficients@[i]).compat(point),
                horner_ok(self.coefficients@, *point),
                cs@ == self.coefficients@,
                n == cs@.len(),
                n >= 1,
                1 <= k <= n,
                tr.len() == k,
                tr.last() == s,
                s.wf(),
                s.compat(point),
                compat_of_all_and_point(s, cs@, *point),
                horner_partial(cs@, *point, tr),
            decreases n - k,
        {
            proof {
                assert(s.smul_ok(point));
            }
            let t = s.mul(point);
            let ghost old_s = s;
            proof {
                R::lemma_mul_closed(old_s, *point, t);
                assert(t.sadd_ok(&cs@[n - 1 - k as int]));
                assert(t.compat(&cs@[n - 1 - k as int])) by {
                    assert(old_s.compat(&cs@[n - 1 - k as int])) by {
                        assert(compat_of_all_and_point(old_s, cs@, *point));
                    }
                    assert(point.compat(&cs@[n - 1 - k as int])) by {
                        R::lemma_compat_sym(cs@[n - 1 - k as int], *point);
                    }
                }
            }
            let s2 = t.add(&cs[n - 1 - k]);
            proof {
                R::lemma_add_closed(t, cs@[n - 1 - k as int], s2);
                assert(s2.compat(point)) by {
                    assert(old_s.compat(point));
                    assert(t.compat(point)) by {
                        R::lemma_compat_refl(*point);
                    }
                    assert(cs@[n - 1 - k as int].compat(point));
                }
                assert forall|i: int| 0 <= i < cs@.len() implies #[trigger] s2.compat(
                    &cs@[i],
                ) by {
                    assert(t.compat(&cs@[i])) by {
                        assert(old_s.compat(&cs@[i]));
                        assert(point.compat(&cs@[i])) by {
                            R::lemma_compat_sym(cs@[i], *point);
                        }
                    }
                    assert(cs@[n - 1 - k as int].compat(&cs@[i]));
                }
                let old_tr = tr;
                tr = tr.push(s2);
                assert(horner_step(cs@, *point, n - 1 - k as int, old_s, s2)) by {
                    assert(t.is_mul(&old_s, point) && s2.is_add(&t, &cs@[n - 1 - k as int]));
                }
                assert(horner_partial(cs@, *point, tr)) by {
                    assert forall|i: int| 1 <= i < tr.len() implies horner_step(
                        cs@,
                        *point,
                        cs@.len() - 1 - i,
                        tr[i - 1],
                        #[trigger] tr[i],
                    ) by {
                        if i < old_tr.len() {
                            assert(tr[i - 1] == old_tr[i - 1] && tr[i] == old_tr[i]);
                            assert(horner_step(cs@, *point, cs@.len() - 1 - i, old_tr[i - 1], old_tr[i]));
                        } else {
                            assert(tr[i - 1] == old_s && tr[i] == s2);
                        }
                    }
                }
            }
            s = s2;
            k = k + 1;
        }
        proof {
            assert(horner_full(cs@, *point, tr));
        }
        s
    }
}

/// `x` is an element built from the coefficients and the evaluation point:
/// compatible with every coefficient.
pub open spec fn compat_of_all_and_point<R: Ring>(x: R, cs: Seq<R>, point: R) -> bool {
    forall|i: int| 0 <= i < cs.len() ==> #[trigger] x.compat(&cs[i])
}

impl<R: Ring> Ring for UPolynomial<R> {
    open spec fn wf(&self) -> bool {
        &&& self.degree + 1 == self.coefficients@.len()
        &&& seq_wf(self.coefficients@)
    }

    open spec fn compat(&self, other: &Self) -> bool {
        seq_compat(self.coefficients@, other.coefficients@)
    }

    open spec fn eqv(&self, other: &Self) -> bool {
        &&& self.coefficients@.len() == other.coefficients@.len()
        &&& forall|i: int|
            0 <= i < self.coefficients@.len() ==> (#[trigger] self.coefficients@[i]).eqv(
                &other.coefficients@[i],
            )
    }

    open spec fn eq_spec(&self, other: &Self) -> bool {
        &&& self.coefficients@.len() == other.coefficients@.len()
        &&& self.degree == other.degree
        &&& forall|i: int|
            0 <= i < self.coefficients@.len() ==> (#[trigger] self.coefficients@[i]).eq_spec(
                &other.coefficients@[i],
            )
    }

    open spec fn is_zero_val(&self) -> bool {
        &&& self.degree == 0
        &&& self.coefficients@.len() == 1
        &&& self.coefficients@[0].is_zero_val()
    }

    open spec fn is_one_val(&self) -> bool {
        &&& self.degree == 0
        &&& self.coefficients@.len() == 1
        &&& self.coefficients@[0].is_one_val()
    }

    open spec fn zero_like(&self) -> bool {
        forall|i: int|
            0 <= i < self.coefficients@.len() ==> (#[trigger] self.coefficients@[i]).zero_like()
    }

    open spec fn s_is_zero(&self) -> bool {
        self.degree == 0 && self.coefficients@[0].s_is_zero()
    }

    open spec fn s_is_one(&self) -> bool {
        self.degree == 0 && self.coefficients@[0].s_is_one()
    }

    open spec fn is_dup(&self, a: &Self) -> bool {
        &&& self.degree == a.degree
        &&& self.coefficients@.len() == a.coefficients@.len()
        &&& forall|i: int|
            0 <= i < a.coefficients@.len() ==> (#[trigger] self.coefficients@[i]).is_dup(
                &a.coefficients@[i],
            )
    }

    open spec fn is_add(&self, a: &Self, b: &Self) -> bool {
        &&& self.coefficients@.len() == if b.coefficients@.len() <= a.coefficients@.len() {
            a.coefficients@.len()
        } else {
            b.coefficients@.len()
        }
        &&& self.degree == if b.coefficients@.len() <= a.coefficients@.len() {
            a.degree
        } else {
            b.degree
        }
        &&& forall|i: int|
            0 <= i < a.coefficients@.len() && i < b.coefficients@.len() ==> (
            #[trigger] self.coefficients@[i]).is_add(&a.coefficients@[i], &b.coefficients@[i])
        &&& forall|i: int|
            b.coefficients@.len() <= i < a.coefficients@.len() ==> (
            #[trigger] self.coefficients@[i]).is_dup(&a.coefficients@[i])
        &&& forall|i: int|
            a.coefficients@.len() <= i < b.coefficients@.len() ==> (
            #[trigger] self.coefficients@[i]).is_dup(&b.coefficients@[i])
    }

    open spec fn is_sub(&self, a: &Self, b: &Self) -> bool {
        if b.coefficients@.len() <= a.coefficients@.len() {
            &&& self.degree == a.degree
            &&& self.coefficients@.len() == a.coefficients@.len()
            &&& forall|i: int|
                0 <= i < b.coefficients@.len() ==> (#[trigger] self.coefficients@[i]).is_sub(
                    &a.coefficients@[i],
                    &b.coefficients@[i],
                )
            &&& forall|i: int|
                b.coefficients@.len() <= i < a.coefficients@.len() ==> (
                #[trigger] self.coefficients@[i]).is_dup(&a.coefficients@[i])
        } else {
            &&& self.degree == b.degree
            &&& self.coefficients@.len() == b.coefficients@.len()
            &&& forall|i: int|
                0 <= i < a.coefficients@.len() ==> (#[trigger] self.coefficients@[i]).is_sub(
                    &a.coefficients@[i],
                    &b.coefficients@[i],
                )
            &&& forall|i: int|
                a.coefficients@.len() <= i < b.coefficients@.len() ==> (
                #[trigger] self.coefficients@[i]).is_neg(&b.coefficients@[i])
        }
    }

    open spec fn is_mul(&self, a: &Self, b: &Self) -> bool {
        &&& self.coefficients@.len() == a.coefficients@.len() + b.coefficients@.len() - 1
        &&& self.degree == a.degree + b.degree
        &&& forall|k: int|
            0 <= k < self.coefficients@.len() ==> #[trigger] conv_coeff_at(
                a.coefficients@,
                b.coefficients@,
                self.coefficients@,
                k,
            )
    }

    open spec fn is_neg(&self, a: &Self) -> bool {
        &&& self.degree == a.degree
        &&& self.coefficients@.len() == a.coefficients@.len()
        &&& forall|i: int|
            0 <= i < a.coefficients@.len() ==> #[trigger] neg_coeff_at(
                self.coefficients@,
                a.coefficients@,
                i,
            )
    }

    open spec fn sadd_ok(&self, other: &Self) -> bool {
        forall|i: int|
            0 <= i < self.coefficients@.len() && i < other.coefficients@.len() ==> (
            #[trigger] self.coefficients@[i]).sadd_ok(&other.coefficients@[i])
                && other.coefficients@[i].sadd_ok(&self.coefficients@[i])
    }

    open spec fn ssub_ok(&self, other: &Self) -> bool {
        &&& forall|i: int|
            0 <= i < self.coefficients@.len() && i < other.coefficients@.len() ==> (
            #[trigger] self.coefficients@[i]).ssub_ok(&other.coefficients@[i])
        &&& forall|i: int|
            self.coefficients@.len() <= i < other.coefficients@.len() ==> (
            #[trigger] other.coefficients@[i]).sneg_ok()
    }

    open spec fn smul_ok(&self, other: &Self) -> bool {
        &&& self.coefficients@.len() + other.coefficients@.len() - 1 <= usize::MAX
        &&& forall|i: int, j: int|
            0 <= i < self.coefficients@.len() && 0 <= j < other.coefficients@.len()
                ==> #[trigger] self.coefficients@[i].smul_ok(&other.coefficients@[j])
        &&& forall|k: int, tr: Seq<R>, prod: R|
            (#[trigger] conv_partial(self.coefficients@, other.coefficients@, k, tr)) && 0 <= k
                < self.coefficients@.len() + other.coefficients@.len() - 1 && 0 <= tr.len() - 1 <= k
                && tr.len() - 1 < self.coefficients@.len() && 0 <= k - (tr.len() - 1)
                < other.coefficients@.len() && (#[trigger] prod.is_mul(
                &self.coefficients@[tr.len() - 1],
                &other.coefficients@[k - (tr.len() - 1)],
            )) ==> tr.last().sadd_ok(&prod)
    }

    open spec fn sneg_ok(&self) -> bool {
        &&& forall|o: R| #[trigger] o.is_one_val() ==> o.sneg_ok()
        &&& forall|i: int, n: R|
            0 <= i < self.coefficients@.len() && neg_one_val(&n)
                ==> #[trigger] n.smul_ok(&self.coefficients@[i])
    }

    open spec fn s_commutative() -> bool {
        false
    }

    open spec fn s_field(&self) -> Option<bool> {
        None
    }

    open spec fn inverse_post(&self, r: Option<Self>) -> bool {
        r is None
    }

    fn zero() -> (r: Self) {
        let mut v: Vec<R> = Vec::new();
        v.push(R::zero());
        proof {
            let z = v@[0];
            R::lemma_zero_wf(z);
            R::lemma_compat_refl(z);
        }
        UPolynomial { coefficients: v, degree: 0 }
    }

    fn one() -> (r: Self) {
        let mut v: Vec<R> = Vec::new();
        v.push(R::one());
        proof {
            let o = v@[0];
            R::lemma_one_wf(o);
            R::lemma_compat_refl(o);
        }
        UPolynomial { coefficients: v, degree: 0 }
    }

    fn dup(&self) -> (r: Self) {
        let n = self.coefficients.len();
        let mut out: Vec<R> = Vec::new();
        let mut i: usize = 0;
        while i < n
            invariant
                n == self.coefficients@.len(),
                i <= n,
                out@.len() == i,
                forall|j: int|
                    0 <= j < i ==> (#[trigger] out@[j]).is_dup(&self.coefficients@[j]),
            decreases n - i,
        {
            let c = self.coefficients[i].dup();
            out.push(c);
            i = i + 1;
        }
        UPolynomial { coefficients: out, degree: self.degree }
    }

    fn add(&self, other: &Self) -> (r: Self) {
        let alen = self.coefficients.len();
        let blen = other.coefficients.len();
        let common = if blen <= alen {
            blen
        } else {
            alen
        };
        let mut out: Vec<R> = Vec::new();
        let mut i: usize = 0;
        while i < common
            invariant
                self.wf(),
                other.wf(),
                self.compat(other),
                self.sadd_ok(other),
                alen == self.coefficients@.len(),
                blen == other.coefficients@.len(),
                common == if blen <= alen {
                    blen
                } else {
                    alen
                },
                i <= common,
                out@.len() == i,
                forall|j: int|
                    0 <= j < i ==> (#[trigger] out@[j]).is_add(
                        &self.coefficients@[j],
                        &other.coefficients@[j],
                    ),
            decreases common - i,
        {
            let c = self.coefficients[i].add(&other.coefficients[i]);
            out.push(c);
            i = i + 1;
        }
        if blen <= alen {
            let mut i: usize = common;
            while i < alen
                invariant
                    self.wf(),
                    blen <= alen,
                    common == blen,
                    alen == self.coefficients@.len(),
                    blen == other.coefficients@.len(),
                    common <= i <= alen,
                    out@.len() == i,
                    forall|j: int|
                        0 <= j < common ==> (#[trigger] out@[j]).is_add(
                            &self.coefficients@[j],
                            &other.coefficients@[j],
                        ),
                    forall|j: int|
                        common <= j < i ==> (#[trigger] out@[j]).is_dup(&self.coefficients@[j]),
                decreases alen - i,
            {
                let c = self.coefficients[i].dup();
                out.push(c);
                i = i + 1;
            }
            UPolynomial { coefficients: out, degree: self.degree }
        } else {
            let mut i: usize = common;
            while i < blen
                invariant
                    other.wf(),
                    blen > alen,
                    common == alen,
                    alen == self.coefficients@.len(),
                    blen == other.coefficients@.len(),
                    common <= i <= blen,
                    out@.len() == i,
                    forall|j: int|
                        0 <= j < common ==> (#[trigger] out@[j]).is_add(
                            &self.coefficients@[j],
                            &other.coefficients@[j],
                        ),
                    forall|j: int|
                        common <= j < i ==> (#[trigger] out@[j]).is_dup(&other.coefficients@[j]),
                decreases blen - i,
            {
                let c = other.coefficients[i].dup();
                out.push(c);
                i = i + 1;
            }
            UPolynomial { coefficients: out, degree: other.degree }
        }
    }

    fn sub(&self, other: &Self) -> (r: Self) {
        let alen = self.coefficients.len();
        let blen = other.coefficients.len();
        let mut out: Vec<R> = Vec::new();
        let common = if blen <= alen {
            blen
        } else {
            alen
        };
        let mut i: usize = 0;
        while i < common
            invariant
                self.wf(),
                other.wf(),
                self.compat(other),
                self.ssub_ok(other),
                alen == self.coefficients@.len(),
                blen == other.coefficients@.len(),
                common == if blen <= alen {
                    blen
                } else {
                    alen
                },
                i <= common,
                out@.len() == i,
                forall|j: int|
                    0 <= j < i ==> (#[trigger] out@[j]).is_sub(
                        &self.coefficients@[j],
                        &other.coefficients@[j],
                    ),
            decreases common - i,
        {
            let c = self.coefficients[i].sub(&other.coefficients[i]);
            out.push(c);
            i = i + 1;
        }
        if blen <= alen {
            let mut i: usize = common;
            while i < alen
                invariant
                    self.wf(),
                    blen <= alen,
                    common == blen,
                    alen == self.coefficients@.len(),
                    blen == other.coefficients@.len(),
                    common <= i <= alen,
                    out@.len() == i,
                    forall|j: int|
                        0 <= j < common ==> (#[trigger] out@[j]).is_sub(
                            &self.coefficients@[j],
                            &other.coefficients@[j],
                        ),
                    forall|j: int|
                        common <= j < i ==> (#[trigger] out@[j]).is_dup(&self.coefficients@[j]),
                decreases alen - i,
            {
                let c = self.coefficients[i].dup();
                out.push(c);
                i = i + 1;
            }
            UPolynomial { coefficients: out, degree: self.degree }
        } else {
            let mut i: usize = common;
            while i < blen
                invariant
                    other.wf(),
                    self.ssub_ok(other),
                    blen > alen,
                    common == alen,
                    alen == self.coefficients@.len(),
                    blen == other.coefficients@.len(),
                    common <= i <= blen,
                    out@.len() == i,
                    forall|j: int|
                        0 <= j < common ==> (#[trigger] out@[j]).is_sub(
                            &self.coefficients@[j],
                            &other.coefficients@[j],
                        ),
                    forall|j: int|
                        common <= j < i ==> (#[trigger] out@[j]).is_neg(&other.coefficients@[j]),
                decreases blen - i,
            {
                let c = other.coefficients[i].neg();
                out.push(c);
                i = i + 1;
            }
            UPolynomial { coefficients: out, degree: other.degree }
        }
    }

    fn mul(&self, other: &Self) -> (r: Self) {
        poly_mul(self, other)
    }

    fn neg(&self) -> (r: Self) {
        let o = R::one();
        proof {
            assert(o.sneg_ok());
        }
        let n = o.neg();
        let len = self.coefficients.len();
        let mut out: Vec<R> = Vec::new();
        let mut i: usize = 0;
        proof {
            R::lemma_neg_closed(o, n);
            assert(neg_one_val(&n));
        }
        while i < len
            invariant
                self.wf(),
                self.sneg_ok(),
                o.is_one_val(),
                o.wf(),
                n.is_neg(&o),
                neg_one_val::<R>(&n),
                n.wf(),
                len == self.coefficients@.len(),
                i <= len,
                out@.len() == i,
                forall|j: int|
                    0 <= j < i ==> (#[trigger] out@[j]).is_mul(&n, &self.coefficients@[j]),
            decreases len - i,
        {
            proof {
                R::lemma_one_props(o, self.coefficients@[i as int]);
                R::lemma_neg_closed(o, n);
                assert(n.compat(&self.coefficients@[i as int]));
                assert(n.smul_ok(&self.coefficients@[i as int]));
            }
            let c = n.mul(&self.coefficients[i]);
            out.push(c);
            i = i + 1;
        }
        let r = UPolynomial { coefficients: out, degree: self.degree };
        proof {
            assert forall|i: int| 0 <= i < self.coefficients@.len() implies #[trigger] neg_coeff_at(
                r.coefficients@,
                self.coefficients@,
                i,
            ) by {
                assert(r.coefficients@[i].is_mul(&n, &self.coefficients@[i]) && neg_one_val(&n));
            }
        }
        r
    }

    fn eq_elem(&self, other: &Self) -> (r: bool) {
        if self.coefficients.len() != other.coefficients.len() || self.degree != other.degree {
            return false;
        }
        let n = self.coefficients.len();
        let mut i: usize = 0;
        while i < n
            invariant
                self.wf(),
                other.wf(),
                n == self.coefficients@.len(),
                n == other.coefficients@.len(),
                i <= n,
                forall|j: int|
                    0 <= j < i ==> (#[trigger] self.coefficients@[j]).eq_spec(
                        &other.coefficients@[j],
                    ),
            decreases n - i,
        {
            if !self.coefficients[i].eq_elem(&other.coefficients[i]) {
                return false;
            }
            i = i + 1;
        }
        true
    }

    fn is_zero(&self) -> (r: bool) {
        self.degree == 0 && self.coefficients[0].is_zero()
    }

    fn is_one(&self) -> (r: bool) {
        self.degree == 0 && self.coefficients[0].is_one()
    }

    fn is_field(&self) -> (r: Option<bool>) {
        None
    }

    fn is_commutative(&self) -> (r: bool) {
        false
    }

    fn inverse(&self) -> (r: Option<Self>) {
        None
    }

    proof fn lemma_dup_refl(a: Self) {
        assert forall|i: int| 0 <= i < a.coefficients@.len() implies (
        #[trigger] a.coefficients@[i]).is_dup(&a.coefficients@[i]) by {
            R::lemma_dup_refl(a.coefficients@[i]);
        }
    }

    proof fn lemma_dup_props(a: Self, r: Self) {
        assert forall|i: int| 0 <= i < r.coefficients@.len() implies (
        #[trigger] r.coefficients@[i]).wf() by {
            R::lemma_dup_props(a.coefficients@[i], r.coefficients@[i]);
        }
        assert forall|i: int, j: int|
            0 <= i < r.coefficients@.len() && 0 <= j
                < r.coefficients@.len() implies #[trigger] r.coefficients@[i].compat(
            &r.coefficients@[j],
        ) by {
            R::lemma_dup_props(a.coefficients@[j], r.coefficients@[j]);
            R::lemma_compat_sym(a.coefficients@[i], r.coefficients@[j]);
            R::lemma_dup_props(a.coefficients@[i], r.coefficients@[i]);
            assert(r.coefficients@[j].compat(&a.coefficients@[i]));
            R::lemma_compat_sym(r.coefficients@[j], a.coefficients@[i]);
        }
        assert forall|c: Self| c.wf() && a.compat(&c) implies #[trigger] r.compat(&c) by {
            assert forall|i: int, j: int|
                0 <= i < r.coefficients@.len() && 0 <= j
                    < c.coefficients@.len() implies #[trigger] r.coefficients@[i].compat(
                &c.coefficients@[j],
            ) by {
                R::lemma_dup_props(a.coefficients@[i], r.coefficients@[i]);
            }
        }
    }

    proof fn lemma_compat_refl(a: Self) {
    }

    proof fn lemma_compat_sym(a: Self, b: Self) {
        if a.compat(&b) {
            assert forall|i: int, j: int|
                0 <= i < b.coefficients@.len() && 0 <= j
                    < a.coefficients@.len() implies #[trigger] b.coefficients@[i].compat(
                &a.coefficients@[j],
            ) by {
                assert(a.coefficients@[j].compat(&b.coefficients@[i]));
                R::lemma_compat_sym(a.coefficients@[j], b.coefficients@[i]);
            }
            assert(b.compat(&a));
        }
        if b.compat(&a) {
            assert forall|i: int, j: int|
                0 <= i < a.coefficients@.len() && 0 <= j
                    < b.coefficients@.len() implies #[trigger] a.coefficients@[i].compat(
                &b.coefficients@[j],
            ) by {
                assert(b.coefficients@[j].compat(&a.coefficients@[i]));
                R::lemma_compat_sym(b.coefficients@[j], a.coefficients@[i]);
            }
            assert(a.compat(&b));
        }
    }

    proof fn lemma_zero_wf(z: Self) {
        let zc = z.coefficients@[0];
        R::lemma_zero_wf(zc);
        R::lemma_compat_refl(zc);
        assert forall|i: int, j: int|
            0 <= i < z.coefficients@.len() && 0 <= j
                < z.coefficients@.len() implies #[trigger] z.coefficients@[i].compat(
            &z.coefficients@[j],
        ) by {
            assert(i == 0 && j == 0);
        }
    }

    proof fn lemma_zero_props(z: Self, a: Self) {
        let zc = z.coefficients@[0];
        Self::lemma_zero_wf(z);
        assert forall|i: int, j: int|
            0 <= i < z.coefficients@.len() && 0 <= j
                < a.coefficients@.len() implies #[trigger] z.coefficients@[i].compat(
            &a.coefficients@[j],
        ) by {
            R::lemma_zero_props(zc, a.coefficients@[j]);
        }
        assert forall|i: int, j: int|
            0 <= i < a.coefficients@.len() && 0 <= j
                < z.coefficients@.len() implies #[trigger] a.coefficients@[i].compat(
            &z.coefficients@[j],
        ) by {
            R::lemma_zero_props(zc, a.coefficients@[i]);
        }
        assert forall|i: int|
            0 <= i < z.coefficients@.len() && i < a.coefficients@.len() implies (
        #[trigger] z.coefficients@[i]).sadd_ok(&a.coefficients@[i]) && a.coefficients@[i].sadd_ok(
            &z.coefficients@[i],
        ) by {
            R::lemma_zero_props(zc, a.coefficients@[i]);
        }
        assert forall|i: int|
            0 <= i < a.coefficients@.len() && i < z.coefficients@.len() implies (
        #[trigger] a.coefficients@[i]).sadd_ok(&z.coefficients@[i]) && z.coefficients@[i].sadd_ok(
            &a.coefficients@[i],
        ) by {
            R::lemma_zero_props(zc, a.coefficients@[i]);
        }
    }

    proof fn lemma_one_wf(o: Self) {
        let oc = o.coefficients@[0];
        R::lemma_one_wf(oc);
        R::lemma_compat_refl(oc);
        assert forall|i: int, j: int|
            0 <= i < o.coefficients@.len() && 0 <= j
                < o.coefficients@.len() implies #[trigger] o.coefficients@[i].compat(
            &o.coefficients@[j],
        ) by {
            assert(i == 0 && j == 0);
        }
    }

    proof fn lemma_one_props(o: Self, a: Self) {
        let oc = o.coefficients@[0];
        Self::lemma_one_wf(o);
        assert forall|i: int, j: int|
            0 <= i < o.coefficients@.len() && 0 <= j
                < a.coefficients@.len() implies #[trigger] o.coefficients@[i].compat(
            &a.coefficients@[j],
        ) by {
            R::lemma_one_props(oc, a.coefficients@[j]);
        }
        assert forall|i: int, j: int|
            0 <= i < a.coefficients@.len() && 0 <= j
                < o.coefficients@.len() implies #[trigger] a.coefficients@[i].compat(
            &o.coefficients@[j],
        ) by {
            R::lemma_one_props(oc, a.coefficients@[i]);
        }
    }

    proof fn lemma_add_closed(a: Self, b: Self, r: Self) {
        lemma_poly_add_closed(a, b, r);
    }

    proof fn lemma_sub_closed(a: Self, b: Self, r: Self) {
        lemma_poly_sub_closed(a, b, r);
    }

    proof fn lemma_mul_closed(a: Self, b: Self, r: Self) {
        lemma_poly_mul_closed(a, b, r);
    }

    proof fn lemma_neg_closed(a: Self, r: Self) {
        lemma_poly_neg_closed(a, r);
    }
}

/// One step of the convolution fold for output index `k`: adding the term
/// `a[i] * b[k-i]` when both indices are in range, else passing through.
pub open spec fn conv_step<R: Ring>(a: Seq<R>, b: Seq<R>, k: int, i: int, prev: R, cur: R) -> bool {
    if 0 <= i < a.len() && 0 <= k - i < b.len() {
        exists|prod: R|
            (#[trigger] prod.is_mul(&a[i], &b[k - i])) && cur.is_add(&prev, &prod)
    } else {
        cur == prev
    }
}

/// `tr` traces the partial sums of the convolution at output index `k`:
/// `tr[0]` is a zero, `tr[i+1]` extends `tr[i]` by the term for `i`.
pub open spec fn conv_partial<R: Ring>(a: Seq<R>, b: Seq<R>, k: int, tr: Seq<R>) -> bool {
    &&& tr.len() >= 1
    &&& tr[0].is_zero_val()
    &&& forall|j: int| 0 <= j < tr.len() - 1 ==> conv_step(a, b, k, j, tr[j], #[trigger] tr[j + 1])
}

/// A complete convolution trace for output index `k` (all terms `0..=k`
/// consumed).
pub open spec fn conv_full<R: Ring>(a: Seq<R>, b: Seq<R>, k: int, tr: Seq<R>) -> bool {
    conv_partial(a, b, k, tr) && tr.len() == k + 2
}

/// Every element of a convolution trace is well formed and compatible with
/// everything the inputs are compatible with.
proof fn lemma_conv_elems<R: Ring>(a: Seq<R>, b: Seq<R>, k: int, tr: Seq<R>)
    requires
        seq_wf(a),
        seq_wf(b),
        seq_compat(a, b),
        conv_partial(a, b, k, tr),
        forall|i: int, j: int|
            0 <= i < a.len() && 0 <= j < b.len() ==> #[trigger] a[i].smul_ok(&b[j]),
        forall|tr2: Seq<R>, prod: R|
            (#[trigger] conv_partial(a, b, k, tr2)) && 0 <= tr2.len() - 1 <= k && tr2.len() - 1
                < a.len() && 0 <= k - (tr2.len() - 1) < b.len() && (#[trigger] prod.is_mul(
                &a[tr2.len() - 1],
                &b[k - (tr2.len() - 1)],
            )) ==> tr2.last().sadd_ok(&prod),
    ensures
        forall|j: int| 0 <= j < tr.len() ==> (#[trigger] tr[j]).wf(),
        forall|j: int, c: R|
            0 <= j < tr.len() && c.wf() && compat_with_all(c, a, b) ==> #[trigger] tr[j].compat(
                &c,
            ),
    decreases tr.len(),
{
    if tr.len() == 1 {
        R::lemma_zero_wf(tr[0]);
        assert forall|j: int, c: R|
            0 <= j < tr.len() && c.wf() && compat_with_all(c, a, b) implies #[trigger] tr[j].compat(
            &c,
        ) by {
            R::lemma_zero_props(tr[0], c);
        }
    } else {
        let pre = tr.subrange(0, tr.len() - 1);
        assert(conv_partial(a, b, k, pre)) by {
            assert forall|j: int| 0 <= j < pre.len() - 1 implies conv_step(
                a,
                b,
                k,
                j,
                pre[j],
                #[trigger] pre[j + 1],
            ) by {
                assert(pre[j] == tr[j] && pre[j + 1] == tr[j + 1]);
                assert(conv_step(a, b, k, j, tr[j], tr[j + 1]));
            }
        }
        lemma_conv_elems(a, b, k, pre);
        let step_i = tr.len() - 2;
        assert(conv_step(a, b, k, step_i, tr[step_i], tr[step_i + 1]));
        let prev = tr[step_i];
        let last = tr[step_i + 1];
        assert(prev == pre.last() && prev == pre[step_i]);
        assert(prev.wf());
        if 0 <= step_i < a.len() && 0 <= k - step_i < b.len() {
            let prod = choose|prod: R|
                (#[trigger] prod.is_mul(&a[step_i], &b[k - step_i])) && last.is_add(&prev, &prod);
            R::lemma_mul_closed(a[step_i], b[k - step_i], prod);
            assert(prod.compat(&prev)) by {
                assert(prev.compat(&a[step_i]) && prev.compat(&b[k - step_i])) by {
                    assert(compat_with_all(a[step_i], a, b)) by {
                        assert forall|jj: int|
                            0 <= jj < b.len() implies (#[trigger] b[jj]).compat(&a[step_i]) by {
                            R::lemma_compat_sym(a[step_i], b[jj]);
                        }
                    }
                    assert(compat_with_all(b[k - step_i], a, b)) by {
                        assert forall|jj: int|
                            0 <= jj < b.len() implies (#[trigger] b[jj]).compat(
                            &b[k - step_i],
                        ) by {}
                    }
                }
                assert(a[step_i].compat(&prev)) by {
                    R::lemma_compat_sym(prev, a[step_i]);
                }
                assert(b[k - step_i].compat(&prev)) by {
                    R::lemma_compat_sym(prev, b[k - step_i]);
                }
            }
            R::lemma_compat_sym(prod, prev);
            assert(prev.sadd_ok(&prod)) by {
                assert(conv_partial(a, b, k, pre));
                assert(pre.len() - 1 == step_i);
                assert(prod.is_mul(&a[pre.len() - 1], &b[k - (pre.len() - 1)]));
            }
            R::lemma_add_closed(prev, prod, last);
            assert forall|j: int| 0 <= j < tr.len() implies (#[trigger] tr[j]).wf() by {
                if j < tr.len() - 1 {
                    assert(tr[j] == pre[j]);
                }
            }
            assert forall|j: int, c: R|
                0 <= j < tr.len() && c.wf() && compat_with_all(c, a, b) implies #[trigger] tr[j].compat(
                &c,
            ) by {
                if j < tr.len() - 1 {
                    assert(tr[j] == pre[j]);
                } else {
                    assert(prev.compat(&c));
                    assert(prod.compat(&c)) by {
                        assert(a[step_i].compat(&c) && b[k - step_i].compat(&c));
                    }
                    assert(last.compat(&c));
                }
            }
        } else {
            assert(last == prev);
            assert forall|j: int| 0 <= j < tr.len() implies (#[trigger] tr[j]).wf() by {
                if j < tr.len() - 1 {
                    assert(tr[j] == pre[j]);
                }
            }
            assert forall|j: int, c: R|
                0 <= j < tr.len() && c.wf() && compat_with_all(c, a, b) implies #[trigger] tr[j].compat(
                &c,
            ) by {
                if j < tr.len() - 1 {
                    assert(tr[j] == pre[j]);
                }
            }
        }
    }
}

/// Elements separately compatible with two well-formed, mutually compatible
/// coefficient families are compatible with each other.
proof fn lemma_family_pairwise<R: Ring>(av: Seq<R>, bv: Seq<R>, rv: Seq<R>)
    requires
        seq_wf(av),
        seq_wf(bv),
        seq_compat(av, bv),
        forall|i: int| 0 <= i < rv.len() ==> (#[trigger] rv[i]).wf(),
        forall|i: int, x: R|
            0 <= i < rv.len() && x.wf() && compat_with_all(x, av, bv) ==> #[trigger] rv[i].compat(
                &x,
            ),
    ensures
        forall|i: int, j: int|
            0 <= i < rv.len() && 0 <= j < rv.len() ==> #[trigger] rv[i].compat(&rv[j]),
{
    assert forall|i: int, j: int|
        0 <= i < rv.len() && 0 <= j < rv.len() implies #[trigger] rv[i].compat(&rv[j]) by {
        assert(compat_with_all(rv[j], av, bv)) by {
            assert forall|ii: int| 0 <= ii < av.len() implies (#[trigger] av[ii]).compat(
                &rv[j],
            ) by {
                assert(compat_with_all(av[ii], av, bv)) by {
                    assert forall|jj: int| 0 <= jj < bv.len() implies (#[trigger] bv[jj]).compat(
                        &av[ii],
                    ) by {
                        R::lemma_compat_sym(av[ii], bv[jj]);
                    }
                }
                assert(rv[j].compat(&av[ii]));
                R::lemma_compat_sym(rv[j], av[ii]);
            }
            assert forall|jj: int| 0 <= jj < bv.len() implies (#[trigger] bv[jj]).compat(
                &rv[j],
            ) by {
                assert(compat_with_all(bv[jj], av, bv)) by {
                    assert forall|ii: int| 0 <= ii < av.len() implies (#[trigger] av[ii]).compat(
                        &bv[jj],
                    ) by {}
                }
                assert(rv[j].compat(&bv[jj]));
                R::lemma_compat_sym(rv[j], bv[jj]);
            }
        }
    }
}

proof fn lemma_poly_add_closed<R: Ring>(a: UPolynomial<R>, b: UPolynomial<R>, r: UPolynomial<R>)
    requires
        a.wf(),
        b.wf(),
        a.compat(&b),
        a.sadd_ok(&b),
        r.is_add(&a, &b),
    ensures
        r.wf(),
        forall|c: UPolynomial<R>|
            c.wf() && a.compat(&c) && b.compat(&c) ==> #[trigger] r.compat(&c),
{
    let av = a.coefficients@;
    let bv = b.coefficients@;
    let rv = r.coefficients@;
    assert forall|i: int| 0 <= i < rv.len() implies (#[trigger] rv[i]).wf() by {
        if i < av.len() && i < bv.len() {
            R::lemma_add_closed(av[i], bv[i], rv[i]);
        } else if i < av.len() {
            R::lemma_dup_props(av[i], rv[i]);
        } else {
            R::lemma_dup_props(bv[i], rv[i]);
        }
    }
    assert forall|i: int, x: R|
        0 <= i < rv.len() && x.wf() && compat_with_all(x, av, bv) implies #[trigger] rv[i].compat(
        &x,
    ) by {
        if i < av.len() && i < bv.len() {
            R::lemma_add_closed(av[i], bv[i], rv[i]);
        } else if i < av.len() {
            R::lemma_dup_props(av[i], rv[i]);
        } else {
            R::lemma_dup_props(bv[i], rv[i]);
        }
    }
    lemma_family_pairwise(av, bv, rv);
    assert forall|c: UPolynomial<R>|
        c.wf() && a.compat(&c) && b.compat(&c) implies #[trigger] r.compat(&c) by {
        assert forall|i: int, j: int|
            0 <= i < rv.len() && 0 <= j < c.coefficients@.len() implies #[trigger] rv[i].compat(
            &c.coefficients@[j],
        ) by {
            assert(c.coefficients@[j].wf());
            assert(compat_with_all(c.coefficients@[j], av, bv));
        }
    }
}

proof fn lemma_poly_sub_closed<R: Ring>(a: UPolynomial<R>, b: UPolynomial<R>, r: UPolynomial<R>)
    requires
        a.wf(),
        b.wf(),
        a.compat(&b),
        a.ssub_ok(&b),
        r.is_sub(&a, &b),
    ensures
        r.wf(),
        forall|c: UPolynomial<R>|
            c.wf() && a.compat(&c) && b.compat(&c) ==> #[trigger] r.compat(&c),
{
    let av = a.coefficients@;
    let bv = b.coefficients@;
    let rv = r.coefficients@;
    assert forall|i: int| 0 <= i < rv.len() implies (#[trigger] rv[i]).wf() by {
        if bv.len() <= av.len() {
            if i < bv.len() {
                R::lemma_sub_closed(av[i], bv[i], rv[i]);
            } else {
                R::lemma_dup_props(av[i], rv[i]);
            }
        } else {
            if i < av.len() {
                R::lemma_sub_closed(av[i], bv[i], rv[i]);
            } else {
                R::lemma_neg_closed(bv[i], rv[i]);
            }
        }
    }
    assert forall|i: int, x: R|
        0 <= i < rv.len() && x.wf() && compat_with_all(x, av, bv) implies #[trigger] rv[i].compat(
        &x,
    ) by {
        if bv.len() <= av.len() {
            if i < bv.len() {
                R::lemma_sub_closed(av[i], bv[i], rv[i]);
            } else {
                R::lemma_dup_props(av[i], rv[i]);
            }
        } else {
            if i < av.len() {
                R::lemma_sub_closed(av[i], bv[i], rv[i]);
            } else {
                R::lemma_neg_closed(bv[i], rv[i]);
            }
        }
    }
    lemma_family_pairwise(av, bv, rv);
    assert forall|c: UPolynomial<R>|
        c.wf() && a.compat(&c) && b.compat(&c) implies #[trigger] r.compat(&c) by {
        assert forall|i: int, j: int|
            0 <= i < rv.len() && 0 <= j < c.coefficients@.len() implies #[trigger] rv[i].compat(
            &c.coefficients@[j],
        ) by {
            assert(c.coefficients@[j].wf());
            assert(compat_with_all(c.coefficients@[j], av, bv));
        }
    }
}

proof fn lemma_poly_mul_closed<R: Ring>(a: UPolynomial<R>, b: UPolynomial<R>, r: UPolynomial<R>)
    requires
        a.wf(),
        b.wf(),
        a.compat(&b),
        a.smul_ok(&b),
        r.is_mul(&a, &b),
    ensures
        r.wf(),
        forall|c: UPolynomial<R>|
            c.wf() && a.compat(&c) && b.compat(&c) ==> #[trigger] r.compat(&c),
{
    let av = a.coefficients@;
    let bv = b.coefficients@;
    let rv = r.coefficients@;
    assert forall|i: int| 0 <= i < rv.len() implies (#[trigger] rv[i]).wf() && (forall|x: R|
        x.wf() && compat_with_all(x, av, bv) ==> #[trigger] rv[i].compat(&x)) by {
        assert(conv_coeff_at(av, bv, rv, i));
        let tr = choose|tr: Seq<R>| (#[trigger] conv_full(av, bv, i, tr)) && rv[i].is_dup(
            &tr.last(),
        );
        assert forall|tr2: Seq<R>, prod: R|
            (#[trigger] conv_partial(av, bv, i, tr2)) && 0 <= tr2.len() - 1 <= i && tr2.len() - 1
                < av.len() && 0 <= i - (tr2.len() - 1) < bv.len() && (#[trigger] prod.is_mul(
                &av[tr2.len() - 1],
                &bv[i - (tr2.len() - 1)],
            )) implies tr2.last().sadd_ok(&prod) by {
            assert(0 <= i < av.len() + bv.len() - 1);
        }
        lemma_conv_elems(av, bv, i, tr);
        assert(tr.last() == tr[tr.len() - 1]);
        R::lemma_dup_props(tr.last(), rv[i]);
    }
    assert forall|i: int, x: R|
        0 <= i < rv.len() && x.wf() && compat_with_all(x, av, bv) implies #[trigger] rv[i].compat(
        &x,
    ) by {}
    lemma_family_pairwise(av, bv, rv);
    assert forall|c: UPolynomial<R>|
        c.wf() && a.compat(&c) && b.compat(&c) implies #[trigger] r.compat(&c) by {
        assert forall|i: int, j: int|
            0 <= i < rv.len() && 0 <= j < c.coefficients@.len() implies #[trigger] rv[i].compat(
            &c.coefficients@[j],
        ) by {
            assert(c.coefficients@[j].wf());
            assert(compat_with_all(c.coefficients@[j], av, bv));
        }
    }
}

proof fn lemma_poly_neg_closed<R: Ring>(a: UPolynomial<R>, r: UPolynomial<R>)
    requires
        a.wf(),
        a.sneg_ok(),
        r.is_neg(&a),
    ensures
        r.wf(),
        forall|c: UPolynomial<R>| c.wf() && a.compat(&c) ==> #[trigger] r.compat(&c),
{
    let av = a.coefficients@;
    let bv = Seq::<R>::empty();
    let rv = r.coefficients@;
    assert forall|i: int| 0 <= i < rv.len() implies (#[trigger] rv[i]).wf() && (forall|x: R|
        x.wf() && compat_with_all(x, av, bv) ==> #[trigger] rv[i].compat(&x)) by {
        assert(neg_coeff_at(rv, av, i));
        let n = choose|n: R| (#[trigger] rv[i].is_mul(&n, &av[i])) && neg_one_val(&n);
        let o = choose|o: R| (#[trigger] o.is_one_val()) && n.is_neg(&o);
        R::lemma_one_props(o, av[i]);
        assert(o.sneg_ok());
        R::lemma_neg_closed(o, n);
        assert(n.wf());
        assert(n.compat(&av[i]));
        assert(n.smul_ok(&av[i]));
        R::lemma_mul_closed(n, av[i], rv[i]);
        assert forall|x: R| x.wf() && compat_with_all(x, av, bv) implies #[trigger] rv[i].compat(
            &x,
        ) by {
            assert(av[i].compat(&x));
            assert(n.compat(&x)) by {
                R::lemma_one_props(o, x);
            }
        }
    }
    assert forall|i: int, x: R|
        0 <= i < rv.len() && x.wf() && compat_with_all(x, av, bv) implies #[trigger] rv[i].compat(
        &x,
    ) by {}
    lemma_family_pairwise(av, bv, rv);
    assert forall|c: UPolynomial<R>| c.wf() && a.compat(&c) implies #[trigger] r.compat(&c) by {
        assert forall|i: int, j: int|
            0 <= i < rv.len() && 0 <= j < c.coefficients@.len() implies #[trigger] rv[i].compat(
            &c.coefficients@[j],
        ) by {
            assert(c.coefficients@[j].wf());
            assert(compat_with_all(c.coefficients@[j], av, bv));
        }
    }
}

/// Full discrete convolution: output coefficient `k` is the sum of
/// `a[i] * b[k-i]` over all in-range `i`.
fn poly_mul<R: Ring>(a: &UPolynomial<R>, b: &UPolynomial<R>) -> (r: UPolynomial<R>)
    requires
        a.wf(),
        b.wf(),
        a.compat(b),
        a.smul_ok(b),
    ensures
        r.is_mul(a, b),
{
    let av = &a.coefficients;
    let bv = &b.coefficients;
    let alen = av.len();
    let blen = bv.len();
    let n = alen - 1 + blen;
    let mut out: Vec<R> = Vec::new();
    let mut k: usize = 0;
    while k < n
        invariant
            a.wf(),
            b.wf(),
            a.compat(b),
            a.smul_ok(b),
            alen == av@.len(),
            blen == bv@.len(),
            av@ == a.coefficients@,
            bv@ == b.coefficients@,
            alen >= 1,
            blen >= 1,
            n == alen + blen - 1,
            k <= n,
            out@.len() == k,
            forall|kk: int| 0 <= kk < k ==> #[trigger] conv_coeff_at(av@, bv@, out@, kk),
        decreases n - k,
    {
        let mut acc = R::zero();
        let ghost mut tr: Seq<R> = seq![acc];
        proof {
            assert(conv_partial(av@, bv@, k as int, tr));
            assert(tr.last() == acc);
            assert forall|tr2: Seq<R>, prod: R|
                (#[trigger] conv_partial(av@, bv@, k as int, tr2)) && 0 <= tr2.len() - 1
                    <= k as int && tr2.len() - 1 < av@.len() && 0 <= k as int - (tr2.len() - 1)
                    < bv@.len() && (#[trigger] prod.is_mul(
                    &av@[tr2.len() - 1],
                    &bv@[k as int - (tr2.len() - 1)],
                )) implies tr2.last().sadd_ok(&prod) by {
                assert(0 <= k < av@.len() + bv@.len() - 1);
            }
        }
        let mut i: usize = 0;
        while i <= k
            invariant
                a.wf(),
                b.wf(),
                a.compat(b),
                a.smul_ok(b),
                alen == av@.len(),
                blen == bv@.len(),
                av@ == a.coefficients@,
                bv@ == b.coefficients@,
                alen >= 1,
                blen >= 1,
                n == alen + blen - 1,
                k < n,
                i <= k + 1,
                tr.len() == i + 1,
                tr.last() == acc,
                conv_partial(av@, bv@, k as int, tr),
            decreases k + 1 - i,
        {
            proof {
                assert forall|tr2: Seq<R>, prod: R|
                    (#[trigger] conv_partial(av@, bv@, k as int, tr2)) && 0 <= tr2.len() - 1
                        <= k as int && tr2.len() - 1 < av@.len() && 0 <= k as int - (tr2.len() - 1)
                        < bv@.len() && (#[trigger] prod.is_mul(
                        &av@[tr2.len() - 1],
                        &bv@[k as int - (tr2.len() - 1)],
                    )) implies tr2.last().sadd_ok(&prod) by {
                    assert(0 <= k < av@.len() + bv@.len() - 1);
                }
                lemma_conv_elems(av@, bv@, k as int, tr);
            }
            if i < alen && k - i < blen {
                proof {
                    assert(acc == tr.last());
                    assert(acc.wf());
                    assert(compat_with_all(acc, av@, bv@)) by {
                        assert forall|ii: int| 0 <= ii < av@.len() implies (
                        #[trigger] av@[ii]).compat(&acc) by {
                            assert(compat_with_all(av@[ii], av@, bv@)) by {
                                assert forall|jj: int| 0 <= jj < bv@.len() implies (
                                #[trigger] bv@[jj]).compat(&av@[ii]) by {
                                    R::lemma_compat_sym(av@[ii], bv@[jj]);
                                }
                            }
                            assert(acc.compat(&av@[ii]));
                            R::lemma_compat_sym(acc, av@[ii]);
                        }
                        assert forall|jj: int| 0 <= jj < bv@.len() implies (
                        #[trigger] bv@[jj]).compat(&acc) by {
                            assert(compat_with_all(bv@[jj], av@, bv@)) by {
                                assert forall|ii: int| 0 <= ii < av@.len() implies (
                                #[trigger] av@[ii]).compat(&bv@[jj]) by {}
                            }
                            assert(acc.compat(&bv@[jj]));
                            R::lemma_compat_sym(acc, bv@[jj]);
                        }
                    }
                    assert(acc.compat(&av@[i as int])) by {
                        assert(compat_with_all(av@[i as int], av@, bv@)) by {
                            assert forall|jj: int| 0 <= jj < bv@.len() implies (
                            #[trigger] bv@[jj]).compat(&av@[i as int]) by {
                                R::lemma_compat_sym(av@[i as int], bv@[jj]);
                            }
                        }
                    }
                }
                let prod = av[i].mul(&bv[k - i]);
                proof {
                    R::lemma_mul_closed(av@[i as int], bv@[(k - i) as int], prod);
                    assert(prod.compat(&acc)) by {
                        assert(av@[i as int].compat(&acc));
                        assert(bv@[(k - i) as int].compat(&acc));
                    }
                    R::lemma_compat_sym(prod, acc);
                    assert(acc.sadd_ok(&prod)) by {
                        assert(conv_partial(av@, bv@, k as int, tr));
                        assert(tr.len() - 1 == i);
                        assert(prod.is_mul(&av@[tr.len() - 1], &bv@[k as int - (tr.len() - 1)]));
                    }
                }
                acc = acc.add(&prod);
                proof {
                    let old_tr = tr;
                    tr = tr.push(acc);
                    assert(conv_step(av@, bv@, k as int, i as int, old_tr.last(), acc));
                    assert(conv_partial(av@, bv@, k as int, tr)) by {
                        assert forall|j: int| 0 <= j < tr.len() - 1 implies conv_step(
                            av@,
                            bv@,
                            k as int,
                            j,
                            tr[j],
                            #[trigger] tr[j + 1],
                        ) by {
                            if j < old_tr.len() - 1 {
                                assert(tr[j] == old_tr[j] && tr[j + 1] == old_tr[j + 1]);
                                assert(conv_step(av@, bv@, k as int, j, old_tr[j], old_tr[j + 1]));
                            } else {
                                assert(tr[j] == old_tr.last() && tr[j + 1] == acc);
                            }
                        }
                    }
                }
            } else {
                proof {
                    let old_tr = tr;
                    tr = tr.push(acc);
                    assert(conv_step(av@, bv@, k as int, i as int, old_tr.last(), acc));
                    assert(conv_partial(av@, bv@, k as int, tr)) by {
                        assert forall|j: int| 0 <= j < tr.len() - 1 implies conv_step(
                            av@,
                            bv@,
                            k as int,
                            j,
                            tr[j],
                            #[trigger] tr[j + 1],
                        ) by {
                            if j < old_tr.len() - 1 {
                                assert(tr[j] == old_tr[j] && tr[j + 1] == old_tr[j + 1]);
                                assert(conv_step(av@, bv@, k as int, j, old_tr[j], old_tr[j + 1]));
                            } else {
                                assert(tr[j] == old_tr.last() && tr[j + 1] == acc);
                            }
                        }
                    }
                }
            }
            i = i + 1;
        }
        proof {
            assert forall|tr2: Seq<R>, prod: R|
                (#[trigger] conv_partial(av@, bv@, k as int, tr2)) && 0 <= tr2.len() - 1
                    <= k as int && tr2.len() - 1 < av@.len() && 0 <= k as int - (tr2.len() - 1)
                    < bv@.len() && (#[trigger] prod.is_mul(
                    &av@[tr2.len() - 1],
                    &bv@[k as int - (tr2.len() - 1)],
                )) implies tr2.last().sadd_ok(&prod) by {
                assert(0 <= k < av@.len() + bv@.len() - 1);
            }
            lemma_conv_elems(av@, bv@, k as int, tr);
            assert(acc.wf());
            R::lemma_dup_refl(acc);
        }
        let ghost old_out = out@;
        out.push(acc);
        proof {
            assert(conv_full(av@, bv@, k as int, tr));
            assert(out@[k as int].is_dup(&tr.last()));
            assert forall|kk: int| 0 <= kk < k + 1 implies #[trigger] conv_coeff_at(
                av@,
                bv@,
                out@,
                kk,
            ) by {
                if kk < k {
                    assert(conv_coeff_at(av@, bv@, old_out, kk));
                    let tr0 = choose|tr0: Seq<R>|
                        (#[trigger] conv_full(av@, bv@, kk, tr0)) && old_out[kk].is_dup(
                            &tr0.last(),
                        );
                    assert(out@[kk].is_dup(&tr0.last()));
                }
            }
        }
        k = k + 1;
    }
    let r = UPolynomial { coefficients: out, degree: a.degree + b.degree };
    r
}

/// A ring of polynomials: a ring with a distinguished coefficient ring and
/// a number of indeterminates.
pub trait Polynomial: Ring {
    type CoefRing: Ring;

    /// The number of indeterminates.
    spec fn s_dim(&self) -> usize;

    fn dim(&self) -> (r: usize)
        ensures
            r == self.s_dim(),
    ;
}

impl<R: Ring> Polynomial for UPolynomial<R> {
    type CoefRing = R;

    open spec fn s_dim(&self) -> usize {
        1
    }

    fn dim(&self) -> (r: usize) {
        1
    }
}



impl<R: MulLaws> AddLaws for UPolynomial<R> {
    proof fn lemma_eqv_refl(a: Self) {
        assert forall|i: int| 0 <= i < a.coefficients@.len() implies (
        #[trigger] a.coefficients@[i]).eqv(&a.coefficients@[i]) by {
            R::lemma_eqv_refl(a.coefficients@[i]);
        }
    }

    proof fn lemma_eqv_sym(a: Self, b: Self) {
        assert forall|i: int| 0 <= i < b.coefficients@.len() implies (
        #[trigger] b.coefficients@[i]).eqv(&a.coefficients@[i]) by {
            R::lemma_eqv_sym(a.coefficients@[i], b.coefficients@[i]);
        }
    }

    proof fn lemma_dup_eqv(a: Self, r: Self) {
        assert forall|i: int| 0 <= i < r.coefficients@.len() implies (
        #[trigger] r.coefficients@[i]).eqv(&a.coefficients@[i]) by {
            R::lemma_dup_eqv(a.coefficients@[i], r.coefficients@[i]);
        }
    }

    proof fn lemma_dup_subst(x: Self, y: Self) {
        let xv = x.coefficients@;
        let yv = y.coefficients@;
        assert forall|i: int| 0 <= i < yv.len() implies (#[trigger] yv[i]).wf() && xv[i].is_dup(
            &yv[i],
        ) by {}
        assert forall|z: Self| z.wf() && y.eqv(&z) implies #[trigger] x.eqv(&z) by {
            assert forall|i: int| 0 <= i < xv.len() implies (#[trigger] xv[i]).eqv(
                &z.coefficients@[i],
            ) by {
                R::lemma_dup_subst(xv[i], yv[i]);
                assert(yv[i].eqv(&z.coefficients@[i]));
            }
        }
        assert forall|z: Self| z.wf() && z.eqv(&y) implies #[trigger] z.eqv(&x) by {
            assert forall|i: int| 0 <= i < xv.len() implies (#[trigger] z.coefficients@[i]).eqv(
                &xv[i],
            ) by {
                R::lemma_dup_subst(xv[i], yv[i]);
                assert(z.coefficients@[i].eqv(&yv[i]));
            }
        }
        assert forall|a: Self, b: Self| #[trigger] y.is_add(&a, &b) implies x.is_add(&a, &b) by {
            let av = a.coefficients@;
            let bv = b.coefficients@;
            assert forall|i: int|
                0 <= i < av.len() && i < bv.len() implies (#[trigger] xv[i]).is_add(
                &av[i],
                &bv[i],
            ) by {
                R::lemma_dup_subst(xv[i], yv[i]);
                assert(yv[i].is_add(&av[i], &bv[i]));
            }
            assert forall|i: int|
                bv.len() <= i < av.len() implies (#[trigger] xv[i]).is_dup(&av[i]) by {
                R::lemma_dup_subst(xv[i], yv[i]);
                assert(yv[i].is_dup(&av[i]));
            }
            assert forall|i: int|
                av.len() <= i < bv.len() implies (#[trigger] xv[i]).is_dup(&bv[i]) by {
                R::lemma_dup_subst(xv[i], yv[i]);
                assert(yv[i].is_dup(&bv[i]));
            }
        }
        assert forall|a: Self, b: Self| #[trigger] y.is_sub(&a, &b) implies x.is_sub(&a, &b) by {
            let av = a.coefficients@;
            let bv = b.coefficients@;
            assert forall|i: int|
                0 <= i < av.len() && i < bv.len() implies (#[trigger] xv[i]).is_sub(
                &av[i],
                &bv[i],
            ) by {
                R::lemma_dup_subst(xv[i], yv[i]);
                assert(yv[i].is_sub(&av[i], &bv[i]));
            }
            if bv.len() <= av.len() {
                assert forall|i: int|
                    bv.len() <= i < av.len() implies (#[trigger] xv[i]).is_dup(&av[i]) by {
                    R::lemma_dup_subst(xv[i], yv[i]);
                    assert(yv[i].is_dup(&av[i]));
                }
            } else {
                assert forall|i: int|
                    av.len() <= i < bv.len() implies (#[trigger] xv[i]).is_neg(&bv[i]) by {
                    R::lemma_dup_subst(xv[i], yv[i]);
                    assert(yv[i].is_neg(&bv[i]));
                }
            }
        }
        assert forall|a: Self, b: Self| #[trigger] y.is_mul(&a, &b) implies x.is_mul(&a, &b) by {
            let av = a.coefficients@;
            let bv = b.coefficients@;
            assert forall|k: int| 0 <= k < xv.len() implies #[trigger] conv_coeff_at(
                av,
                bv,
                xv,
                k,
            ) by {
                assert(conv_coeff_at(av, bv, yv, k));
                let tr = choose|tr: Seq<R>| (#[trigger] conv_full(av, bv, k, tr)) && yv[k].is_dup(
                    &tr.last(),
                );
                R::lemma_dup_subst(xv[k], yv[k]);
                assert(xv[k].is_dup(&tr.last()));
            }
        }
        assert forall|a: Self| #[trigger] y.is_neg(&a) implies x.is_neg(&a) by {
            let av = a.coefficients@;
            assert forall|i: int| 0 <= i < av.len() implies #[trigger] neg_coeff_at(
                xv,
                av,
                i,
            ) by {
                assert(neg_coeff_at(yv, av, i));
                let n = choose|n: R| (#[trigger] yv[i].is_mul(&n, &av[i])) && neg_one_val(&n);
                R::lemma_dup_subst(xv[i], yv[i]);
                assert(xv[i].is_mul(&n, &av[i]) && neg_one_val(&n));
            }
        }
        assert forall|r: Self, a: Self| #[trigger] r.is_add(&a, &x) implies r.is_add(&a, &y) by {
            let av = a.coefficients@;
            let rv = r.coefficients@;
            assert forall|i: int|
                0 <= i < av.len() && i < yv.len() implies (#[trigger] rv[i]).is_add(
                &av[i],
                &yv[i],
            ) by {
                R::lemma_dup_subst(xv[i], yv[i]);
                assert(rv[i].is_add(&av[i], &xv[i]));
            }
            assert forall|i: int|
                av.len() <= i < yv.len() implies (#[trigger] rv[i]).is_dup(&yv[i]) by {
                assert(rv[i].is_dup(&xv[i]));
                assert(yv[i].wf()) by {}
                assert(xv[i].wf()) by {
                    R::lemma_dup_props(yv[i], xv[i]);
                }
                R::lemma_dup_subst(rv[i], xv[i]);
                assert(xv[i].is_dup(&yv[i]));
            }
        }
        assert forall|r: Self, a: Self| #[trigger] r.is_add(&x, &a) implies r.is_add(&y, &a) by {
            let av = a.coefficients@;
            let rv = r.coefficients@;
            assert forall|i: int|
                0 <= i < yv.len() && i < av.len() implies (#[trigger] rv[i]).is_add(
                &yv[i],
                &av[i],
            ) by {
                R::lemma_dup_subst(xv[i], yv[i]);
                assert(rv[i].is_add(&xv[i], &av[i]));
            }
            assert forall|i: int|
                av.len() <= i < yv.len() implies (#[trigger] rv[i]).is_dup(&yv[i]) by {
                assert(rv[i].is_dup(&xv[i]));
                assert(xv[i].wf()) by {
                    R::lemma_dup_props(yv[i], xv[i]);
                }
                R::lemma_dup_subst(rv[i], xv[i]);
                assert(xv[i].is_dup(&yv[i]));
            }
        }
        assert forall|r: Self, a: Self| #[trigger] r.is_sub(&a, &x) implies r.is_sub(&a, &y) by {
            let av = a.coefficients@;
            let rv = r.coefficients@;
            assert forall|i: int|
                0 <= i < av.len() && i < yv.len() implies (#[trigger] rv[i]).is_sub(
                &av[i],
                &yv[i],
            ) by {
                R::lemma_dup_subst(xv[i], yv[i]);
                assert(rv[i].is_sub(&av[i], &xv[i]));
            }
            if yv.len() <= av.len() {
                assert forall|i: int|
                    yv.len() <= i < av.len() implies (#[trigger] rv[i]).is_dup(&av[i]) by {
                    assert(rv[i].is_dup(&av[i]));
                }
            } else {
                assert forall|i: int|
                    av.len() <= i < yv.len() implies (#[trigger] rv[i]).is_neg(&yv[i]) by {
                    R::lemma_dup_subst(xv[i], yv[i]);
                    assert(rv[i].is_neg(&xv[i]));
                }
            }
        }
        assert forall|r: Self, a: Self| #[trigger] r.is_sub(&x, &a) implies r.is_sub(&y, &a) by {
            let av = a.coefficients@;
            let rv = r.coefficients@;
            assert forall|i: int|
                0 <= i < yv.len() && i < av.len() implies (#[trigger] rv[i]).is_sub(
                &yv[i],
                &av[i],
            ) by {
                R::lemma_dup_subst(xv[i], yv[i]);
                assert(rv[i].is_sub(&xv[i], &av[i]));
            }
            if av.len() <= yv.len() {
                assert forall|i: int|
                    av.len() <= i < yv.len() implies (#[trigger] rv[i]).is_dup(&yv[i]) by {
                    assert(rv[i].is_dup(&xv[i]));
                    assert(xv[i].wf()) by {
                        R::lemma_dup_props(yv[i], xv[i]);
                    }
                    R::lemma_dup_subst(rv[i], xv[i]);
                    assert(xv[i].is_dup(&yv[i]));
                }
            } else {
                assert forall|i: int|
                    yv.len() <= i < av.len() implies (#[trigger] rv[i]).is_neg(&av[i]) by {
                    assert(rv[i].is_neg(&av[i]));
                }
            }
        }
        assert forall|r: Self, a: Self| #[trigger] r.is_mul(&a, &x) implies r.is_mul(&a, &y) by {
            let av = a.coefficients@;
            let rv = r.coefficients@;
            assert forall|k: int| 0 <= k < rv.len() implies #[trigger] conv_coeff_at(
                av,
                yv,
                rv,
                k,
            ) by {
                assert(conv_coeff_at(av, xv, rv, k));
                let tr = choose|tr: Seq<R>| (#[trigger] conv_full(av, xv, k, tr)) && rv[k].is_dup(
                    &tr.last(),
                );
                assert(conv_full(av, yv, k, tr)) by {
                    assert forall|j: int| 0 <= j < tr.len() - 1 implies conv_step(
                        av,
                        yv,
                        k,
                        j,
                        tr[j],
                        #[trigger] tr[j + 1],
                    ) by {
                        assert(conv_step(av, xv, k, j, tr[j], tr[j + 1]));
                        if 0 <= j < av.len() && 0 <= k - j < xv.len() {
                            let prod = choose|prod: R|
                                (#[trigger] prod.is_mul(&av[j], &xv[k - j])) && tr[j + 1].is_add(
                                    &tr[j],
                                    &prod,
                                );
                            R::lemma_dup_subst(xv[k - j], yv[k - j]);
                            assert(prod.is_mul(&av[j], &yv[k - j]));
                        }
                    }
                }
            }
        }
        assert forall|r: Self, a: Self| #[trigger] r.is_mul(&x, &a) implies r.is_mul(&y, &a) by {
            let av = a.coefficients@;
            let rv = r.coefficients@;
            assert forall|k: int| 0 <= k < rv.len() implies #[trigger] conv_coeff_at(
                yv,
                av,
                rv,
                k,
            ) by {
                assert(conv_coeff_at(xv, av, rv, k));
                let tr = choose|tr: Seq<R>| (#[trigger] conv_full(xv, av, k, tr)) && rv[k].is_dup(
                    &tr.last(),
                );
                assert(conv_full(yv, av, k, tr)) by {
                    assert forall|j: int| 0 <= j < tr.len() - 1 implies conv_step(
                        yv,
                        av,
                        k,
                        j,
                        tr[j],
                        #[trigger] tr[j + 1],
                    ) by {
                        assert(conv_step(xv, av, k, j, tr[j], tr[j + 1]));
                        if 0 <= j < xv.len() && 0 <= k - j < av.len() {
                            let prod = choose|prod: R|
                                (#[trigger] prod.is_mul(&xv[j], &av[k - j])) && tr[j + 1].is_add(
                                    &tr[j],
                                    &prod,
                                );
                            R::lemma_dup_subst(xv[j], yv[j]);
                            assert(prod.is_mul(&yv[j], &av[k - j]));
                        }
                    }
                }
            }
        }
        assert forall|r: Self| #[trigger] r.is_neg(&x) implies r.is_neg(&y) by {
            let rv = r.coefficients@;
            assert forall|i: int| 0 <= i < yv.len() implies #[trigger] neg_coeff_at(
                rv,
                yv,
                i,
            ) by {
                assert(neg_coeff_at(rv, xv, i));
                let n = choose|n: R| (#[trigger] rv[i].is_mul(&n, &xv[i])) && neg_one_val(&n);
                R::lemma_dup_subst(xv[i], yv[i]);
                assert(rv[i].is_mul(&n, &yv[i]) && neg_one_val(&n));
            }
        }
        assert forall|a: Self| #[trigger] y.is_dup(&a) implies x.is_dup(&a) by {
            let av = a.coefficients@;
            assert forall|i: int| 0 <= i < av.len() implies (#[trigger] xv[i]).is_dup(
                &av[i],
            ) by {
                R::lemma_dup_subst(xv[i], yv[i]);
                assert(yv[i].is_dup(&av[i]));
            }
        }
        assert forall|r: Self| #[trigger] r.is_dup(&y) implies r.is_dup(&x) by {
            let rv = r.coefficients@;
            assert forall|i: int| 0 <= i < xv.len() implies (#[trigger] rv[i]).is_dup(
                &xv[i],
            ) by {
                assert(xv[i].wf()) by {
                    R::lemma_dup_props(yv[i], xv[i]);
                }
                R::lemma_dup_subst(rv[i], yv[i]);
                assert(rv[i].is_dup(&yv[i]));
                R::lemma_dup_subst(xv[i], yv[i]);
            }
        }
    }

    proof fn lemma_add_det(a: Self, b: Self, r1: Self, r2: Self) {
        let av = a.coefficients@;
        let bv = b.coefficients@;
        let v1 = r1.coefficients@;
        let v2 = r2.coefficients@;
        assert forall|i: int| 0 <= i < v1.len() implies (#[trigger] v1[i]).eqv(&v2[i]) by {
            if i < av.len() && i < bv.len() {
                R::lemma_add_det(av[i], bv[i], v1[i], v2[i]);
            } else {
                let h = if i < av.len() {
                    av[i]
                } else {
                    bv[i]
                };
                assert(v1[i].is_dup(&h) && v2[i].is_dup(&h));
                R::lemma_dup_props(h, v1[i]);
                R::lemma_dup_props(h, v2[i]);
                R::lemma_dup_eqv(h, v2[i]);
                R::lemma_dup_subst(v1[i], h);
                assert(v2[i].eqv(&v1[i]));
                R::lemma_eqv_sym(v2[i], v1[i]);
            }
        }
    }

    proof fn lemma_add_comm(a: Self, b: Self, r1: Self, r2: Self) {
        let av = a.coefficients@;
        let bv = b.coefficients@;
        let v1 = r1.coefficients@;
        let v2 = r2.coefficients@;
        assert forall|i: int| 0 <= i < v1.len() implies (#[trigger] v1[i]).eqv(&v2[i]) by {
            if i < av.len() && i < bv.len() {
                R::lemma_add_comm(av[i], bv[i], v1[i], v2[i]);
            } else {
                let h = if i < av.len() {
                    av[i]
                } else {
                    bv[i]
                };
                assert(v1[i].is_dup(&h) && v2[i].is_dup(&h));
                R::lemma_dup_props(h, v1[i]);
                R::lemma_dup_props(h, v2[i]);
                R::lemma_dup_eqv(h, v2[i]);
                R::lemma_dup_subst(v1[i], h);
                assert(v2[i].eqv(&v1[i]));
                R::lemma_eqv_sym(v2[i], v1[i]);
            }
        }
    }

    proof fn lemma_add_assoc(
        a: Self,
        b: Self,
        c: Self,
        ab: Self,
        abc1: Self,
        bc: Self,
        abc2: Self,
    ) {
        let av = a.coefficients@;
        let bv = b.coefficients@;
        let cv = c.coefficients@;
        let abv = ab.coefficients@;
        let bcv = bc.coefficients@;
        let v1 = abc1.coefficients@;
        let v2 = abc2.coefficients@;
        assert forall|i: int| 0 <= i < v1.len() implies (#[trigger] v1[i]).eqv(&v2[i]) by {
            let ina = i < av.len();
            let inb = i < bv.len();
            let inc = i < cv.len();
            if ina && inb && inc {
                R::lemma_add_assoc(av[i], bv[i], cv[i], abv[i], v1[i], bcv[i], v2[i]);
            } else if ina && inb {
                assert(abv[i].is_add(&av[i], &bv[i]));
                assert(v1[i].is_dup(&abv[i]));
                R::lemma_add_closed(av[i], bv[i], abv[i]);
                R::lemma_dup_subst(v1[i], abv[i]);
                assert(v1[i].is_add(&av[i], &bv[i]));
                assert(bcv[i].is_dup(&bv[i]));
                assert(v2[i].is_add(&av[i], &bcv[i]));
                R::lemma_dup_subst(bcv[i], bv[i]);
                assert(v2[i].is_add(&av[i], &bv[i]));
                R::lemma_add_det(av[i], bv[i], v1[i], v2[i]);
            } else if ina && inc {
                assert(abv[i].is_dup(&av[i]));
                assert(v1[i].is_add(&abv[i], &cv[i]));
                R::lemma_dup_props(av[i], abv[i]);
                R::lemma_dup_subst(abv[i], av[i]);
                assert(v1[i].is_add(&av[i], &cv[i]));
                assert(bcv[i].is_dup(&cv[i]));
                assert(v2[i].is_add(&av[i], &bcv[i]));
                R::lemma_dup_subst(bcv[i], cv[i]);
                assert(v2[i].is_add(&av[i], &cv[i]));
                R::lemma_add_det(av[i], cv[i], v1[i], v2[i]);
            } else if inb && inc {
                assert(abv[i].is_dup(&bv[i]));
                assert(v1[i].is_add(&abv[i], &cv[i]));
                R::lemma_dup_props(bv[i], abv[i]);
                R::lemma_dup_subst(abv[i], bv[i]);
                assert(v1[i].is_add(&bv[i], &cv[i]));
                assert(bcv[i].is_add(&bv[i], &cv[i]));
                assert(v2[i].is_dup(&bcv[i]));
                R::lemma_add_closed(bv[i], cv[i], bcv[i]);
                R::lemma_dup_subst(v2[i], bcv[i]);
                assert(v2[i].is_add(&bv[i], &cv[i]));
                R::lemma_add_det(bv[i], cv[i], v1[i], v2[i]);
            } else {
                let h = if ina {
                    av[i]
                } else if inb {
                    bv[i]
                } else {
                    cv[i]
                };
                assert(h.wf());
                if ina {
                    assert(abv[i].is_dup(&av[i]));
                    assert(v1[i].is_dup(&abv[i]));
                    R::lemma_dup_props(av[i], abv[i]);
                    R::lemma_dup_subst(v1[i], abv[i]);
                    assert(v1[i].is_dup(&av[i]));
                    assert(v2[i].is_dup(&av[i]));
                } else if inb {
                    assert(abv[i].is_dup(&bv[i]));
                    assert(v1[i].is_dup(&abv[i]));
                    R::lemma_dup_props(bv[i], abv[i]);
                    R::lemma_dup_subst(v1[i], abv[i]);
                    assert(v1[i].is_dup(&bv[i]));
                    assert(bcv[i].is_dup(&bv[i]));
                    assert(v2[i].is_dup(&bcv[i]));
                    R::lemma_dup_props(bv[i], bcv[i]);
                    R::lemma_dup_subst(v2[i], bcv[i]);
                    assert(v2[i].is_dup(&bv[i]));
                } else {
                    assert(abv.len() <= i);
                    assert(v1[i].is_dup(&cv[i]));
                    assert(bcv[i].is_dup(&cv[i]));
                    assert(v2[i].is_dup(&bcv[i]));
                    R::lemma_dup_props(cv[i], bcv[i]);
                    R::lemma_dup_subst(v2[i], bcv[i]);
                    assert(v2[i].is_dup(&cv[i]));
                }
                R::lemma_dup_props(h, v1[i]);
                R::lemma_dup_props(h, v2[i]);
                R::lemma_dup_eqv(h, v2[i]);
                R::lemma_dup_subst(v1[i], h);
                assert(v2[i].eqv(&v1[i]));
                R::lemma_eqv_sym(v2[i], v1[i]);
            }
        }
    }

    proof fn lemma_add_zero(a: Self, z: Self, r: Self) {
        let av = a.coefficients@;
        let zv = z.coefficients@;
        let rv = r.coefficients@;
        assert(zv.len() == 1);
        assert forall|i: int| 0 <= i < rv.len() implies (#[trigger] rv[i]).eqv(&av[i]) by {
            if i == 0 {
                R::lemma_zero_wf(zv[0]);
                R::lemma_add_zero(av[0], zv[0], rv[0]);
            } else {
                assert(rv[i].is_dup(&av[i]));
                R::lemma_dup_eqv(av[i], rv[i]);
            }
        }
    }

    proof fn lemma_add_neg(a: Self, n: Self, r: Self) {
        let av = a.coefficients@;
        let nv = n.coefficients@;
        let rv = r.coefficients@;
        assert forall|i: int| 0 <= i < rv.len() implies (#[trigger] rv[i]).zero_like() by {
            assert(neg_coeff_at(nv, av, i));
            let nn = choose|nn: R| (#[trigger] nv[i].is_mul(&nn, &av[i])) && neg_one_val(&nn);
            let o = choose|o: R| (#[trigger] o.is_one_val()) && nn.is_neg(&o);
            assert(o.sneg_ok());
            assert(nn.smul_ok(&av[i]));
            assert(rv[i].is_add(&av[i], &nv[i]));
            R::lemma_mul_negone_add_zero(av[i], o, nn, nv[i], rv[i]);
        }
    }

    proof fn lemma_add_cong(a: Self, b: Self, a2: Self, b2: Self, r: Self, r2: Self) {
        let av = a.coefficients@;
        let bv = b.coefficients@;
        let av2 = a2.coefficients@;
        let bv2 = b2.coefficients@;
        let rv = r.coefficients@;
        let rv2 = r2.coefficients@;
        assert(av.len() == av2.len() && bv.len() == bv2.len());
        assert forall|i: int| 0 <= i < rv.len() implies (#[trigger] rv[i]).eqv(&rv2[i]) by {
            if i < av.len() && i < bv.len() {
                R::lemma_add_cong(av[i], bv[i], av2[i], bv2[i], rv[i], rv2[i]);
            } else if i < av.len() {
                assert(rv[i].is_dup(&av[i]) && rv2[i].is_dup(&av2[i]));
                assert(av[i].eqv(&av2[i]));
                R::lemma_dup_props(av[i], rv[i]);
                R::lemma_dup_props(av2[i], rv2[i]);
                R::lemma_dup_subst(rv[i], av[i]);
                assert(rv[i].eqv(&av2[i]));
                R::lemma_dup_subst(rv2[i], av2[i]);
                assert(rv[i].eqv(&rv2[i]));
            } else {
                assert(rv[i].is_dup(&bv[i]) && rv2[i].is_dup(&bv2[i]));
                assert(bv[i].eqv(&bv2[i]));
                R::lemma_dup_props(bv[i], rv[i]);
                R::lemma_dup_props(bv2[i], rv2[i]);
                R::lemma_dup_subst(rv[i], bv[i]);
                assert(rv[i].eqv(&bv2[i]));
                R::lemma_dup_subst(rv2[i], bv2[i]);
                assert(rv[i].eqv(&rv2[i]));
            }
        }
    }

    proof fn lemma_sub_def(a: Self, b: Self, n: Self, r1: Self, r2: Self) {
        let av = a.coefficients@;
        let bv = b.coefficients@;
        let nv = n.coefficients@;
        let v1 = r1.coefficients@;
        let v2 = r2.coefficients@;
        assert(nv.len() == bv.len());
        assert forall|i: int| 0 <= i < v1.len() implies (#[trigger] v1[i]).eqv(&v2[i]) by {
            if i < av.len() && i < bv.len() {
                assert(neg_coeff_at(nv, bv, i));
                let nn = choose|nn: R| (#[trigger] nv[i].is_mul(&nn, &bv[i])) && neg_one_val(&nn);
                let o = choose|o: R| (#[trigger] o.is_one_val()) && nn.is_neg(&o);
                assert(o.sneg_ok());
                assert(nn.smul_ok(&bv[i]));
                assert(v1[i].is_sub(&av[i], &bv[i]));
                assert(v2[i].is_add(&av[i], &nv[i]));
                R::lemma_sub_eqv_add_mul_negone(av[i], bv[i], o, nn, nv[i], v1[i], v2[i]);
            } else if i < av.len() {
                assert(v1[i].is_dup(&av[i]) && v2[i].is_dup(&av[i]));
                R::lemma_dup_props(av[i], v1[i]);
                R::lemma_dup_props(av[i], v2[i]);
                R::lemma_dup_eqv(av[i], v2[i]);
                R::lemma_dup_subst(v1[i], av[i]);
                assert(v2[i].eqv(&v1[i]));
                R::lemma_eqv_sym(v2[i], v1[i]);
            } else {
                assert(v1[i].is_neg(&bv[i]));
                assert(v2[i].is_dup(&nv[i]));
                assert(neg_coeff_at(nv, bv, i));
                let nn = choose|nn: R| (#[trigger] nv[i].is_mul(&nn, &bv[i])) && neg_one_val(&nn);
                let o = choose|o: R| (#[trigger] o.is_one_val()) && nn.is_neg(&o);
                assert(o.sneg_ok());
                assert(nn.smul_ok(&bv[i]));
                assert(bv[i].sneg_ok());
                R::lemma_mul_negone_neg(bv[i], o, nn, nv[i], v1[i]);
                assert(v1[i].eqv(&nv[i]));
                R::lemma_one_wf(o);
                R::lemma_neg_closed(o, nn);
                R::lemma_one_props(o, bv[i]);
                assert(nn.compat(&bv[i]));
                R::lemma_mul_closed(nn, bv[i], nv[i]);
                R::lemma_neg_closed(bv[i], v1[i]);
                R::lemma_dup_subst(v2[i], nv[i]);
                assert(v1[i].eqv(&v2[i]));
            }
        }
    }
}

/// The direct power-sum value of a polynomial with the given integer
/// coefficients at `x`: the sum of `cs[i] * x^i`.
pub open spec fn direct_eval_int(cs: Seq<int>, x: int) -> int
    decreases cs.len(),
{
    if cs.len() == 0 {
        0
    } else {
        direct_eval_int(cs.drop_last(), x) + cs.last() * pow(x, (cs.len() - 1) as nat)
    }
}

/// The same value by the head recursion Horner's method follows:
/// `cs[0] + x * eval(tail)`.
pub open spec fn head_eval_int(cs: Seq<int>, x: int) -> int
    decreases cs.len(),
{
    if cs.len() == 0 {
        0
    } else {
        cs[0] + x * head_eval_int(cs.subrange(1, cs.len() as int), x)
    }
}

/// Peeling the constant coefficient off the direct power sum.
proof fn lemma_direct_eval_peel(cs: Seq<int>, x: int)
    requires
        cs.len() >= 1,
    ensures
        direct_eval_int(cs, x) == cs[0] + x * direct_eval_int(cs.subrange(1, cs.len() as int), x),
    decreases cs.len(),
{
    let n = cs.len() as int;
    let tail = cs.subrange(1, n);
    if n == 1 {
        assert(pow(x, 0) == 1) by {
            vstd::arithmetic::power::lemma_pow0(x);
        }
        assert(direct_eval_int(cs.drop_last(), x) == 0);
        assert(cs.last() * 1 == cs[0]);
    } else {
        let front = cs.drop_last();
        lemma_direct_eval_peel(front, x);
        assert(front.subrange(1, front.len() as int) =~= tail.drop_last());
        assert(cs.last() * pow(x, (n - 1) as nat) == x * (tail.last() * pow(x, (n - 2) as nat)))
            by {
            assert(pow(x, (n - 1) as nat) == x * pow(x, (n - 2) as nat)) by {
                vstd::arithmetic::power::lemma_pow_adds(x, 1, (n - 2) as nat);
                vstd::arithmetic::power::lemma_pow1(x);
            }
            assert(cs.last() == tail.last());
            assert(cs.last() * (x * pow(x, (n - 2) as nat)) == x * (cs.last() * pow(
                x,
                (n - 2) as nat,
            ))) by (nonlinear_arith);
        }
        assert(x * direct_eval_int(tail.drop_last(), x) + x * (tail.last() * pow(
            x,
            (n - 2) as nat,
        )) == x * (direct_eval_int(tail.drop_last(), x) + tail.last() * pow(x, (n - 2) as nat)))
            by (nonlinear_arith);
        assert(direct_eval_int(tail, x) == direct_eval_int(tail.drop_last(), x) + tail.last()
            * pow(x, (n - 2) as nat));
    }
}

/// The head recursion computes the direct power sum.
proof fn lemma_head_is_direct(cs: Seq<int>, x: int)
    ensures
        head_eval_int(cs, x) == direct_eval_int(cs, x),
    decreases cs.len(),
{
    if cs.len() >= 1 {
        let tail = cs.subrange(1, cs.len() as int);
        lemma_head_is_direct(tail, x);
        lemma_direct_eval_peel(cs, x);
    }
}

/// The integer values carried by a sequence of modular integers.
pub open spec fn modint_vals(cs: Seq<ModInt>) -> Seq<int> {
    Seq::new(cs.len(), |i: int| cs[i].value as int)
}

/// Along a Horner trace over modular integers bound to one modulus, the
/// running value is the head evaluation of the coefficients folded so far,
/// reduced modulo the modulus.
proof fn lemma_horner_pin_modint(cs: Seq<ModInt>, point: ModInt, tr: Seq<ModInt>, m: i128)
    requires
        1 <= m,
        cs.len() >= 1,
        forall|k: int| 0 <= k < cs.len() ==> (#[trigger] cs[k]).wf() && cs[k].modulus == m,
        point.wf(),
        point.modulus == m,
        horner_partial(cs, point, tr),
    ensures
        tr.last().modulus == m,
        tr.last().is_field is None || tr.len() == 1,
        tr.last().value as int == head_eval_int(
            modint_vals(cs).subrange(cs.len() - tr.len(), cs.len() as int),
            point.value as int,
        ) % (m as int),
    decreases tr.len(),
{
    let n = cs.len() as int;
    let mi = m as int;
    let x = point.value as int;
    let vals = modint_vals(cs);
    let slice = vals.subrange(n - tr.len(), n);
    if tr.len() == 1 {
        assert(tr[0].is_dup(&cs.last()));
        assert(tr[0] == cs[n - 1]);
        assert(slice.len() == 1);
        assert(slice[0] == cs[n - 1].value as int);
        assert(slice.subrange(1, 1) =~= Seq::<int>::empty());
        assert(head_eval_int(Seq::<int>::empty(), x) == 0);
        assert(head_eval_int(slice, x) == slice[0] + x * head_eval_int(
            slice.subrange(1, slice.len() as int),
            x,
        ));
        assert(slice.subrange(1, slice.len() as int) =~= Seq::<int>::empty());
        assert(head_eval_int(slice, x) == slice[0] + x * 0);
        vstd::arithmetic::div_mod::lemma_small_mod(cs[n - 1].value as nat, m as nat);
    } else {
        let pre = tr.subrange(0, tr.len() - 1);
        assert(horner_partial(cs, point, pre)) by {
            assert forall|i: int| 1 <= i < pre.len() implies horner_step(
                cs,
                point,
                cs.len() - 1 - i,
                pre[i - 1],
                #[trigger] pre[i],
            ) by {
                assert(pre[i - 1] == tr[i - 1] && pre[i] == tr[i]);
                assert(horner_step(cs, point, cs.len() - 1 - i, tr[i - 1], tr[i]));
            }
        }
        lemma_horner_pin_modint(cs, point, pre, m);
        let i = tr.len() - 1;
        assert(horner_step(cs, point, cs.len() - 1 - i, tr[i - 1], tr[i]));
        let idx = n - 1 - i;
        assert(idx == n - tr.len());
        let prev = tr[i - 1];
        assert(prev == pre.last());
        let t = choose|t: ModInt| (#[trigger] t.is_mul(&prev, &point)) && tr[i].is_add(
            &t,
            &cs[idx],
        );
        let c = cs[idx].value as int;
        let pv = prev.value as int;
        assert(prev.comb(&point) == m);
        assert(t == ModInt::mk(pv * x, m));
        assert(t.comb(&cs[idx]) == m);
        assert(tr[i] == ModInt::mk(t.value as int + c, m));
        let preslice = vals.subrange(n - pre.len(), n);
        assert(pv % mi == pv) by {
            vstd::arithmetic::div_mod::lemma_mod_twice(
                head_eval_int(preslice, x),
                mi,
            );
            assert(pv == head_eval_int(preslice, x) % mi);
        }
        assert(slice[0] == c);
        assert(slice.subrange(1, slice.len() as int) =~= preslice);
        assert(head_eval_int(slice, x) == c + x * head_eval_int(preslice, x));
        let h = head_eval_int(preslice, x);
        assert(t.value as int == (pv * x) % mi);
        assert((pv * x) % mi == (h * x) % mi) by {
            vstd::arithmetic::div_mod::lemma_mul_mod_noop_left(h, x, mi);
            assert(pv == h % mi);
        }
        assert(tr[i].value as int == (t.value as int + c) % mi);
        assert((t.value as int + c) % mi == (h * x + c) % mi) by {
            vstd::arithmetic::div_mod::lemma_add_mod_noop(h * x, c, mi);
            vstd::arithmetic::div_mod::lemma_add_mod_noop((h * x) % mi, c, mi);
            vstd::arithmetic::div_mod::lemma_mod_twice(h * x, mi);
        }
        assert(h * x == x * h) by (nonlinear_arith);
        assert(tr[i].value as int == (c + x * h) % mi);
        assert(tr.last() == tr[i]);
    }
}

/// Round trip of the two evaluation schemes: the value Horner's method
/// computes for a polynomial over the modular integers is the direct
/// power-sum value, reduced modulo the shared modulus.
pub proof fn lemma_horner_matches_direct_sum(
    cs: Seq<ModInt>,
    point: ModInt,
    tr: Seq<ModInt>,
    m: i128,
)
    requires
        1 <= m,
        cs.len() >= 1,
        forall|k: int| 0 <= k < cs.len() ==> (#[trigger] cs[k]).wf() && cs[k].modulus == m,
        point.wf(),
        point.modulus == m,
        horner_full(cs, point, tr),
    ensures
        tr.last().modulus == m,
        tr.last().value as int == direct_eval_int(modint_vals(cs), point.value as int) % (
        m as int),
{
    lemma_horner_pin_modint(cs, point, tr, m);
    let vals = modint_vals(cs);
    assert(vals.subrange(cs.len() - tr.len(), cs.len() as int) =~= vals);
    lemma_head_is_direct(vals, point.value as int);
}

} // verus!
