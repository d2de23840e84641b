use vstd::prelude::*;

verus! {

use vstd::arithmetic::power2::pow2;

/// Error raised by the partial ring operations.
#[derive(Clone, Copy, Debug, PartialEq, Eq)]
pub enum RingError {
    /// The element has no multiplicative inverse.
    NotInvertible,
}

/// The capability interface of a ring element type: closed under addition,
/// subtraction, multiplication and negation, with distinguished zero and one
/// values obtainable without any runtime parameter.
///
/// Because a concrete element can carry runtime data (a modular integer's
/// modulus), not every pair of elements may be combined: `compat` says which
/// pairs an operation accepts, and the `*_ok` predicates bound the machine
/// arithmetic. The operations themselves are specified relationally:
/// `r.is_add(&a, &b)` says that `r` is the sum of `a` and `b`.
pub trait Ring: Sized {
    /// The element is well formed (its internal invariant holds).
    spec fn wf(&self) -> bool;

    /// The two elements may be combined by an arithmetic operation.
    spec fn compat(&self, other: &Self) -> bool;

    /// Semantic (algebraic) equality; the equivalence the ring laws speak of.
    spec fn eqv(&self, other: &Self) -> bool;

    /// What the executable `eq_elem` returns.
    spec fn eq_spec(&self, other: &Self) -> bool;

    /// The element is the canonical additive identity value (what `zero()` returns).
    spec fn is_zero_val(&self) -> bool;

    /// The element is the canonical multiplicative identity value (what `one()` returns).
    spec fn is_one_val(&self) -> bool;

    /// The element is semantically an additive identity.
    spec fn zero_like(&self) -> bool;

    /// What the executable `is_zero` returns.
    spec fn s_is_zero(&self) -> bool;

    /// What the executable `is_one` returns.
    spec fn s_is_one(&self) -> bool;

    /// `self` carries the same content as `a` (an exact duplicate; value
    /// equality for plain elements, contents equality for compound ones).
    spec fn is_dup(&self, a: &Self) -> bool;

    /// `self` is the sum `a + b`.
    spec fn is_add(&self, a: &Self, b: &Self) -> bool;

    /// `self` is the difference `a - b`.
    spec fn is_sub(&self, a: &Self, b: &Self) -> bool;

    /// `self` is the product `a * b`.
    spec fn is_mul(&self, a: &Self, b: &Self) -> bool;

    /// `self` is the additive inverse `-a`.
    spec fn is_neg(&self, a: &Self) -> bool;

    /// The machine arithmetic of `self + other` stays in range.
    spec fn sadd_ok(&self, other: &Self) -> bool;

    /// The machine arithmetic of `self - other` stays in range.
    spec fn ssub_ok(&self, other: &Self) -> bool;

    /// The machine arithmetic of `self * other` stays in range.
    spec fn smul_ok(&self, other: &Self) -> bool;

    /// The machine arithmetic of `-self` stays in range.
    spec fn sneg_ok(&self) -> bool;

    /// Whether this ring declares its multiplication commutative.
    spec fn s_commutative() -> bool;

    /// What the executable `is_field` returns.
    spec fn s_field(&self) -> Option<bool>;

    /// The contract of `inverse`: what each outcome means.
    spec fn inverse_post(&self, r: Option<Self>) -> bool;

    /// The additive identity, not bound to any runtime context.
    fn zero() -> (r: Self)
        ensures
            r.is_zero_val(),
            r.wf(),
    ;

    /// The multiplicative identity, not bound to any runtime context.
    fn one() -> (r: Self)
        ensures
            r.is_one_val(),
            r.wf(),
    ;

    /// An exact copy of the element.
    fn dup(&self) -> (r: Self)
        ensures
            r.is_dup(self),
    ;

    fn add(&self, other: &Self) -> (r: Self)
        requires
            self.wf(),
            other.wf(),
            self.compat(other),
            self.sadd_ok(other),
        ensures
            r.is_add(self, other),
    ;

    fn sub(&self, other: &Self) -> (r: Self)
        requires
            self.wf(),
            other.wf(),
            self.compat(other),
            self.ssub_ok(other),
        ensures
            r.is_sub(self, other),
    ;

    fn mul(&self, other: &Self) -> (r: Self)
        requires
            self.wf(),
            other.wf(),
            self.compat(other),
            self.smul_ok(other),
        ensures
            r.is_mul(self, other),
    ;

    fn neg(&self) -> (r: Self)
        requires
            self.wf(),
            self.sneg_ok(),
        ensures
            r.is_neg(self),
    ;

    fn add_assign(&mut self, other: &Self)
        requires
            old(self).wf(),
            other.wf(),
            old(self).compat(other),
            old(self).sadd_ok(other),
        ensures
            final(self).is_add(old(self), other),
    {
        *self = self.add(other);
    }

    fn sub_assign(&mut self, other: &Self)
        requires
            old(self).wf(),
            other.wf(),
            old(self).compat(other),
            old(self).ssub_ok(other),
        ensures
            final(self).is_sub(old(self), other),
    {
        *self = self.sub(other);
    }

    fn mul_assign(&mut self, other: &Self)
        requires
            old(self).wf(),
            other.wf(),
            old(self).compat(other),
            old(self).smul_ok(other),
        ensures
            final(self).is_mul(old(self), other),
    {
        *self = self.mul(other);
    }

    /// Equality as the ring defines it (congruence for modular integers).
    fn eq_elem(&self, other: &Self) -> (r: bool)
        requires
            self.wf(),
            other.wf(),
        ensures
            r == self.eq_spec(other),
    ;

    fn is_zero(&self) -> (r: bool)
        requires
            self.wf(),
        ensures
            r == self.s_is_zero(),
    ;

    fn is_one(&self) -> (r: bool)
        requires
            self.wf(),
        ensures
            r == self.s_is_one(),
    ;

    /// Whether this element's type forms a field: `Some(true)` / `Some(false)`
    /// when known, `None` when unknown. Queried on `zero()` or `one()` since
    /// the interface has no type-level methods.
    fn is_field(&self) -> (r: Option<bool>)
        ensures
            r == self.s_field(),
    ;

    /// Whether this ring declares its multiplication commutative.
    fn is_commutative(&self) -> (r: bool)
        ensures
            r == Self::s_commutative(),
    ;

    /// The multiplicative inverse, when the element has one.
    fn inverse(&self) -> (r: Option<Self>)
        requires
            self.wf(),
        ensures
            self.inverse_post(r),
    ;

    /// Every element duplicates itself.
    proof fn lemma_dup_refl(a: Self)
        requires
            a.wf(),
        ensures
            a.is_dup(&a),
    ;

    /// A duplicate is well formed and compatible with everything its
    /// original was compatible with.
    proof fn lemma_dup_props(a: Self, r: Self)
        requires
            a.wf(),
            r.is_dup(&a),
        ensures
            r.wf(),
            forall|c: Self| c.wf() && a.compat(&c) ==> #[trigger] r.compat(&c),
    ;

    /// Well-formedness is compatible with itself.
    proof fn lemma_compat_refl(a: Self)
        requires
            a.wf(),
        ensures
            a.compat(&a),
    ;

    /// Compatibility is symmetric.
    proof fn lemma_compat_sym(a: Self, b: Self)
        requires
            a.wf(),
            b.wf(),
        ensures
            a.compat(&b) == b.compat(&a),
    ;

    /// The canonical zero is well formed and is a semantic additive
    /// identity.
    proof fn lemma_zero_wf(z: Self)
        requires
            z.is_zero_val(),
        ensures
            z.wf(),
            z.zero_like(),
    ;

    /// The canonical zero is compatible with every well-formed element and
    /// can always be added to one.
    proof fn lemma_zero_props(z: Self, a: Self)
        requires
            z.is_zero_val(),
            a.wf(),
        ensures
            z.wf(),
            z.compat(&a),
            a.compat(&z),
            z.sadd_ok(&a),
            a.sadd_ok(&z),
    ;

    /// The canonical one is well formed.
    proof fn lemma_one_wf(o: Self)
        requires
            o.is_one_val(),
        ensures
            o.wf(),
    ;

    /// The canonical one is compatible with every well-formed element.
    proof fn lemma_one_props(o: Self, a: Self)
        requires
            o.is_one_val(),
            a.wf(),
        ensures
            o.wf(),
            o.compat(&a),
            a.compat(&o),
    ;

    /// A sum is well formed and compatible with everything both summands
    /// were compatible with.
    proof fn lemma_add_closed(a: Self, b: Self, r: Self)
        requires
            a.wf(),
            b.wf(),
            a.compat(&b),
            a.sadd_ok(&b),
            r.is_add(&a, &b),
        ensures
            r.wf(),
            forall|c: Self| c.wf() && a.compat(&c) && b.compat(&c) ==> #[trigger] r.compat(&c),
    ;

    /// A difference is well formed and compatible with everything both
    /// operands were compatible with.
    proof fn lemma_sub_closed(a: Self, b: Self, r: Self)
        requires
            a.wf(),
            b.wf(),
            a.compat(&b),
            a.ssub_ok(&b),
            r.is_sub(&a, &b),
        ensures
            r.wf(),
            forall|c: Self| c.wf() && a.compat(&c) && b.compat(&c) ==> #[trigger] r.compat(&c),
    ;

    /// A product is well formed and compatible with everything both factors
    /// were compatible with.
    proof fn lemma_mul_closed(a: Self, b: Self, r: Self)
        requires
            a.wf(),
            b.wf(),
            a.compat(&b),
            a.smul_ok(&b),
            r.is_mul(&a, &b),
        ensures
            r.wf(),
            forall|c: Self| c.wf() && a.compat(&c) && b.compat(&c) ==> #[trigger] r.compat(&c),
    ;

    /// A negation is well formed and compatible with everything its operand
    /// was compatible with.
    proof fn lemma_neg_closed(a: Self, r: Self)
        requires
            a.wf(),
            a.sneg_ok(),
            r.is_neg(&a),
        ensures
            r.wf(),
            forall|c: Self| c.wf() && a.compat(&c) ==> #[trigger] r.compat(&c),
    ;
}


/// The additive laws of a ring, together with the facts that make the
/// ring's equivalence a congruence: every implementation proves them. The
/// operations are relational, so each law takes the operands together with
/// the operation results it speaks about.
pub trait AddLaws: Ring {
    /// Equivalence is reflexive.
    proof fn lemma_eqv_refl(a: Self)
        requires
            a.wf(),
        ensures
            a.eqv(&a),
    ;

    /// Equivalence is symmetric.
    proof fn lemma_eqv_sym(a: Self, b: Self)
        requires
            a.wf(),
            b.wf(),
            a.eqv(&b),
        ensures
            b.eqv(&a),
    ;

    /// A duplicate is equivalent to its original.
    proof fn lemma_dup_eqv(a: Self, r: Self)
        requires
            a.wf(),
            r.is_dup(&a),
        ensures
            r.eqv(&a),
    ;

    /// A duplicate is indistinguishable from its original: it satisfies the
    /// same equivalences and stands in the same operation relations.
    proof fn lemma_dup_subst(x: Self, y: Self)
        requires
            y.wf(),
            x.is_dup(&y),
        ensures
            forall|z: Self| z.wf() && y.eqv(&z) ==> #[trigger] x.eqv(&z),
            forall|z: Self| z.wf() && z.eqv(&y) ==> #[trigger] z.eqv(&x),
            forall|a: Self, b: Self| #[trigger] y.is_add(&a, &b) ==> x.is_add(&a, &b),
            forall|a: Self, b: Self| #[trigger] y.is_sub(&a, &b) ==> x.is_sub(&a, &b),
            forall|a: Self, b: Self| #[trigger] y.is_mul(&a, &b) ==> x.is_mul(&a, &b),
            forall|a: Self| #[trigger] y.is_neg(&a) ==> x.is_neg(&a),
            forall|r: Self, a: Self| #[trigger] r.is_add(&a, &x) ==> r.is_add(&a, &y),
            forall|r: Self, a: Self| #[trigger] r.is_add(&x, &a) ==> r.is_add(&y, &a),
            forall|r: Self, a: Self| #[trigger] r.is_sub(&a, &x) ==> r.is_sub(&a, &y),
            forall|r: Self, a: Self| #[trigger] r.is_sub(&x, &a) ==> r.is_sub(&y, &a),
            forall|r: Self, a: Self| #[trigger] r.is_mul(&a, &x) ==> r.is_mul(&a, &y),
            forall|r: Self, a: Self| #[trigger] r.is_mul(&x, &a) ==> r.is_mul(&y, &a),
            forall|r: Self| #[trigger] r.is_neg(&x) ==> r.is_neg(&y),
            forall|a: Self| #[trigger] y.is_dup(&a) ==> x.is_dup(&a),
            forall|r: Self| #[trigger] r.is_dup(&y) ==> r.is_dup(&x),
    ;

    /// Addition is deterministic up to equivalence.
    proof fn lemma_add_det(a: Self, b: Self, r1: Self, r2: Self)
        requires
            a.wf(),
            b.wf(),
            a.compat(&b),
            a.sadd_ok(&b),
            r1.is_add(&a, &b),
            r2.is_add(&a, &b),
        ensures
            r1.eqv(&r2),
    ;

    /// Addition is commutative: `a + b = b + a`.
    proof fn lemma_add_comm(a: Self, b: Self, r1: Self, r2: Self)
        requires
            a.wf(),
            b.wf(),
            a.compat(&b),
            a.sadd_ok(&b),
            b.sadd_ok(&a),
            r1.is_add(&a, &b),
            r2.is_add(&b, &a),
        ensures
            r1.eqv(&r2),
    ;

    /// Addition is associative: `(a + b) + c = a + (b + c)`.
    proof fn lemma_add_assoc(a: Self, b: Self, c: Self, ab: Self, abc1: Self, bc: Self, abc2: Self)
        requires
            a.wf(),
            b.wf(),
            c.wf(),
            a.compat(&b),
            b.compat(&c),
            a.compat(&c),
            a.sadd_ok(&b),
            b.sadd_ok(&c),
            a.sadd_ok(&c),
            ab.is_add(&a, &b),
            ab.sadd_ok(&c),
            abc1.is_add(&ab, &c),
            bc.is_add(&b, &c),
            a.sadd_ok(&bc),
            abc2.is_add(&a, &bc),
        ensures
            abc1.eqv(&abc2),
    ;

    /// The additive identity leaves every element unchanged: `a + 0 = a`
    /// and `0 + a = a`.
    proof fn lemma_add_zero(a: Self, z: Self, r: Self)
        requires
            a.wf(),
            z.wf(),
            z.is_zero_val(),
            a.compat(&z),
            a.sadd_ok(&z),
            z.sadd_ok(&a),
            r.is_add(&a, &z) || r.is_add(&z, &a),
        ensures
            r.eqv(&a),
    ;

    /// The additive inverse law: `a + (-a)` is an additive identity.
    proof fn lemma_add_neg(a: Self, n: Self, r: Self)
        requires
            a.wf(),
            a.sneg_ok(),
            n.is_neg(&a),
            a.sadd_ok(&n),
            r.is_add(&a, &n),
        ensures
            r.zero_like(),
    ;

    /// Addition respects equivalence.
    proof fn lemma_add_cong(a: Self, b: Self, a2: Self, b2: Self, r: Self, r2: Self)
        requires
            a.wf(),
            b.wf(),
            a2.wf(),
            b2.wf(),
            a.eqv(&a2),
            b.eqv(&b2),
            a.compat(&b),
            a2.compat(&b2),
            a.compat(&a2),
            b.compat(&b2),
            a.compat(&b2),
            a2.compat(&b),
            a.sadd_ok(&b),
            a2.sadd_ok(&b2),
            r.is_add(&a, &b),
            r2.is_add(&a2, &b2),
        ensures
            r.eqv(&r2),
    ;

    /// Subtraction is addition of the negation: `a - b = a + (-b)`.
    proof fn lemma_sub_def(a: Self, b: Self, n: Self, r1: Self, r2: Self)
        requires
            a.wf(),
            b.wf(),
            a.compat(&b),
            a.ssub_ok(&b),
            b.sneg_ok(),
            n.is_neg(&b),
            a.sadd_ok(&n),
            r1.is_sub(&a, &b),
            r2.is_add(&a, &n),
        ensures
            r1.eqv(&r2),
    ;
}

/// The multiplicative laws of a ring: associativity, identity,
/// distributivity over addition, and commutativity for the rings that
/// declare it.
pub trait MulLaws: AddLaws {
    /// Multiplication is deterministic up to equivalence.
    proof fn lemma_mul_det(a: Self, b: Self, r1: Self, r2: Self)
        requires
            a.wf(),
            b.wf(),
            a.compat(&b),
            a.smul_ok(&b),
            r1.is_mul(&a, &b),
            r2.is_mul(&a, &b),
        ensures
            r1.eqv(&r2),
    ;

    /// For rings that declare commutativity: `a * b = b * a`. Nothing may
    /// assume this of a ring that declines the claim.
    proof fn lemma_mul_comm(a: Self, b: Self, r1: Self, r2: Self)
        requires
            Self::s_commutative(),
            a.wf(),
            b.wf(),
            a.compat(&b),
            a.smul_ok(&b),
            b.smul_ok(&a),
            r1.is_mul(&a, &b),
            r2.is_mul(&b, &a),
        ensures
            r1.eqv(&r2),
    ;

    /// Multiplication is associative: `(a * b) * c = a * (b * c)`.
    proof fn lemma_mul_assoc(a: Self, b: Self, c: Self, ab: Self, abc1: Self, bc: Self, abc2: Self)
        requires
            a.wf(),
            b.wf(),
            c.wf(),
            a.compat(&b),
            b.compat(&c),
            a.compat(&c),
            a.smul_ok(&b),
            b.smul_ok(&c),
            a.smul_ok(&c),
            ab.is_mul(&a, &b),
            ab.smul_ok(&c),
            abc1.is_mul(&ab, &c),
            bc.is_mul(&b, &c),
            a.smul_ok(&bc),
            abc2.is_mul(&a, &bc),
        ensures
            abc1.eqv(&abc2),
    ;

    /// The multiplicative identity: `a * 1 = a` and `1 * a = a`.
    proof fn lemma_mul_one(a: Self, o: Self, r: Self)
        requires
            a.wf(),
            o.is_one_val(),
            a.smul_ok(&o),
            o.smul_ok(&a),
            r.is_mul(&a, &o) || r.is_mul(&o, &a),
        ensures
            r.eqv(&a),
    ;

    /// Multiplication distributes over addition on the left:
    /// `a * (b + c) = a*b + a*c`.
    proof fn lemma_distrib_left(
        a: Self,
        b: Self,
        c: Self,
        bc: Self,
        abc: Self,
        ab: Self,
        ac: Self,
        sum: Self,
    )
        requires
            a.wf(),
            b.wf(),
            c.wf(),
            a.compat(&b),
            b.compat(&c),
            a.compat(&c),
            b.sadd_ok(&c),
            bc.is_add(&b, &c),
            a.smul_ok(&bc),
            abc.is_mul(&a, &bc),
            a.smul_ok(&b),
            ab.is_mul(&a, &b),
            a.smul_ok(&c),
            ac.is_mul(&a, &c),
            ab.sadd_ok(&ac),
            sum.is_add(&ab, &ac),
        ensures
            abc.eqv(&sum),
    ;

    /// Multiplication distributes over addition on the right:
    /// `(a + b) * c = a*c + b*c`.
    proof fn lemma_distrib_right(
        a: Self,
        b: Self,
        c: Self,
        ab: Self,
        abc: Self,
        ac: Self,
        bc: Self,
        sum: Self,
    )
        requires
            a.wf(),
            b.wf(),
            c.wf(),
            a.compat(&b),
            b.compat(&c),
            a.compat(&c),
            a.sadd_ok(&b),
            ab.is_add(&a, &b),
            ab.smul_ok(&c),
            abc.is_mul(&ab, &c),
            a.smul_ok(&c),
            ac.is_mul(&a, &c),
            b.smul_ok(&c),
            bc.is_mul(&b, &c),
            ac.sadd_ok(&bc),
            sum.is_add(&ac, &bc),
        ensures
            abc.eqv(&sum),
    ;

    /// Multiplying by a negated one is negation: any negation of `b` is
    /// equivalent to `(-1) * b`.
    proof fn lemma_mul_negone_neg(b: Self, o: Self, no: Self, t: Self, r: Self)
        requires
            b.wf(),
            o.is_one_val(),
            o.sneg_ok(),
            no.is_neg(&o),
            no.smul_ok(&b),
            t.is_mul(&no, &b),
            b.sneg_ok(),
            r.is_neg(&b),
        ensures
            r.eqv(&t),
            t.eqv(&r),
    ;

    /// Adding `(-1) * a` to `a` yields an additive identity.
    proof fn lemma_mul_negone_add_zero(a: Self, o: Self, no: Self, t: Self, r: Self)
        requires
            a.wf(),
            o.is_one_val(),
            o.sneg_ok(),
            no.is_neg(&o),
            no.smul_ok(&a),
            t.is_mul(&no, &a),
            a.sadd_ok(&t),
            r.is_add(&a, &t),
        ensures
            r.zero_like(),
    ;

    /// Subtraction is addition of the `(-1)`-scaled subtrahend:
    /// `a - b = a + (-1) * b`.
    proof fn lemma_sub_eqv_add_mul_negone(
        a: Self,
        b: Self,
        o: Self,
        no: Self,
        t: Self,
        r1: Self,
        r2: Self,
    )
        requires
            a.wf(),
            b.wf(),
            a.compat(&b),
            o.is_one_val(),
            o.sneg_ok(),
            no.is_neg(&o),
            no.smul_ok(&b),
            t.is_mul(&no, &b),
            a.ssub_ok(&b),
            a.sadd_ok(&t),
            r1.is_sub(&a, &b),
            r2.is_add(&a, &t),
        ensures
            r1.eqv(&r2),
    ;

    /// Multiplication respects equivalence.
    proof fn lemma_mul_cong(a: Self, b: Self, a2: Self, b2: Self, r: Self, r2: Self)
        requires
            a.wf(),
            b.wf(),
            a2.wf(),
            b2.wf(),
            a.eqv(&a2),
            b.eqv(&b2),
            a.compat(&b),
            a2.compat(&b2),
            a.compat(&a2),
            b.compat(&b2),
            a.compat(&b2),
            a2.compat(&b),
            a.smul_ok(&b),
            a2.smul_ok(&b2),
            r.is_mul(&a, &b),
            r2.is_mul(&a2, &b2),
        ensures
            r.eqv(&r2),
    ;
}

/// The embedding of the integers into `R`, offered as a conversion trait
/// for integer-like types.
pub trait Ringed<R: Ring> {
    fn ringed(self) -> R;
}

/// One step of the binary embedding: consuming bit `i0` of `s` takes the
/// state `(res0, acc0)` to `(res, acc)`: the accumulator is doubled, and it
/// is first added into the result when bit `i0` of `s` is set.
pub open spec fn ringed_step<R: Ring>(s: u128, i0: nat, res0: R, acc0: R, res: R, acc: R) -> bool {
    &&& acc.is_add(&acc0, &acc0)
    &&& ((s as nat / pow2(i0)) % 2 == 1 ==> res.is_add(&res0, &acc0))
    &&& ((s as nat / pow2(i0)) % 2 != 1 ==> res == res0)
}

/// `tr` records the intermediate states of the binary embedding of `s` into
/// the ring: `tr[k]` is the pair (image of the `k` low bits of `s`, image of
/// `2^k`), starting from (zero, one) and advancing by `ringed_step` per bit.
pub open spec fn ringed_trace<R: Ring>(s: u128, tr: Seq<(R, R)>) -> bool {
    &&& tr.len() >= 1
    &&& tr[0].0.is_zero_val()
    &&& tr[0].1.is_one_val()
    &&& forall|k: int|
        0 <= k < tr.len() - 1 ==> ringed_step(
            s,
            k as nat,
            tr[k].0,
            tr[k].1,
            #[trigger] tr[k + 1].0,
            tr[k + 1].1,
        )
}

/// Every addition the binary embedding of `s` makes stays within the
/// machine bounds of `R`: along any partial trace that still has bits of
/// `s` left to consume, the next doubling and the next accumulation are in
/// range.
pub open spec fn ringed_ok<R: Ring>(s: u128) -> bool {
    forall|tr: Seq<(R, R)>|
        #[trigger] ringed_trace(s, tr) && tr.len() <= 127 && s as nat / pow2(
            (tr.len() - 1) as nat,
        ) > 0 ==> tr.last().1.sadd_ok(&tr.last().1) && tr.last().0.sadd_ok(&tr.last().1)
}

/// The image of `s` under the unique ring morphism from the integers into
/// `R`, computed by binary expansion: `O(log s)` ring additions. Bits are
/// consumed least significant first, doubling an accumulator, over at most
/// 127 bits.
pub fn ringed<R: Ring>(s: u128) -> (r: R)
    requires
        ringed_ok::<R>(s),
    ensures
        exists|tr: Seq<(R, R)>|
            {
                &&& #[trigger] ringed_trace(s, tr)
                &&& r == tr.last().0
                &&& tr.len() <= 128
                &&& (tr.len() == 128 || (s as nat) < pow2((tr.len() - 1) as nat))
            },
{
    let mut result = R::zero();
    let mut acc = R::one();
    let mut rest = s;
    let mut i: u32 = 0;
    let ghost mut tr: Seq<(R, R)> = seq![(result, acc)];
    proof {
        R::lemma_zero_props(result, acc);
        R::lemma_one_props(acc, result);
        vstd::arithmetic::power2::lemma2_to64();
        assert(ringed_trace(s, tr));
    }
    while rest > 0 && i < 127
        invariant
            ringed_ok::<R>(s),
            result.wf(),
            acc.wf(),
            result.compat(&acc),
            i <= 127,
            rest as nat == s as nat / pow2(i as nat),
            tr.len() == i + 1,
            tr.last() == (result, acc),
            ringed_trace(s, tr),
        decreases 127 - i,
    {
        proof {
            vstd::arithmetic::power2::lemma_pow2_pos(i as nat);
            vstd::arithmetic::power2::lemma_pow2_adds(i as nat, 1);
            vstd::arithmetic::power2::lemma2_to64();
            vstd::arithmetic::div_mod::lemma_div_denominator(s as int, pow2(i as nat) as int, 2);
        }
        let ghost res0 = result;
        let ghost acc0 = acc;
        let ghost prev_i = i as nat;
        proof {
            R::lemma_compat_refl(acc);
            assert(acc.sadd_ok(&acc) && result.sadd_ok(&acc));
        }
        if rest % 2 == 1 {
            result = result.add(&acc);
        }
        let new_acc = acc.add(&acc);
        proof {
            R::lemma_add_closed(acc0, acc0, new_acc);
            R::lemma_compat_sym(res0, acc0);
            assert(new_acc.compat(&res0));
            R::lemma_compat_sym(new_acc, res0);
            assert(new_acc.compat(&acc0));
            R::lemma_compat_sym(new_acc, acc0);
            if rest % 2 == 1 {
                R::lemma_add_closed(res0, acc0, result);
                assert(result.compat(&new_acc));
            } else {
                assert(result.compat(&new_acc));
            }
            assert(ringed_step(s, prev_i, res0, acc0, result, new_acc)) by {
                assert((rest as nat) % 2 == (s as nat / pow2(prev_i)) % 2);
            }
            let tr2 = tr.push((result, new_acc));
            assert(ringed_trace(s, tr2)) by {
                assert(forall|k: int| 0 <= k < tr.len() ==> tr2[k] == tr[k]);
                assert(tr2[tr.len() as int] == (result, new_acc));
                assert(forall|k: int|
                    0 <= k < tr2.len() - 1 ==> ringed_step(
                        s,
                        k as nat,
                        tr2[k].0,
                        tr2[k].1,
                        #[trigger] tr2[k + 1].0,
                        tr2[k + 1].1,
                    )) by {
                    assert(ringed_step(
                        s,
                        prev_i,
                        tr2[prev_i as int].0,
                        tr2[prev_i as int].1,
                        tr2[prev_i as int + 1].0,
                        tr2[prev_i as int + 1].1,
                    ));
                }
            }
            tr = tr2;
        }
        acc = new_acc;
        rest = rest / 2;
        i = i + 1;
    }
    proof {
        if rest == 0 {
            vstd::arithmetic::power2::lemma_pow2_pos(i as nat);
            vstd::arithmetic::div_mod::lemma_small_div_converse(s as int, pow2(i as nat) as int);
        }
    }
    result
}


/// The embedding of 0 is the ring's zero: along any trace of the binary
/// embedding of 0, the result component never leaves the canonical zero.
pub proof fn lemma_ringed_zero<R: Ring>(tr: Seq<(R, R)>)
    requires
        ringed_trace(0u128, tr),
    ensures
        tr.last().0.is_zero_val(),
    decreases tr.len(),
{
    if tr.len() > 1 {
        let pre = tr.subrange(0, tr.len() - 1);
        assert(ringed_trace(0u128, pre)) by {
            assert forall|k: int| 0 <= k < pre.len() - 1 implies ringed_step(
                0u128,
                k as nat,
                pre[k].0,
                pre[k].1,
                #[trigger] pre[k + 1].0,
                pre[k + 1].1,
            ) by {
                assert(pre[k] == tr[k] && pre[k + 1] == tr[k + 1]);
                assert(ringed_step(0u128, k as nat, tr[k].0, tr[k].1, tr[k + 1].0, tr[k + 1].1));
            }
        }
        lemma_ringed_zero(pre);
        let k0 = tr.len() - 2;
        assert(ringed_step(0u128, k0 as nat, tr[k0].0, tr[k0].1, tr[k0 + 1].0, tr[k0 + 1].1));
        vstd::arithmetic::power2::lemma_pow2_pos(k0 as nat);
        assert((0nat / pow2(k0 as nat)) % 2 != 1) by {
            assert(0nat / pow2(k0 as nat) == 0) by {
                vstd::arithmetic::div_mod::lemma_basic_div(0, pow2(k0 as nat) as int);
            }
        }
        assert(tr.last().0 == tr[k0].0);
        assert(tr[k0] == pre.last());
    }
}

/// The embedding of 1 is the ring's one: the first step adds the one into
/// the zero, and no later bit of 1 is set.
pub proof fn lemma_ringed_one<R: AddLaws>(tr: Seq<(R, R)>)
    requires
        ringed_trace(1u128, tr),
        tr.len() >= 2,
    ensures
        tr.last().0.eqv(&tr[0].1),
        tr[0].1.is_one_val(),
    decreases tr.len(),
{
    let z = tr[0].0;
    let o = tr[0].1;
    R::lemma_zero_wf(z);
    R::lemma_one_wf(o);
    if tr.len() == 2 {
        vstd::arithmetic::power2::lemma2_to64();
        assert(pow2(0) == 1);
        assert(1nat / pow2(0) == 1) by {
            vstd::arithmetic::div_mod::lemma_div_by_self(1);
        }
        assert((1nat / pow2(0)) % 2 == 1) by {
            vstd::arithmetic::div_mod::lemma_small_mod(1nat, 2nat);
        }
        let k0 = 0int;
        assert(ringed_step(1u128, k0 as nat, tr[k0].0, tr[k0].1, tr[k0 + 1].0, tr[k0 + 1].1));
        assert(tr[1].0.is_add(&z, &o));
        R::lemma_zero_props(z, o);
        R::lemma_add_zero(o, z, tr[1].0);
    } else {
        let pre = tr.subrange(0, tr.len() - 1);
        assert(ringed_trace(1u128, pre)) by {
            assert forall|k: int| 0 <= k < pre.len() - 1 implies ringed_step(
                1u128,
                k as nat,
                pre[k].0,
                pre[k].1,
                #[trigger] pre[k + 1].0,
                pre[k + 1].1,
            ) by {
                assert(pre[k] == tr[k] && pre[k + 1] == tr[k + 1]);
                assert(ringed_step(1u128, k as nat, tr[k].0, tr[k].1, tr[k + 1].0, tr[k + 1].1));
            }
        }
        lemma_ringed_one(pre);
        let k0 = tr.len() - 2;
        assert(ringed_step(1u128, k0 as nat, tr[k0].0, tr[k0].1, tr[k0 + 1].0, tr[k0 + 1].1));
        assert(pow2(k0 as nat) >= 2) by {
            vstd::arithmetic::power2::lemma2_to64();
            vstd::arithmetic::power2::lemma_pow2_strictly_increases(0, k0 as nat);
        }
        assert((1nat / pow2(k0 as nat)) % 2 != 1) by {
            assert(1nat / pow2(k0 as nat) == 0) by {
                vstd::arithmetic::div_mod::lemma_basic_div(1, pow2(k0 as nat) as int);
            }
        }
        assert(tr.last().0 == tr[k0].0);
        assert(tr[k0] == pre.last());
        assert(pre[0] == tr[0]);
    }
}

/// Adds the ring's one to `x`.
pub fn p1<R: Ring>(x: R) -> (r: R)
    requires
        x.wf(),
        forall|o: R| #[trigger] o.is_one_val() ==> x.sadd_ok(&o),
    ensures
        exists|o: R| #[trigger] o.is_one_val() && r.is_add(&x, &o),
{
    let o = R::one();
    proof {
        R::lemma_one_props(o, x);
    }
    x.add(&o)
}

} // verus!
