use vstd::prelude::*;

verus! {

use crate::ring::{AddLaws, MulLaws, Ring};

/// Total version of `i64` addition used by the relational operation specs:
/// the in-range sum, 0 on overflow (an overflowing operation is excluded by
/// the `*_ok` preconditions).
pub open spec fn clip64(x: int) -> i64 {
    if i64::MIN <= x <= i64::MAX {
        x as i64
    } else {
        0
    }
}

impl Ring for i64 {
    open spec fn wf(&self) -> bool {
        true
    }

    open spec fn compat(&self, other: &Self) -> bool {
        true
    }

    open spec fn eqv(&self, other: &Self) -> bool {
        self == other
    }

    open spec fn eq_spec(&self, other: &Self) -> bool {
        self == other
    }

    open spec fn is_zero_val(&self) -> bool {
        *self == 0
    }

    open spec fn is_one_val(&self) -> bool {
        *self == 1
    }

    open spec fn zero_like(&self) -> bool {
        *self == 0
    }

    open spec fn s_is_zero(&self) -> bool {
        *self == 0
    }

    open spec fn s_is_one(&self) -> bool {
        *self == 1
    }

    open spec fn is_dup(&self, a: &Self) -> bool {
        self == a
    }

    open spec fn is_add(&self, a: &Self, b: &Self) -> bool {
        *self == clip64(*a + *b)
    }

    open spec fn is_sub(&self, a: &Self, b: &Self) -> bool {
        *self == clip64(*a - *b)
    }

    open spec fn is_mul(&self, a: &Self, b: &Self) -> bool {
        *self == clip64(*a * *b)
    }

    open spec fn is_neg(&self, a: &Self) -> bool {
        *self == clip64(-(*a as int))
    }

    open spec fn sadd_ok(&self, other: &Self) -> bool {
        i64::MIN <= *self + *other <= i64::MAX
    }

    open spec fn ssub_ok(&self, other: &Self) -> bool {
        i64::MIN <= *self - *other <= i64::MAX
    }

    open spec fn smul_ok(&self, other: &Self) -> bool {
        i64::MIN <= *self * *other <= i64::MAX
    }

    open spec fn sneg_ok(&self) -> bool {
        *self != i64::MIN
    }

    open spec fn s_commutative() -> bool {
        true
    }

    open spec fn s_field(&self) -> Option<bool> {
        None
    }

    open spec fn inverse_post(&self, r: Option<Self>) -> bool {
        r is None
    }

    fn zero() -> (r: Self) {
        0
    }

    fn one() -> (r: Self) {
        1
    }

    fn dup(&self) -> (r: Self) {
        *self
    }

    fn add(&self, other: &Self) -> (r: Self) {
        *self + *other
    }

    fn sub(&self, other: &Self) -> (r: Self) {
        *self - *other
    }

    fn mul(&self, other: &Self) -> (r: Self) {
        *self * *other
    }

    fn neg(&self) -> (r: Self) {
        -*self
    }

    fn eq_elem(&self, other: &Self) -> (r: bool) {
        *self == *other
    }

    fn is_zero(&self) -> (r: bool) {
        *self == 0
    }

    fn is_one(&self) -> (r: bool) {
        *self == 1
    }

    fn is_field(&self) -> (r: Option<bool>) {
        None
    }

    fn is_commutative(&self) -> (r: bool) {
        true
    }

    fn inverse(&self) -> (r: Option<Self>) {
        None
    }

    proof fn lemma_dup_refl(a: Self) {
    }

    proof fn lemma_dup_props(a: Self, r: Self) {
    }

    proof fn lemma_compat_refl(a: Self) {
    }

    proof fn lemma_compat_sym(a: Self, b: Self) {
    }

    proof fn lemma_zero_wf(z: Self) {
    }

    proof fn lemma_zero_props(z: Self, a: Self) {
    }

    proof fn lemma_one_wf(o: Self) {
    }

    proof fn lemma_one_props(o: Self, a: Self) {
    }

    proof fn lemma_add_closed(a: Self, b: Self, r: Self) {
    }

    proof fn lemma_sub_closed(a: Self, b: Self, r: Self) {
    }

    proof fn lemma_mul_closed(a: Self, b: Self, r: Self) {
    }

    proof fn lemma_neg_closed(a: Self, r: Self) {
    }
}

/// Total version of `i32` addition used by the relational operation specs.
pub open spec fn clip32(x: int) -> i32 {
    if i32::MIN <= x <= i32::MAX {
        x as i32
    } else {
        0
    }
}

impl Ring for i32 {
    open spec fn wf(&self) -> bool {
        true
    }

    open spec fn compat(&self, other: &Self) -> bool {
        true
    }

    open spec fn eqv(&self, other: &Self) -> bool {
        self == other
    }

    open spec fn eq_spec(&self, other: &Self) -> bool {
        self == other
    }

    open spec fn is_zero_val(&self) -> bool {
        *self == 0
    }

    open spec fn is_one_val(&self) -> bool {
        *self == 1
    }

    open spec fn zero_like(&self) -> bool {
        *self == 0
    }

    open spec fn s_is_zero(&self) -> bool {
        *self == 0
    }

    open spec fn s_is_one(&self) -> bool {
        *self == 1
    }

    open spec fn is_dup(&self, a: &Self) -> bool {
        self == a
    }

    open spec fn is_add(&self, a: &Self, b: &Self) -> bool {
        *self == clip32(*a + *b)
    }

    open spec fn is_sub(&self, a: &Self, b: &Self) -> bool {
        *self == clip32(*a - *b)
    }

    open spec fn is_mul(&self, a: &Self, b: &Self) -> bool {
        *self == clip32(*a * *b)
    }

    open spec fn is_neg(&self, a: &Self) -> bool {
        *self == clip32(-(*a as int))
    }

    open spec fn sadd_ok(&self, other: &Self) -> bool {
        i32::MIN <= *self + *other <= i32::MAX
    }

    open spec fn ssub_ok(&self, other: &Self) -> bool {
        i32::MIN <= *self - *other <= i32::MAX
    }

    open spec fn smul_ok(&self, other: &Self) -> bool {
        i32::MIN <= *self * *other <= i32::MAX
    }

    open spec fn sneg_ok(&self) -> bool {
        *self != i32::MIN
    }

    open spec fn s_commutative() -> bool {
        true
    }

    open spec fn s_field(&self) -> Option<bool> {
        None
    }

    open spec fn inverse_post(&self, r: Option<Self>) -> bool {
        r is None
    }

    fn zero() -> (r: Self) {
        0
    }

    fn one() -> (r: Self) {
        1
    }

    fn dup(&self) -> (r: Self) {
        *self
    }

    fn add(&self, other: &Self) -> (r: Self) {
        *self + *other
    }

    fn sub(&self, other: &Self) -> (r: Self) {
        *self - *other
    }

    fn mul(&self, other: &Self) -> (r: Self) {
        *self * *other
    }

    fn neg(&self) -> (r: Self) {
        -*self
    }

    fn eq_elem(&self, other: &Self) -> (r: bool) {
        *self == *other
    }

    fn is_zero(&self) -> (r: bool) {
        *self == 0
    }

    fn is_one(&self) -> (r: bool) {
        *self == 1
    }

    fn is_field(&self) -> (r: Option<bool>) {
        None
    }

    fn is_commutative(&self) -> (r: bool) {
        true
    }

    fn inverse(&self) -> (r: Option<Self>) {
        None
    }

    proof fn lemma_dup_refl(a: Self) {
    }

    proof fn lemma_dup_props(a: Self, r: Self) {
    }

    proof fn lemma_compat_refl(a: Self) {
    }

    proof fn lemma_compat_sym(a: Self, b: Self) {
    }

    proof fn lemma_zero_wf(z: Self) {
    }

    proof fn lemma_zero_props(z: Self, a: Self) {
    }

    proof fn lemma_one_wf(o: Self) {
    }

    proof fn lemma_one_props(o: Self, a: Self) {
    }

    proof fn lemma_add_closed(a: Self, b: Self, r: Self) {
    }

    proof fn lemma_sub_closed(a: Self, b: Self, r: Self) {
    }

    proof fn lemma_mul_closed(a: Self, b: Self, r: Self) {
    }

    proof fn lemma_neg_closed(a: Self, r: Self) {
    }
}


impl AddLaws for i64 {
    proof fn lemma_eqv_refl(a: Self) {
    }

    proof fn lemma_eqv_sym(a: Self, b: Self) {
    }

    proof fn lemma_dup_eqv(a: Self, r: Self) {
    }

    proof fn lemma_dup_subst(x: Self, y: Self) {
    }

    proof fn lemma_add_det(a: Self, b: Self, r1: Self, r2: Self) {
    }

    proof fn lemma_add_comm(a: Self, b: Self, r1: Self, r2: Self) {
    }

    proof fn lemma_add_assoc(a: Self, b: Self, c: Self, ab: Self, abc1: Self, bc: Self, abc2: Self) {
    }

    proof fn lemma_add_zero(a: Self, z: Self, r: Self) {
    }

    proof fn lemma_add_neg(a: Self, n: Self, r: Self) {
    }

    proof fn lemma_add_cong(a: Self, b: Self, a2: Self, b2: Self, r: Self, r2: Self) {
    }

    proof fn lemma_sub_def(a: Self, b: Self, n: Self, r1: Self, r2: Self) {
    }
}

impl MulLaws for i64 {
    proof fn lemma_mul_det(a: Self, b: Self, r1: Self, r2: Self) {
    }

    proof fn lemma_mul_comm(a: Self, b: Self, r1: Self, r2: Self) {
        vstd::arithmetic::mul::lemma_mul_is_commutative(a as int, b as int);
    }

    proof fn lemma_mul_assoc(a: Self, b: Self, c: Self, ab: Self, abc1: Self, bc: Self, abc2: Self) {
        vstd::arithmetic::mul::lemma_mul_is_associative(a as int, b as int, c as int);
    }

    proof fn lemma_mul_one(a: Self, o: Self, r: Self) {
    }

    proof fn lemma_distrib_left(
        a: Self,
        b: Self,
        c: Self,
        bc: Self,
        abc: Self,
        ab: Self,
        ac: Self,
        sum: Self,
    ) {
        vstd::arithmetic::mul::lemma_mul_is_distributive_add(a as int, b as int, c as int);
    }

    proof fn lemma_distrib_right(
        a: Self,
        b: Self,
        c: Self,
        ab: Self,
        abc: Self,
        ac: Self,
        bc: Self,
        sum: Self,
    ) {
        vstd::arithmetic::mul::lemma_mul_is_distributive_add_other_way(
            c as int,
            a as int,
            b as int,
        );
    }

    proof fn lemma_mul_negone_neg(b: Self, o: Self, no: Self, t: Self, r: Self) {
        assert(-1int * b as int == -(b as int)) by (nonlinear_arith);
    }

    proof fn lemma_mul_negone_add_zero(a: Self, o: Self, no: Self, t: Self, r: Self) {
        assert(-1int * a as int == -(a as int)) by (nonlinear_arith);
    }

    proof fn lemma_sub_eqv_add_mul_negone(
        a: Self,
        b: Self,
        o: Self,
        no: Self,
        t: Self,
        r1: Self,
        r2: Self,
    ) {
        assert(-1int * b as int == -(b as int)) by (nonlinear_arith);
    }

    proof fn lemma_mul_cong(a: Self, b: Self, a2: Self, b2: Self, r: Self, r2: Self) {
    }
}

impl AddLaws for i32 {
    proof fn lemma_eqv_refl(a: Self) {
    }

    proof fn lemma_eqv_sym(a: Self, b: Self) {
    }

    proof fn lemma_dup_eqv(a: Self, r: Self) {
    }

    proof fn lemma_dup_subst(x: Self, y: Self) {
    }

    proof fn lemma_add_det(a: Self, b: Self, r1: Self, r2: Self) {
    }

    proof fn lemma_add_comm(a: Self, b: Self, r1: Self, r2: Self) {
    }

    proof fn lemma_add_assoc(a: Self, b: Self, c: Self, ab: Self, abc1: Self, bc: Self, abc2: Self) {
    }

    proof fn lemma_add_zero(a: Self, z: Self, r: Self) {
    }

    proof fn lemma_add_neg(a: Self, n: Self, r: Self) {
    }

    proof fn lemma_add_cong(a: Self, b: Self, a2: Self, b2: Self, r: Self, r2: Self) {
    }

    proof fn lemma_sub_def(a: Self, b: Self, n: Self, r1: Self, r2: Self) {
    }
}

impl MulLaws for i32 {
    proof fn lemma_mul_det(a: Self, b: Self, r1: Self, r2: Self) {
    }

    proof fn lemma_mul_comm(a: Self, b: Self, r1: Self, r2: Self) {
        vstd::arithmetic::mul::lemma_mul_is_commutative(a as int, b as int);
    }

    proof fn lemma_mul_assoc(a: Self, b: Self, c: Self, ab: Self, abc1: Self, bc: Self, abc2: Self) {
        vstd::arithmetic::mul::lemma_mul_is_associative(a as int, b as int, c as int);
    }

    proof fn lemma_mul_one(a: Self, o: Self, r: Self) {
    }

    proof fn lemma_distrib_left(
        a: Self,
        b: Self,
        c: Self,
        bc: Self,
        abc: Self,
        ab: Self,
        ac: Self,
        sum: Self,
    ) {
        vstd::arithmetic::mul::lemma_mul_is_distributive_add(a as int, b as int, c as int);
    }

    proof fn lemma_distrib_right(
        a: Self,
        b: Self,
        c: Self,
        ab: Self,
        abc: Self,
        ac: Self,
        bc: Self,
        sum: Self,
    ) {
        vstd::arithmetic::mul::lemma_mul_is_distributive_add_other_way(
            c as int,
            a as int,
            b as int,
        );
    }

    proof fn lemma_mul_negone_neg(b: Self, o: Self, no: Self, t: Self, r: Self) {
        assert(-1int * b as int == -(b as int)) by (nonlinear_arith);
    }

    proof fn lemma_mul_negone_add_zero(a: Self, o: Self, no: Self, t: Self, r: Self) {
        assert(-1int * a as int == -(a as int)) by (nonlinear_arith);
    }

    proof fn lemma_sub_eqv_add_mul_negone(
        a: Self,
        b: Self,
        o: Self,
        no: Self,
        t: Self,
        r1: Self,
        r2: Self,
    ) {
        assert(-1int * b as int == -(b as int)) by (nonlinear_arith);
    }

    proof fn lemma_mul_cong(a: Self, b: Self, a2: Self, b2: Self, r: Self, r2: Self) {
    }
}

} // verus!
