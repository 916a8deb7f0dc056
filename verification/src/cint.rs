//! Gaussian integers with 32-bit components: the rank-2 member of the
//! family.  Every operation is specified against the unbounded model in
//! `cmodel`; overflow is either excluded by a precondition (where the
//! operation would otherwise abort) or reported as a recoverable error.
use vstd::prelude::*;

verus! {

use crate::cmodel::{
    CModel, c_add, c_conj, c_divides, c_divq, c_divr, c_imag, c_is_unit, c_is_zero, c_mul, c_neg,
    c_norm2, c_normalize, c_one, c_sub, c_zero, lemma_c_associate_norm2, lemma_c_divrem,
    lemma_c_mul_one, lemma_c_norm2_zero, lemma_c_normalize_norm2, lemma_c_unit_table,
};

#[derive(Debug, Clone, Copy, PartialEq, Eq, Structural)]
pub enum CIntError {
    Overflow,
    DivisionByZero,
    NotDivisible,
    NoInverse,
}

/// `a + b*i` on the 32-bit integer lattice.
#[derive(Clone, Copy, PartialEq, Eq, Structural, Debug, Hash)]
pub struct CInt {
    pub a: i32,
    pub b: i32,
}

/// A numerator together with a positive common denominator.
#[derive(Debug, Clone, Copy, PartialEq, Eq, Structural)]
pub struct CIFraction {
    pub num: CInt,
    pub den: u64,
}

impl View for CInt {
    type V = CModel;

    open spec fn view(&self) -> CModel {
        CModel { a: self.a as int, b: self.b as int }
    }
}

/// The model value is representable in 32-bit components.
pub open spec fn c_fits(x: CModel) -> bool {
    i32::MIN <= x.a <= i32::MAX && i32::MIN <= x.b <= i32::MAX
}

/// Representable with room for negation, as `normalize` and `associates`
/// need.
pub open spec fn c_fits_sym(x: CModel) -> bool {
    i32::MIN < x.a <= i32::MAX && i32::MIN < x.b <= i32::MAX
}

/// Componentwise wrapping addition on the 32-bit lattice.
pub open spec fn cint_wrapping_add(x: CInt, y: CInt) -> CInt {
    CInt {
        a: vstd::wrapping::i32_specs::wrapping_add(x.a, y.a),
        b: vstd::wrapping::i32_specs::wrapping_add(x.b, y.b),
    }
}

/// Componentwise wrapping subtraction on the 32-bit lattice.
pub open spec fn cint_wrapping_sub(x: CInt, y: CInt) -> CInt {
    CInt {
        a: vstd::wrapping::i32_specs::wrapping_sub(x.a, y.a),
        b: vstd::wrapping::i32_specs::wrapping_sub(x.b, y.b),
    }
}

/// Componentwise wrapping negation on the 32-bit lattice.
pub open spec fn cint_wrapping_neg(x: CInt) -> CInt {
    CInt {
        a: vstd::wrapping::i32_specs::wrapping_sub(0i32, x.a),
        b: vstd::wrapping::i32_specs::wrapping_sub(0i32, x.b),
    }
}

impl core::ops::Add for CInt {
    type Output = CInt;

    /// Componentwise addition with the wraparound policy of the scalar layer.
    fn add(self, rhs: CInt) -> (r: CInt) {
        CInt { a: self.a.wrapping_add(rhs.a), b: self.b.wrapping_add(rhs.b) }
    }
}

impl vstd::std_specs::ops::AddSpecImpl for CInt {
    open spec fn obeys_add_spec() -> bool {
        true
    }

    open spec fn add_req(self, rhs: CInt) -> bool {
        true
    }

    open spec fn add_spec(self, rhs: CInt) -> CInt {
        cint_wrapping_add(self, rhs)
    }
}

impl core::ops::Sub for CInt {
    type Output = CInt;

    /// Componentwise subtraction with the wraparound policy of the scalar layer.
    fn sub(self, rhs: CInt) -> (r: CInt) {
        CInt { a: self.a.wrapping_sub(rhs.a), b: self.b.wrapping_sub(rhs.b) }
    }
}

impl vstd::std_specs::ops::SubSpecImpl for CInt {
    open spec fn obeys_sub_spec() -> bool {
        true
    }

    open spec fn sub_req(self, rhs: CInt) -> bool {
        true
    }

    open spec fn sub_spec(self, rhs: CInt) -> CInt {
        cint_wrapping_sub(self, rhs)
    }
}

impl core::ops::Neg for CInt {
    type Output = CInt;

    /// Componentwise negation with the wraparound policy of the scalar layer.
    fn neg(self) -> (r: CInt) {
        CInt { a: 0i32.wrapping_sub(self.a), b: 0i32.wrapping_sub(self.b) }
    }
}

impl vstd::std_specs::ops::NegSpecImpl for CInt {
    open spec fn obeys_neg_spec() -> bool {
        true
    }

    open spec fn neg_req(self) -> bool {
        true
    }

    open spec fn neg_spec(self) -> CInt {
        cint_wrapping_neg(self)
    }
}

impl core::ops::Mul for CInt {
    type Output = CInt;

    /// The exact rank-2 product.  A product whose true value does not fit the
    /// 32-bit components is excluded by the precondition; `div_to_fraction`
    /// and `div_rem` report such overflow as an error instead.
    fn mul(self, rhs: CInt) -> (r: CInt) {
        let re: i64 = wide_mul(self.a, rhs.a) - wide_mul(self.b, rhs.b);
        let im: i64 = wide_mul(self.a, rhs.b) + wide_mul(self.b, rhs.a);
        proof {
            assert(re == c_mul(self@, rhs@).a && im == c_mul(self@, rhs@).b);
        }
        CInt { a: re as i32, b: im as i32 }
    }
}

impl vstd::std_specs::ops::MulSpecImpl for CInt {
    open spec fn obeys_mul_spec() -> bool {
        true
    }

    open spec fn mul_req(self, rhs: CInt) -> bool {
        c_fits(c_mul(self@, rhs@))
    }

    open spec fn mul_spec(self, rhs: CInt) -> CInt {
        CInt { a: c_mul(self@, rhs@).a as i32, b: c_mul(self@, rhs@).b as i32 }
    }
}

impl CInt {
    pub fn new(a: i32, b: i32) -> (r: CInt)
        ensures
            r@ == (CModel { a: a as int, b: b as int }),
    {
        CInt { a, b }
    }

    pub fn zero() -> (r: CInt)
        ensures
            r@ == c_zero(),
    {
        CInt::new(0, 0)
    }

    pub fn one() -> (r: CInt)
        ensures
            r@ == c_one(),
    {
        CInt::new(1, 0)
    }

    pub fn i() -> (r: CInt)
        ensures
            r@ == c_imag(),
    {
        CInt::new(0, 1)
    }

    pub fn is_zero(self) -> (r: bool)
        ensures
            r == c_is_zero(self@),
    {
        self.a == 0 && self.b == 0
    }

    pub fn is_unit(self) -> (r: bool)
        ensures
            r == c_is_unit(self@),
    {
        self.norm_squared() == 1
    }

    pub fn conj(self) -> (r: CInt)
        requires
            self.b > i32::MIN,
        ensures
            r@ == c_conj(self@),
    {
        CInt { a: self.a, b: -self.b }
    }

    pub fn norm_squared(self) -> (r: u64)
        ensures
            r == c_norm2(self@),
    {
        let a2: i64 = wide_mul(self.a, self.a);
        let b2: i64 = wide_mul(self.b, self.b);
        proof {
            assert(a2 >= 0 && b2 >= 0) by (nonlinear_arith)
                requires
                    a2 == self.a as int * self.a as int,
                    b2 == self.b as int * self.b as int,
            ;
        }
        a2 as u64 + b2 as u64
    }

    /// The value multiplied by each of the four units 1, i, -1, -i.
    pub fn associates(self) -> (r: [CInt; 4])
        requires
            c_fits_sym(self@),
        ensures
            r[0]@ == self@,
            r[1]@ == c_mul(self@, c_imag()),
            r[2]@ == c_mul(self@, c_neg(c_one())),
            r[3]@ == c_mul(self@, c_neg(c_imag())),
            forall|k: int| 0 <= k < 4 ==> c_norm2(#[trigger] r[k]@) == c_norm2(self@),
    {
        proof {
            lemma_c_unit_table(self@);
            lemma_c_associate_norm2(self@, c_imag());
            lemma_c_associate_norm2(self@, c_neg(c_one()));
            lemma_c_associate_norm2(self@, c_neg(c_imag()));
            lemma_c_mul_one(self@);
        }
        [
            self,
            CInt::new(-self.b, self.a),
            CInt::new(-self.a, -self.b),
            CInt::new(self.b, -self.a),
        ]
    }

    /// Canonical associate: see `c_normalize`.
    pub fn normalize(self) -> (r: CInt)
        requires
            c_fits_sym(self@),
        ensures
            r@ == c_normalize(self@),
            c_norm2(r@) == c_norm2(self@),
            c_fits_sym(r@),
    {
        proof {
            lemma_c_normalize_norm2(self@);
        }
        if self.is_zero() {
            return self;
        }
        if self.a == 0 {
            let m = if self.b >= 0 {
                self.b
            } else {
                -self.b
            };
            return CInt::new(m, 0);
        }
        if self.a > 0 && self.b >= 0 {
            return self;
        }
        if -self.b > 0 && self.a >= 0 {
            return CInt::new(-self.b, self.a);
        }
        if -self.a > 0 && -self.b >= 0 {
            return CInt::new(-self.a, -self.b);
        }
        CInt::new(self.b, -self.a)
    }

    /// Euclidean division: nearest-lattice-point quotient and the matching
    /// remainder.  Fails on a zero divisor, or when the quotient or
    /// remainder leaves the representable lattice.
    pub fn div_rem(self, d: CInt) -> (res: Result<(CInt, CInt), CIntError>)
        ensures
            match res {
                Ok(p) => {
                    let (q, r) = p;
                    &&& !c_is_zero(d@)
                    &&& q@ == c_divq(self@, d@)
                    &&& r@ == c_divr(self@, d@)
                    &&& c_add(c_mul(q@, d@), r@) == self@
                    &&& c_norm2(r@) < c_norm2(d@)
                },
                Err(e) => {
                    &&& (e == CIntError::DivisionByZero <==> c_is_zero(d@))
                    &&& (e == CIntError::Overflow <==> !c_is_zero(d@) && !(c_fits(
                        c_divq(self@, d@),
                    ) && c_fits_sym(c_divr(self@, d@))))
                },
            },
            res is Ok <==> !c_is_zero(d@) && c_fits(c_divq(self@, d@)) && c_fits_sym(
                c_divr(self@, d@),
            ),
    {
        if self.is_zero() && d.is_zero() {
            return Err(CIntError::DivisionByZero);
        }
        if d.is_zero() {
            return Err(CIntError::DivisionByZero);
        }
        let n: i128 = self_norm_i128(d);
        let ta: i128 = wide_mul_128(self.a as i128, d.a as i128) + wide_mul_128(
            self.b as i128,
            d.b as i128,
        );
        let tb: i128 = wide_mul_128(self.b as i128, d.a as i128) - wide_mul_128(
            self.a as i128,
            d.b as i128,
        );
        proof {
            lemma_c_norm2_zero(d@);
            assert(ta == c_mul(self@, c_conj(d@)).a && tb == c_mul(self@, c_conj(d@)).b)
                by (nonlinear_arith)
                requires
                    ta == self.a as int * d.a as int + self.b as int * d.b as int,
                    tb == self.b as int * d.a as int - self.a as int * d.b as int,
                    c_mul(self@, c_conj(d@)).a == self@.a * d@.a - self@.b * (-d@.b),
                    c_mul(self@, c_conj(d@)).b == self@.a * (-d@.b) + self@.b * d@.a,
                    self@.a == self.a as int && self@.b == self.b as int,
                    d@.a == d.a as int && d@.b == d.b as int,
            ;
        }
        let qa: i128 = crate::num_utils::round_div_i128(ta, n);
        let qb: i128 = crate::num_utils::round_div_i128(tb, n);
        let q_model = Ghost(c_divq(self@, d@));
        if qa < i32::MIN as i128 || qa > i32::MAX as i128 || qb < i32::MIN as i128 || qb
            > i32::MAX as i128 {
            return Err(CIntError::Overflow);
        }
        let ra: i128 = self.a as i128 - (wide_mul_128(qa, d.a as i128) - wide_mul_128(
            qb,
            d.b as i128,
        ));
        let rb: i128 = self.b as i128 - (wide_mul_128(qa, d.b as i128) + wide_mul_128(
            qb,
            d.a as i128,
        ));
        proof {
            assert(ra == c_divr(self@, d@).a && rb == c_divr(self@, d@).b) by (nonlinear_arith)
                requires
                    ra == self.a as int - (qa * d.a as int - qb * d.b as int),
                    rb == self.b as int - (qa * d.b as int + qb * d.a as int),
                    c_divr(self@, d@).a == self@.a - (q_model@.a * d@.a - q_model@.b * d@.b),
                    c_divr(self@, d@).b == self@.b - (q_model@.a * d@.b + q_model@.b * d@.a),
                    qa == q_model@.a && qb == q_model@.b,
                    self@.a == self.a as int && self@.b == self.b as int,
                    d@.a == d.a as int && d@.b == d.b as int,
            ;
        }
        if ra <= i32::MIN as i128 || ra > i32::MAX as i128 || rb <= i32::MIN as i128 || rb
            > i32::MAX as i128 {
            return Err(CIntError::Overflow);
        }
        let q = CInt { a: qa as i32, b: qb as i32 };
        let r = CInt { a: ra as i32, b: rb as i32 };
        proof {
            lemma_c_divrem(self@, d@);
        }
        Ok((q, r))
    }

    /// Exact division: the quotient when the remainder is zero.
    pub fn div_exact(self, d: CInt) -> (res: Result<CInt, CIntError>)
        ensures
            match res {
                Ok(q) => {
                    &&& q@ == c_divq(self@, d@)
                    &&& c_mul(q@, d@) == self@
                },
                Err(e) => {
                    &&& (e == CIntError::DivisionByZero <==> c_is_zero(d@))
                    &&& (e == CIntError::Overflow <==> !c_is_zero(d@) && !(c_fits(
                        c_divq(self@, d@),
                    ) && c_fits_sym(c_divr(self@, d@))))
                    &&& (e == CIntError::NotDivisible <==> !c_is_zero(d@) && c_fits(
                        c_divq(self@, d@),
                    ) && c_fits_sym(c_divr(self@, d@)) && !c_is_zero(c_divr(self@, d@)))
                },
            },
            res is Ok <==> !c_is_zero(d@) && c_fits(c_divq(self@, d@)) && c_fits_sym(
                c_divr(self@, d@),
            ) && c_is_zero(c_divr(self@, d@)),
            res is Ok ==> c_divides(d@, self@),
    {
        let (q, r) = match self.div_rem(d) {
            Ok(p) => p,
            Err(e) => {
                return Err(e);
            },
        };
        if r.is_zero() {
            proof {
                assert(c_add(c_mul(q@, d@), r@) == c_mul(q@, d@));
                assert(self@ == c_mul(q@, d@));
            }
            Ok(q)
        } else {
            Err(CIntError::NotDivisible)
        }
    }
}

/// Every Euclidean step of the gcd loop stays on the representable lattice.
pub open spec fn c_gcd_steps_fit(x: CModel, y: CModel) -> bool
    decreases c_norm2(y),
    via c_gcd_steps_fit_decreases
{
    if c_is_zero(y) {
        true
    } else {
        c_fits(c_divq(x, y)) && c_fits_sym(c_divr(x, y)) && c_gcd_steps_fit(y, c_divr(x, y))
    }
}

#[via_fn]
proof fn c_gcd_steps_fit_decreases(x: CModel, y: CModel) {
    if !c_is_zero(y) {
        lemma_c_divrem(x, y);
        crate::cmodel::lemma_c_norm2_zero(c_divr(x, y));
    }
}

/// Every step of the extended gcd loop, coefficients included, stays on the
/// representable lattice.
pub open spec fn c_xgcd_steps_fit(
    r0: CModel,
    r1: CModel,
    s0: CModel,
    s1: CModel,
    t0: CModel,
    t1: CModel,
) -> bool
    decreases c_norm2(r1),
    via c_xgcd_steps_fit_decreases
{
    if c_is_zero(r1) {
        c_fits_sym(r0)
    } else {
        let q = c_divq(r0, r1);
        let r2 = c_divr(r0, r1);
        c_fits(q) && c_fits_sym(r2) && c_fits(c_sub(s0, c_mul(q, s1))) && c_fits(
            c_sub(t0, c_mul(q, t1)),
        ) && c_xgcd_steps_fit(r1, r2, s1, c_sub(s0, c_mul(q, s1)), t1, c_sub(t0, c_mul(q, t1)))
    }
}

#[via_fn]
proof fn c_xgcd_steps_fit_decreases(
    r0: CModel,
    r1: CModel,
    s0: CModel,
    s1: CModel,
    t0: CModel,
    t1: CModel,
) {
    if !c_is_zero(r1) {
        lemma_c_divrem(r0, r1);
        crate::cmodel::lemma_c_norm2_zero(c_divr(r0, r1));
    }
}

impl CInt {
    /// Inverse of a unit; `NoInverse` on any non-unit.
    pub fn inv_unit(self) -> (res: Result<CInt, CIntError>)
        ensures
            res is Ok <==> c_is_unit(self@),
            match res {
                Ok(u) => c_is_unit(u@) && c_mul(self@, u@) == c_one(),
                Err(e) => e == CIntError::NoInverse,
            },
    {
        if !self.is_unit() {
            return Err(CIntError::NoInverse);
        }
        proof {
            crate::cmodel::lemma_c_units(self@);
        }
        let assocs = self.associates();
        let mut idx: usize = 0;
        while idx < 4
            invariant
                c_is_unit(self@),
                self@ == c_one() || self@ == c_imag() || self@ == c_neg(c_one()) || self@ == c_neg(
                    c_imag(),
                ),
                assocs[0]@ == self@,
                assocs[1]@ == c_mul(self@, c_imag()),
                assocs[2]@ == c_mul(self@, c_neg(c_one())),
                assocs[3]@ == c_mul(self@, c_neg(c_imag())),
                idx <= 4,
                forall|k: int|
                    0 <= k < idx ==> c_mul(self@, #[trigger] assocs[k]@) != c_one(),
            decreases 4 - idx,
        {
            let unit = assocs[idx];
            proof {
                crate::cmodel::lemma_c_unit_table(self@);
                crate::cmodel::lemma_c_associate_norm2(self@, c_imag());
                crate::cmodel::lemma_c_associate_norm2(self@, c_neg(c_one()));
                crate::cmodel::lemma_c_associate_norm2(self@, c_neg(c_imag()));
                crate::cmodel::lemma_c_units(unit@);
                crate::cmodel::lemma_c_units(c_mul(self@, unit@));
                crate::cmodel::lemma_c_associate_norm2(self@, unit@);
            }
            let p = self * unit;
            if p.a == 1 && p.b == 0 {
                proof {
                    assert(c_mul(self@, unit@) == c_one());
                }
                return Ok(unit);
            }
            idx = idx + 1;
        }
        proof {
            crate::cmodel::lemma_c_unit_table(self@);
            assert(false);
        }
        Err(CIntError::NoInverse)
    }

    /// Iterative Euclidean gcd, both arguments and the result in normal form.
    pub fn gcd(a: CInt, b: CInt) -> (res: Result<CInt, CIntError>)
        requires
            c_fits_sym(a@),
            c_fits_sym(b@),
        ensures
            res is Ok <==> c_gcd_steps_fit(c_normalize(a@), c_normalize(b@)),
            match res {
                Ok(g) => {
                    &&& g@ == crate::cmodel::c_gcd_full(a@, b@)
                    &&& c_divides(g@, a@)
                    &&& c_divides(g@, b@)
                },
                Err(e) => e == CIntError::Overflow,
            },
    {
        let mut x = a.normalize();
        let mut y = b.normalize();
        while !y.is_zero()
            invariant
                c_fits_sym(x@),
                c_fits_sym(y@),
                crate::cmodel::c_gcd_rec(x@, y@) == crate::cmodel::c_gcd_rec(
                    c_normalize(a@),
                    c_normalize(b@),
                ),
                c_gcd_steps_fit(x@, y@) == c_gcd_steps_fit(c_normalize(a@), c_normalize(b@)),
            decreases c_norm2(y@),
        {
            proof {
                lemma_c_divrem(x@, y@);
                crate::cmodel::lemma_c_norm2_zero(c_divr(x@, y@));
            }
            let (_q, r) = match x.div_rem(y) {
                Ok(p) => p,
                Err(_e) => {
                    return Err(CIntError::Overflow);
                },
            };
            x = y;
            y = r;
        }
        proof {
            crate::cmodel::lemma_c_gcd_full_divides(a@, b@);
        }
        Ok(x.normalize())
    }

    /// Extended Euclidean gcd: the normalized gcd together with Bezout
    /// coefficients `s`, `t` whose combination `s*a + t*b` is the gcd before
    /// normalization, hence an associate of the result.
    pub fn xgcd(a: CInt, b: CInt) -> (res: Result<(CInt, CInt, CInt), CIntError>)
        requires
            c_fits_sym(a@),
            c_fits_sym(b@),
        ensures
            match res {
                Ok(p) => {
                    let (g, s, t) = p;
                    let gst = crate::cmodel::c_xgcd_rec(
                        a@,
                        b@,
                        c_one(),
                        c_zero(),
                        c_zero(),
                        c_one(),
                    );
                    &&& g@ == c_normalize(gst.0)
                    &&& s@ == gst.1
                    &&& t@ == gst.2
                    &&& c_add(c_mul(s@, a@), c_mul(t@, b@)) == gst.0
                    &&& c_norm2(g@) == c_norm2(c_add(c_mul(s@, a@), c_mul(t@, b@)))
                },
                Err(e) => e == CIntError::Overflow,
            },
            res is Ok <==> c_xgcd_steps_fit(a@, b@, c_one(), c_zero(), c_zero(), c_one()),
    {
        proof {
            lemma_c_mul_one(c_one());
            crate::cmodel::lemma_c_divides_basics(a@);
            crate::cmodel::lemma_c_divides_basics(b@);
        }
        if b.is_zero() {
            proof {
                assert(crate::cmodel::c_xgcd_rec(a@, b@, c_one(), c_zero(), c_zero(), c_one())
                    == (a@, c_one(), c_zero()));
                lemma_c_bezout_trivial(a@, b@);
                crate::cmodel::lemma_c_normalize_norm2(a@);
            }
            return Ok((a.normalize(), CInt::one(), CInt::zero()));
        }
        let mut r0 = a;
        let mut r1 = b;
        let mut s0 = CInt::one();
        let mut s1 = CInt::zero();
        let mut t0 = CInt::zero();
        let mut t1 = CInt::one();
        let ghost orig = crate::cmodel::c_xgcd_rec(a@, b@, c_one(), c_zero(), c_zero(), c_one());
        while !r1.is_zero()
            invariant
                c_fits_sym(r0@),
                c_fits_sym(r1@),
                crate::cmodel::c_xgcd_rec(r0@, r1@, s0@, s1@, t0@, t1@) == orig,
                c_xgcd_steps_fit(r0@, r1@, s0@, s1@, t0@, t1@) == c_xgcd_steps_fit(
                    a@,
                    b@,
                    c_one(),
                    c_zero(),
                    c_zero(),
                    c_one(),
                ),
                c_add(c_mul(s0@, a@), c_mul(t0@, b@)) == r0@,
                c_add(c_mul(s1@, a@), c_mul(t1@, b@)) == r1@,
            decreases c_norm2(r1@),
        {
            proof {
                lemma_c_divrem(r0@, r1@);
                crate::cmodel::lemma_c_norm2_zero(c_divr(r0@, r1@));
            }
            let (q, r2) = match r0.div_rem(r1) {
                Ok(p) => p,
                Err(_e) => {
                    return Err(CIntError::Overflow);
                },
            };
            let s2 = match coeff_step(s0, s1, q) {
                Some(v) => v,
                None => {
                    return Err(CIntError::Overflow);
                },
            };
            let t2 = match coeff_step(t0, t1, q) {
                Some(v) => v,
                None => {
                    return Err(CIntError::Overflow);
                },
            };
            proof {
                lemma_c_bezout_step(a@, b@, r0@, r1@, s0@, s1@, t0@, t1@, q@, r2@);
            }
            r0 = r1;
            r1 = r2;
            s0 = s1;
            s1 = s2;
            t0 = t1;
            t1 = t2;
        }
        let g = r0.normalize();
        proof {
            crate::cmodel::lemma_c_normalize_norm2(r0@);
        }
        Ok((g, s0, t0))
    }
}

impl CInt {
    /// The quotient `self / d` as an exact fraction: numerator
    /// `self * conj(d)` over denominator `norm2(d)`.
    pub fn div_to_fraction(self, d: CInt) -> (res: Result<CIFraction, CIntError>)
        ensures
            match res {
                Ok(f) => {
                    &&& f.num@ == c_mul(self@, c_conj(d@))
                    &&& f.den == c_norm2(d@)
                    &&& f.den > 0
                },
                Err(e) => {
                    &&& (e == CIntError::DivisionByZero <==> c_is_zero(d@))
                    &&& (e == CIntError::Overflow <==> !c_is_zero(d@) && !c_fits(
                        c_mul(self@, c_conj(d@)),
                    ))
                },
            },
            res is Ok <==> !c_is_zero(d@) && c_fits(c_mul(self@, c_conj(d@))),
    {
        if d.is_zero() {
            return Err(CIntError::DivisionByZero);
        }
        let ta: i128 = wide_mul_128(self.a as i128, d.a as i128) + wide_mul_128(
            self.b as i128,
            d.b as i128,
        );
        let tb: i128 = wide_mul_128(self.b as i128, d.a as i128) - wide_mul_128(
            self.a as i128,
            d.b as i128,
        );
        proof {
            lemma_c_norm2_zero(d@);
            assert(ta == c_mul(self@, c_conj(d@)).a && tb == c_mul(self@, c_conj(d@)).b)
                by (nonlinear_arith)
                requires
                    ta == self.a as int * d.a as int + self.b as int * d.b as int,
                    tb == self.b as int * d.a as int - self.a as int * d.b as int,
                    c_mul(self@, c_conj(d@)).a == self@.a * d@.a - self@.b * (-d@.b),
                    c_mul(self@, c_conj(d@)).b == self@.a * (-d@.b) + self@.b * d@.a,
                    self@.a == self.a as int && self@.b == self.b as int,
                    d@.a == d.a as int && d@.b == d.b as int,
            ;
        }
        if ta < i32::MIN as i128 || ta > i32::MAX as i128 || tb < i32::MIN as i128 || tb
            > i32::MAX as i128 {
            return Err(CIntError::Overflow);
        }
        Ok(CIFraction { num: CInt { a: ta as i32, b: tb as i32 }, den: d.norm_squared() })
    }

    /// The multiplicative inverse as a fraction: `conj(self) / norm2(self)`.
    pub fn inv_fraction(self) -> (res: Result<CIFraction, CIntError>)
        requires
            self.b > i32::MIN,
        ensures
            match res {
                Ok(f) => {
                    &&& f.num@ == c_conj(self@)
                    &&& f.den == c_norm2(self@)
                    &&& f.den > 0
                },
                Err(e) => e == CIntError::DivisionByZero,
            },
            res is Ok <==> !c_is_zero(self@),
    {
        if self.is_zero() {
            return Err(CIntError::DivisionByZero);
        }
        proof {
            lemma_c_norm2_zero(self@);
        }
        Ok(CIFraction { num: self.conj(), den: self.norm_squared() })
    }

    /// Divides the numerator components and the denominator by their common
    /// gcd.  Afterwards the component magnitudes and the denominator are
    /// coprime, and the new denominator divides the old one.
    pub fn reduce_fraction(frac: CIFraction) -> (r: CIFraction)
        requires
            frac.den > 0,
            frac.num.a > i32::MIN,
            frac.num.b > i32::MIN,
        ensures
            ({
                let g = crate::num_utils::spec_gcd(
                    crate::num_utils::spec_gcd(
                        crate::num_utils::nat_abs(frac.num@.a),
                        crate::num_utils::nat_abs(frac.num@.b),
                    ),
                    frac.den as nat,
                );
                &&& r.den > 0
                &&& r.num@.a * g == frac.num@.a
                &&& r.num@.b * g == frac.num@.b
                &&& r.den as int * g == frac.den as int
                &&& crate::num_utils::divides(r.den as nat, frac.den as nat)
                &&& crate::num_utils::spec_gcd(
                    crate::num_utils::spec_gcd(
                        crate::num_utils::nat_abs(r.num@.a),
                        crate::num_utils::nat_abs(r.num@.b),
                    ),
                    r.den as nat,
                ) == 1
            }),
    {
        let aa: u64 = (if frac.num.a >= 0 {
            frac.num.a
        } else {
            -frac.num.a
        }) as u64;
        let bb: u64 = (if frac.num.b >= 0 {
            frac.num.b
        } else {
            -frac.num.b
        }) as u64;
        let g1 = crate::num_utils::integer_gcd(aa, bb);
        let g = crate::num_utils::integer_gcd(g1, frac.den);
        proof {
            crate::num_utils::lemma_gcd3_reduced(aa as nat, bb as nat, frac.den as nat);
            crate::num_utils::lemma_gcd_divides_both(aa as nat, bb as nat);
            crate::num_utils::lemma_gcd_divides_both(g1 as nat, frac.den as nat);
            crate::num_utils::lemma_divides_trans(g as nat, g1 as nat, aa as nat);
            crate::num_utils::lemma_divides_trans(g as nat, g1 as nat, bb as nat);
        }
        if g <= 1 {
            proof {
                assert(r_id_holds(frac, frac, g as nat)) by (nonlinear_arith)
                    requires
                        g == 1,
            ;
            }
            return frac;
        }
        let ea = crate::num_utils::exact_div_u64(aa, g);
        let eb = crate::num_utils::exact_div_u64(bb, g);
        let ed = crate::num_utils::exact_div_u64(frac.den, g);
        proof {
            assert(ea <= aa && eb <= bb && ed <= frac.den && ed > 0) by (nonlinear_arith)
                requires
                    ea * g == aa && eb * g == bb && ed * g == frac.den,
                    g > 1,
                    frac.den > 0,
            ;
        }
        let na: i32 = if frac.num.a >= 0 {
            ea as i32
        } else {
            -(ea as i32)
        };
        let nb: i32 = if frac.num.b >= 0 {
            eb as i32
        } else {
            -(eb as i32)
        };
        let out = CIFraction { num: CInt { a: na, b: nb }, den: ed };
        proof {
            assert(out.num@.a * g == frac.num@.a && out.num@.b * g == frac.num@.b)
                by (nonlinear_arith)
                requires
                    ea * g == aa && eb * g == bb,
                    aa == crate::num_utils::nat_abs(frac.num@.a),
                    bb == crate::num_utils::nat_abs(frac.num@.b),
                    out.num@.a == (if frac.num@.a >= 0 { ea as int } else { -(ea as int) }),
                    out.num@.b == (if frac.num@.b >= 0 { eb as int } else { -(eb as int) }),
            ;
            assert(crate::num_utils::nat_abs(out.num@.a) == ea && crate::num_utils::nat_abs(
                out.num@.b,
            ) == eb);
        }
        out
    }
}

/// The identity claims of an unreduced fraction, used when the gcd is
/// already 1.
spec fn r_id_holds(r: CIFraction, frac: CIFraction, g: nat) -> bool {
    r.num@.a * g == frac.num@.a && r.num@.b * g == frac.num@.b && r.den as int * g
        == frac.den as int
}

/// One coefficient update of the extended gcd: `s0 - q * s1`, or `None`
/// when the new coefficient leaves the representable range.
fn coeff_step(s0: CInt, s1: CInt, q: CInt) -> (res: Option<CInt>)
    ensures
        match res {
            Some(v) => v@ == c_sub(s0@, c_mul(q@, s1@)),
            None => !c_fits(c_sub(s0@, c_mul(q@, s1@))),
        },
        res is Some <==> c_fits(c_sub(s0@, c_mul(q@, s1@))),
{
    let pa: i128 = wide_mul_128(q.a as i128, s1.a as i128) - wide_mul_128(
        q.b as i128,
        s1.b as i128,
    );
    let pb: i128 = wide_mul_128(q.a as i128, s1.b as i128) + wide_mul_128(
        q.b as i128,
        s1.a as i128,
    );
    let va: i128 = s0.a as i128 - pa;
    let vb: i128 = s0.b as i128 - pb;
    if va < i32::MIN as i128 || va > i32::MAX as i128 || vb < i32::MIN as i128 || vb
        > i32::MAX as i128 {
        return None;
    }
    Some(CInt { a: va as i32, b: vb as i32 })
}

/// The trivial Bezout identity `1*a + 0*b == a`.
proof fn lemma_c_bezout_trivial(a: CModel, b: CModel)
    ensures
        c_add(c_mul(c_one(), a), c_mul(c_zero(), b)) == a,
{
    lemma_c_mul_one(a);
    crate::cmodel::lemma_c_mul_comm(c_one(), a);
    assert(c_mul(c_zero(), b) == c_zero()) by {
        assert(0 * b.a - 0 * b.b == 0 && 0 * b.b + 0 * b.a == 0) by (nonlinear_arith);
    }
}

/// One step of the Bezout invariant.
proof fn lemma_c_bezout_step(
    a: CModel,
    b: CModel,
    r0: CModel,
    r1: CModel,
    s0: CModel,
    s1: CModel,
    t0: CModel,
    t1: CModel,
    q: CModel,
    r2: CModel,
)
    requires
        c_add(c_mul(s0, a), c_mul(t0, b)) == r0,
        c_add(c_mul(s1, a), c_mul(t1, b)) == r1,
        q == c_divq(r0, r1),
        r2 == c_divr(r0, r1),
    ensures
        c_add(c_mul(c_sub(s0, c_mul(q, s1)), a), c_mul(c_sub(t0, c_mul(q, t1)), b)) == r2,
{
    let s2 = c_sub(s0, c_mul(q, s1));
    let t2 = c_sub(t0, c_mul(q, t1));
    crate::cmodel::lemma_c_mul_distributes_sub(s0, c_mul(q, s1), a);
    crate::cmodel::lemma_c_mul_distributes_sub(t0, c_mul(q, t1), b);
    crate::cmodel::lemma_c_mul_assoc(q, s1, a);
    crate::cmodel::lemma_c_mul_assoc(q, t1, b);
    assert(c_add(c_mul(s2, a), c_mul(t2, b)) == c_sub(
        c_add(c_mul(s0, a), c_mul(t0, b)),
        c_add(c_mul(q, c_mul(s1, a)), c_mul(q, c_mul(t1, b))),
    ));
    crate::cmodel::lemma_c_mul_comm(q, c_add(c_mul(s1, a), c_mul(t1, b)));
    crate::cmodel::lemma_c_mul_distributes_add(c_mul(s1, a), c_mul(t1, b), q);
    crate::cmodel::lemma_c_mul_comm(c_mul(s1, a), q);
    crate::cmodel::lemma_c_mul_comm(c_mul(t1, b), q);
    assert(c_add(c_mul(q, c_mul(s1, a)), c_mul(q, c_mul(t1, b))) == c_mul(q, r1));
}

/// Squared norm of the divisor, widened for the division intermediates.
fn self_norm_i128(d: CInt) -> (n: i128)
    ensures
        n == c_norm2(d@),
        0 <= n <= 0x1_0000_0000_0000_0000,
{
    let a2: i128 = wide_mul_128(d.a as i128, d.a as i128);
    let b2: i128 = wide_mul_128(d.b as i128, d.b as i128);
    proof {
        assert(a2 >= 0 && b2 >= 0 && a2 <= 0x4000_0000_0000_0000 && b2 <= 0x4000_0000_0000_0000)
            by (nonlinear_arith)
            requires
                a2 == d.a as int * d.a as int,
                b2 == d.b as int * d.b as int,
                -0x8000_0000 <= d.a as int <= 0x7fff_ffff,
                -0x8000_0000 <= d.b as int <= 0x7fff_ffff,
        ;
    }
    a2 + b2
}

/// Product of two 32-bit values, widened to 64 bits.
pub(crate) fn wide_mul(x: i32, y: i32) -> (r: i64)
    ensures
        r == x as int * y as int,
        -0x4000_0000_0000_0000 <= r <= 0x4000_0000_0000_0000,
{
    proof {
        assert(-0x4000_0000_0000_0000 <= x as int * y as int <= 0x4000_0000_0000_0000)
            by (nonlinear_arith)
            requires
                -0x8000_0000 <= x as int <= 0x7fff_ffff,
                -0x8000_0000 <= y as int <= 0x7fff_ffff,
        ;
    }
    x as i64 * y as i64
}

/// Product of two values known to lie in the 32-bit range, in 128 bits.
pub(crate) fn wide_mul_128(x: i128, y: i128) -> (r: i128)
    requires
        -0x1_0000_0000 <= x <= 0x1_0000_0000,
        -0x1_0000_0000 <= y <= 0x1_0000_0000,
    ensures
        r == x * y,
        -0x1_0000_0000_0000_0000 <= r <= 0x1_0000_0000_0000_0000,
{
    proof {
        assert(-0x1_0000_0000_0000_0000 <= x * y <= 0x1_0000_0000_0000_0000) by (nonlinear_arith)
            requires
                -0x1_0000_0000 <= x <= 0x1_0000_0000,
                -0x1_0000_0000 <= y <= 0x1_0000_0000,
        ;
    }
    x * y
}

} // verus!
