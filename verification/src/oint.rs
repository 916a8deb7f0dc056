//! Integer octonions with 32-bit stored components (each twice the
//! represented coordinate).  Multiplication follows the cyclic Fano-plane
//! table in `omodel`; the algebra is non-commutative and non-associative.
use vstd::prelude::*;

verus! {

use crate::omodel::{
    OModel, o_add, o_conj, o_is_zero, o_is_unit, o_mul, o_neg, o_norm2, o_norm2_raw, o_normalize,
    o_raw_0, o_raw_1, o_raw_2, o_raw_3, o_raw_4, o_raw_5, o_raw_6, o_raw_7, o_sub, o_wf, o_zero,
    otab_sign, otab_tgt, lemma_o_norm2_nonneg, lemma_o_norm2_raw_zero, lemma_o_normalize_norm2,
};
use crate::num_utils::rnd_half_away;

#[derive(Debug, Clone, Copy, PartialEq, Eq, Structural)]
pub enum OIntError {
    Overflow,
    DivisionByZero,
    NotDivisible,
    NoInverse,
    InvalidHalfInteger,
}

/// An octonion on the half-integer lattice; fields hold twice the
/// represented coordinates.
#[derive(Clone, Copy, PartialEq, Eq, Structural, Debug, Hash)]
pub struct OInt {
    pub a: i32,
    pub b: i32,
    pub c: i32,
    pub d: i32,
    pub e: i32,
    pub f: i32,
    pub g: i32,
    pub h: i32,
}

/// A numerator together with a positive common denominator.
#[derive(Debug, Clone, Copy, PartialEq, Eq, Structural)]
pub struct OIFraction {
    pub num: OInt,
    pub den: u64,
}

impl View for OInt {
    type V = OModel;

    open spec fn view(&self) -> OModel {
        OModel {
            a: self.a as int,
            b: self.b as int,
            c: self.c as int,
            d: self.d as int,
            e: self.e as int,
            f: self.f as int,
            g: self.g as int,
            h: self.h as int,
        }
    }
}

pub open spec fn o_fits(x: OModel) -> bool {
    i32::MIN <= x.a <= i32::MAX && i32::MIN <= x.b <= i32::MAX && i32::MIN <= x.c <= i32::MAX
        && i32::MIN <= x.d <= i32::MAX && i32::MIN <= x.e <= i32::MAX && i32::MIN <= x.f
        <= i32::MAX && i32::MIN <= x.g <= i32::MAX && i32::MIN <= x.h <= i32::MAX
}

pub open spec fn o_fits_sym(x: OModel) -> bool {
    i32::MIN < x.a <= i32::MAX && i32::MIN < x.b <= i32::MAX && i32::MIN < x.c <= i32::MAX
        && i32::MIN < x.d <= i32::MAX && i32::MIN < x.e <= i32::MAX && i32::MIN < x.f <= i32::MAX
        && i32::MIN < x.g <= i32::MAX && i32::MIN < x.h <= i32::MAX
}

impl core::ops::Add for OInt {
    type Output = OInt;

    /// Componentwise addition; sums must stay on the representable lattice.
    fn add(self, rhs: OInt) -> (r: OInt) {
        OInt {
            a: self.a + rhs.a,
            b: self.b + rhs.b,
            c: self.c + rhs.c,
            d: self.d + rhs.d,
            e: self.e + rhs.e,
            f: self.f + rhs.f,
            g: self.g + rhs.g,
            h: self.h + rhs.h,
        }
    }
}

impl vstd::std_specs::ops::AddSpecImpl for OInt {
    open spec fn obeys_add_spec() -> bool {
        true
    }

    open spec fn add_req(self, rhs: OInt) -> bool {
        o_fits(o_add(self@, rhs@))
    }

    open spec fn add_spec(self, rhs: OInt) -> OInt {
        OInt {
            a: (self@.a + rhs@.a) as i32,
            b: (self@.b + rhs@.b) as i32,
            c: (self@.c + rhs@.c) as i32,
            d: (self@.d + rhs@.d) as i32,
            e: (self@.e + rhs@.e) as i32,
            f: (self@.f + rhs@.f) as i32,
            g: (self@.g + rhs@.g) as i32,
            h: (self@.h + rhs@.h) as i32,
        }
    }
}

impl core::ops::Sub for OInt {
    type Output = OInt;

    /// Componentwise subtraction on the representable lattice.
    fn sub(self, rhs: OInt) -> (r: OInt) {
        OInt {
            a: self.a - rhs.a,
            b: self.b - rhs.b,
            c: self.c - rhs.c,
            d: self.d - rhs.d,
            e: self.e - rhs.e,
            f: self.f - rhs.f,
            g: self.g - rhs.g,
            h: self.h - rhs.h,
        }
    }
}

impl vstd::std_specs::ops::SubSpecImpl for OInt {
    open spec fn obeys_sub_spec() -> bool {
        true
    }

    open spec fn sub_req(self, rhs: OInt) -> bool {
        o_fits(o_sub(self@, rhs@))
    }

    open spec fn sub_spec(self, rhs: OInt) -> OInt {
        OInt {
            a: (self@.a - rhs@.a) as i32,
            b: (self@.b - rhs@.b) as i32,
            c: (self@.c - rhs@.c) as i32,
            d: (self@.d - rhs@.d) as i32,
            e: (self@.e - rhs@.e) as i32,
            f: (self@.f - rhs@.f) as i32,
            g: (self@.g - rhs@.g) as i32,
            h: (self@.h - rhs@.h) as i32,
        }
    }
}

impl core::ops::Neg for OInt {
    type Output = OInt;

    /// Componentwise negation.
    fn neg(self) -> (r: OInt) {
        OInt {
            a: -self.a,
            b: -self.b,
            c: -self.c,
            d: -self.d,
            e: -self.e,
            f: -self.f,
            g: -self.g,
            h: -self.h,
        }
    }
}

impl vstd::std_specs::ops::NegSpecImpl for OInt {
    open spec fn obeys_neg_spec() -> bool {
        true
    }

    open spec fn neg_req(self) -> bool {
        o_fits_sym(self@)
    }

    open spec fn neg_spec(self) -> OInt {
        OInt {
            a: (-self@.a) as i32,
            b: (-self@.b) as i32,
            c: (-self@.c) as i32,
            d: (-self@.d) as i32,
            e: (-self@.e) as i32,
            f: (-self@.f) as i32,
            g: (-self@.g) as i32,
            h: (-self@.h) as i32,
        }
    }
}

impl core::ops::Mul for OInt {
    type Output = OInt;

    /// The Fano-plane product in stored form; the result must stay on the
    /// representable lattice.
    fn mul(self, rhs: OInt) -> (r: OInt) {
        let (r0, r1, r2, r3, r4, r5, r6, r7) = o_mul_wide(self, rhs);
        OInt {
            a: r0 as i32,
            b: r1 as i32,
            c: r2 as i32,
            d: r3 as i32,
            e: r4 as i32,
            f: r5 as i32,
            g: r6 as i32,
            h: r7 as i32,
        }
    }
}

impl vstd::std_specs::ops::MulSpecImpl for OInt {
    open spec fn obeys_mul_spec() -> bool {
        true
    }

    open spec fn mul_req(self, rhs: OInt) -> bool {
        o_fits(o_mul(self@, rhs@))
    }

    open spec fn mul_spec(self, rhs: OInt) -> OInt {
        OInt {
            a: o_mul(self@, rhs@).a as i32,
            b: o_mul(self@, rhs@).b as i32,
            c: o_mul(self@, rhs@).c as i32,
            d: o_mul(self@, rhs@).d as i32,
            e: o_mul(self@, rhs@).e as i32,
            f: o_mul(self@, rhs@).f as i32,
            g: o_mul(self@, rhs@).g as i32,
            h: o_mul(self@, rhs@).h as i32,
        }
    }
}

/// Sign and target index of a basis product `e_i * e_j` under the cyclic
/// Fano-plane table.
pub fn multiply_basis(i: usize, j: usize) -> (r: (i32, usize))
    requires
        i < 8,
        j < 8,
    ensures
        r.0 == otab_sign(i as int, j as int),
        r.1 == otab_tgt(i as int, j as int),
{
    if i == 0 {
        return (1, j);
    }
    if j == 0 {
        return (1, i);
    }
    if i == j {
        return (-1, 0);
    }
    match (i, j) {
        (1, 2) => (1, 4),
        (2, 1) => (-1, 4),
        (2, 4) => (1, 1),
        (4, 2) => (-1, 1),
        (4, 1) => (1, 2),
        (1, 4) => (-1, 2),
        (2, 3) => (1, 5),
        (3, 2) => (-1, 5),
        (3, 5) => (1, 2),
        (5, 3) => (-1, 2),
        (5, 2) => (1, 3),
        (2, 5) => (-1, 3),
        (3, 4) => (1, 6),
        (4, 3) => (-1, 6),
        (4, 6) => (1, 3),
        (6, 4) => (-1, 3),
        (6, 3) => (1, 4),
        (3, 6) => (-1, 4),
        (4, 5) => (1, 7),
        (5, 4) => (-1, 7),
        (5, 7) => (1, 4),
        (7, 5) => (-1, 4),
        (7, 4) => (1, 5),
        (4, 7) => (-1, 5),
        (5, 6) => (1, 1),
        (6, 5) => (-1, 1),
        (6, 1) => (1, 5),
        (1, 6) => (-1, 5),
        (1, 5) => (1, 6),
        (5, 1) => (-1, 6),
        (6, 7) => (1, 2),
        (7, 6) => (-1, 2),
        (7, 2) => (1, 6),
        (2, 7) => (-1, 6),
        (2, 6) => (1, 7),
        (6, 2) => (-1, 7),
        (7, 1) => (1, 3),
        (1, 7) => (-1, 3),
        (1, 3) => (1, 7),
        (3, 1) => (-1, 7),
        (3, 7) => (1, 1),
        (7, 3) => (-1, 1),
        _ => (1, 0),
    }
}

/// The stored octonion product in 128-bit arithmetic.
fn o_mul_wide(x: OInt, y: OInt) -> (r: (i128, i128, i128, i128, i128, i128, i128, i128))
    ensures
        r.0 == o_mul(x@, y@).a,
        r.1 == o_mul(x@, y@).b,
        r.2 == o_mul(x@, y@).c,
        r.3 == o_mul(x@, y@).d,
        r.4 == o_mul(x@, y@).e,
        r.5 == o_mul(x@, y@).f,
        r.6 == o_mul(x@, y@).g,
        r.7 == o_mul(x@, y@).h,
        -0x8_0000_0000_0000_0000 <= r.0 <= 0x8_0000_0000_0000_0000,
        -0x8_0000_0000_0000_0000 <= r.1 <= 0x8_0000_0000_0000_0000,
        -0x8_0000_0000_0000_0000 <= r.2 <= 0x8_0000_0000_0000_0000,
        -0x8_0000_0000_0000_0000 <= r.3 <= 0x8_0000_0000_0000_0000,
        -0x8_0000_0000_0000_0000 <= r.4 <= 0x8_0000_0000_0000_0000,
        -0x8_0000_0000_0000_0000 <= r.5 <= 0x8_0000_0000_0000_0000,
        -0x8_0000_0000_0000_0000 <= r.6 <= 0x8_0000_0000_0000_0000,
        -0x8_0000_0000_0000_0000 <= r.7 <= 0x8_0000_0000_0000_0000,
{
    let w = crate::cint::wide_mul_128;
    let s0 = w(x.a as i128, y.a as i128) - w(x.b as i128, y.b as i128) - w(x.c as i128, y.c as i128)
        - w(x.d as i128, y.d as i128) - w(x.e as i128, y.e as i128) - w(x.f as i128, y.f as i128)
        - w(x.g as i128, y.g as i128) - w(x.h as i128, y.h as i128);
    let s1 = w(x.a as i128, y.b as i128) + w(x.b as i128, y.a as i128) + w(x.c as i128, y.e as i128)
        - w(x.e as i128, y.c as i128) + w(x.f as i128, y.g as i128) - w(x.g as i128, y.f as i128)
        + w(x.d as i128, y.h as i128) - w(x.h as i128, y.d as i128);
    let s2 = w(x.a as i128, y.c as i128) + w(x.c as i128, y.a as i128) + w(x.e as i128, y.b as i128)
        - w(x.b as i128, y.e as i128) + w(x.d as i128, y.f as i128) - w(x.f as i128, y.d as i128)
        + w(x.g as i128, y.h as i128) - w(x.h as i128, y.g as i128);
    let s3 = w(x.a as i128, y.d as i128) + w(x.d as i128, y.a as i128) + w(x.f as i128, y.c as i128)
        - w(x.c as i128, y.f as i128) + w(x.e as i128, y.g as i128) - w(x.g as i128, y.e as i128)
        + w(x.h as i128, y.b as i128) - w(x.b as i128, y.h as i128);
    let s4 = w(x.a as i128, y.e as i128) + w(x.e as i128, y.a as i128) + w(x.b as i128, y.c as i128)
        - w(x.c as i128, y.b as i128) + w(x.g as i128, y.d as i128) - w(x.d as i128, y.g as i128)
        + w(x.f as i128, y.h as i128) - w(x.h as i128, y.f as i128);
    let s5 = w(x.a as i128, y.f as i128) + w(x.f as i128, y.a as i128) + w(x.c as i128, y.d as i128)
        - w(x.d as i128, y.c as i128) + w(x.h as i128, y.e as i128) - w(x.e as i128, y.h as i128)
        + w(x.g as i128, y.b as i128) - w(x.b as i128, y.g as i128);
    let s6 = w(x.a as i128, y.g as i128) + w(x.g as i128, y.a as i128) + w(x.d as i128, y.e as i128)
        - w(x.e as i128, y.d as i128) + w(x.b as i128, y.f as i128) - w(x.f as i128, y.b as i128)
        + w(x.h as i128, y.c as i128) - w(x.c as i128, y.h as i128);
    let s7 = w(x.a as i128, y.h as i128) + w(x.h as i128, y.a as i128) + w(x.e as i128, y.f as i128)
        - w(x.f as i128, y.e as i128) + w(x.c as i128, y.g as i128) - w(x.g as i128, y.c as i128)
        + w(x.b as i128, y.d as i128) - w(x.d as i128, y.b as i128);
    proof {
        assert(s0 == o_raw_0(x@, y@) && s1 == o_raw_1(x@, y@) && s2 == o_raw_2(x@, y@) && s3
            == o_raw_3(x@, y@) && s4 == o_raw_4(x@, y@) && s5 == o_raw_5(x@, y@) && s6 == o_raw_6(
            x@,
            y@,
        ) && s7 == o_raw_7(x@, y@));
    }
    (
        crate::hint::half_i128(s0),
        crate::hint::half_i128(s1),
        crate::hint::half_i128(s2),
        crate::hint::half_i128(s3),
        crate::hint::half_i128(s4),
        crate::hint::half_i128(s5),
        crate::hint::half_i128(s6),
        crate::hint::half_i128(s7),
    )
}

impl OInt {
    /// Integer octonion, stored doubled.
    pub fn new(a: i32, b: i32, c: i32, d: i32, e: i32, f: i32, g: i32, h: i32) -> (r: OInt)
        requires
            -0x4000_0000 <= a < 0x4000_0000,
            -0x4000_0000 <= b < 0x4000_0000,
            -0x4000_0000 <= c < 0x4000_0000,
            -0x4000_0000 <= d < 0x4000_0000,
            -0x4000_0000 <= e < 0x4000_0000,
            -0x4000_0000 <= f < 0x4000_0000,
            -0x4000_0000 <= g < 0x4000_0000,
            -0x4000_0000 <= h < 0x4000_0000,
        ensures
            r@ == (OModel {
                a: 2 * a as int,
                b: 2 * b as int,
                c: 2 * c as int,
                d: 2 * d as int,
                e: 2 * e as int,
                f: 2 * f as int,
                g: 2 * g as int,
                h: 2 * h as int,
            }),
            o_wf(r@),
    {
        proof {
            lemma_double_even8(a as int, b as int, c as int, d as int);
            lemma_double_even8(e as int, f as int, g as int, h as int);
        }
        OInt {
            a: a * 2,
            b: b * 2,
            c: c * 2,
            d: d * 2,
            e: e * 2,
            f: f * 2,
            g: g * 2,
            h: h * 2,
        }
    }

    /// Builds a value from doubled coordinates: all components must share
    /// one parity.
    pub fn from_halves(a: i32, b: i32, c: i32, d: i32, e: i32, f: i32, g: i32, h: i32) -> (res:
        Result<OInt, OIntError>)
        ensures
            ({
                let m = OModel {
                    a: a as int,
                    b: b as int,
                    c: c as int,
                    d: d as int,
                    e: e as int,
                    f: f as int,
                    g: g as int,
                    h: h as int,
                };
                &&& (match res {
                    Ok(r) => r@ == m && o_wf(m),
                    Err(err) => err == OIntError::InvalidHalfInteger && !o_wf(m),
                })
                &&& (res is Ok <==> o_wf(m))
            }),
    {
        proof {
            lemma_exec_parity8(a as int, b as int, c as int, d as int);
            lemma_exec_parity8(e as int, f as int, g as int, h as int);
        }
        let a_odd = a % 2 != 0;
        if (b % 2 != 0) != a_odd || (c % 2 != 0) != a_odd || (d % 2 != 0) != a_odd || (e % 2 != 0)
            != a_odd || (f % 2 != 0) != a_odd || (g % 2 != 0) != a_odd || (h % 2 != 0) != a_odd {
            return Err(OIntError::InvalidHalfInteger);
        }
        Ok(OInt { a, b, c, d, e, f, g, h })
    }

    pub fn zero() -> (r: OInt)
        ensures
            r@ == o_zero(),
    {
        OInt::new(0, 0, 0, 0, 0, 0, 0, 0)
    }

    pub fn one() -> (r: OInt)
        ensures
            r@ == (OModel { a: 2, b: 0, c: 0, d: 0, e: 0, f: 0, g: 0, h: 0 }),
    {
        OInt::new(1, 0, 0, 0, 0, 0, 0, 0)
    }

    pub fn e1() -> (r: OInt)
        ensures
            r@ == (OModel { a: 0, b: 2, c: 0, d: 0, e: 0, f: 0, g: 0, h: 0 }),
    {
        OInt::new(0, 1, 0, 0, 0, 0, 0, 0)
    }

    pub fn e2() -> (r: OInt)
        ensures
            r@ == (OModel { a: 0, b: 0, c: 2, d: 0, e: 0, f: 0, g: 0, h: 0 }),
    {
        OInt::new(0, 0, 1, 0, 0, 0, 0, 0)
    }

    pub fn e3() -> (r: OInt)
        ensures
            r@ == (OModel { a: 0, b: 0, c: 0, d: 2, e: 0, f: 0, g: 0, h: 0 }),
    {
        OInt::new(0, 0, 0, 1, 0, 0, 0, 0)
    }

    pub fn e4() -> (r: OInt)
        ensures
            r@ == (OModel { a: 0, b: 0, c: 0, d: 0, e: 2, f: 0, g: 0, h: 0 }),
    {
        OInt::new(0, 0, 0, 0, 1, 0, 0, 0)
    }

    pub fn e5() -> (r: OInt)
        ensures
            r@ == (OModel { a: 0, b: 0, c: 0, d: 0, e: 0, f: 2, g: 0, h: 0 }),
    {
        OInt::new(0, 0, 0, 0, 0, 1, 0, 0)
    }

    pub fn e6() -> (r: OInt)
        ensures
            r@ == (OModel { a: 0, b: 0, c: 0, d: 0, e: 0, f: 0, g: 2, h: 0 }),
    {
        OInt::new(0, 0, 0, 0, 0, 0, 1, 0)
    }

    pub fn e7() -> (r: OInt)
        ensures
            r@ == (OModel { a: 0, b: 0, c: 0, d: 0, e: 0, f: 0, g: 0, h: 2 }),
    {
        OInt::new(0, 0, 0, 0, 0, 0, 0, 1)
    }

    pub fn is_zero(self) -> (r: bool)
        ensures
            r == o_is_zero(self@),
    {
        self.a == 0 && self.b == 0 && self.c == 0 && self.d == 0 && self.e == 0 && self.f == 0
            && self.g == 0 && self.h == 0
    }

    pub fn is_unit(self) -> (r: bool)
        ensures
            r == o_is_unit(self@),
    {
        self.norm_squared() == 1
    }

    pub fn conj(self) -> (r: OInt)
        requires
            self.b > i32::MIN,
            self.c > i32::MIN,
            self.d > i32::MIN,
            self.e > i32::MIN,
            self.f > i32::MIN,
            self.g > i32::MIN,
            self.h > i32::MIN,
        ensures
            r@ == o_conj(self@),
    {
        OInt {
            a: self.a,
            b: -self.b,
            c: -self.c,
            d: -self.d,
            e: -self.e,
            f: -self.f,
            g: -self.g,
            h: -self.h,
        }
    }

    /// The squared norm of the represented value.
    pub fn norm_squared(self) -> (r: u64)
        ensures
            r == o_norm2(self@),
            r <= 0x8000_0000_0000_0000,
    {
        let s = self.norm_raw_u128();
        proof {
            lemma_o_norm2_raw_zero(self@);
            vstd::arithmetic::div_mod::lemma_div_is_ordered(0, o_norm2_raw(self@), 4);
            vstd::arithmetic::div_mod::lemma_div_is_ordered(
                o_norm2_raw(self@),
                0x2_0000_0000_0000_0000,
                4,
            );
        }
        (s / 4) as u64
    }

    /// Canonical associate: the sign is flipped when the scalar part is
    /// negative.
    pub fn normalize(self) -> (r: OInt)
        requires
            o_fits_sym(self@),
        ensures
            r@ == o_normalize(self@),
            o_norm2(r@) == o_norm2(self@),
            o_fits_sym(r@),
    {
        proof {
            lemma_o_normalize_norm2(self@);
        }
        if self.is_zero() {
            return self;
        }
        if self.a > 0 {
            return self;
        }
        if -self.a > 0 {
            return OInt {
                a: -self.a,
                b: -self.b,
                c: -self.c,
                d: -self.d,
                e: -self.e,
                f: -self.f,
                g: -self.g,
                h: -self.h,
            };
        }
        self
    }

    /// Raw squared norm in 128 bits.
    fn norm_raw_u128(self) -> (s: u128)
        ensures
            s == o_norm2_raw(self@),
            s <= 0x2_0000_0000_0000_0000,
    {
        let w = crate::cint::wide_mul_128;
        let a2 = w(self.a as i128, self.a as i128);
        let b2 = w(self.b as i128, self.b as i128);
        let c2 = w(self.c as i128, self.c as i128);
        let d2 = w(self.d as i128, self.d as i128);
        let e2 = w(self.e as i128, self.e as i128);
        let f2 = w(self.f as i128, self.f as i128);
        let g2 = w(self.g as i128, self.g as i128);
        let h2 = w(self.h as i128, self.h as i128);
        proof {
            lemma_sq_bounds(self.a as int, a2 as int);
            lemma_sq_bounds(self.b as int, b2 as int);
            lemma_sq_bounds(self.c as int, c2 as int);
            lemma_sq_bounds(self.d as int, d2 as int);
            lemma_sq_bounds(self.e as int, e2 as int);
            lemma_sq_bounds(self.f as int, f2 as int);
            lemma_sq_bounds(self.g as int, g2 as int);
            lemma_sq_bounds(self.h as int, h2 as int);
        }
        (a2 + b2 + c2 + d2 + e2 + f2 + g2 + h2) as u128
    }
}

/// The integer-point quotient candidate: each stored component of
/// `x * conj(d)` divided by `2 * norm2(d)`, rounded half away from zero,
/// then doubled back into stored form (all components even).
pub open spec fn o_divq_int(x: OModel, d: OModel) -> OModel {
    let t = o_mul(x, o_conj(d));
    let n = o_norm2(d);
    OModel {
        a: 2 * rnd_half_away(t.a, 2 * n),
        b: 2 * rnd_half_away(t.b, 2 * n),
        c: 2 * rnd_half_away(t.c, 2 * n),
        d: 2 * rnd_half_away(t.d, 2 * n),
        e: 2 * rnd_half_away(t.e, 2 * n),
        f: 2 * rnd_half_away(t.f, 2 * n),
        g: 2 * rnd_half_away(t.g, 2 * n),
        h: 2 * rnd_half_away(t.h, 2 * n),
    }
}

/// The half-integer quotient candidate: the nearest all-odd stored point.
pub open spec fn o_divq_half(x: OModel, d: OModel) -> OModel {
    let t = o_mul(x, o_conj(d));
    let n = o_norm2(d);
    OModel {
        a: 2 * rnd_half_away(t.a - n, 2 * n) + 1,
        b: 2 * rnd_half_away(t.b - n, 2 * n) + 1,
        c: 2 * rnd_half_away(t.c - n, 2 * n) + 1,
        d: 2 * rnd_half_away(t.d - n, 2 * n) + 1,
        e: 2 * rnd_half_away(t.e - n, 2 * n) + 1,
        f: 2 * rnd_half_away(t.f - n, 2 * n) + 1,
        g: 2 * rnd_half_away(t.g - n, 2 * n) + 1,
        h: 2 * rnd_half_away(t.h - n, 2 * n) + 1,
    }
}

/// Squared residual of a quotient candidate: the squared distance, scaled
/// by `norm2(d)`, between `x * conj(d)` and `q` times the norm.
pub open spec fn o_resid2(x: OModel, d: OModel, q: OModel) -> int {
    let t = o_mul(x, o_conj(d));
    let n = o_norm2(d);
    (t.a - n * q.a) * (t.a - n * q.a) + (t.b - n * q.b) * (t.b - n * q.b) + (t.c - n * q.c) * (t.c
        - n * q.c) + (t.d - n * q.d) * (t.d - n * q.d) + (t.e - n * q.e) * (t.e - n * q.e) + (t.f
        - n * q.f) * (t.f - n * q.f) + (t.g - n * q.g) * (t.g - n * q.g) + (t.h - n * q.h) * (t.h
        - n * q.h)
}

/// Quotient of the rank-8 Euclidean division: the better of the nearest
/// integer point and the nearest half-integer point, so that every
/// exactly-divisible pair leaves a zero remainder.
pub open spec fn o_divq(x: OModel, d: OModel) -> OModel {
    if o_norm2(d) == 0 {
        o_zero()
    } else if o_resid2(x, d, o_divq_int(x, d)) <= o_resid2(x, d, o_divq_half(x, d)) {
        o_divq_int(x, d)
    } else {
        o_divq_half(x, d)
    }
}

/// Remainder of the rank-8 Euclidean division.
pub open spec fn o_divr(x: OModel, d: OModel) -> OModel {
    o_sub(x, o_mul(o_divq(x, d), d))
}

/// The iterative gcd on the model, mirroring the executable loop: it
/// stops early when a remainder fails to shrink, which the naive
/// per-component rounding cannot rule out at this rank.
pub open spec fn o_gcd_loop(x: OModel, y: OModel) -> OModel
    decreases o_norm2(y),
    via o_gcd_loop_decreases
{
    if o_is_zero(y) {
        x
    } else {
        let r = o_divr(x, y);
        if o_norm2(r) >= o_norm2(y) {
            y
        } else {
            o_gcd_loop(y, r)
        }
    }
}

#[via_fn]
proof fn o_gcd_loop_decreases(x: OModel, y: OModel) {
    lemma_o_norm2_nonneg(y);
    if !o_is_zero(y) {
        lemma_o_norm2_nonneg(o_divr(x, y));
    }
}

/// Every division of the gcd loop stays on the representable lattice.
pub open spec fn o_gcd_steps_fit(x: OModel, y: OModel) -> bool
    decreases o_norm2(y),
    via o_gcd_steps_fit_decreases
{
    if o_is_zero(y) {
        true
    } else {
        let r = o_divr(x, y);
        o_fits(o_divq(x, y)) && o_fits_sym(r) && (if o_norm2(r) >= o_norm2(y) {
            true
        } else {
            o_gcd_steps_fit(y, r)
        })
    }
}

#[via_fn]
proof fn o_gcd_steps_fit_decreases(x: OModel, y: OModel) {
    lemma_o_norm2_nonneg(y);
    if !o_is_zero(y) {
        lemma_o_norm2_nonneg(o_divr(x, y));
    }
}

/// Base of the split accumulator used to sum eight residual squares,
/// which can exceed the 128-bit range.
pub open spec fn acc_base() -> int {
    0x4000_0000_0000_0000_0000_0000_0000_0000
}

/// Magnitude square of a bounded 128-bit value, exact in unsigned form.
fn sq_u128_of_i128(v: i128) -> (r: u128)
    requires
        -0x8000_0000_0000_0000 <= v <= 0x8000_0000_0000_0000,
    ensures
        r as int == v as int * v as int,
        r <= 0x4000_0000_0000_0000_0000_0000_0000_0000,
{
    let m: u128 = if v >= 0 {
        v as u128
    } else {
        (-v) as u128
    };
    proof {
        lemma_sq_mag(v as int, m as int);
    }
    m * m
}

/// The square of a magnitude equals the square of the signed value.
proof fn lemma_sq_mag(v: int, m: int)
    requires
        m == v || m == -v,
        -0x8000_0000_0000_0000 <= v <= 0x8000_0000_0000_0000,
    ensures
        m * m == v * v,
        0 <= m * m <= 0x4000_0000_0000_0000_0000_0000_0000_0000,
{
    assert(m * m == v * v && 0 <= m * m <= 0x4000_0000_0000_0000_0000_0000_0000_0000)
        by (nonlinear_arith)
        requires
            m == v || m == -v,
            -0x8000_0000_0000_0000 <= v <= 0x8000_0000_0000_0000,
    ;
}

/// Adds one square into a split accumulator `hi * base + lo`.
fn acc_add(hi: u128, lo: u128, v: u128) -> (res: (u128, u128))
    requires
        hi <= 16,
        lo < 0x4000_0000_0000_0000_0000_0000_0000_0000,
        v <= 0x4000_0000_0000_0000_0000_0000_0000_0000,
    ensures
        res.0 <= hi + 1,
        res.1 < 0x4000_0000_0000_0000_0000_0000_0000_0000,
        res.0 as int * acc_base() + res.1 as int == hi as int * acc_base() + lo as int + v as int,
{
    let s: u128 = lo + v;
    if s >= 0x4000_0000_0000_0000_0000_0000_0000_0000u128 {
        let res = (hi + 1, s - 0x4000_0000_0000_0000_0000_0000_0000_0000u128);
        proof {
            assert(res.0 as int * acc_base() == hi as int * acc_base() + acc_base())
                by (nonlinear_arith)
                requires
                    res.0 as int == hi as int + 1,
            ;
        }
        res
    } else {
        (hi, s)
    }
}

/// `n * (2*w)` regroups as `(2*n) * w`, for eight coefficients.
proof fn lemma_reassociate_double8(
    n: int,
    w0: int, w1: int, w2: int, w3: int,
    w4: int, w5: int, w6: int, w7: int,
)
    ensures
        n * (2 * w0) == (2 * n) * w0,
        n * (2 * w1) == (2 * n) * w1,
        n * (2 * w2) == (2 * n) * w2,
        n * (2 * w3) == (2 * n) * w3,
        n * (2 * w4) == (2 * n) * w4,
        n * (2 * w5) == (2 * n) * w5,
        n * (2 * w6) == (2 * n) * w6,
        n * (2 * w7) == (2 * n) * w7,
{
    assert(n * (2 * w0) == (2 * n) * w0 && n * (2 * w1) == (2 * n) * w1 && n * (2 * w2) == (2 * n)
        * w2 && n * (2 * w3) == (2 * n) * w3 && n * (2 * w4) == (2 * n) * w4 && n * (2 * w5) == (2
        * n) * w5 && n * (2 * w6) == (2 * n) * w6 && n * (2 * w7) == (2 * n) * w7)
        by (nonlinear_arith);
}

/// Split accumulators compare as their represented sums.
proof fn lemma_acc_compare(ha: int, la: int, hb: int, lb: int)
    requires
        0 <= la < acc_base(),
        0 <= lb < acc_base(),
        0 <= ha,
        0 <= hb,
    ensures
        (ha * acc_base() + la <= hb * acc_base() + lb) <==> (ha < hb || (ha == hb && la <= lb)),
{
    assert((ha * acc_base() + la <= hb * acc_base() + lb) <==> (ha < hb || (ha == hb && la
        <= lb))) by (nonlinear_arith)
        requires
            0 <= la < acc_base(),
            0 <= lb < acc_base(),
    ;
}

/// The stored components of `x * conj(d)` in 128-bit arithmetic.
fn o_mul_conj_wide(x: OInt, d: OInt) -> (t: (i128, i128, i128, i128, i128, i128, i128, i128))
    ensures
        t.0 == o_mul(x@, o_conj(d@)).a,
        t.1 == o_mul(x@, o_conj(d@)).b,
        t.2 == o_mul(x@, o_conj(d@)).c,
        t.3 == o_mul(x@, o_conj(d@)).d,
        t.4 == o_mul(x@, o_conj(d@)).e,
        t.5 == o_mul(x@, o_conj(d@)).f,
        t.6 == o_mul(x@, o_conj(d@)).g,
        t.7 == o_mul(x@, o_conj(d@)).h,
        -0x8_0000_0000_0000_0000 <= t.0 <= 0x8_0000_0000_0000_0000,
        -0x8_0000_0000_0000_0000 <= t.1 <= 0x8_0000_0000_0000_0000,
        -0x8_0000_0000_0000_0000 <= t.2 <= 0x8_0000_0000_0000_0000,
        -0x8_0000_0000_0000_0000 <= t.3 <= 0x8_0000_0000_0000_0000,
        -0x8_0000_0000_0000_0000 <= t.4 <= 0x8_0000_0000_0000_0000,
        -0x8_0000_0000_0000_0000 <= t.5 <= 0x8_0000_0000_0000_0000,
        -0x8_0000_0000_0000_0000 <= t.6 <= 0x8_0000_0000_0000_0000,
        -0x8_0000_0000_0000_0000 <= t.7 <= 0x8_0000_0000_0000_0000,
{
    let w = crate::cint::wide_mul_128;
    let s0 = w(x.a as i128, d.a as i128) + w(x.b as i128, d.b as i128) + w(x.c as i128, d.c as i128)
        + w(x.d as i128, d.d as i128) + w(x.e as i128, d.e as i128) + w(x.f as i128, d.f as i128)
        + w(x.g as i128, d.g as i128) + w(x.h as i128, d.h as i128);
    let s1 = w(x.b as i128, d.a as i128) - w(x.a as i128, d.b as i128) - w(x.c as i128, d.e as i128)
        + w(x.e as i128, d.c as i128) - w(x.f as i128, d.g as i128) + w(x.g as i128, d.f as i128)
        - w(x.d as i128, d.h as i128) + w(x.h as i128, d.d as i128);
    let s2 = w(x.c as i128, d.a as i128) - w(x.a as i128, d.c as i128) - w(x.e as i128, d.b as i128)
        + w(x.b as i128, d.e as i128) - w(x.d as i128, d.f as i128) + w(x.f as i128, d.d as i128)
        - w(x.g as i128, d.h as i128) + w(x.h as i128, d.g as i128);
    let s3 = w(x.d as i128, d.a as i128) - w(x.a as i128, d.d as i128) - w(x.f as i128, d.c as i128)
        + w(x.c as i128, d.f as i128) - w(x.e as i128, d.g as i128) + w(x.g as i128, d.e as i128)
        - w(x.h as i128, d.b as i128) + w(x.b as i128, d.h as i128);
    let s4 = w(x.e as i128, d.a as i128) - w(x.a as i128, d.e as i128) - w(x.b as i128, d.c as i128)
        + w(x.c as i128, d.b as i128) - w(x.g as i128, d.d as i128) + w(x.d as i128, d.g as i128)
        - w(x.f as i128, d.h as i128) + w(x.h as i128, d.f as i128);
    let s5 = w(x.f as i128, d.a as i128) - w(x.a as i128, d.f as i128) - w(x.c as i128, d.d as i128)
        + w(x.d as i128, d.c as i128) - w(x.h as i128, d.e as i128) + w(x.e as i128, d.h as i128)
        - w(x.g as i128, d.b as i128) + w(x.b as i128, d.g as i128);
    let s6 = w(x.g as i128, d.a as i128) - w(x.a as i128, d.g as i128) - w(x.d as i128, d.e as i128)
        + w(x.e as i128, d.d as i128) - w(x.b as i128, d.f as i128) + w(x.f as i128, d.b as i128)
        - w(x.h as i128, d.c as i128) + w(x.c as i128, d.h as i128);
    let s7 = w(x.h as i128, d.a as i128) - w(x.a as i128, d.h as i128) - w(x.e as i128, d.f as i128)
        + w(x.f as i128, d.e as i128) - w(x.c as i128, d.g as i128) + w(x.g as i128, d.c as i128)
        - w(x.b as i128, d.d as i128) + w(x.d as i128, d.b as i128);
    proof {
        let cd = o_conj(d@);
        let xm = x@;
        let dm = d@;
        assert(s0 == o_raw_0(xm, cd) && s1 == o_raw_1(xm, cd) && s2 == o_raw_2(xm, cd) && s3
            == o_raw_3(xm, cd) && s4 == o_raw_4(xm, cd) && s5 == o_raw_5(xm, cd) && s6 == o_raw_6(
            xm,
            cd,
        ) && s7 == o_raw_7(xm, cd)) by (nonlinear_arith)
            requires
                cd == o_conj(dm),
                cd.a == dm.a && cd.b == -dm.b && cd.c == -dm.c && cd.d == -dm.d && cd.e == -dm.e
                    && cd.f == -dm.f && cd.g == -dm.g && cd.h == -dm.h,
                s0 == xm.a * dm.a + xm.b * dm.b + xm.c * dm.c + xm.d * dm.d + xm.e * dm.e + xm.f
                    * dm.f + xm.g * dm.g + xm.h * dm.h,
                s1 == xm.b * dm.a - xm.a * dm.b - xm.c * dm.e + xm.e * dm.c - xm.f * dm.g + xm.g
                    * dm.f - xm.d * dm.h + xm.h * dm.d,
                s2 == xm.c * dm.a - xm.a * dm.c - xm.e * dm.b + xm.b * dm.e - xm.d * dm.f + xm.f
                    * dm.d - xm.g * dm.h + xm.h * dm.g,
                s3 == xm.d * dm.a - xm.a * dm.d - xm.f * dm.c + xm.c * dm.f - xm.e * dm.g + xm.g
                    * dm.e - xm.h * dm.b + xm.b * dm.h,
                s4 == xm.e * dm.a - xm.a * dm.e - xm.b * dm.c + xm.c * dm.b - xm.g * dm.d + xm.d
                    * dm.g - xm.f * dm.h + xm.h * dm.f,
                s5 == xm.f * dm.a - xm.a * dm.f - xm.c * dm.d + xm.d * dm.c - xm.h * dm.e + xm.e
                    * dm.h - xm.g * dm.b + xm.b * dm.g,
                s6 == xm.g * dm.a - xm.a * dm.g - xm.d * dm.e + xm.e * dm.d - xm.b * dm.f + xm.f
                    * dm.b - xm.h * dm.c + xm.c * dm.h,
                s7 == xm.h * dm.a - xm.a * dm.h - xm.e * dm.f + xm.f * dm.e - xm.c * dm.g + xm.g
                    * dm.c - xm.b * dm.d + xm.d * dm.b,
                o_raw_0(xm, cd) == xm.a * cd.a - xm.b * cd.b - xm.c * cd.c - xm.d * cd.d - xm.e
                    * cd.e - xm.f * cd.f - xm.g * cd.g - xm.h * cd.h,
                o_raw_1(xm, cd) == xm.a * cd.b + xm.b * cd.a + xm.c * cd.e - xm.e * cd.c + xm.f
                    * cd.g - xm.g * cd.f + xm.d * cd.h - xm.h * cd.d,
                o_raw_2(xm, cd) == xm.a * cd.c + xm.c * cd.a + xm.e * cd.b - xm.b * cd.e + xm.d
                    * cd.f - xm.f * cd.d + xm.g * cd.h - xm.h * cd.g,
                o_raw_3(xm, cd) == xm.a * cd.d + xm.d * cd.a + xm.f * cd.c - xm.c * cd.f + xm.e
                    * cd.g - xm.g * cd.e + xm.h * cd.b - xm.b * cd.h,
                o_raw_4(xm, cd) == xm.a * cd.e + xm.e * cd.a + xm.b * cd.c - xm.c * cd.b + xm.g
                    * cd.d - xm.d * cd.g + xm.f * cd.h - xm.h * cd.f,
                o_raw_5(xm, cd) == xm.a * cd.f + xm.f * cd.a + xm.c * cd.d - xm.d * cd.c + xm.h
                    * cd.e - xm.e * cd.h + xm.g * cd.b - xm.b * cd.g,
                o_raw_6(xm, cd) == xm.a * cd.g + xm.g * cd.a + xm.d * cd.e - xm.e * cd.d + xm.b
                    * cd.f - xm.f * cd.b + xm.h * cd.c - xm.c * cd.h,
                o_raw_7(xm, cd) == xm.a * cd.h + xm.h * cd.a + xm.e * cd.f - xm.f * cd.e + xm.c
                    * cd.g - xm.g * cd.c + xm.b * cd.d - xm.d * cd.b,
        ;
    }
    (
        crate::hint::half_i128(s0),
        crate::hint::half_i128(s1),
        crate::hint::half_i128(s2),
        crate::hint::half_i128(s3),
        crate::hint::half_i128(s4),
        crate::hint::half_i128(s5),
        crate::hint::half_i128(s6),
        crate::hint::half_i128(s7),
    )
}

impl OInt {
    /// Euclidean division by nearest-lattice-point rounding.  The identity
    /// `q*d + r == x` always holds for the returned pair; at this rank the
    /// per-component rounding does not guarantee a shrinking remainder, so
    /// no norm bound is promised.
    #[verifier::rlimit(100)]
    pub fn div_rem(self, d: OInt) -> (res: Result<(OInt, OInt), OIntError>)
        ensures
            match res {
                Ok(p) => {
                    let (q, r) = p;
                    &&& !o_is_zero(d@)
                    &&& q@ == o_divq(self@, d@)
                    &&& r@ == o_divr(self@, d@)
                    &&& o_add(o_mul(q@, d@), r@) == self@
                },
                Err(e) => {
                    &&& (e == OIntError::DivisionByZero <==> o_is_zero(d@))
                    &&& (e == OIntError::Overflow <==> !o_is_zero(d@) && !(o_fits(
                        o_divq(self@, d@),
                    ) && o_fits_sym(o_divr(self@, d@))))
                },
            },
            res is Ok <==> !o_is_zero(d@) && o_fits(o_divq(self@, d@)) && o_fits_sym(
                o_divr(self@, d@),
            ),
    {
        if d.is_zero() {
            return Err(OIntError::DivisionByZero);
        }
        let n: u64 = d.norm_squared();
        if n == 0 {
            let q = OInt { a: 0, b: 0, c: 0, d: 0, e: 0, f: 0, g: 0, h: 0 };
            proof {
                assert(q@ == o_divq(self@, d@));
                assert(o_raw_0(q@, d@) == 0 && o_raw_1(q@, d@) == 0 && o_raw_2(q@, d@) == 0
                    && o_raw_3(q@, d@) == 0 && o_raw_4(q@, d@) == 0 && o_raw_5(q@, d@) == 0
                    && o_raw_6(q@, d@) == 0 && o_raw_7(q@, d@) == 0) by (nonlinear_arith)
                    requires
                        q@.a == 0 && q@.b == 0 && q@.c == 0 && q@.d == 0 && q@.e == 0 && q@.f
                            == 0 && q@.g == 0 && q@.h == 0,
                ;
                assert(o_mul(q@, d@) == o_zero());
                assert(self@ == o_divr(self@, d@));
            }
            if self.a == i32::MIN || self.b == i32::MIN || self.c == i32::MIN || self.d
                == i32::MIN || self.e == i32::MIN || self.f == i32::MIN || self.g == i32::MIN
                || self.h == i32::MIN {
                return Err(OIntError::Overflow);
            }
            return Ok((q, self));
        }
        let (t0, t1, t2, t3, t4, t5, t6, t7) = o_mul_conj_wide(self, d);
        let n2: i128 = 2 * (n as i128);
        let ni: i128 = n as i128;
        proof {
            lemma_o_norm2_raw_zero(d@);
            vstd::arithmetic::div_mod::lemma_div_is_ordered(0, o_norm2_raw(d@), 4);
        }
        let wa0 = crate::num_utils::round_div_i128(t0, n2);
        let wa1 = crate::num_utils::round_div_i128(t1, n2);
        let wa2 = crate::num_utils::round_div_i128(t2, n2);
        let wa3 = crate::num_utils::round_div_i128(t3, n2);
        let wa4 = crate::num_utils::round_div_i128(t4, n2);
        let wa5 = crate::num_utils::round_div_i128(t5, n2);
        let wa6 = crate::num_utils::round_div_i128(t6, n2);
        let wa7 = crate::num_utils::round_div_i128(t7, n2);
        let wb0 = crate::num_utils::round_div_i128(t0 - ni, n2);
        let wb1 = crate::num_utils::round_div_i128(t1 - ni, n2);
        let wb2 = crate::num_utils::round_div_i128(t2 - ni, n2);
        let wb3 = crate::num_utils::round_div_i128(t3 - ni, n2);
        let wb4 = crate::num_utils::round_div_i128(t4 - ni, n2);
        let wb5 = crate::num_utils::round_div_i128(t5 - ni, n2);
        let wb6 = crate::num_utils::round_div_i128(t6 - ni, n2);
        let wb7 = crate::num_utils::round_div_i128(t7 - ni, n2);
        proof {
            crate::num_utils::lemma_rnd_half_away_close(t0 as int, n2 as int);
            crate::num_utils::lemma_rnd_half_away_close(t1 as int, n2 as int);
            crate::num_utils::lemma_rnd_half_away_close(t2 as int, n2 as int);
            crate::num_utils::lemma_rnd_half_away_close(t3 as int, n2 as int);
            crate::num_utils::lemma_rnd_half_away_close(t4 as int, n2 as int);
            crate::num_utils::lemma_rnd_half_away_close(t5 as int, n2 as int);
            crate::num_utils::lemma_rnd_half_away_close(t6 as int, n2 as int);
            crate::num_utils::lemma_rnd_half_away_close(t7 as int, n2 as int);
            crate::num_utils::lemma_rnd_half_away_close(t0 - ni, n2 as int);
            crate::num_utils::lemma_rnd_half_away_close(t1 - ni, n2 as int);
            crate::num_utils::lemma_rnd_half_away_close(t2 - ni, n2 as int);
            crate::num_utils::lemma_rnd_half_away_close(t3 - ni, n2 as int);
            crate::num_utils::lemma_rnd_half_away_close(t4 - ni, n2 as int);
            crate::num_utils::lemma_rnd_half_away_close(t5 - ni, n2 as int);
            crate::num_utils::lemma_rnd_half_away_close(t6 - ni, n2 as int);
            crate::num_utils::lemma_rnd_half_away_close(t7 - ni, n2 as int);
        }
        let fa0: i128 = t0 - n2 * wa0;
        let fa1: i128 = t1 - n2 * wa1;
        let fa2: i128 = t2 - n2 * wa2;
        let fa3: i128 = t3 - n2 * wa3;
        let fa4: i128 = t4 - n2 * wa4;
        let fa5: i128 = t5 - n2 * wa5;
        let fa6: i128 = t6 - n2 * wa6;
        let fa7: i128 = t7 - n2 * wa7;
        let fb0: i128 = (t0 - ni) - n2 * wb0;
        let fb1: i128 = (t1 - ni) - n2 * wb1;
        let fb2: i128 = (t2 - ni) - n2 * wb2;
        let fb3: i128 = (t3 - ni) - n2 * wb3;
        let fb4: i128 = (t4 - ni) - n2 * wb4;
        let fb5: i128 = (t5 - ni) - n2 * wb5;
        let fb6: i128 = (t6 - ni) - n2 * wb6;
        let fb7: i128 = (t7 - ni) - n2 * wb7;
        let (ha1, la1) = acc_add(0, 0, sq_u128_of_i128(fa0));
        let (ha2, la2) = acc_add(ha1, la1, sq_u128_of_i128(fa1));
        let (ha3, la3) = acc_add(ha2, la2, sq_u128_of_i128(fa2));
        let (ha4, la4) = acc_add(ha3, la3, sq_u128_of_i128(fa3));
        let (ha5, la5) = acc_add(ha4, la4, sq_u128_of_i128(fa4));
        let (ha6, la6) = acc_add(ha5, la5, sq_u128_of_i128(fa5));
        let (ha7, la7) = acc_add(ha6, la6, sq_u128_of_i128(fa6));
        let (ha, la) = acc_add(ha7, la7, sq_u128_of_i128(fa7));
        let (hb1, lb1) = acc_add(0, 0, sq_u128_of_i128(fb0));
        let (hb2, lb2) = acc_add(hb1, lb1, sq_u128_of_i128(fb1));
        let (hb3, lb3) = acc_add(hb2, lb2, sq_u128_of_i128(fb2));
        let (hb4, lb4) = acc_add(hb3, lb3, sq_u128_of_i128(fb3));
        let (hb5, lb5) = acc_add(hb4, lb4, sq_u128_of_i128(fb4));
        let (hb6, lb6) = acc_add(hb5, lb5, sq_u128_of_i128(fb5));
        let (hb7, lb7) = acc_add(hb6, lb6, sq_u128_of_i128(fb6));
        let (hb, lb) = acc_add(hb7, lb7, sq_u128_of_i128(fb7));
        let ghost qia = o_divq_int(self@, d@);
        let ghost qha = o_divq_half(self@, d@);
        proof {
            let t = o_mul(self@, o_conj(d@));
            let nn = o_norm2(d@);
            lemma_reassociate_double8(
                nn,
                wa0 as int, wa1 as int, wa2 as int, wa3 as int,
                wa4 as int, wa5 as int, wa6 as int, wa7 as int,
            );
            lemma_reassociate_double8(
                nn,
                wb0 as int, wb1 as int, wb2 as int, wb3 as int,
                wb4 as int, wb5 as int, wb6 as int, wb7 as int,
            );
            assert(fa0 == t.a - nn * qia.a && fa1 == t.b - nn * qia.b && fa2 == t.c - nn * qia.c
                && fa3 == t.d - nn * qia.d && fa4 == t.e - nn * qia.e && fa5 == t.f - nn * qia.f
                && fa6 == t.g - nn * qia.g && fa7 == t.h - nn * qia.h);
            assert(fb0 == t.a - nn * qha.a && fb1 == t.b - nn * qha.b && fb2 == t.c - nn * qha.c
                && fb3 == t.d - nn * qha.d && fb4 == t.e - nn * qha.e && fb5 == t.f - nn * qha.f
                && fb6 == t.g - nn * qha.g && fb7 == t.h - nn * qha.h) by (nonlinear_arith)
                requires
                    fb0 == (t.a - nn) - (2 * nn) * (wb0 as int),
                    fb1 == (t.b - nn) - (2 * nn) * (wb1 as int),
                    fb2 == (t.c - nn) - (2 * nn) * (wb2 as int),
                    fb3 == (t.d - nn) - (2 * nn) * (wb3 as int),
                    fb4 == (t.e - nn) - (2 * nn) * (wb4 as int),
                    fb5 == (t.f - nn) - (2 * nn) * (wb5 as int),
                    fb6 == (t.g - nn) - (2 * nn) * (wb6 as int),
                    fb7 == (t.h - nn) - (2 * nn) * (wb7 as int),
                    qha.a == 2 * (wb0 as int) + 1,
                    qha.b == 2 * (wb1 as int) + 1,
                    qha.c == 2 * (wb2 as int) + 1,
                    qha.d == 2 * (wb3 as int) + 1,
                    qha.e == 2 * (wb4 as int) + 1,
                    qha.f == 2 * (wb5 as int) + 1,
                    qha.g == 2 * (wb6 as int) + 1,
                    qha.h == 2 * (wb7 as int) + 1,
            ;
            assert(ha as int * acc_base() + la as int == o_resid2(self@, d@, qia));
            assert(hb as int * acc_base() + lb as int == o_resid2(self@, d@, qha));
            lemma_acc_compare(ha as int, la as int, hb as int, lb as int);
        }
        let use_int = ha < hb || (ha == hb && la <= lb);
        proof {
            assert(use_int == (o_resid2(self@, d@, qia) <= o_resid2(self@, d@, qha)));
        }
        let (q0, q1, q2, q3, q4, q5, q6, q7) = if use_int {
            (2 * wa0, 2 * wa1, 2 * wa2, 2 * wa3, 2 * wa4, 2 * wa5, 2 * wa6, 2 * wa7)
        } else {
            (
                2 * wb0 + 1,
                2 * wb1 + 1,
                2 * wb2 + 1,
                2 * wb3 + 1,
                2 * wb4 + 1,
                2 * wb5 + 1,
                2 * wb6 + 1,
                2 * wb7 + 1,
            )
        };
        proof {
            assert((OModel {
                a: q0 as int,
                b: q1 as int,
                c: q2 as int,
                d: q3 as int,
                e: q4 as int,
                f: q5 as int,
                g: q6 as int,
                h: q7 as int,
            }) == o_divq(self@, d@));
        }
        if q0 < i32::MIN as i128 || q0 > i32::MAX as i128 || q1 < i32::MIN as i128 || q1
            > i32::MAX as i128 || q2 < i32::MIN as i128 || q2 > i32::MAX as i128 || q3
            < i32::MIN as i128 || q3 > i32::MAX as i128 || q4 < i32::MIN as i128 || q4
            > i32::MAX as i128 || q5 < i32::MIN as i128 || q5 > i32::MAX as i128 || q6
            < i32::MIN as i128 || q6 > i32::MAX as i128 || q7 < i32::MIN as i128 || q7
            > i32::MAX as i128 {
            return Err(OIntError::Overflow);
        }
        let q = OInt {
            a: q0 as i32,
            b: q1 as i32,
            c: q2 as i32,
            d: q3 as i32,
            e: q4 as i32,
            f: q5 as i32,
            g: q6 as i32,
            h: q7 as i32,
        };
        proof {
            assert(q@ == o_divq(self@, d@));
        }
        let (p0, p1, p2, p3, p4, p5, p6, p7) = o_mul_wide(q, d);
        let r0 = self.a as i128 - p0;
        let r1 = self.b as i128 - p1;
        let r2 = self.c as i128 - p2;
        let r3 = self.d as i128 - p3;
        let r4 = self.e as i128 - p4;
        let r5 = self.f as i128 - p5;
        let r6 = self.g as i128 - p6;
        let r7 = self.h as i128 - p7;
        if r0 <= i32::MIN as i128 || r0 > i32::MAX as i128 || r1 <= i32::MIN as i128 || r1
            > i32::MAX as i128 || r2 <= i32::MIN as i128 || r2 > i32::MAX as i128 || r3
            <= i32::MIN as i128 || r3 > i32::MAX as i128 || r4 <= i32::MIN as i128 || r4
            > i32::MAX as i128 || r5 <= i32::MIN as i128 || r5 > i32::MAX as i128 || r6
            <= i32::MIN as i128 || r6 > i32::MAX as i128 || r7 <= i32::MIN as i128 || r7
            > i32::MAX as i128 {
            return Err(OIntError::Overflow);
        }
        let r = OInt {
            a: r0 as i32,
            b: r1 as i32,
            c: r2 as i32,
            d: r3 as i32,
            e: r4 as i32,
            f: r5 as i32,
            g: r6 as i32,
            h: r7 as i32,
        };
        proof {
            assert(r@ == o_divr(self@, d@));
        }
        Ok((q, r))
    }

    /// Exact division: the quotient when the remainder is zero.
    pub fn div_exact(self, d: OInt) -> (res: Result<OInt, OIntError>)
        ensures
            match res {
                Ok(q) => {
                    &&& q@ == o_divq(self@, d@)
                    &&& o_mul(q@, d@) == self@
                },
                Err(e) => {
                    &&& (e == OIntError::DivisionByZero <==> o_is_zero(d@))
                    &&& (e == OIntError::Overflow <==> !o_is_zero(d@) && !(o_fits(
                        o_divq(self@, d@),
                    ) && o_fits_sym(o_divr(self@, d@))))
                    &&& (e == OIntError::NotDivisible <==> !o_is_zero(d@) && o_fits(
                        o_divq(self@, d@),
                    ) && o_fits_sym(o_divr(self@, d@)) && !o_is_zero(o_divr(self@, d@)))
                },
            },
            res is Ok <==> !o_is_zero(d@) && o_fits(o_divq(self@, d@)) && o_fits_sym(
                o_divr(self@, d@),
            ) && o_is_zero(o_divr(self@, d@)),
    {
        let (q, r) = match self.div_rem(d) {
            Ok(p) => p,
            Err(e) => {
                return Err(e);
            },
        };
        if r.is_zero() {
            proof {
                assert(o_add(o_mul(q@, d@), r@) == o_mul(q@, d@));
            }
            Ok(q)
        } else {
            Err(OIntError::NotDivisible)
        }
    }

    /// Iterative Euclidean gcd.  The loop stops as soon as a remainder
    /// fails to shrink, so it terminates on every input.
    pub fn gcd(a: OInt, b: OInt) -> (res: Result<OInt, OIntError>)
        requires
            o_fits_sym(a@),
            o_fits_sym(b@),
        ensures
            match res {
                Ok(g) => g@ == o_normalize(o_gcd_loop(a@, b@)),
                Err(e) => e == OIntError::Overflow,
            },
            res is Ok <==> o_gcd_steps_fit(a@, b@),
    {
        let mut x = a;
        let mut y = b;
        while !y.is_zero()
            invariant
                o_fits_sym(x@),
                o_fits_sym(y@),
                o_gcd_loop(x@, y@) == o_gcd_loop(a@, b@),
                o_gcd_steps_fit(x@, y@) == o_gcd_steps_fit(a@, b@),
            decreases o_norm2(y@),
        {
            proof {
                lemma_o_norm2_nonneg(y@);
                lemma_o_norm2_nonneg(o_divr(x@, y@));
            }
            let (_q, r) = match x.div_rem(y) {
                Ok(p) => p,
                Err(_e) => {
                    return Err(OIntError::Overflow);
                },
            };
            if r.norm_squared() >= y.norm_squared() {
                return Ok(y.normalize());
            }
            x = y;
            y = r;
        }
        Ok(x.normalize())
    }

    /// The value multiplied by each of the eight units
    /// 1, -1, e1, -e1, e2, -e2, e3, -e3.
    pub fn associates(self) -> (r: [OInt; 8])
        requires
            o_fits_sym(self@),
        ensures
            r[0]@ == self@,
            r[1]@ == o_neg(self@),
            r[2]@ == (OModel {
                a: -self@.b,
                b: self@.a,
                c: self@.e,
                d: self@.h,
                e: -self@.c,
                f: self@.g,
                g: -self@.f,
                h: -self@.d,
            }),
            r[3]@ == o_neg(r[2]@),
            r[4]@ == (OModel {
                a: -self@.c,
                b: -self@.e,
                c: self@.a,
                d: self@.f,
                e: self@.b,
                f: -self@.d,
                g: self@.h,
                h: -self@.g,
            }),
            r[5]@ == o_neg(r[4]@),
            r[6]@ == (OModel {
                a: -self@.d,
                b: -self@.h,
                c: -self@.f,
                d: self@.a,
                e: self@.g,
                f: self@.c,
                g: -self@.e,
                h: self@.b,
            }),
            r[7]@ == o_neg(r[6]@),
            r[2]@ == o_mul(self@, OModel { a: 0, b: 2, c: 0, d: 0, e: 0, f: 0, g: 0, h: 0 }),
            r[4]@ == o_mul(self@, OModel { a: 0, b: 0, c: 2, d: 0, e: 0, f: 0, g: 0, h: 0 }),
            r[6]@ == o_mul(self@, OModel { a: 0, b: 0, c: 0, d: 2, e: 0, f: 0, g: 0, h: 0 }),
            forall|k: int| 0 <= k < 8 ==> o_norm2(#[trigger] r[k]@) == o_norm2(self@),
    {
        let r = [
            self,
            OInt {
                a: -self.a,
                b: -self.b,
                c: -self.c,
                d: -self.d,
                e: -self.e,
                f: -self.f,
                g: -self.g,
                h: -self.h,
            },
            OInt {
                a: -self.b,
                b: self.a,
                c: self.e,
                d: self.h,
                e: -self.c,
                f: self.g,
                g: -self.f,
                h: -self.d,
            },
            OInt {
                a: self.b,
                b: -self.a,
                c: -self.e,
                d: -self.h,
                e: self.c,
                f: -self.g,
                g: self.f,
                h: self.d,
            },
            OInt {
                a: -self.c,
                b: -self.e,
                c: self.a,
                d: self.f,
                e: self.b,
                f: -self.d,
                g: self.h,
                h: -self.g,
            },
            OInt {
                a: self.c,
                b: self.e,
                c: -self.a,
                d: -self.f,
                e: -self.b,
                f: self.d,
                g: -self.h,
                h: self.g,
            },
            OInt {
                a: -self.d,
                b: -self.h,
                c: -self.f,
                d: self.a,
                e: self.g,
                f: self.c,
                g: -self.e,
                h: self.b,
            },
            OInt {
                a: self.d,
                b: self.h,
                c: self.f,
                d: -self.a,
                e: -self.g,
                f: -self.c,
                g: self.e,
                h: -self.b,
            },
        ];
        proof {
            lemma_mul_basis_columns(self@);
            assert forall|k: int| 0 <= k < 8 implies o_norm2(#[trigger] r[k]@) == o_norm2(
                self@,
            ) by {
                assert(o_norm2_raw(r[k]@) == o_norm2_raw(self@)) by (nonlinear_arith)
                    requires
                        o_norm2_raw(r[k]@) == r[k]@.a * r[k]@.a + r[k]@.b * r[k]@.b + r[k]@.c
                            * r[k]@.c + r[k]@.d * r[k]@.d + r[k]@.e * r[k]@.e + r[k]@.f * r[k]@.f
                            + r[k]@.g * r[k]@.g + r[k]@.h * r[k]@.h,
                        o_norm2_raw(self@) == self@.a * self@.a + self@.b * self@.b + self@.c
                            * self@.c + self@.d * self@.d + self@.e * self@.e + self@.f * self@.f
                            + self@.g * self@.g + self@.h * self@.h,
                        ({
                            ||| r[k]@ == self@
                            ||| r[k]@ == o_neg(self@)
                            ||| (r[k]@.a == -self@.b && r[k]@.b == self@.a && r[k]@.c == self@.e
                                && r[k]@.d == self@.h && r[k]@.e == -self@.c && r[k]@.f
                                == self@.g && r[k]@.g == -self@.f && r[k]@.h == -self@.d)
                            ||| (r[k]@.a == self@.b && r[k]@.b == -self@.a && r[k]@.c == -self@.e
                                && r[k]@.d == -self@.h && r[k]@.e == self@.c && r[k]@.f == -self@.g
                                && r[k]@.g == self@.f && r[k]@.h == self@.d)
                            ||| (r[k]@.a == -self@.c && r[k]@.b == -self@.e && r[k]@.c == self@.a
                                && r[k]@.d == self@.f && r[k]@.e == self@.b && r[k]@.f == -self@.d
                                && r[k]@.g == self@.h && r[k]@.h == -self@.g)
                            ||| (r[k]@.a == self@.c && r[k]@.b == self@.e && r[k]@.c == -self@.a
                                && r[k]@.d == -self@.f && r[k]@.e == -self@.b && r[k]@.f
                                == self@.d && r[k]@.g == -self@.h && r[k]@.h == self@.g)
                            ||| (r[k]@.a == -self@.d && r[k]@.b == -self@.h && r[k]@.c
                                == -self@.f && r[k]@.d == self@.a && r[k]@.e == self@.g
                                && r[k]@.f == self@.c && r[k]@.g == -self@.e && r[k]@.h
                                == self@.b)
                            ||| (r[k]@.a == self@.d && r[k]@.b == self@.h && r[k]@.c == self@.f
                                && r[k]@.d == -self@.a && r[k]@.e == -self@.g && r[k]@.f
                                == -self@.c && r[k]@.g == self@.e && r[k]@.h == -self@.b)
                        }),
                ;
            }
        }
        r
    }

    /// Inverse of a unit: its conjugate.  `NoInverse` on any non-unit.
    pub fn inv_unit(self) -> (res: Result<OInt, OIntError>)
        ensures
            res is Ok <==> o_is_unit(self@),
            match res {
                Ok(u) => u@ == o_conj(self@),
                Err(e) => e == OIntError::NoInverse,
            },
    {
        if !self.is_unit() {
            return Err(OIntError::NoInverse);
        }
        proof {
            lemma_o_unit_bounds(self@);
        }
        Ok(self.conj())
    }

    /// The quotient `self / d` as an exact fraction: numerator
    /// `self * conj(d)` over denominator `norm2(d)`.
    pub fn div_to_fraction(self, d: OInt) -> (res: Result<OIFraction, OIntError>)
        ensures
            match res {
                Ok(f) => {
                    &&& f.num@ == o_mul(self@, o_conj(d@))
                    &&& f.den == o_norm2(d@)
                },
                Err(e) => {
                    &&& (e == OIntError::DivisionByZero <==> o_is_zero(d@))
                    &&& (e == OIntError::Overflow <==> !o_is_zero(d@) && !o_fits(
                        o_mul(self@, o_conj(d@)),
                    ))
                },
            },
            res is Ok <==> !o_is_zero(d@) && o_fits(o_mul(self@, o_conj(d@))),
    {
        if d.is_zero() {
            return Err(OIntError::DivisionByZero);
        }
        let (t0, t1, t2, t3, t4, t5, t6, t7) = o_mul_conj_wide(self, d);
        if t0 < i32::MIN as i128 || t0 > i32::MAX as i128 || t1 < i32::MIN as i128 || t1
            > i32::MAX as i128 || t2 < i32::MIN as i128 || t2 > i32::MAX as i128 || t3
            < i32::MIN as i128 || t3 > i32::MAX as i128 || t4 < i32::MIN as i128 || t4
            > i32::MAX as i128 || t5 < i32::MIN as i128 || t5 > i32::MAX as i128 || t6
            < i32::MIN as i128 || t6 > i32::MAX as i128 || t7 < i32::MIN as i128 || t7
            > i32::MAX as i128 {
            return Err(OIntError::Overflow);
        }
        Ok(
            OIFraction {
                num: OInt {
                    a: t0 as i32,
                    b: t1 as i32,
                    c: t2 as i32,
                    d: t3 as i32,
                    e: t4 as i32,
                    f: t5 as i32,
                    g: t6 as i32,
                    h: t7 as i32,
                },
                den: d.norm_squared(),
            },
        )
    }

    /// The multiplicative inverse as a fraction: `conj(self) / norm2(self)`.
    pub fn inv_fraction(self) -> (res: Result<OIFraction, OIntError>)
        requires
            self.b > i32::MIN,
            self.c > i32::MIN,
            self.d > i32::MIN,
            self.e > i32::MIN,
            self.f > i32::MIN,
            self.g > i32::MIN,
            self.h > i32::MIN,
        ensures
            match res {
                Ok(f) => {
                    &&& f.num@ == o_conj(self@)
                    &&& f.den == o_norm2(self@)
                },
                Err(e) => e == OIntError::NoInverse,
            },
            res is Ok <==> !o_is_zero(self@),
    {
        if self.is_zero() {
            return Err(OIntError::NoInverse);
        }
        Ok(OIFraction { num: self.conj(), den: self.norm_squared() })
    }

    /// Divides the numerator components and the denominator by their
    /// common gcd; the new denominator divides the old one.
    pub fn reduce_fraction(frac: OIFraction) -> (r: OIFraction)
        requires
            frac.den > 0,
            frac.num.a > i32::MIN,
            frac.num.b > i32::MIN,
            frac.num.c > i32::MIN,
            frac.num.d > i32::MIN,
            frac.num.e > i32::MIN,
            frac.num.f > i32::MIN,
            frac.num.g > i32::MIN,
            frac.num.h > i32::MIN,
        ensures
            ({
                let g = ofrac_gcd(frac);
                &&& r.den > 0
                &&& r.num@.a * g == frac.num@.a
                &&& r.num@.b * g == frac.num@.b
                &&& r.num@.c * g == frac.num@.c
                &&& r.num@.d * g == frac.num@.d
                &&& r.num@.e * g == frac.num@.e
                &&& r.num@.f * g == frac.num@.f
                &&& r.num@.g * g == frac.num@.g
                &&& r.num@.h * g == frac.num@.h
                &&& r.den as int * g == frac.den as int
                &&& crate::num_utils::divides(r.den as nat, frac.den as nat)
            }),
    {
        let m0: u64 = (if frac.num.a >= 0 {
            frac.num.a
        } else {
            -frac.num.a
        }) as u64;
        let m1: u64 = (if frac.num.b >= 0 {
            frac.num.b
        } else {
            -frac.num.b
        }) as u64;
        let m2: u64 = (if frac.num.c >= 0 {
            frac.num.c
        } else {
            -frac.num.c
        }) as u64;
        let m3: u64 = (if frac.num.d >= 0 {
            frac.num.d
        } else {
            -frac.num.d
        }) as u64;
        let m4: u64 = (if frac.num.e >= 0 {
            frac.num.e
        } else {
            -frac.num.e
        }) as u64;
        let m5: u64 = (if frac.num.f >= 0 {
            frac.num.f
        } else {
            -frac.num.f
        }) as u64;
        let m6: u64 = (if frac.num.g >= 0 {
            frac.num.g
        } else {
            -frac.num.g
        }) as u64;
        let m7: u64 = (if frac.num.h >= 0 {
            frac.num.h
        } else {
            -frac.num.h
        }) as u64;
        let g1 = crate::num_utils::integer_gcd(m0, m1);
        let g2 = crate::num_utils::integer_gcd(g1, m2);
        let g3 = crate::num_utils::integer_gcd(g2, m3);
        let g4 = crate::num_utils::integer_gcd(g3, m4);
        let g5 = crate::num_utils::integer_gcd(g4, m5);
        let g6 = crate::num_utils::integer_gcd(g5, m6);
        let g7 = crate::num_utils::integer_gcd(g6, m7);
        let g = crate::num_utils::integer_gcd(g7, frac.den);
        proof {
            if g == 0 {
                crate::num_utils::lemma_gcd_zero_args(g7 as nat, frac.den as nat);
            }
            crate::num_utils::lemma_gcd_divides_both(g7 as nat, frac.den as nat);
            crate::num_utils::lemma_gcd_divides_both(g6 as nat, m7 as nat);
            crate::num_utils::lemma_gcd_divides_both(g5 as nat, m6 as nat);
            crate::num_utils::lemma_gcd_divides_both(g4 as nat, m5 as nat);
            crate::num_utils::lemma_gcd_divides_both(g3 as nat, m4 as nat);
            crate::num_utils::lemma_gcd_divides_both(g2 as nat, m3 as nat);
            crate::num_utils::lemma_gcd_divides_both(g1 as nat, m2 as nat);
            crate::num_utils::lemma_gcd_divides_both(m0 as nat, m1 as nat);
            crate::num_utils::lemma_divides_trans(g as nat, g7 as nat, g6 as nat);
            crate::num_utils::lemma_divides_trans(g as nat, g6 as nat, g5 as nat);
            crate::num_utils::lemma_divides_trans(g as nat, g5 as nat, g4 as nat);
            crate::num_utils::lemma_divides_trans(g as nat, g4 as nat, g3 as nat);
            crate::num_utils::lemma_divides_trans(g as nat, g3 as nat, g2 as nat);
            crate::num_utils::lemma_divides_trans(g as nat, g2 as nat, g1 as nat);
            crate::num_utils::lemma_divides_trans(g as nat, g1 as nat, m0 as nat);
            crate::num_utils::lemma_divides_trans(g as nat, g1 as nat, m1 as nat);
            crate::num_utils::lemma_divides_trans(g as nat, g2 as nat, m2 as nat);
            crate::num_utils::lemma_divides_trans(g as nat, g3 as nat, m3 as nat);
            crate::num_utils::lemma_divides_trans(g as nat, g4 as nat, m4 as nat);
            crate::num_utils::lemma_divides_trans(g as nat, g5 as nat, m5 as nat);
            crate::num_utils::lemma_divides_trans(g as nat, g6 as nat, m6 as nat);
            crate::num_utils::lemma_divides_trans(g as nat, g7 as nat, m7 as nat);
        }
        if g <= 1 {
            proof {
                assert(ofrac_ok(frac, frac)) by (nonlinear_arith)
                    requires
                        ofrac_gcd(frac) == 1,
                        ofrac_ok_shape(frac, frac),
                ;
            }
            return frac;
        }
        let e0 = crate::num_utils::exact_div_u64(m0, g);
        let e1 = crate::num_utils::exact_div_u64(m1, g);
        let e2 = crate::num_utils::exact_div_u64(m2, g);
        let e3 = crate::num_utils::exact_div_u64(m3, g);
        let e4 = crate::num_utils::exact_div_u64(m4, g);
        let e5 = crate::num_utils::exact_div_u64(m5, g);
        let e6 = crate::num_utils::exact_div_u64(m6, g);
        let e7 = crate::num_utils::exact_div_u64(m7, g);
        let ed = crate::num_utils::exact_div_u64(frac.den, g);
        proof {
            assert(e0 <= m0 && e1 <= m1 && e2 <= m2 && e3 <= m3 && e4 <= m4 && e5 <= m5 && e6
                <= m6 && e7 <= m7 && ed <= frac.den && ed > 0) by (nonlinear_arith)
                requires
                    e0 * g == m0 && e1 * g == m1 && e2 * g == m2 && e3 * g == m3 && e4 * g == m4
                        && e5 * g == m5 && e6 * g == m6 && e7 * g == m7 && ed * g == frac.den,
                    g > 1,
                    frac.den > 0,
            ;
        }
        let out = OIFraction {
            num: OInt {
                a: if frac.num.a >= 0 {
                    e0 as i32
                } else {
                    -(e0 as i32)
                },
                b: if frac.num.b >= 0 {
                    e1 as i32
                } else {
                    -(e1 as i32)
                },
                c: if frac.num.c >= 0 {
                    e2 as i32
                } else {
                    -(e2 as i32)
                },
                d: if frac.num.d >= 0 {
                    e3 as i32
                } else {
                    -(e3 as i32)
                },
                e: if frac.num.e >= 0 {
                    e4 as i32
                } else {
                    -(e4 as i32)
                },
                f: if frac.num.f >= 0 {
                    e5 as i32
                } else {
                    -(e5 as i32)
                },
                g: if frac.num.g >= 0 {
                    e6 as i32
                } else {
                    -(e6 as i32)
                },
                h: if frac.num.h >= 0 {
                    e7 as i32
                } else {
                    -(e7 as i32)
                },
            },
            den: ed,
        };
        proof {
            assert(out.num@.a * ofrac_gcd(frac) == frac.num@.a && out.num@.b * ofrac_gcd(frac)
                == frac.num@.b && out.num@.c * ofrac_gcd(frac) == frac.num@.c && out.num@.d
                * ofrac_gcd(frac) == frac.num@.d && out.num@.e * ofrac_gcd(frac) == frac.num@.e
                && out.num@.f * ofrac_gcd(frac) == frac.num@.f && out.num@.g * ofrac_gcd(frac)
                == frac.num@.g && out.num@.h * ofrac_gcd(frac) == frac.num@.h)
                by (nonlinear_arith)
                requires
                    e0 * ofrac_gcd(frac) == m0 && e1 * ofrac_gcd(frac) == m1 && e2 * ofrac_gcd(
                        frac,
                    ) == m2 && e3 * ofrac_gcd(frac) == m3 && e4 * ofrac_gcd(frac) == m4 && e5
                        * ofrac_gcd(frac) == m5 && e6 * ofrac_gcd(frac) == m6 && e7 * ofrac_gcd(
                        frac,
                    ) == m7,
                    m0 == crate::num_utils::nat_abs(frac.num@.a),
                    m1 == crate::num_utils::nat_abs(frac.num@.b),
                    m2 == crate::num_utils::nat_abs(frac.num@.c),
                    m3 == crate::num_utils::nat_abs(frac.num@.d),
                    m4 == crate::num_utils::nat_abs(frac.num@.e),
                    m5 == crate::num_utils::nat_abs(frac.num@.f),
                    m6 == crate::num_utils::nat_abs(frac.num@.g),
                    m7 == crate::num_utils::nat_abs(frac.num@.h),
                    out.num@.a == (if frac.num@.a >= 0 { e0 as int } else { -(e0 as int) }),
                    out.num@.b == (if frac.num@.b >= 0 { e1 as int } else { -(e1 as int) }),
                    out.num@.c == (if frac.num@.c >= 0 { e2 as int } else { -(e2 as int) }),
                    out.num@.d == (if frac.num@.d >= 0 { e3 as int } else { -(e3 as int) }),
                    out.num@.e == (if frac.num@.e >= 0 { e4 as int } else { -(e4 as int) }),
                    out.num@.f == (if frac.num@.f >= 0 { e5 as int } else { -(e5 as int) }),
                    out.num@.g == (if frac.num@.g >= 0 { e6 as int } else { -(e6 as int) }),
                    out.num@.h == (if frac.num@.h >= 0 { e7 as int } else { -(e7 as int) }),
            ;
        }
        out
    }

    /// Tests whether the two values fail to commute.
    pub fn is_non_commutative_pair(a: OInt, b: OInt) -> (r: bool)
        ensures
            r == (o_mul(a@, b@) != o_mul(b@, a@)),
    {
        let (p0, p1, p2, p3, p4, p5, p6, p7) = o_mul_wide(a, b);
        let (q0, q1, q2, q3, q4, q5, q6, q7) = o_mul_wide(b, a);
        !(p0 == q0 && p1 == q1 && p2 == q2 && p3 == q3 && p4 == q4 && p5 == q5 && p6 == q6 && p7
            == q7)
    }

    /// Tests whether the triple fails to associate.
    pub fn is_non_associative_triple(a: OInt, b: OInt, c: OInt) -> (r: bool)
        requires
            o_fits(o_mul(a@, b@)),
            o_fits(o_mul(b@, c@)),
        ensures
            r == (o_mul(o_mul(a@, b@), c@) != o_mul(a@, o_mul(b@, c@))),
    {
        let ab = a * b;
        let bc = b * c;
        let (p0, p1, p2, p3, p4, p5, p6, p7) = o_mul_wide(ab, c);
        let (q0, q1, q2, q3, q4, q5, q6, q7) = o_mul_wide(a, bc);
        !(p0 == q0 && p1 == q1 && p2 == q2 && p3 == q3 && p4 == q4 && p5 == q5 && p6 == q6 && p7
            == q7)
    }

    /// Tests the two alternative laws `(a*a)*b == a*(a*b)` and
    /// `(a*b)*b == a*(b*b)`.
    pub fn alternative_identity(a: OInt, b: OInt) -> (r: bool)
        requires
            o_fits(o_mul(a@, a@)),
            o_fits(o_mul(a@, b@)),
            o_fits(o_mul(b@, b@)),
        ensures
            r == (o_mul(o_mul(a@, a@), b@) == o_mul(a@, o_mul(a@, b@)) && o_mul(
                o_mul(a@, b@),
                b@,
            ) == o_mul(a@, o_mul(b@, b@))),
    {
        let aa = a * a;
        let ab = a * b;
        let bb = b * b;
        let (p0, p1, p2, p3, p4, p5, p6, p7) = o_mul_wide(aa, b);
        let (q0, q1, q2, q3, q4, q5, q6, q7) = o_mul_wide(a, ab);
        let first = p0 == q0 && p1 == q1 && p2 == q2 && p3 == q3 && p4 == q4 && p5 == q5 && p6
            == q6 && p7 == q7;
        let (u0, u1, u2, u3, u4, u5, u6, u7) = o_mul_wide(ab, b);
        let (v0, v1, v2, v3, v4, v5, v6, v7) = o_mul_wide(a, bb);
        let second = u0 == v0 && u1 == v1 && u2 == v2 && u3 == v3 && u4 == v4 && u5 == v5 && u6
            == v6 && u7 == v7;
        first && second
    }

    /// Tests the Moufang identity `(a*b)*(c*a) == a*((b*c)*a)`.
    pub fn moufang_identity(a: OInt, b: OInt, c: OInt) -> (r: bool)
        requires
            o_fits(o_mul(a@, b@)),
            o_fits(o_mul(c@, a@)),
            o_fits(o_mul(b@, c@)),
            o_fits(o_mul(o_mul(b@, c@), a@)),
        ensures
            r == (o_mul(o_mul(a@, b@), o_mul(c@, a@)) == o_mul(a@, o_mul(o_mul(b@, c@), a@))),
    {
        let ab = a * b;
        let ca = c * a;
        let bc = b * c;
        let bca = bc * a;
        let (p0, p1, p2, p3, p4, p5, p6, p7) = o_mul_wide(ab, ca);
        let (q0, q1, q2, q3, q4, q5, q6, q7) = o_mul_wide(a, bca);
        p0 == q0 && p1 == q1 && p2 == q2 && p3 == q3 && p4 == q4 && p5 == q5 && p6 == q6 && p7
            == q7
    }
}

/// The common gcd of the eight numerator magnitudes and the denominator,
/// folded left as the executable code computes it.
pub open spec fn ofrac_gcd(frac: OIFraction) -> nat {
    crate::num_utils::spec_gcd(
        crate::num_utils::spec_gcd(
            crate::num_utils::spec_gcd(
                crate::num_utils::spec_gcd(
                    crate::num_utils::spec_gcd(
                        crate::num_utils::spec_gcd(
                            crate::num_utils::spec_gcd(
                                crate::num_utils::spec_gcd(
                                    crate::num_utils::nat_abs(frac.num@.a),
                                    crate::num_utils::nat_abs(frac.num@.b),
                                ),
                                crate::num_utils::nat_abs(frac.num@.c),
                            ),
                            crate::num_utils::nat_abs(frac.num@.d),
                        ),
                        crate::num_utils::nat_abs(frac.num@.e),
                    ),
                    crate::num_utils::nat_abs(frac.num@.f),
                ),
                crate::num_utils::nat_abs(frac.num@.g),
            ),
            crate::num_utils::nat_abs(frac.num@.h),
        ),
        frac.den as nat,
    )
}

/// The exact-division shape of a reduced fraction.
pub open spec fn ofrac_ok_shape(r: OIFraction, frac: OIFraction) -> bool {
    r.num@.a * ofrac_gcd(frac) == frac.num@.a * 1 && r.num@.b * ofrac_gcd(frac) == frac.num@.b * 1
        && r.num@.c * ofrac_gcd(frac) == frac.num@.c * 1 && r.num@.d * ofrac_gcd(frac)
        == frac.num@.d * 1 && r.num@.e * ofrac_gcd(frac) == frac.num@.e * 1 && r.num@.f
        * ofrac_gcd(frac) == frac.num@.f * 1 && r.num@.g * ofrac_gcd(frac) == frac.num@.g * 1
        && r.num@.h * ofrac_gcd(frac) == frac.num@.h * 1 && r.den as int * ofrac_gcd(frac)
        == frac.den as int * 1
}

/// The exact-division claims of the reduction.
pub open spec fn ofrac_ok(r: OIFraction, frac: OIFraction) -> bool {
    r.num@.a * ofrac_gcd(frac) == frac.num@.a && r.num@.b * ofrac_gcd(frac) == frac.num@.b
        && r.num@.c * ofrac_gcd(frac) == frac.num@.c && r.num@.d * ofrac_gcd(frac)
        == frac.num@.d && r.num@.e * ofrac_gcd(frac) == frac.num@.e && r.num@.f * ofrac_gcd(frac)
        == frac.num@.f && r.num@.g * ofrac_gcd(frac) == frac.num@.g && r.num@.h * ofrac_gcd(frac)
        == frac.num@.h && r.den as int * ofrac_gcd(frac) == frac.den as int
}

/// Halving a doubled value is exact.
proof fn lemma_half_of_double(v: int)
    ensures
        (2 * v) / 2 == v,
{
    vstd::arithmetic::div_mod::lemma_fundamental_div_mod_converse(2 * v, 2, v, 0);
}

/// Right multiplication by the stored basis elements e1, e2, e3 permutes
/// and flips the components as the cyclic Fano table prescribes.
proof fn lemma_mul_basis_columns(x: OModel)
    ensures
        o_mul(x, OModel { a: 0, b: 2, c: 0, d: 0, e: 0, f: 0, g: 0, h: 0 }) == (OModel {
            a: -x.b,
            b: x.a,
            c: x.e,
            d: x.h,
            e: -x.c,
            f: x.g,
            g: -x.f,
            h: -x.d,
        }),
        o_mul(x, OModel { a: 0, b: 0, c: 2, d: 0, e: 0, f: 0, g: 0, h: 0 }) == (OModel {
            a: -x.c,
            b: -x.e,
            c: x.a,
            d: x.f,
            e: x.b,
            f: -x.d,
            g: x.h,
            h: -x.g,
        }),
        o_mul(x, OModel { a: 0, b: 0, c: 0, d: 2, e: 0, f: 0, g: 0, h: 0 }) == (OModel {
            a: -x.d,
            b: -x.h,
            c: -x.f,
            d: x.a,
            e: x.g,
            f: x.c,
            g: -x.e,
            h: x.b,
        }),
{
    lemma_half_of_double(-x.a);
    lemma_half_of_double(x.a);
    lemma_half_of_double(-x.b);
    lemma_half_of_double(x.b);
    lemma_half_of_double(-x.c);
    lemma_half_of_double(x.c);
    lemma_half_of_double(-x.d);
    lemma_half_of_double(x.d);
    lemma_half_of_double(-x.e);
    lemma_half_of_double(x.e);
    lemma_half_of_double(-x.f);
    lemma_half_of_double(x.f);
    lemma_half_of_double(-x.g);
    lemma_half_of_double(x.g);
    lemma_half_of_double(-x.h);
    lemma_half_of_double(x.h);
}

/// A unit's stored components are bounded, so its conjugate is
/// representable.
proof fn lemma_o_unit_bounds(x: OModel)
    requires
        o_is_unit(x),
    ensures
        -3 <= x.a <= 3 && -3 <= x.b <= 3 && -3 <= x.c <= 3 && -3 <= x.d <= 3 && -3 <= x.e <= 3
            && -3 <= x.f <= 3 && -3 <= x.g <= 3 && -3 <= x.h <= 3,
{
    lemma_o_norm2_raw_zero(x);
    vstd::arithmetic::div_mod::lemma_fundamental_div_mod(o_norm2_raw(x), 4);
    vstd::arithmetic::div_mod::lemma_mod_division_less_than_divisor(o_norm2_raw(x), 4);
    assert(o_norm2_raw(x) < 8);
    assert(-3 <= x.a <= 3 && -3 <= x.b <= 3 && -3 <= x.c <= 3 && -3 <= x.d <= 3 && -3 <= x.e <= 3
        && -3 <= x.f <= 3 && -3 <= x.g <= 3 && -3 <= x.h <= 3) by (nonlinear_arith)
        requires
            o_norm2_raw(x) == x.a * x.a + x.b * x.b + x.c * x.c + x.d * x.d + x.e * x.e + x.f
                * x.f + x.g * x.g + x.h * x.h,
            o_norm2_raw(x) < 8,
    ;
}

/// Bounds for the square of a 32-bit component.
proof fn lemma_sq_bounds(v: int, s: int)
    requires
        s == v * v,
        -0x8000_0000 <= v <= 0x7fff_ffff,
    ensures
        0 <= s <= 0x4000_0000_0000_0000,
{
    assert(0 <= v * v <= 0x4000_0000_0000_0000) by (nonlinear_arith)
        requires
            -0x8000_0000 <= v <= 0x7fff_ffff,
    ;
}

/// Twice any value is even.
proof fn lemma_double_even8(v0: int, v1: int, v2: int, v3: int)
    ensures
        (2 * v0) % 2 == 0,
        (2 * v1) % 2 == 0,
        (2 * v2) % 2 == 0,
        (2 * v3) % 2 == 0,
{
    vstd::arithmetic::div_mod::lemma_fundamental_div_mod_converse(2 * v0, 2, v0, 0);
    vstd::arithmetic::div_mod::lemma_fundamental_div_mod_converse(2 * v1, 2, v1, 0);
    vstd::arithmetic::div_mod::lemma_fundamental_div_mod_converse(2 * v2, 2, v2, 0);
    vstd::arithmetic::div_mod::lemma_fundamental_div_mod_converse(2 * v3, 2, v3, 0);
}

/// The executable parity tests agree with the mathematical ones.
proof fn lemma_exec_parity8(v0: int, v1: int, v2: int, v3: int)
    ensures
        v0 % 2 == 0 || v0 % 2 == 1,
        v1 % 2 == 0 || v1 % 2 == 1,
        v2 % 2 == 0 || v2 % 2 == 1,
        v3 % 2 == 0 || v3 % 2 == 1,
{
    vstd::arithmetic::div_mod::lemma_mod_division_less_than_divisor(v0, 2);
    vstd::arithmetic::div_mod::lemma_mod_division_less_than_divisor(v1, 2);
    vstd::arithmetic::div_mod::lemma_mod_division_less_than_divisor(v2, 2);
    vstd::arithmetic::div_mod::lemma_mod_division_less_than_divisor(v3, 2);
}

} // verus!
