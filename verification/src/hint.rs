//! Hurwitz-style quaternions with 32-bit stored components (each twice the
//! represented coordinate, so half-integer points are the all-odd values).
use vstd::prelude::*;

verus! {

use crate::hmodel::{
    QModel, h_add, h_conj, h_is_zero, h_is_unit, h_mul, h_neg, h_norm2, h_norm2_raw, h_normalize,
    h_raw_a, h_raw_b, h_raw_c, h_raw_d, h_sub, h_wf, h_zero, lemma_h_norm2_nonneg,
    lemma_h_norm2_raw_zero, lemma_h_normalize_norm2,
};
use crate::num_utils::rnd_half_away;

#[derive(Debug, Clone, Copy, PartialEq, Eq, Structural)]
pub enum HIntError {
    Overflow,
    DivisionByZero,
    NotDivisible,
    NoInverse,
    InvalidHalfInteger,
}

/// A quaternion on the half-integer lattice; fields hold twice the
/// represented coordinates.
#[derive(Clone, Copy, PartialEq, Eq, Structural, Debug, Hash)]
pub struct HInt {
    pub a: i32,
    pub b: i32,
    pub c: i32,
    pub d: i32,
}

/// A numerator together with a positive common denominator.
#[derive(Debug, Clone, Copy, PartialEq, Eq, Structural)]
pub struct HIFraction {
    pub num: HInt,
    pub den: u64,
}

impl View for HInt {
    type V = QModel;

    open spec fn view(&self) -> QModel {
        QModel { a: self.a as int, b: self.b as int, c: self.c as int, d: self.d as int }
    }
}

pub open spec fn h_fits(x: QModel) -> bool {
    i32::MIN <= x.a <= i32::MAX && i32::MIN <= x.b <= i32::MAX && i32::MIN <= x.c <= i32::MAX
        && i32::MIN <= x.d <= i32::MAX
}

pub open spec fn h_fits_sym(x: QModel) -> bool {
    i32::MIN < x.a <= i32::MAX && i32::MIN < x.b <= i32::MAX && i32::MIN < x.c <= i32::MAX
        && i32::MIN < x.d <= i32::MAX
}

impl core::ops::Add for HInt {
    type Output = HInt;

    /// Componentwise addition; sums must stay on the representable lattice.
    fn add(self, rhs: HInt) -> (r: HInt) {
        HInt {
            a: self.a + rhs.a,
            b: self.b + rhs.b,
            c: self.c + rhs.c,
            d: self.d + rhs.d,
        }
    }
}

impl vstd::std_specs::ops::AddSpecImpl for HInt {
    open spec fn obeys_add_spec() -> bool {
        true
    }

    open spec fn add_req(self, rhs: HInt) -> bool {
        h_fits(h_add(self@, rhs@))
    }

    open spec fn add_spec(self, rhs: HInt) -> HInt {
        HInt {
            a: (self@.a + rhs@.a) as i32,
            b: (self@.b + rhs@.b) as i32,
            c: (self@.c + rhs@.c) as i32,
            d: (self@.d + rhs@.d) as i32,
        }
    }
}

impl core::ops::Sub for HInt {
    type Output = HInt;

    /// Componentwise subtraction on the representable lattice.
    fn sub(self, rhs: HInt) -> (r: HInt) {
        HInt {
            a: self.a - rhs.a,
            b: self.b - rhs.b,
            c: self.c - rhs.c,
            d: self.d - rhs.d,
        }
    }
}

impl vstd::std_specs::ops::SubSpecImpl for HInt {
    open spec fn obeys_sub_spec() -> bool {
        true
    }

    open spec fn sub_req(self, rhs: HInt) -> bool {
        h_fits(h_sub(self@, rhs@))
    }

    open spec fn sub_spec(self, rhs: HInt) -> HInt {
        HInt {
            a: (self@.a - rhs@.a) as i32,
            b: (self@.b - rhs@.b) as i32,
            c: (self@.c - rhs@.c) as i32,
            d: (self@.d - rhs@.d) as i32,
        }
    }
}

impl core::ops::Neg for HInt {
    type Output = HInt;

    /// Componentwise negation.
    fn neg(self) -> (r: HInt) {
        HInt { a: -self.a, b: -self.b, c: -self.c, d: -self.d }
    }
}

impl vstd::std_specs::ops::NegSpecImpl for HInt {
    open spec fn obeys_neg_spec() -> bool {
        true
    }

    open spec fn neg_req(self) -> bool {
        h_fits_sym(self@)
    }

    open spec fn neg_spec(self) -> HInt {
        HInt {
            a: (-self@.a) as i32,
            b: (-self@.b) as i32,
            c: (-self@.c) as i32,
            d: (-self@.d) as i32,
        }
    }
}

impl core::ops::Mul for HInt {
    type Output = HInt;

    /// The Hamilton product in stored form; the result must stay on the
    /// representable lattice.
    fn mul(self, rhs: HInt) -> (r: HInt) {
        let (ra, rb, rc, rd) = h_mul_wide(self, rhs);
        proof {
            assert(i32::MIN <= ra <= i32::MAX && i32::MIN <= rb <= i32::MAX && i32::MIN <= rc
                <= i32::MAX && i32::MIN <= rd <= i32::MAX);
        }
        HInt { a: ra as i32, b: rb as i32, c: rc as i32, d: rd as i32 }
    }
}

impl vstd::std_specs::ops::MulSpecImpl for HInt {
    open spec fn obeys_mul_spec() -> bool {
        true
    }

    open spec fn mul_req(self, rhs: HInt) -> bool {
        h_fits(h_mul(self@, rhs@))
    }

    open spec fn mul_spec(self, rhs: HInt) -> HInt {
        HInt {
            a: h_mul(self@, rhs@).a as i32,
            b: h_mul(self@, rhs@).b as i32,
            c: h_mul(self@, rhs@).c as i32,
            d: h_mul(self@, rhs@).d as i32,
        }
    }
}

/// The stored Hamilton product in 128-bit arithmetic: the four raw
/// bilinear forms, each halved toward negative infinity.
fn h_mul_wide(x: HInt, y: HInt) -> (r: (i128, i128, i128, i128))
    ensures
        r.0 == h_mul(x@, y@).a,
        r.1 == h_mul(x@, y@).b,
        r.2 == h_mul(x@, y@).c,
        r.3 == h_mul(x@, y@).d,
        -0x8_0000_0000_0000_0000 <= r.0 <= 0x8_0000_0000_0000_0000,
        -0x8_0000_0000_0000_0000 <= r.1 <= 0x8_0000_0000_0000_0000,
        -0x8_0000_0000_0000_0000 <= r.2 <= 0x8_0000_0000_0000_0000,
        -0x8_0000_0000_0000_0000 <= r.3 <= 0x8_0000_0000_0000_0000,
{
    let sa = crate::cint::wide_mul_128(x.a as i128, y.a as i128) - crate::cint::wide_mul_128(
        x.b as i128,
        y.b as i128,
    ) - crate::cint::wide_mul_128(x.c as i128, y.c as i128) - crate::cint::wide_mul_128(
        x.d as i128,
        y.d as i128,
    );
    let sb = crate::cint::wide_mul_128(x.a as i128, y.b as i128) + crate::cint::wide_mul_128(
        x.b as i128,
        y.a as i128,
    ) + crate::cint::wide_mul_128(x.c as i128, y.d as i128) - crate::cint::wide_mul_128(
        x.d as i128,
        y.c as i128,
    );
    let sc = crate::cint::wide_mul_128(x.a as i128, y.c as i128) - crate::cint::wide_mul_128(
        x.b as i128,
        y.d as i128,
    ) + crate::cint::wide_mul_128(x.c as i128, y.a as i128) + crate::cint::wide_mul_128(
        x.d as i128,
        y.b as i128,
    );
    let sd = crate::cint::wide_mul_128(x.a as i128, y.d as i128) + crate::cint::wide_mul_128(
        x.b as i128,
        y.c as i128,
    ) - crate::cint::wide_mul_128(x.c as i128, y.b as i128) + crate::cint::wide_mul_128(
        x.d as i128,
        y.a as i128,
    );
    proof {
        assert(sa == h_raw_a(x@, y@) && sb == h_raw_b(x@, y@) && sc == h_raw_c(x@, y@) && sd
            == h_raw_d(x@, y@));
    }
    (half_i128(sa), half_i128(sb), half_i128(sc), half_i128(sd))
}

/// Square of a value bounded by `bound`, exact and bounded so that four
/// such squares can be summed in 128 bits.
pub(crate) fn sq_bounded_i128(v: i128, bound: i128) -> (r: i128)
    requires
        0 <= bound <= 0x4000_0000_0000_0000,
        -bound <= v <= bound,
    ensures
        r == v * v,
        0 <= r <= 0x1000_0000_0000_0000_0000_0000_0000_0000,
{
    proof {
        assert(0 <= v * v <= 0x1000_0000_0000_0000_0000_0000_0000_0000) by (nonlinear_arith)
            requires
                0 <= bound <= 0x4000_0000_0000_0000,
                -bound <= v <= bound,
        ;
    }
    v * v
}

/// `n * (2*w)` regroups as `(2*n) * w`.
proof fn lemma_reassociate_double(n: int, w0: int, w1: int, w2: int, w3: int)
    ensures
        n * (2 * w0) == (2 * n) * w0,
        n * (2 * w1) == (2 * n) * w1,
        n * (2 * w2) == (2 * n) * w2,
        n * (2 * w3) == (2 * n) * w3,
{
    assert(n * (2 * w0) == (2 * n) * w0 && n * (2 * w1) == (2 * n) * w1 && n * (2 * w2) == (2 * n)
        * w2 && n * (2 * w3) == (2 * n) * w3) by (nonlinear_arith);
}

/// Floor division of a 128-bit value by two.
pub(crate) fn half_i128(s: i128) -> (r: i128)
    requires
        -0x10_0000_0000_0000_0000 <= s <= 0x10_0000_0000_0000_0000,
    ensures
        r == s as int / 2,
        2 * r <= s <= 2 * r + 1,
{
    proof {
        vstd::arithmetic::div_mod::lemma_fundamental_div_mod(s as int, 2);
        vstd::arithmetic::div_mod::lemma_mod_division_less_than_divisor(s as int, 2);
    }
    if s >= 0 {
        let m: u128 = (s as u128) / 2;
        m as i128
    } else {
        let m: u128 = ((-s) as u128 + 1) / 2;
        proof {
            vstd::arithmetic::div_mod::lemma_fundamental_div_mod((-s) as int + 1, 2);
            vstd::arithmetic::div_mod::lemma_mod_division_less_than_divisor((-s) as int + 1, 2);
            let mm = ((-s) as int + 1) / 2;
            vstd::arithmetic::div_mod::lemma_fundamental_div_mod_converse(
                s as int,
                2,
                -mm,
                (s as int + 2 * mm),
            );
        }
        -(m as i128)
    }
}

impl HInt {
    /// Integer quaternion `a + b*i + c*j + d*k`, stored doubled.
    pub fn new(a: i32, b: i32, c: i32, d: i32) -> (r: HInt)
        requires
            -0x4000_0000 <= a < 0x4000_0000,
            -0x4000_0000 <= b < 0x4000_0000,
            -0x4000_0000 <= c < 0x4000_0000,
            -0x4000_0000 <= d < 0x4000_0000,
        ensures
            r@ == (QModel {
                a: 2 * a as int,
                b: 2 * b as int,
                c: 2 * c as int,
                d: 2 * d as int,
            }),
            h_wf(r@),
    {
        let r = HInt { a: a * 2, b: b * 2, c: c * 2, d: d * 2 };
        proof {
            lemma_double_even(a as int);
            lemma_double_even(b as int);
            lemma_double_even(c as int);
            lemma_double_even(d as int);
        }
        r
    }

    /// Builds a value from doubled coordinates: all components must share
    /// one parity (all even for integer points, all odd for half-integer
    /// points).
    pub fn from_halves(a: i32, b: i32, c: i32, d: i32) -> (res: Result<HInt, HIntError>)
        ensures
            ({
                let m = QModel { a: a as int, b: b as int, c: c as int, d: d as int };
                match res {
                    Ok(r) => r@ == m && h_wf(m),
                    Err(e) => e == HIntError::InvalidHalfInteger && !h_wf(m),
                }
            }),
            res is Ok <==> h_wf(
                QModel { a: a as int, b: b as int, c: c as int, d: d as int },
            ),
    {
        let a_odd = a % 2 != 0;
        let b_odd = b % 2 != 0;
        let c_odd = c % 2 != 0;
        let d_odd = d % 2 != 0;
        proof {
            lemma_exec_parity(a as int);
            lemma_exec_parity(b as int);
            lemma_exec_parity(c as int);
            lemma_exec_parity(d as int);
        }
        if a_odd != b_odd || a_odd != c_odd || a_odd != d_odd {
            return Err(HIntError::InvalidHalfInteger);
        }
        Ok(HInt { a, b, c, d })
    }

    pub fn zero() -> (r: HInt)
        ensures
            r@ == h_zero(),
            h_wf(r@),
    {
        HInt::new(0, 0, 0, 0)
    }

    pub fn one() -> (r: HInt)
        ensures
            r@ == (QModel { a: 2, b: 0, c: 0, d: 0 }),
            h_wf(r@),
    {
        HInt::new(1, 0, 0, 0)
    }

    pub fn i() -> (r: HInt)
        ensures
            r@ == (QModel { a: 0, b: 2, c: 0, d: 0 }),
            h_wf(r@),
    {
        HInt::new(0, 1, 0, 0)
    }

    pub fn j() -> (r: HInt)
        ensures
            r@ == (QModel { a: 0, b: 0, c: 2, d: 0 }),
            h_wf(r@),
    {
        HInt::new(0, 0, 1, 0)
    }

    pub fn k() -> (r: HInt)
        ensures
            r@ == (QModel { a: 0, b: 0, c: 0, d: 2 }),
            h_wf(r@),
    {
        HInt::new(0, 0, 0, 1)
    }

    pub fn is_zero(self) -> (r: bool)
        ensures
            r == h_is_zero(self@),
    {
        self.a == 0 && self.b == 0 && self.c == 0 && self.d == 0
    }

    pub fn is_unit(self) -> (r: bool)
        ensures
            r == h_is_unit(self@),
    {
        self.norm_squared() == 1
    }

    pub fn conj(self) -> (r: HInt)
        requires
            self.b > i32::MIN,
            self.c > i32::MIN,
            self.d > i32::MIN,
        ensures
            r@ == h_conj(self@),
    {
        HInt { a: self.a, b: -self.b, c: -self.c, d: -self.d }
    }

    /// The squared norm of the represented value: the summed squared
    /// stored components divided by four.
    pub fn norm_squared(self) -> (r: u64)
        ensures
            r == h_norm2(self@),
            r <= 0x4000_0000_0000_0000,
    {
        let s = self.norm_raw_u128();
        proof {
            lemma_h_norm2_raw_zero(self@);
            vstd::arithmetic::div_mod::lemma_div_is_ordered(0, h_norm2_raw(self@), 4);
            vstd::arithmetic::div_mod::lemma_div_is_ordered(
                h_norm2_raw(self@),
                0x1_0000_0000_0000_0000,
                4,
            );
        }
        (s / 4) as u64
    }

    /// Canonical associate: the sign is flipped when the scalar part is
    /// negative.
    pub fn normalize(self) -> (r: HInt)
        requires
            h_fits_sym(self@),
        ensures
            r@ == h_normalize(self@),
            h_norm2(r@) == h_norm2(self@),
            h_fits_sym(r@),
    {
        proof {
            lemma_h_normalize_norm2(self@);
        }
        if self.is_zero() {
            return self;
        }
        if self.a > 0 {
            return self;
        }
        if -self.a > 0 {
            return HInt { a: -self.a, b: -self.b, c: -self.c, d: -self.d };
        }
        self
    }
}

/// The integer-point quotient candidate: each stored component of
/// `x * conj(d)` divided by `2 * norm2(d)`, rounded half away from zero,
/// then doubled back into stored form (all components even).
pub open spec fn h_divq_int(x: QModel, d: QModel) -> QModel {
    let t = h_mul(x, h_conj(d));
    let n = h_norm2(d);
    QModel {
        a: 2 * rnd_half_away(t.a, 2 * n),
        b: 2 * rnd_half_away(t.b, 2 * n),
        c: 2 * rnd_half_away(t.c, 2 * n),
        d: 2 * rnd_half_away(t.d, 2 * n),
    }
}

/// The half-integer quotient candidate: the nearest all-odd stored point
/// (a point of the half-integer sublattice).
pub open spec fn h_divq_half(x: QModel, d: QModel) -> QModel {
    let t = h_mul(x, h_conj(d));
    let n = h_norm2(d);
    QModel {
        a: 2 * rnd_half_away(t.a - n, 2 * n) + 1,
        b: 2 * rnd_half_away(t.b - n, 2 * n) + 1,
        c: 2 * rnd_half_away(t.c - n, 2 * n) + 1,
        d: 2 * rnd_half_away(t.d - n, 2 * n) + 1,
    }
}

/// Squared residual of a quotient candidate: the squared distance, scaled
/// by `norm2(d)`, between `x * conj(d)` and `q` times the norm.  On
/// well-formed inputs this equals `norm2_raw(x - q*d) * norm2(d)`.
pub open spec fn h_resid2(x: QModel, d: QModel, q: QModel) -> int {
    let t = h_mul(x, h_conj(d));
    let n = h_norm2(d);
    (t.a - n * q.a) * (t.a - n * q.a) + (t.b - n * q.b) * (t.b - n * q.b) + (t.c - n * q.c) * (t.c
        - n * q.c) + (t.d - n * q.d) * (t.d - n * q.d)
}

/// Quotient of the rank-4 Euclidean division: the better of the nearest
/// integer point and the nearest half-integer point, so that on
/// well-formed inputs the remainder is strictly smaller than the divisor.
pub open spec fn h_divq(x: QModel, d: QModel) -> QModel {
    if h_norm2(d) == 0 {
        h_zero()
    } else if h_resid2(x, d, h_divq_int(x, d)) <= h_resid2(x, d, h_divq_half(x, d)) {
        h_divq_int(x, d)
    } else {
        h_divq_half(x, d)
    }
}

/// Remainder of the rank-4 Euclidean division.
pub open spec fn h_divr(x: QModel, d: QModel) -> QModel {
    h_sub(x, h_mul(h_divq(x, d), d))
}

/// On well-formed inputs the chosen quotient's residual is at most half
/// the square of the norm: the covering-radius argument for the union of
/// the integer and half-integer sublattices.
proof fn lemma_h_resid_small(x: QModel, d: QModel)
    requires
        h_wf(x),
        h_wf(d),
        !h_is_zero(d),
    ensures
        h_norm2(d) >= 1,
        h_resid2(x, d, h_divq(x, d)) <= 2 * (h_norm2(d) * h_norm2(d)),
{
    let cd = h_conj(d);
    let t = h_mul(x, cd);
    let n = h_norm2(d);
    crate::hmodel::lemma_h_norm2_raw_zero(d);
    crate::hmodel::lemma_h_norm2_exact(d);
    assert(n >= 1) by (nonlinear_arith)
        requires
            h_norm2_raw(d) == 4 * n,
            h_norm2_raw(d) > 0,
    ;
    let qa = h_divq_int(x, d);
    let qb = h_divq_half(x, d);
    let wa0 = rnd_half_away(t.a, 2 * n);
    let wa1 = rnd_half_away(t.b, 2 * n);
    let wa2 = rnd_half_away(t.c, 2 * n);
    let wa3 = rnd_half_away(t.d, 2 * n);
    let wb0 = rnd_half_away(t.a - n, 2 * n);
    let wb1 = rnd_half_away(t.b - n, 2 * n);
    let wb2 = rnd_half_away(t.c - n, 2 * n);
    let wb3 = rnd_half_away(t.d - n, 2 * n);
    crate::num_utils::lemma_rnd_half_away_close(t.a, 2 * n);
    crate::num_utils::lemma_rnd_half_away_close(t.b, 2 * n);
    crate::num_utils::lemma_rnd_half_away_close(t.c, 2 * n);
    crate::num_utils::lemma_rnd_half_away_close(t.d, 2 * n);
    crate::num_utils::lemma_rnd_half_away_close(t.a - n, 2 * n);
    crate::num_utils::lemma_rnd_half_away_close(t.b - n, 2 * n);
    crate::num_utils::lemma_rnd_half_away_close(t.c - n, 2 * n);
    crate::num_utils::lemma_rnd_half_away_close(t.d - n, 2 * n);
    lemma_candidate_residuals(t.a, n, wa0, wb0);
    lemma_candidate_residuals(t.b, n, wa1, wb1);
    lemma_candidate_residuals(t.c, n, wa2, wb2);
    lemma_candidate_residuals(t.d, n, wa3, wb3);
    assert(h_resid2(x, d, qa) + h_resid2(x, d, qb) <= 4 * (n * n));
}

/// One component of the two-candidate argument: the residuals of the
/// nearest even and nearest odd stored coordinates have squares summing to
/// at most the square of the norm.
proof fn lemma_candidate_residuals(t: int, n: int, wa: int, wb: int)
    requires
        n >= 1,
        -(2 * n) <= 2 * (t - 2 * n * wa) <= 2 * n,
        -(2 * n) <= 2 * ((t - n) - 2 * n * wb) <= 2 * n,
    ensures
        (t - n * (2 * wa)) * (t - n * (2 * wa)) + (t - n * (2 * wb + 1)) * (t - n * (2 * wb + 1))
            <= n * n,
{
    let f = t - n * (2 * wa);
    let g = t - n * (2 * wb + 1);
    assert(f == t - 2 * n * wa && g == (t - n) - 2 * n * wb) by (nonlinear_arith)
        requires
            f == t - n * (2 * wa),
            g == t - n * (2 * wb + 1),
    ;
    let m = (2 * wb + 1) - 2 * wa;
    assert(m % 2 == 1) by {
        vstd::arithmetic::div_mod::lemma_fundamental_div_mod_converse(m, 2, wb - wa, 1);
    }
    assert(g == f - m * n) by (nonlinear_arith)
        requires
            f == t - n * (2 * wa),
            g == t - n * (2 * wb + 1),
            m == (2 * wb + 1) - 2 * wa,
    ;
    crate::hmodel::lemma_two_candidate_sq(f, g, n, m);
}

/// The Euclidean property at rank 4: on well-formed operands the
/// two-candidate quotient leaves a remainder strictly smaller than the
/// divisor.
pub proof fn lemma_h_divrem_bound(x: QModel, d: QModel)
    requires
        h_wf(x),
        h_wf(d),
        !h_is_zero(d),
    ensures
        h_norm2(h_divr(x, d)) < h_norm2(d),
{
    let cd = h_conj(d);
    let t = h_mul(x, cd);
    let n = h_norm2(d);
    lemma_h_resid_small(x, d);
    let qp = h_divq(x, d);
    assert(h_resid2(x, d, qp) <= 2 * (n * n));

    // The chosen candidate is a well-formed lattice point.
    crate::hmodel::lemma_h_wf_conj(d);
    assert(h_wf(qp)) by {
        lemma_even_odd_candidates(
            rnd_half_away(t.a, 2 * n), rnd_half_away(t.b, 2 * n),
            rnd_half_away(t.c, 2 * n), rnd_half_away(t.d, 2 * n),
            rnd_half_away(t.a - n, 2 * n), rnd_half_away(t.b - n, 2 * n),
            rnd_half_away(t.c - n, 2 * n), rnd_half_away(t.d - n, 2 * n),
        );
    }

    // The raw forms of the remainder against conj(d) are twice the
    // componentwise residuals.
    let p = h_mul(qp, d);
    let rr = h_divr(x, d);
    crate::hmodel::lemma_h_raw_even(x, cd);
    crate::hmodel::lemma_h_raw_even(qp, d);
    let w = QModel {
        a: h_raw_a(qp, d),
        b: h_raw_b(qp, d),
        c: h_raw_c(qp, d),
        d: h_raw_d(qp, d),
    };
    crate::hmodel::lemma_h_raw_linear_sub(x, p, cd);
    crate::hmodel::lemma_h_raw_doubled(p, w, cd);
    crate::hmodel::lemma_h_assoc_conj(qp, d);
    crate::hmodel::lemma_h_norm2_exact(d);
    assert(h_norm2_raw(d) * qp.a == 4 * (n * qp.a) && h_norm2_raw(d) * qp.b == 4 * (n * qp.b)
        && h_norm2_raw(d) * qp.c == 4 * (n * qp.c) && h_norm2_raw(d) * qp.d == 4 * (n * qp.d))
        by (nonlinear_arith)
        requires
            h_norm2_raw(d) == 4 * n,
    ;
    assert(h_raw_a(p, cd) == 2 * (n * qp.a) && h_raw_b(p, cd) == 2 * (n * qp.b) && h_raw_c(p, cd)
        == 2 * (n * qp.c) && h_raw_d(p, cd) == 2 * (n * qp.d));
    let u0 = t.a - n * qp.a;
    let u1 = t.b - n * qp.b;
    let u2 = t.c - n * qp.c;
    let u3 = t.d - n * qp.d;
    assert(h_raw_a(rr, cd) == 2 * u0 && h_raw_b(rr, cd) == 2 * u1 && h_raw_c(rr, cd) == 2 * u2
        && h_raw_d(rr, cd) == 2 * u3);

    // Euler's identity turns the residual bound into a raw-norm bound.
    crate::hmodel::lemma_h_euler(rr, cd);
    crate::hmodel::lemma_h_conj_norm2_raw(d);
    assert((2 * u0) * (2 * u0) == 4 * (u0 * u0)) by (nonlinear_arith);
    assert((2 * u1) * (2 * u1) == 4 * (u1 * u1)) by (nonlinear_arith);
    assert((2 * u2) * (2 * u2) == 4 * (u2 * u2)) by (nonlinear_arith);
    assert((2 * u3) * (2 * u3) == 4 * (u3 * u3)) by (nonlinear_arith);
    assert(h_resid2(x, d, qp) == u0 * u0 + u1 * u1 + u2 * u2 + u3 * u3);
    assert(h_norm2_raw(rr) * h_norm2_raw(cd) == 4 * h_resid2(x, d, qp));
    crate::hmodel::lemma_h_norm2_raw_zero(rr);
    assert(h_norm2_raw(rr) * h_norm2_raw(cd) == h_norm2_raw(rr) * (4 * n));
    assert(h_norm2_raw(rr) * (4 * n) == 4 * (h_norm2_raw(rr) * n)) by (nonlinear_arith);
    assert(h_norm2_raw(rr) * n == h_resid2(x, d, qp));
    assert(h_norm2_raw(rr) <= 2 * n) by (nonlinear_arith)
        requires
            h_norm2_raw(rr) * n == h_resid2(x, d, qp),
            h_resid2(x, d, qp) <= 2 * (n * n),
            h_norm2_raw(rr) >= 0,
            n >= 1,
    ;

    // Stored norms divide the raw forms by four.
    vstd::arithmetic::div_mod::lemma_div_is_ordered(h_norm2_raw(rr), 2 * n, 4);
    vstd::arithmetic::div_mod::lemma_fundamental_div_mod(2 * n, 4);
    vstd::arithmetic::div_mod::lemma_mod_division_less_than_divisor(2 * n, 4);
    assert((2 * n) / 4 < n);
}

/// The integer candidate is all even and the half-integer candidate all
/// odd, so both are well formed.
proof fn lemma_even_odd_candidates(
    a0: int, a1: int, a2: int, a3: int,
    b0: int, b1: int, b2: int, b3: int,
)
    ensures
        (2 * a0) % 2 == 0 && (2 * a1) % 2 == 0 && (2 * a2) % 2 == 0 && (2 * a3) % 2 == 0,
        (2 * b0 + 1) % 2 == 1 && (2 * b1 + 1) % 2 == 1 && (2 * b2 + 1) % 2 == 1 && (2 * b3 + 1)
            % 2 == 1,
{
    vstd::arithmetic::div_mod::lemma_fundamental_div_mod_converse(2 * a0, 2, a0, 0);
    vstd::arithmetic::div_mod::lemma_fundamental_div_mod_converse(2 * a1, 2, a1, 0);
    vstd::arithmetic::div_mod::lemma_fundamental_div_mod_converse(2 * a2, 2, a2, 0);
    vstd::arithmetic::div_mod::lemma_fundamental_div_mod_converse(2 * a3, 2, a3, 0);
    vstd::arithmetic::div_mod::lemma_fundamental_div_mod_converse(2 * b0 + 1, 2, b0, 1);
    vstd::arithmetic::div_mod::lemma_fundamental_div_mod_converse(2 * b1 + 1, 2, b1, 1);
    vstd::arithmetic::div_mod::lemma_fundamental_div_mod_converse(2 * b2 + 1, 2, b2, 1);
    vstd::arithmetic::div_mod::lemma_fundamental_div_mod_converse(2 * b3 + 1, 2, b3, 1);
}

/// The iterative gcd on the model, mirroring the executable loop: it
/// stops early when a remainder fails to shrink, which the naive
/// per-component rounding cannot rule out at this rank.
pub open spec fn h_gcd_loop(x: QModel, y: QModel) -> QModel
    decreases h_norm2(y),
    via h_gcd_loop_decreases
{
    if h_is_zero(y) {
        x
    } else {
        let r = h_divr(x, y);
        if h_norm2(r) >= h_norm2(y) {
            y
        } else {
            h_gcd_loop(y, r)
        }
    }
}

#[via_fn]
proof fn h_gcd_loop_decreases(x: QModel, y: QModel) {
    lemma_h_norm2_nonneg(y);
    if !h_is_zero(y) {
        lemma_h_norm2_nonneg(h_divr(x, y));
    }
}

/// Every division of the gcd loop stays on the representable lattice.
pub open spec fn h_gcd_steps_fit(x: QModel, y: QModel) -> bool
    decreases h_norm2(y),
    via h_gcd_steps_fit_decreases
{
    if h_is_zero(y) {
        true
    } else {
        let r = h_divr(x, y);
        h_fits(h_divq(x, y)) && h_fits_sym(r) && (if h_norm2(r) >= h_norm2(y) {
            true
        } else {
            h_gcd_steps_fit(y, r)
        })
    }
}

#[via_fn]
proof fn h_gcd_steps_fit_decreases(x: QModel, y: QModel) {
    lemma_h_norm2_nonneg(y);
    if !h_is_zero(y) {
        lemma_h_norm2_nonneg(h_divr(x, y));
    }
}

impl HInt {
    /// Euclidean division by nearest-lattice-point rounding over both the
    /// integer and half-integer sublattices.  The identity `q*d + r == x`
    /// always holds for the returned pair, and on well-formed operands the
    /// remainder has a strictly smaller squared norm than the divisor.
    #[verifier::rlimit(100)]
    pub fn div_rem(self, d: HInt) -> (res: Result<(HInt, HInt), HIntError>)
        ensures
            match res {
                Ok(p) => {
                    let (q, r) = p;
                    &&& !h_is_zero(d@)
                    &&& q@ == h_divq(self@, d@)
                    &&& r@ == h_divr(self@, d@)
                    &&& h_add(h_mul(q@, d@), r@) == self@
                    &&& (h_wf(self@) && h_wf(d@) ==> h_norm2(r@) < h_norm2(d@))
                },
                Err(e) => {
                    &&& (e == HIntError::DivisionByZero <==> h_is_zero(d@))
                    &&& (e == HIntError::Overflow <==> !h_is_zero(d@) && !(h_fits(
                        h_divq(self@, d@),
                    ) && h_fits_sym(h_divr(self@, d@))))
                },
            },
            res is Ok <==> !h_is_zero(d@) && h_fits(h_divq(self@, d@)) && h_fits_sym(
                h_divr(self@, d@),
            ),
    {
        if d.is_zero() {
            return Err(HIntError::DivisionByZero);
        }
        proof {
            lemma_h_norm2_raw_zero(d@);
            assert(h_norm2_raw(d@) <= 0x1_0000_0000_0000_0000) by (nonlinear_arith)
                requires
                    h_norm2_raw(d@) == d@.a * d@.a + d@.b * d@.b + d@.c * d@.c + d@.d * d@.d,
                    -0x8000_0000 <= d@.a <= 0x7fff_ffff,
                    -0x8000_0000 <= d@.b <= 0x7fff_ffff,
                    -0x8000_0000 <= d@.c <= 0x7fff_ffff,
                    -0x8000_0000 <= d@.d <= 0x7fff_ffff,
            ;
            vstd::arithmetic::div_mod::lemma_div_is_ordered(0, h_norm2_raw(d@), 4);
            vstd::arithmetic::div_mod::lemma_div_is_ordered(
                h_norm2_raw(d@),
                0x1_0000_0000_0000_0000,
                4,
            );
        }
        let n: u64 = d.norm_squared();
        if n == 0 {
            let q = HInt { a: 0, b: 0, c: 0, d: 0 };
            proof {
                assert(q@ == h_divq(self@, d@));
                assert(h_mul(q@, d@) == (QModel { a: 0, b: 0, c: 0, d: 0 }));
                assert(self@ == h_divr(self@, d@));
                if h_wf(d@) {
                    crate::hmodel::lemma_h_norm2_raw_zero(d@);
                    crate::hmodel::lemma_h_norm2_exact(d@);
                    assert(h_norm2(d@) >= 1) by (nonlinear_arith)
                        requires
                            h_norm2_raw(d@) == 4 * h_norm2(d@),
                            h_norm2_raw(d@) > 0,
                    ;
                }
            }
            if self.a == i32::MIN || self.b == i32::MIN || self.c == i32::MIN || self.d
                == i32::MIN {
                return Err(HIntError::Overflow);
            }
            return Ok((q, self));
        }
        let w = crate::cint::wide_mul_128;
        let sa = w(self.a as i128, d.a as i128) + w(self.b as i128, d.b as i128) + w(
            self.c as i128,
            d.c as i128,
        ) + w(self.d as i128, d.d as i128);
        let sb = w(self.b as i128, d.a as i128) - w(self.a as i128, d.b as i128) + w(
            self.d as i128,
            d.c as i128,
        ) - w(self.c as i128, d.d as i128);
        let sc = w(self.c as i128, d.a as i128) - w(self.a as i128, d.c as i128) + w(
            self.b as i128,
            d.d as i128,
        ) - w(self.d as i128, d.b as i128);
        let sd = w(self.d as i128, d.a as i128) - w(self.a as i128, d.d as i128) + w(
            self.c as i128,
            d.b as i128,
        ) - w(self.b as i128, d.c as i128);
        proof {
            let cd = h_conj(d@);
            assert(sa == h_raw_a(self@, cd) && sb == h_raw_b(self@, cd) && sc == h_raw_c(
                self@,
                cd,
            ) && sd == h_raw_d(self@, cd)) by (nonlinear_arith)
                requires
                    cd == h_conj(d@),
                    sa == self@.a * d@.a + self@.b * d@.b + self@.c * d@.c + self@.d * d@.d,
                    sb == self@.b * d@.a - self@.a * d@.b + self@.d * d@.c - self@.c * d@.d,
                    sc == self@.c * d@.a - self@.a * d@.c + self@.b * d@.d - self@.d * d@.b,
                    sd == self@.d * d@.a - self@.a * d@.d + self@.c * d@.b - self@.b * d@.c,
                    h_raw_a(self@, cd) == self@.a * cd.a - self@.b * cd.b - self@.c * cd.c
                        - self@.d * cd.d,
                    h_raw_b(self@, cd) == self@.a * cd.b + self@.b * cd.a + self@.c * cd.d
                        - self@.d * cd.c,
                    h_raw_c(self@, cd) == self@.a * cd.c - self@.b * cd.d + self@.c * cd.a
                        + self@.d * cd.b,
                    h_raw_d(self@, cd) == self@.a * cd.d + self@.b * cd.c - self@.c * cd.b
                        + self@.d * cd.a,
                    cd.a == d@.a && cd.b == -d@.b && cd.c == -d@.c && cd.d == -d@.d,
            ;
        }
        let ta = half_i128(sa);
        let tb = half_i128(sb);
        let tc = half_i128(sc);
        let td = half_i128(sd);
        let n2: i128 = 2 * (n as i128);
        let ni: i128 = n as i128;
        let wa0 = crate::num_utils::round_div_i128(ta, n2);
        let wa1 = crate::num_utils::round_div_i128(tb, n2);
        let wa2 = crate::num_utils::round_div_i128(tc, n2);
        let wa3 = crate::num_utils::round_div_i128(td, n2);
        let wb0 = crate::num_utils::round_div_i128(ta - ni, n2);
        let wb1 = crate::num_utils::round_div_i128(tb - ni, n2);
        let wb2 = crate::num_utils::round_div_i128(tc - ni, n2);
        let wb3 = crate::num_utils::round_div_i128(td - ni, n2);
        proof {
            crate::num_utils::lemma_rnd_half_away_close(ta as int, n2 as int);
            crate::num_utils::lemma_rnd_half_away_close(tb as int, n2 as int);
            crate::num_utils::lemma_rnd_half_away_close(tc as int, n2 as int);
            crate::num_utils::lemma_rnd_half_away_close(td as int, n2 as int);
            crate::num_utils::lemma_rnd_half_away_close(ta - ni, n2 as int);
            crate::num_utils::lemma_rnd_half_away_close(tb - ni, n2 as int);
            crate::num_utils::lemma_rnd_half_away_close(tc - ni, n2 as int);
            crate::num_utils::lemma_rnd_half_away_close(td - ni, n2 as int);
        }
        let fa0: i128 = ta - n2 * wa0;
        let fa1: i128 = tb - n2 * wa1;
        let fa2: i128 = tc - n2 * wa2;
        let fa3: i128 = td - n2 * wa3;
        let fb0: i128 = (ta - ni) - n2 * wb0;
        let fb1: i128 = (tb - ni) - n2 * wb1;
        let fb2: i128 = (tc - ni) - n2 * wb2;
        let fb3: i128 = (td - ni) - n2 * wb3;
        let ssa: i128 = sq_bounded_i128(fa0, ni) + sq_bounded_i128(fa1, ni) + sq_bounded_i128(
            fa2,
            ni,
        ) + sq_bounded_i128(fa3, ni);
        let ssb: i128 = sq_bounded_i128(fb0, ni) + sq_bounded_i128(fb1, ni) + sq_bounded_i128(
            fb2,
            ni,
        ) + sq_bounded_i128(fb3, ni);
        let ghost qia = h_divq_int(self@, d@);
        let ghost qha = h_divq_half(self@, d@);
        proof {
            let t = h_mul(self@, h_conj(d@));
            let nn = h_norm2(d@);
            lemma_reassociate_double(nn, wa0 as int, wa1 as int, wa2 as int, wa3 as int);
            lemma_reassociate_double(nn, wb0 as int, wb1 as int, wb2 as int, wb3 as int);
            assert(fa0 == t.a - nn * qia.a && fa1 == t.b - nn * qia.b && fa2 == t.c - nn * qia.c
                && fa3 == t.d - nn * qia.d);
            assert(fb0 == t.a - nn * qha.a && fb1 == t.b - nn * qha.b && fb2 == t.c - nn * qha.c
                && fb3 == t.d - nn * qha.d) by (nonlinear_arith)
                requires
                    fb0 == (t.a - nn) - (2 * nn) * (wb0 as int),
                    fb1 == (t.b - nn) - (2 * nn) * (wb1 as int),
                    fb2 == (t.c - nn) - (2 * nn) * (wb2 as int),
                    fb3 == (t.d - nn) - (2 * nn) * (wb3 as int),
                    qha.a == 2 * (wb0 as int) + 1,
                    qha.b == 2 * (wb1 as int) + 1,
                    qha.c == 2 * (wb2 as int) + 1,
                    qha.d == 2 * (wb3 as int) + 1,
            ;
            assert(ssa == h_resid2(self@, d@, qia));
            assert(ssb == h_resid2(self@, d@, qha));
        }
        let (q0, q1, q2, q3) = if ssa <= ssb {
            (2 * wa0, 2 * wa1, 2 * wa2, 2 * wa3)
        } else {
            (2 * wb0 + 1, 2 * wb1 + 1, 2 * wb2 + 1, 2 * wb3 + 1)
        };
        proof {
            assert((QModel { a: q0 as int, b: q1 as int, c: q2 as int, d: q3 as int }) == h_divq(
                self@,
                d@,
            ));
        }
        if q0 < i32::MIN as i128 || q0 > i32::MAX as i128 || q1 < i32::MIN as i128 || q1
            > i32::MAX as i128 || q2 < i32::MIN as i128 || q2 > i32::MAX as i128 || q3
            < i32::MIN as i128 || q3 > i32::MAX as i128 {
            return Err(HIntError::Overflow);
        }
        let q = HInt { a: q0 as i32, b: q1 as i32, c: q2 as i32, d: q3 as i32 };
        proof {
            assert(q@ == h_divq(self@, d@));
        }
        let (pa, pb, pc, pd) = h_mul_wide(q, d);
        let ra = self.a as i128 - pa;
        let rb = self.b as i128 - pb;
        let rc = self.c as i128 - pc;
        let rd = self.d as i128 - pd;
        if ra <= i32::MIN as i128 || ra > i32::MAX as i128 || rb <= i32::MIN as i128 || rb
            > i32::MAX as i128 || rc <= i32::MIN as i128 || rc > i32::MAX as i128 || rd
            <= i32::MIN as i128 || rd > i32::MAX as i128 {
            return Err(HIntError::Overflow);
        }
        let r = HInt { a: ra as i32, b: rb as i32, c: rc as i32, d: rd as i32 };
        proof {
            assert(r@ == h_divr(self@, d@));
            if h_wf(self@) && h_wf(d@) {
                lemma_h_divrem_bound(self@, d@);
            }
        }
        Ok((q, r))
    }

    /// Exact division: the quotient when the remainder is zero.
    pub fn div_exact(self, d: HInt) -> (res: Result<HInt, HIntError>)
        ensures
            match res {
                Ok(q) => {
                    &&& q@ == h_divq(self@, d@)
                    &&& h_mul(q@, d@) == self@
                },
                Err(e) => {
                    &&& (e == HIntError::DivisionByZero <==> h_is_zero(d@))
                    &&& (e == HIntError::Overflow <==> !h_is_zero(d@) && !(h_fits(
                        h_divq(self@, d@),
                    ) && h_fits_sym(h_divr(self@, d@))))
                    &&& (e == HIntError::NotDivisible <==> !h_is_zero(d@) && h_fits(
                        h_divq(self@, d@),
                    ) && h_fits_sym(h_divr(self@, d@)) && !h_is_zero(h_divr(self@, d@)))
                },
            },
            res is Ok <==> !h_is_zero(d@) && h_fits(h_divq(self@, d@)) && h_fits_sym(
                h_divr(self@, d@),
            ) && h_is_zero(h_divr(self@, d@)),
    {
        let (q, r) = match self.div_rem(d) {
            Ok(p) => p,
            Err(e) => {
                return Err(e);
            },
        };
        if r.is_zero() {
            proof {
                assert(h_add(h_mul(q@, d@), r@) == h_mul(q@, d@));
            }
            Ok(q)
        } else {
            Err(HIntError::NotDivisible)
        }
    }

    /// Iterative Euclidean gcd.  The loop stops as soon as a remainder
    /// fails to shrink, so it terminates on every input.
    pub fn gcd(a: HInt, b: HInt) -> (res: Result<HInt, HIntError>)
        requires
            h_fits_sym(a@),
            h_fits_sym(b@),
        ensures
            match res {
                Ok(g) => g@ == h_normalize(h_gcd_loop(a@, b@)),
                Err(e) => e == HIntError::Overflow,
            },
            res is Ok <==> h_gcd_steps_fit(a@, b@),
    {
        let mut x = a;
        let mut y = b;
        while !y.is_zero()
            invariant
                h_fits_sym(x@),
                h_fits_sym(y@),
                h_gcd_loop(x@, y@) == h_gcd_loop(a@, b@),
                h_gcd_steps_fit(x@, y@) == h_gcd_steps_fit(a@, b@),
            decreases h_norm2(y@),
        {
            proof {
                lemma_h_norm2_nonneg(y@);
                lemma_h_norm2_nonneg(h_divr(x@, y@));
            }
            let (_q, r) = match x.div_rem(y) {
                Ok(p) => p,
                Err(_e) => {
                    return Err(HIntError::Overflow);
                },
            };
            if r.norm_squared() >= y.norm_squared() {
                return Ok(y.normalize());
            }
            x = y;
            y = r;
        }
        Ok(x.normalize())
    }

    /// Tests whether the two values multiply anticommutatively:
    /// `a*b == -(b*a)`.
    pub fn is_anticommutative_pair(a: HInt, b: HInt) -> (r: bool)
        ensures
            r == (h_mul(a@, b@) == h_neg(h_mul(b@, a@))),
    {
        let (p0, p1, p2, p3) = h_mul_wide(a, b);
        let (q0, q1, q2, q3) = h_mul_wide(b, a);
        p0 == -q0 && p1 == -q1 && p2 == -q2 && p3 == -q3
    }

    /// Tests whether the triple multiplies associatively:
    /// `(a*b)*c == a*(b*c)`.  Quaternion multiplication is associative, so
    /// this holds whenever the intermediate products are representable.
    pub fn is_associative_triple(a: HInt, b: HInt, c: HInt) -> (r: bool)
        requires
            h_fits(h_mul(a@, b@)),
            h_fits(h_mul(b@, c@)),
        ensures
            r == (h_mul(h_mul(a@, b@), c@) == h_mul(a@, h_mul(b@, c@))),
    {
        let ab = a * b;
        let bc = b * c;
        let (p0, p1, p2, p3) = h_mul_wide(ab, c);
        let (q0, q1, q2, q3) = h_mul_wide(a, bc);
        p0 == q0 && p1 == q1 && p2 == q2 && p3 == q3
    }
}

impl HInt {
    /// The value multiplied by each of the eight Lipschitz units
    /// 1, -1, i, -i, j, -j, k, -k.
    pub fn associates(self) -> (r: [HInt; 8])
        requires
            h_fits_sym(self@),
        ensures
            r[0]@ == self@,
            r[1]@ == h_neg(self@),
            r[2]@ == (QModel { a: -self@.b, b: self@.a, c: self@.d, d: -self@.c }),
            r[3]@ == (QModel { a: self@.b, b: -self@.a, c: -self@.d, d: self@.c }),
            r[4]@ == (QModel { a: -self@.c, b: -self@.d, c: self@.a, d: self@.b }),
            r[5]@ == (QModel { a: self@.c, b: self@.d, c: -self@.a, d: -self@.b }),
            r[6]@ == (QModel { a: -self@.d, b: self@.c, c: -self@.b, d: self@.a }),
            r[7]@ == (QModel { a: self@.d, b: -self@.c, c: self@.b, d: -self@.a }),
            forall|k: int| 0 <= k < 8 ==> h_norm2(#[trigger] r[k]@) == h_norm2(self@),
    {
        let r = [
            self,
            HInt { a: -self.a, b: -self.b, c: -self.c, d: -self.d },
            HInt { a: -self.b, b: self.a, c: self.d, d: -self.c },
            HInt { a: self.b, b: -self.a, c: -self.d, d: self.c },
            HInt { a: -self.c, b: -self.d, c: self.a, d: self.b },
            HInt { a: self.c, b: self.d, c: -self.a, d: -self.b },
            HInt { a: -self.d, b: self.c, c: -self.b, d: self.a },
            HInt { a: self.d, b: -self.c, c: self.b, d: -self.a },
        ];
        proof {
            let sa = self@.a;
            let sb = self@.b;
            let sc = self@.c;
            let sd = self@.d;
            assert((-sa) * (-sa) + (-sb) * (-sb) + (-sc) * (-sc) + (-sd) * (-sd) == sa * sa + sb
                * sb + sc * sc + sd * sd) by (nonlinear_arith);
            assert((-sb) * (-sb) + sa * sa + sd * sd + (-sc) * (-sc) == sa * sa + sb * sb + sc
                * sc + sd * sd) by (nonlinear_arith);
            assert(sb * sb + (-sa) * (-sa) + (-sd) * (-sd) + sc * sc == sa * sa + sb * sb + sc
                * sc + sd * sd) by (nonlinear_arith);
            assert((-sc) * (-sc) + (-sd) * (-sd) + sa * sa + sb * sb == sa * sa + sb * sb + sc
                * sc + sd * sd) by (nonlinear_arith);
            assert(sc * sc + sd * sd + (-sa) * (-sa) + (-sb) * (-sb) == sa * sa + sb * sb + sc
                * sc + sd * sd) by (nonlinear_arith);
            assert((-sd) * (-sd) + sc * sc + (-sb) * (-sb) + sa * sa == sa * sa + sb * sb + sc
                * sc + sd * sd) by (nonlinear_arith);
            assert(sd * sd + (-sc) * (-sc) + sb * sb + (-sa) * (-sa) == sa * sa + sb * sb + sc
                * sc + sd * sd) by (nonlinear_arith);
            assert forall|k: int| 0 <= k < 8 implies h_norm2(#[trigger] r[k]@) == h_norm2(
                self@,
            ) by {
                assert(h_norm2_raw(r[k]@) == h_norm2_raw(self@));
            }
        }
        r
    }

    /// Inverse of a unit: its conjugate.  `NoInverse` on any non-unit.
    pub fn inv_unit(self) -> (res: Result<HInt, HIntError>)
        ensures
            res is Ok <==> h_is_unit(self@),
            match res {
                Ok(u) => u@ == h_conj(self@),
                Err(e) => e == HIntError::NoInverse,
            },
    {
        if !self.is_unit() {
            return Err(HIntError::NoInverse);
        }
        proof {
            lemma_h_unit_bounds(self@);
        }
        Ok(self.conj())
    }

    /// The quotient `self / d` as an exact fraction: numerator
    /// `self * conj(d)` over denominator `norm2(d)`.
    pub fn div_to_fraction(self, d: HInt) -> (res: Result<HIFraction, HIntError>)
        ensures
            match res {
                Ok(f) => {
                    &&& f.num@ == h_mul(self@, h_conj(d@))
                    &&& f.den == h_norm2(d@)
                },
                Err(e) => {
                    &&& (e == HIntError::DivisionByZero <==> h_is_zero(d@))
                    &&& (e == HIntError::Overflow <==> !h_is_zero(d@) && !h_fits(
                        h_mul(self@, h_conj(d@)),
                    ))
                },
            },
            res is Ok <==> !h_is_zero(d@) && h_fits(h_mul(self@, h_conj(d@))),
    {
        if d.is_zero() {
            return Err(HIntError::DivisionByZero);
        }
        let (ta, tb, tc, td) = h_mul_conj_wide(self, d);
        if ta < i32::MIN as i128 || ta > i32::MAX as i128 || tb < i32::MIN as i128 || tb
            > i32::MAX as i128 || tc < i32::MIN as i128 || tc > i32::MAX as i128 || td
            < i32::MIN as i128 || td > i32::MAX as i128 {
            return Err(HIntError::Overflow);
        }
        Ok(
            HIFraction {
                num: HInt { a: ta as i32, b: tb as i32, c: tc as i32, d: td as i32 },
                den: d.norm_squared(),
            },
        )
    }

    /// The multiplicative inverse as a fraction: `conj(self) / norm2(self)`.
    pub fn inv_fraction(self) -> (res: Result<HIFraction, HIntError>)
        requires
            self.b > i32::MIN,
            self.c > i32::MIN,
            self.d > i32::MIN,
        ensures
            match res {
                Ok(f) => {
                    &&& f.num@ == h_conj(self@)
                    &&& f.den == h_norm2(self@)
                },
                Err(e) => e == HIntError::NoInverse,
            },
            res is Ok <==> !h_is_zero(self@),
    {
        if self.is_zero() {
            return Err(HIntError::NoInverse);
        }
        Ok(HIFraction { num: self.conj(), den: self.norm_squared() })
    }

    /// Divides the numerator components and the denominator by their
    /// common gcd; the new denominator divides the old one.
    pub fn reduce_fraction(frac: HIFraction) -> (r: HIFraction)
        requires
            frac.den > 0,
            frac.num.a > i32::MIN,
            frac.num.b > i32::MIN,
            frac.num.c > i32::MIN,
            frac.num.d > i32::MIN,
        ensures
            ({
                let g = hfrac_gcd(frac);
                &&& r.den > 0
                &&& r.num@.a * g == frac.num@.a
                &&& r.num@.b * g == frac.num@.b
                &&& r.num@.c * g == frac.num@.c
                &&& r.num@.d * g == frac.num@.d
                &&& r.den as int * g == frac.den as int
                &&& crate::num_utils::divides(r.den as nat, frac.den as nat)
            }),
    {
        let aa: u64 = (if frac.num.a >= 0 {
            frac.num.a
        } else {
            -frac.num.a
        }) as u64;
        let bb: u64 = (if frac.num.b >= 0 {
            frac.num.b
        } else {
            -frac.num.b
        }) as u64;
        let cc: u64 = (if frac.num.c >= 0 {
            frac.num.c
        } else {
            -frac.num.c
        }) as u64;
        let dd: u64 = (if frac.num.d >= 0 {
            frac.num.d
        } else {
            -frac.num.d
        }) as u64;
        let g1 = crate::num_utils::integer_gcd(aa, bb);
        let g2 = crate::num_utils::integer_gcd(g1, cc);
        let g3 = crate::num_utils::integer_gcd(g2, dd);
        let g = crate::num_utils::integer_gcd(g3, frac.den);
        proof {
            if g == 0 {
                crate::num_utils::lemma_gcd_zero_args(g3 as nat, frac.den as nat);
            }
            crate::num_utils::lemma_gcd_divides_both(g3 as nat, frac.den as nat);
            crate::num_utils::lemma_gcd_divides_both(g2 as nat, dd as nat);
            crate::num_utils::lemma_gcd_divides_both(g1 as nat, cc as nat);
            crate::num_utils::lemma_gcd_divides_both(aa as nat, bb as nat);
            crate::num_utils::lemma_divides_trans(g as nat, g3 as nat, g2 as nat);
            crate::num_utils::lemma_divides_trans(g as nat, g2 as nat, g1 as nat);
            crate::num_utils::lemma_divides_trans(g as nat, g1 as nat, aa as nat);
            crate::num_utils::lemma_divides_trans(g as nat, g1 as nat, bb as nat);
            crate::num_utils::lemma_divides_trans(g as nat, g2 as nat, cc as nat);
            crate::num_utils::lemma_divides_trans(g as nat, g3 as nat, dd as nat);
        }
        if g <= 1 {
            proof {
                assert(hfrac_ok(frac, frac)) by (nonlinear_arith)
                    requires
                        hfrac_gcd(frac) == 1,
                        hfrac_ok_shape(frac, frac),
                ;
            }
            return frac;
        }
        let ea = crate::num_utils::exact_div_u64(aa, g);
        let eb = crate::num_utils::exact_div_u64(bb, g);
        let ec = crate::num_utils::exact_div_u64(cc, g);
        let ed = crate::num_utils::exact_div_u64(dd, g);
        let ee = crate::num_utils::exact_div_u64(frac.den, g);
        proof {
            assert(ea <= aa && eb <= bb && ec <= cc && ed <= dd && ee <= frac.den && ee > 0)
                by (nonlinear_arith)
                requires
                    ea * g == aa && eb * g == bb && ec * g == cc && ed * g == dd && ee * g
                        == frac.den,
                    g > 1,
                    frac.den > 0,
            ;
        }
        let out = HIFraction {
            num: HInt {
                a: if frac.num.a >= 0 {
                    ea as i32
                } else {
                    -(ea as i32)
                },
                b: if frac.num.b >= 0 {
                    eb as i32
                } else {
                    -(eb as i32)
                },
                c: if frac.num.c >= 0 {
                    ec as i32
                } else {
                    -(ec as i32)
                },
                d: if frac.num.d >= 0 {
                    ed as i32
                } else {
                    -(ed as i32)
                },
            },
            den: ee,
        };
        proof {
            assert(out.num@.a * hfrac_gcd(frac) == frac.num@.a && out.num@.b * hfrac_gcd(frac)
                == frac.num@.b && out.num@.c * hfrac_gcd(frac) == frac.num@.c && out.num@.d
                * hfrac_gcd(frac) == frac.num@.d) by (nonlinear_arith)
                requires
                    ea * hfrac_gcd(frac) == aa && eb * hfrac_gcd(frac) == bb && ec * hfrac_gcd(
                        frac,
                    ) == cc && ed * hfrac_gcd(frac) == dd,
                    aa == crate::num_utils::nat_abs(frac.num@.a),
                    bb == crate::num_utils::nat_abs(frac.num@.b),
                    cc == crate::num_utils::nat_abs(frac.num@.c),
                    dd == crate::num_utils::nat_abs(frac.num@.d),
                    out.num@.a == (if frac.num@.a >= 0 { ea as int } else { -(ea as int) }),
                    out.num@.b == (if frac.num@.b >= 0 { eb as int } else { -(eb as int) }),
                    out.num@.c == (if frac.num@.c >= 0 { ec as int } else { -(ec as int) }),
                    out.num@.d == (if frac.num@.d >= 0 { ed as int } else { -(ed as int) }),
            ;
        }
        out
    }
}

/// The common gcd of the four numerator magnitudes and the denominator,
/// folded left as the executable code computes it.
pub open spec fn hfrac_gcd(frac: HIFraction) -> nat {
    crate::num_utils::spec_gcd(
        crate::num_utils::spec_gcd(
            crate::num_utils::spec_gcd(
                crate::num_utils::spec_gcd(
                    crate::num_utils::nat_abs(frac.num@.a),
                    crate::num_utils::nat_abs(frac.num@.b),
                ),
                crate::num_utils::nat_abs(frac.num@.c),
            ),
            crate::num_utils::nat_abs(frac.num@.d),
        ),
        frac.den as nat,
    )
}

/// The exact-division shape of a reduced fraction.
pub open spec fn hfrac_ok_shape(r: HIFraction, frac: HIFraction) -> bool {
    r.num@.a * hfrac_gcd(frac) == frac.num@.a * 1 && r.num@.b * hfrac_gcd(frac) == frac.num@.b * 1
        && r.num@.c * hfrac_gcd(frac) == frac.num@.c * 1 && r.num@.d * hfrac_gcd(frac)
        == frac.num@.d * 1 && r.den as int * hfrac_gcd(frac) == frac.den as int * 1
}

/// The exact-division claims of the reduction.
pub open spec fn hfrac_ok(r: HIFraction, frac: HIFraction) -> bool {
    r.num@.a * hfrac_gcd(frac) == frac.num@.a && r.num@.b * hfrac_gcd(frac) == frac.num@.b
        && r.num@.c * hfrac_gcd(frac) == frac.num@.c && r.num@.d * hfrac_gcd(frac)
        == frac.num@.d && r.den as int * hfrac_gcd(frac) == frac.den as int
}

/// The stored components of `x * conj(d)` in 128-bit arithmetic.
fn h_mul_conj_wide(x: HInt, d: HInt) -> (t: (i128, i128, i128, i128))
    ensures
        t.0 == h_mul(x@, h_conj(d@)).a,
        t.1 == h_mul(x@, h_conj(d@)).b,
        t.2 == h_mul(x@, h_conj(d@)).c,
        t.3 == h_mul(x@, h_conj(d@)).d,
{
    let w = crate::cint::wide_mul_128;
    let sa = w(x.a as i128, d.a as i128) + w(x.b as i128, d.b as i128) + w(
        x.c as i128,
        d.c as i128,
    ) + w(x.d as i128, d.d as i128);
    let sb = w(x.b as i128, d.a as i128) - w(x.a as i128, d.b as i128) + w(
        x.d as i128,
        d.c as i128,
    ) - w(x.c as i128, d.d as i128);
    let sc = w(x.c as i128, d.a as i128) - w(x.a as i128, d.c as i128) + w(
        x.b as i128,
        d.d as i128,
    ) - w(x.d as i128, d.b as i128);
    let sd = w(x.d as i128, d.a as i128) - w(x.a as i128, d.d as i128) + w(
        x.c as i128,
        d.b as i128,
    ) - w(x.b as i128, d.c as i128);
    proof {
        let cd = h_conj(d@);
        assert(sa == h_raw_a(x@, cd) && sb == h_raw_b(x@, cd) && sc == h_raw_c(x@, cd) && sd
            == h_raw_d(x@, cd)) by (nonlinear_arith)
            requires
                cd == h_conj(d@),
                sa == x@.a * d@.a + x@.b * d@.b + x@.c * d@.c + x@.d * d@.d,
                sb == x@.b * d@.a - x@.a * d@.b + x@.d * d@.c - x@.c * d@.d,
                sc == x@.c * d@.a - x@.a * d@.c + x@.b * d@.d - x@.d * d@.b,
                sd == x@.d * d@.a - x@.a * d@.d + x@.c * d@.b - x@.b * d@.c,
                h_raw_a(x@, cd) == x@.a * cd.a - x@.b * cd.b - x@.c * cd.c - x@.d * cd.d,
                h_raw_b(x@, cd) == x@.a * cd.b + x@.b * cd.a + x@.c * cd.d - x@.d * cd.c,
                h_raw_c(x@, cd) == x@.a * cd.c - x@.b * cd.d + x@.c * cd.a + x@.d * cd.b,
                h_raw_d(x@, cd) == x@.a * cd.d + x@.b * cd.c - x@.c * cd.b + x@.d * cd.a,
                cd.a == d@.a && cd.b == -d@.b && cd.c == -d@.c && cd.d == -d@.d,
        ;
    }
    (half_i128(sa), half_i128(sb), half_i128(sc), half_i128(sd))
}

/// A unit's stored components are bounded by two, so its conjugate is
/// representable.
proof fn lemma_h_unit_bounds(x: QModel)
    requires
        h_is_unit(x),
    ensures
        -3 <= x.a <= 3 && -3 <= x.b <= 3 && -3 <= x.c <= 3 && -3 <= x.d <= 3,
{
    lemma_h_norm2_raw_zero(x);
    vstd::arithmetic::div_mod::lemma_fundamental_div_mod(h_norm2_raw(x), 4);
    vstd::arithmetic::div_mod::lemma_mod_division_less_than_divisor(h_norm2_raw(x), 4);
    assert(h_norm2_raw(x) < 8);
    assert(-3 <= x.a <= 3 && -3 <= x.b <= 3 && -3 <= x.c <= 3 && -3 <= x.d <= 3)
        by (nonlinear_arith)
        requires
            h_norm2_raw(x) == x.a * x.a + x.b * x.b + x.c * x.c + x.d * x.d,
            h_norm2_raw(x) < 8,
    ;
}

/// Twice any 32-bit value is even.
proof fn lemma_double_even(v: int)
    ensures
        (2 * v) % 2 == 0,
{
    vstd::arithmetic::div_mod::lemma_fundamental_div_mod_converse(2 * v, 2, v, 0);
}

/// The executable parity test agrees with the mathematical one.
proof fn lemma_exec_parity(v: int)
    ensures
        v % 2 == 0 || v % 2 == 1,
{
    vstd::arithmetic::div_mod::lemma_mod_division_less_than_divisor(v, 2);
}

impl HInt {
    /// Raw squared norm in 128 bits.
    fn norm_raw_u128(self) -> (s: u128)
        ensures
            s == h_norm2_raw(self@),
            s <= 0x1_0000_0000_0000_0000,
    {
        let a2 = crate::cint::wide_mul_128(self.a as i128, self.a as i128);
        let b2 = crate::cint::wide_mul_128(self.b as i128, self.b as i128);
        let c2 = crate::cint::wide_mul_128(self.c as i128, self.c as i128);
        let d2 = crate::cint::wide_mul_128(self.d as i128, self.d as i128);
        proof {
            assert(a2 >= 0 && b2 >= 0 && c2 >= 0 && d2 >= 0 && a2 <= 0x4000_0000_0000_0000 && b2
                <= 0x4000_0000_0000_0000 && c2 <= 0x4000_0000_0000_0000 && d2
                <= 0x4000_0000_0000_0000) by (nonlinear_arith)
                requires
                    a2 == self.a as int * self.a as int,
                    b2 == self.b as int * self.b as int,
                    c2 == self.c as int * self.c as int,
                    d2 == self.d as int * self.d as int,
                    -0x8000_0000 <= self.a as int <= 0x7fff_ffff,
                    -0x8000_0000 <= self.b as int <= 0x7fff_ffff,
                    -0x8000_0000 <= self.c as int <= 0x7fff_ffff,
                    -0x8000_0000 <= self.d as int <= 0x7fff_ffff,
            ;
        }
        (a2 + b2 + c2 + d2) as u128
    }
}

} // verus!
