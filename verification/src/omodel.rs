//! Mathematical model of the rank-8 algebra: integer octonions under the
//! cyclic Fano-plane product with lines (1,2,4), (2,3,5), (3,4,6), (4,5,7),
//! (5,6,1), (6,7,2), (7,1,3), oriented so that the product of the first two
//! elements of a line is the third.  Components store twice the represented
//! coordinate, as in the rank-4 algebra.
use vstd::prelude::*;

verus! {

/// `a + b*e1 + c*e2 + d*e3 + e*e4 + f*e5 + g*e6 + h*e7`, stored doubled.
pub struct OModel {
    pub a: int,
    pub b: int,
    pub c: int,
    pub d: int,
    pub e: int,
    pub f: int,
    pub g: int,
    pub h: int,
}

pub open spec fn o_zero() -> OModel {
    OModel { a: 0, b: 0, c: 0, d: 0, e: 0, f: 0, g: 0, h: 0 }
}

/// All components even or all odd.
pub open spec fn o_wf(x: OModel) -> bool {
    (x.a % 2 == 0 && x.b % 2 == 0 && x.c % 2 == 0 && x.d % 2 == 0 && x.e % 2 == 0 && x.f % 2 == 0
        && x.g % 2 == 0 && x.h % 2 == 0) || (x.a % 2 == 1 && x.b % 2 == 1 && x.c % 2 == 1 && x.d
        % 2 == 1 && x.e % 2 == 1 && x.f % 2 == 1 && x.g % 2 == 1 && x.h % 2 == 1)
}

pub open spec fn o_add(x: OModel, y: OModel) -> OModel {
    OModel {
        a: x.a + y.a,
        b: x.b + y.b,
        c: x.c + y.c,
        d: x.d + y.d,
        e: x.e + y.e,
        f: x.f + y.f,
        g: x.g + y.g,
        h: x.h + y.h,
    }
}

pub open spec fn o_sub(x: OModel, y: OModel) -> OModel {
    OModel {
        a: x.a - y.a,
        b: x.b - y.b,
        c: x.c - y.c,
        d: x.d - y.d,
        e: x.e - y.e,
        f: x.f - y.f,
        g: x.g - y.g,
        h: x.h - y.h,
    }
}

pub open spec fn o_neg(x: OModel) -> OModel {
    OModel { a: -x.a, b: -x.b, c: -x.c, d: -x.d, e: -x.e, f: -x.f, g: -x.g, h: -x.h }
}

pub open spec fn o_conj(x: OModel) -> OModel {
    OModel { a: x.a, b: -x.b, c: -x.c, d: -x.d, e: -x.e, f: -x.f, g: -x.g, h: -x.h }
}

/// The eight octonion bilinear forms on the stored components: twice the
/// stored components of the product.
pub open spec fn o_raw_0(x: OModel, y: OModel) -> int {
    x.a * y.a - x.b * y.b - x.c * y.c - x.d * y.d - x.e * y.e - x.f * y.f - x.g * y.g - x.h * y.h
}

pub open spec fn o_raw_1(x: OModel, y: OModel) -> int {
    x.a * y.b + x.b * y.a + x.c * y.e - x.e * y.c + x.f * y.g - x.g * y.f + x.d * y.h - x.h * y.d
}

pub open spec fn o_raw_2(x: OModel, y: OModel) -> int {
    x.a * y.c + x.c * y.a + x.e * y.b - x.b * y.e + x.d * y.f - x.f * y.d + x.g * y.h - x.h * y.g
}

pub open spec fn o_raw_3(x: OModel, y: OModel) -> int {
    x.a * y.d + x.d * y.a + x.f * y.c - x.c * y.f + x.e * y.g - x.g * y.e + x.h * y.b - x.b * y.h
}

pub open spec fn o_raw_4(x: OModel, y: OModel) -> int {
    x.a * y.e + x.e * y.a + x.b * y.c - x.c * y.b + x.g * y.d - x.d * y.g + x.f * y.h - x.h * y.f
}

pub open spec fn o_raw_5(x: OModel, y: OModel) -> int {
    x.a * y.f + x.f * y.a + x.c * y.d - x.d * y.c + x.h * y.e - x.e * y.h + x.g * y.b - x.b * y.g
}

pub open spec fn o_raw_6(x: OModel, y: OModel) -> int {
    x.a * y.g + x.g * y.a + x.d * y.e - x.e * y.d + x.b * y.f - x.f * y.b + x.h * y.c - x.c * y.h
}

pub open spec fn o_raw_7(x: OModel, y: OModel) -> int {
    x.a * y.h + x.h * y.a + x.e * y.f - x.f * y.e + x.c * y.g - x.g * y.c + x.b * y.d - x.d * y.b
}

/// The octonion product in stored form: each raw form halved (the halving
/// is exact on well-formed operands).
pub open spec fn o_mul(x: OModel, y: OModel) -> OModel {
    OModel {
        a: o_raw_0(x, y) / 2,
        b: o_raw_1(x, y) / 2,
        c: o_raw_2(x, y) / 2,
        d: o_raw_3(x, y) / 2,
        e: o_raw_4(x, y) / 2,
        f: o_raw_5(x, y) / 2,
        g: o_raw_6(x, y) / 2,
        h: o_raw_7(x, y) / 2,
    }
}

/// Sum of the squared stored components: four times the squared norm.
pub open spec fn o_norm2_raw(x: OModel) -> int {
    x.a * x.a + x.b * x.b + x.c * x.c + x.d * x.d + x.e * x.e + x.f * x.f + x.g * x.g + x.h * x.h
}

/// The squared norm of the represented value.
pub open spec fn o_norm2(x: OModel) -> int {
    o_norm2_raw(x) / 4
}

pub open spec fn o_is_zero(x: OModel) -> bool {
    x.a == 0 && x.b == 0 && x.c == 0 && x.d == 0 && x.e == 0 && x.f == 0 && x.g == 0 && x.h == 0
}

pub open spec fn o_is_unit(x: OModel) -> bool {
    o_norm2(x) == 1
}

/// Sign of the basis product `e_i * e_j` under the cyclic Fano table.
pub open spec fn otab_sign(i: int, j: int) -> int {
    if i == 0 || j == 0 {
        1
    } else if i == j {
        -1
    } else if (i == 1 && j == 2) || (i == 2 && j == 4) || (i == 4 && j == 1) || (i == 2 && j == 3)
        || (i == 3 && j == 5) || (i == 5 && j == 2) || (i == 3 && j == 4) || (i == 4 && j == 6)
        || (i == 6 && j == 3) || (i == 4 && j == 5) || (i == 5 && j == 7) || (i == 7 && j == 4)
        || (i == 5 && j == 6) || (i == 6 && j == 1) || (i == 1 && j == 5) || (i == 6 && j == 7)
        || (i == 7 && j == 2) || (i == 2 && j == 6) || (i == 7 && j == 1) || (i == 1 && j == 3)
        || (i == 3 && j == 7) {
        1
    } else {
        -1
    }
}

/// Target index of the basis product `e_i * e_j` under the cyclic Fano
/// table.
pub open spec fn otab_tgt(i: int, j: int) -> int {
    if i == 0 {
        j
    } else if j == 0 {
        i
    } else if i == j {
        0
    } else if (i == 1 && j == 2) || (i == 2 && j == 1) {
        4
    } else if (i == 2 && j == 4) || (i == 4 && j == 2) {
        1
    } else if (i == 4 && j == 1) || (i == 1 && j == 4) {
        2
    } else if (i == 2 && j == 3) || (i == 3 && j == 2) {
        5
    } else if (i == 3 && j == 5) || (i == 5 && j == 3) {
        2
    } else if (i == 5 && j == 2) || (i == 2 && j == 5) {
        3
    } else if (i == 3 && j == 4) || (i == 4 && j == 3) {
        6
    } else if (i == 4 && j == 6) || (i == 6 && j == 4) {
        3
    } else if (i == 6 && j == 3) || (i == 3 && j == 6) {
        4
    } else if (i == 4 && j == 5) || (i == 5 && j == 4) {
        7
    } else if (i == 5 && j == 7) || (i == 7 && j == 5) {
        4
    } else if (i == 7 && j == 4) || (i == 4 && j == 7) {
        5
    } else if (i == 5 && j == 6) || (i == 6 && j == 5) {
        1
    } else if (i == 6 && j == 1) || (i == 1 && j == 6) {
        5
    } else if (i == 1 && j == 5) || (i == 5 && j == 1) {
        6
    } else if (i == 6 && j == 7) || (i == 7 && j == 6) {
        2
    } else if (i == 7 && j == 2) || (i == 2 && j == 7) {
        6
    } else if (i == 2 && j == 6) || (i == 6 && j == 2) {
        7
    } else if (i == 7 && j == 1) || (i == 1 && j == 7) {
        3
    } else if (i == 1 && j == 3) || (i == 3 && j == 1) {
        7
    } else if (i == 3 && j == 7) || (i == 7 && j == 3) {
        1
    } else {
        0
    }
}

/// The conjugate is an involution.
pub proof fn lemma_o_conj_involution(x: OModel)
    ensures
        o_conj(o_conj(x)) == x,
{
}

/// The conjugate is additive.
pub proof fn lemma_o_conj_additive(x: OModel, y: OModel)
    ensures
        o_conj(o_add(x, y)) == o_add(o_conj(x), o_conj(y)),
{
}

/// The conjugate preserves the squared norm.
pub proof fn lemma_o_conj_norm2(x: OModel)
    ensures
        o_norm2(o_conj(x)) == o_norm2(x),
{
    assert((-x.b) * (-x.b) == x.b * x.b && (-x.c) * (-x.c) == x.c * x.c && (-x.d) * (-x.d) == x.d
        * x.d && (-x.e) * (-x.e) == x.e * x.e && (-x.f) * (-x.f) == x.f * x.f && (-x.g) * (-x.g)
        == x.g * x.g && (-x.h) * (-x.h) == x.h * x.h) by (nonlinear_arith);
}

/// Negation preserves the squared norm.
pub proof fn lemma_o_neg_norm2(x: OModel)
    ensures
        o_norm2(o_neg(x)) == o_norm2(x),
{
    assert((-x.a) * (-x.a) == x.a * x.a && (-x.b) * (-x.b) == x.b * x.b && (-x.c) * (-x.c) == x.c
        * x.c && (-x.d) * (-x.d) == x.d * x.d && (-x.e) * (-x.e) == x.e * x.e && (-x.f) * (-x.f)
        == x.f * x.f && (-x.g) * (-x.g) == x.g * x.g && (-x.h) * (-x.h) == x.h * x.h)
        by (nonlinear_arith);
}

/// The raw norm form is nonnegative, and zero only on zero.
pub proof fn lemma_o_norm2_raw_zero(x: OModel)
    ensures
        o_norm2_raw(x) >= 0,
        o_norm2_raw(x) == 0 <==> o_is_zero(x),
{
    assert(x.a * x.a >= 0 && x.b * x.b >= 0 && x.c * x.c >= 0 && x.d * x.d >= 0 && x.e * x.e >= 0
        && x.f * x.f >= 0 && x.g * x.g >= 0 && x.h * x.h >= 0 && (x.a != 0 ==> x.a * x.a > 0) && (
    x.b != 0 ==> x.b * x.b > 0) && (x.c != 0 ==> x.c * x.c > 0) && (x.d != 0 ==> x.d * x.d > 0)
        && (x.e != 0 ==> x.e * x.e > 0) && (x.f != 0 ==> x.f * x.f > 0) && (x.g != 0 ==> x.g * x.g
        > 0) && (x.h != 0 ==> x.h * x.h > 0)) by (nonlinear_arith);
}

/// The squared norm is nonnegative.
pub proof fn lemma_o_norm2_nonneg(x: OModel)
    ensures
        o_norm2(x) >= 0,
{
    lemma_o_norm2_raw_zero(x);
    assert(o_norm2_raw(x) / 4 >= 0) by {
        vstd::arithmetic::div_mod::lemma_div_is_ordered(0, o_norm2_raw(x), 4);
    }
}

/// Canonical associate for rank 8: flip the sign when the scalar part is
/// negative.
pub open spec fn o_normalize(x: OModel) -> OModel {
    if o_is_zero(x) {
        x
    } else if x.a > 0 {
        x
    } else if -x.a > 0 {
        o_neg(x)
    } else {
        x
    }
}

/// Normalization is idempotent.
pub proof fn lemma_o_normalize_idempotent(x: OModel)
    ensures
        o_normalize(o_normalize(x)) == o_normalize(x),
{
}

/// Normalization preserves the squared norm.
pub proof fn lemma_o_normalize_norm2(x: OModel)
    ensures
        o_norm2(o_normalize(x)) == o_norm2(x),
{
    lemma_o_neg_norm2(x);
}



/// Degen's eight-square identity on plain integers, proved by doubling:
/// the octonion bilinear forms split into two quaternion pairs, and the
/// cross terms cancel by the inner-product exchange identity.
#[verifier::rlimit(100)]
proof fn lemma_degen_raw(
    x0: int, x1: int, x2: int, x3: int, x4: int, x5: int, x6: int, x7: int,
    y0: int, y1: int, y2: int, y3: int, y4: int, y5: int, y6: int, y7: int,
)
    ensures
        ({
            let z0 = x0 * y0 - x1 * y1 - x2 * y2 - x3 * y3 - x4 * y4 - x5 * y5 - x6 * y6 - x7
                * y7;
            let z1 = x0 * y1 + x1 * y0 + x2 * y4 - x4 * y2 + x5 * y6 - x6 * y5 + x3 * y7 - x7
                * y3;
            let z2 = x0 * y2 + x2 * y0 + x4 * y1 - x1 * y4 + x3 * y5 - x5 * y3 + x6 * y7 - x7
                * y6;
            let z3 = x0 * y3 + x3 * y0 + x5 * y2 - x2 * y5 + x4 * y6 - x6 * y4 + x7 * y1 - x1
                * y7;
            let z4 = x0 * y4 + x4 * y0 + x1 * y2 - x2 * y1 + x6 * y3 - x3 * y6 + x5 * y7 - x7
                * y5;
            let z5 = x0 * y5 + x5 * y0 + x2 * y3 - x3 * y2 + x7 * y4 - x4 * y7 + x6 * y1 - x1
                * y6;
            let z6 = x0 * y6 + x6 * y0 + x3 * y4 - x4 * y3 + x1 * y5 - x5 * y1 + x7 * y2 - x2
                * y7;
            let z7 = x0 * y7 + x7 * y0 + x4 * y5 - x5 * y4 + x2 * y6 - x6 * y2 + x1 * y3 - x3
                * y1;
            z0 * z0 + z1 * z1 + z2 * z2 + z3 * z3 + z4 * z4 + z5 * z5 + z6 * z6 + z7 * z7 == (x0
                * x0 + x1 * x1 + x2 * x2 + x3 * x3 + x4 * x4 + x5 * x5 + x6 * x6 + x7 * x7) * (y0
                * y0 + y1 * y1 + y2 * y2 + y3 * y3 + y4 * y4 + y5 * y5 + y6 * y6 + y7 * y7)
        }),
{
    // The two quaternion halves of each operand.
    let p0 = x0;
    let p1 = x1;
    let p2 = x2;
    let p3 = x4;
    let q0 = x3;
    let q1 = x7;
    let q2 = x5;
    let q3 = -x6;
    let r0 = y0;
    let r1 = y1;
    let r2 = y2;
    let r3 = y4;
    let s0 = y3;
    let s1 = y7;
    let s2 = y5;
    let s3 = -y6;

    // The Hamilton forms entering the doubled product.
    let pr0 = p0 * r0 - p1 * r1 - p2 * r2 - p3 * r3;
    let pr1 = p0 * r1 + p1 * r0 + p2 * r3 - p3 * r2;
    let pr2 = p0 * r2 - p1 * r3 + p2 * r0 + p3 * r1;
    let pr3 = p0 * r3 + p1 * r2 - p2 * r1 + p3 * r0;
    let cq0 = s0 * q0 + s1 * q1 + s2 * q2 + s3 * q3;
    let cq1 = s0 * q1 - s1 * q0 - s2 * q3 + s3 * q2;
    let cq2 = s0 * q2 + s1 * q3 - s2 * q0 - s3 * q1;
    let cq3 = s0 * q3 - s1 * q2 + s2 * q1 - s3 * q0;
    let sp0 = s0 * p0 - s1 * p1 - s2 * p2 - s3 * p3;
    let sp1 = s0 * p1 + s1 * p0 + s2 * p3 - s3 * p2;
    let sp2 = s0 * p2 - s1 * p3 + s2 * p0 + s3 * p1;
    let sp3 = s0 * p3 + s1 * p2 - s2 * p1 + s3 * p0;
    let qr0 = q0 * r0 + q1 * r1 + q2 * r2 + q3 * r3;
    let qr1 = q1 * r0 - q0 * r1 + q3 * r2 - q2 * r3;
    let qr2 = q2 * r0 - q0 * r2 + q1 * r3 - q3 * r1;
    let qr3 = q3 * r0 - q0 * r3 + q2 * r1 - q1 * r2;
    let u0 = pr0 - cq0;
    let u1 = pr1 - cq1;
    let u2 = pr2 - cq2;
    let u3 = pr3 - cq3;
    let v0 = sp0 + qr0;
    let v1 = sp1 + qr1;
    let v2 = sp2 + qr2;
    let v3 = sp3 + qr3;

    let z0 = x0 * y0 - x1 * y1 - x2 * y2 - x3 * y3 - x4 * y4 - x5 * y5 - x6 * y6 - x7 * y7;
    let z1 = x0 * y1 + x1 * y0 + x2 * y4 - x4 * y2 + x5 * y6 - x6 * y5 + x3 * y7 - x7 * y3;
    let z2 = x0 * y2 + x2 * y0 + x4 * y1 - x1 * y4 + x3 * y5 - x5 * y3 + x6 * y7 - x7 * y6;
    let z3 = x0 * y3 + x3 * y0 + x5 * y2 - x2 * y5 + x4 * y6 - x6 * y4 + x7 * y1 - x1 * y7;
    let z4 = x0 * y4 + x4 * y0 + x1 * y2 - x2 * y1 + x6 * y3 - x3 * y6 + x5 * y7 - x7 * y5;
    let z5 = x0 * y5 + x5 * y0 + x2 * y3 - x3 * y2 + x7 * y4 - x4 * y7 + x6 * y1 - x1 * y6;
    let z6 = x0 * y6 + x6 * y0 + x3 * y4 - x4 * y3 + x1 * y5 - x5 * y1 + x7 * y2 - x2 * y7;
    let z7 = x0 * y7 + x7 * y0 + x4 * y5 - x5 * y4 + x2 * y6 - x6 * y2 + x1 * y3 - x3 * y1;

    // The octonion forms are exactly the doubled-product components.
    assert(z0 == u0 && z1 == u1 && z2 == u2 && z4 == u3) by (nonlinear_arith)
        requires
            z0 == x0 * y0 - x1 * y1 - x2 * y2 - x3 * y3 - x4 * y4 - x5 * y5 - x6 * y6 - x7 * y7,
            z1 == x0 * y1 + x1 * y0 + x2 * y4 - x4 * y2 + x5 * y6 - x6 * y5 + x3 * y7 - x7 * y3,
            z2 == x0 * y2 + x2 * y0 + x4 * y1 - x1 * y4 + x3 * y5 - x5 * y3 + x6 * y7 - x7 * y6,
            z4 == x0 * y4 + x4 * y0 + x1 * y2 - x2 * y1 + x6 * y3 - x3 * y6 + x5 * y7 - x7 * y5,
            u0 == (x0 * y0 - x1 * y1 - x2 * y2 - x4 * y4) - (y3 * x3 + y7 * x7 + y5 * x5 + (-y6)
                * (-x6)),
            u1 == (x0 * y1 + x1 * y0 + x2 * y4 - x4 * y2) - (y3 * x7 - y7 * x3 - y5 * (-x6) + (
            -y6) * x5),
            u2 == (x0 * y2 - x1 * y4 + x2 * y0 + x4 * y1) - (y3 * x5 + y7 * (-x6) - y5 * x3 - (
            -y6) * x7),
            u3 == (x0 * y4 + x1 * y2 - x2 * y1 + x4 * y0) - (y3 * (-x6) - y7 * x5 + y5 * x7 - (
            -y6) * x3),
    ;
    assert(z3 == v0 && z7 == v1 && z5 == v2 && z6 == -v3) by (nonlinear_arith)
        requires
            z3 == x0 * y3 + x3 * y0 + x5 * y2 - x2 * y5 + x4 * y6 - x6 * y4 + x7 * y1 - x1 * y7,
            z7 == x0 * y7 + x7 * y0 + x4 * y5 - x5 * y4 + x2 * y6 - x6 * y2 + x1 * y3 - x3 * y1,
            z5 == x0 * y5 + x5 * y0 + x2 * y3 - x3 * y2 + x7 * y4 - x4 * y7 + x6 * y1 - x1 * y6,
            z6 == x0 * y6 + x6 * y0 + x3 * y4 - x4 * y3 + x1 * y5 - x5 * y1 + x7 * y2 - x2 * y7,
            v0 == (y3 * x0 - y7 * x1 - y5 * x2 - (-y6) * x4) + (x3 * y0 + x7 * y1 + x5 * y2 + (
            -x6) * y4),
            v1 == (y3 * x1 + y7 * x0 + y5 * x4 - (-y6) * x2) + (x7 * y0 - x3 * y1 + (-x6) * y2
                - x5 * y4),
            v2 == (y3 * x2 - y7 * x4 + y5 * x0 + (-y6) * x1) + (x5 * y0 - x3 * y2 + x7 * y4 - (
            -x6) * y1),
            v3 == (y3 * x4 + y7 * x2 - y5 * x1 + (-y6) * x0) + ((-x6) * y0 - x3 * y4 + x5 * y1
                - x7 * y2),
    ;

    // Euler's identity on the four quaternion products, and the exchange
    // identity on the cross terms.
    crate::hmodel::lemma_euler_raw(p0, p1, p2, p3, r0, r1, r2, r3);
    crate::hmodel::lemma_euler_raw(s0, -s1, -s2, -s3, q0, q1, q2, q3);
    crate::hmodel::lemma_euler_raw(s0, s1, s2, s3, p0, p1, p2, p3);
    crate::hmodel::lemma_euler_raw(q0, q1, q2, q3, r0, -r1, -r2, -r3);
    crate::hmodel::lemma_exchange_raw(
        p0, p1, p2, p3, q0, q1, q2, q3, r0, r1, r2, r3, s0, s1, s2, s3,
    );

    // Squares of differences and sums.
    assert(u0 * u0 == pr0 * pr0 - 2 * (pr0 * cq0) + cq0 * cq0) by (nonlinear_arith)
        requires
            u0 == pr0 - cq0,
    ;
    assert(u1 * u1 == pr1 * pr1 - 2 * (pr1 * cq1) + cq1 * cq1) by (nonlinear_arith)
        requires
            u1 == pr1 - cq1,
    ;
    assert(u2 * u2 == pr2 * pr2 - 2 * (pr2 * cq2) + cq2 * cq2) by (nonlinear_arith)
        requires
            u2 == pr2 - cq2,
    ;
    assert(u3 * u3 == pr3 * pr3 - 2 * (pr3 * cq3) + cq3 * cq3) by (nonlinear_arith)
        requires
            u3 == pr3 - cq3,
    ;
    assert(v0 * v0 == sp0 * sp0 + 2 * (sp0 * qr0) + qr0 * qr0) by (nonlinear_arith)
        requires
            v0 == sp0 + qr0,
    ;
    assert(v1 * v1 == sp1 * sp1 + 2 * (sp1 * qr1) + qr1 * qr1) by (nonlinear_arith)
        requires
            v1 == sp1 + qr1,
    ;
    assert(v2 * v2 == sp2 * sp2 + 2 * (sp2 * qr2) + qr2 * qr2) by (nonlinear_arith)
        requires
            v2 == sp2 + qr2,
    ;
    assert(v3 * v3 == sp3 * sp3 + 2 * (sp3 * qr3) + qr3 * qr3) by (nonlinear_arith)
        requires
            v3 == sp3 + qr3,
    ;
    assert(z6 * z6 == v3 * v3) by (nonlinear_arith)
        requires
            z6 == -v3,
    ;

    // The Euler instances mention conjugated operands; their norms match
    // the plain ones.
    let np = p0 * p0 + p1 * p1 + p2 * p2 + p3 * p3;
    let nq = q0 * q0 + q1 * q1 + q2 * q2 + q3 * q3;
    let nr = r0 * r0 + r1 * r1 + r2 * r2 + r3 * r3;
    let ns = s0 * s0 + s1 * s1 + s2 * s2 + s3 * s3;
    assert(s0 * s0 + (-s1) * (-s1) + (-s2) * (-s2) + (-s3) * (-s3) == ns) by (nonlinear_arith)
        requires
            ns == s0 * s0 + s1 * s1 + s2 * s2 + s3 * s3,
    ;
    assert(r0 * r0 + (-r1) * (-r1) + (-r2) * (-r2) + (-r3) * (-r3) == nr) by (nonlinear_arith)
        requires
            nr == r0 * r0 + r1 * r1 + r2 * r2 + r3 * r3,
    ;

    // The conjugated Euler instances are stated over negated components;
    // identify their forms with the ones named here.
    assert(s0 * q0 - (-s1) * q1 - (-s2) * q2 - (-s3) * q3 == cq0 && s0 * q1 + (-s1) * q0 + (-s2)
        * q3 - (-s3) * q2 == cq1 && s0 * q2 - (-s1) * q3 + (-s2) * q0 + (-s3) * q1 == cq2 && s0
        * q3 + (-s1) * q2 - (-s2) * q1 + (-s3) * q0 == cq3) by (nonlinear_arith)
        requires
            cq0 == s0 * q0 + s1 * q1 + s2 * q2 + s3 * q3,
            cq1 == s0 * q1 - s1 * q0 - s2 * q3 + s3 * q2,
            cq2 == s0 * q2 + s1 * q3 - s2 * q0 - s3 * q1,
            cq3 == s0 * q3 - s1 * q2 + s2 * q1 - s3 * q0,
    ;
    assert(q0 * r0 - q1 * (-r1) - q2 * (-r2) - q3 * (-r3) == qr0 && q0 * (-r1) + q1 * r0 + q2 * (
    -r3) - q3 * (-r2) == qr1 && q0 * (-r2) - q1 * (-r3) + q2 * r0 + q3 * (-r1) == qr2 && q0 * (
    -r3) + q1 * (-r2) - q2 * (-r1) + q3 * r0 == qr3) by (nonlinear_arith)
        requires
            qr0 == q0 * r0 + q1 * r1 + q2 * r2 + q3 * r3,
            qr1 == q1 * r0 - q0 * r1 + q3 * r2 - q2 * r3,
            qr2 == q2 * r0 - q0 * r2 + q1 * r3 - q3 * r1,
            qr3 == q3 * r0 - q0 * r3 + q2 * r1 - q1 * r2,
    ;

    // Collect: the cross terms cancel and the four norm products factor.
    assert(z0 * z0 + z1 * z1 + z2 * z2 + z3 * z3 + z4 * z4 + z5 * z5 + z6 * z6 + z7 * z7 == np
        * nr + ns * nq + ns * np + nq * nr);
    assert(np * nr + ns * nq + ns * np + nq * nr == (np + nq) * (nr + ns)) by (nonlinear_arith);
    assert(np + nq == x0 * x0 + x1 * x1 + x2 * x2 + x3 * x3 + x4 * x4 + x5 * x5 + x6 * x6 + x7
        * x7) by (nonlinear_arith)
        requires
            np == x0 * x0 + x1 * x1 + x2 * x2 + x4 * x4,
            nq == x3 * x3 + x7 * x7 + x5 * x5 + (-x6) * (-x6),
    ;
    assert(nr + ns == y0 * y0 + y1 * y1 + y2 * y2 + y3 * y3 + y4 * y4 + y5 * y5 + y6 * y6 + y7
        * y7) by (nonlinear_arith)
        requires
            nr == y0 * y0 + y1 * y1 + y2 * y2 + y4 * y4,
            ns == y3 * y3 + y7 * y7 + y5 * y5 + (-y6) * (-y6),
    ;
}

/// Degen's eight-square identity on the raw bilinear forms.
pub proof fn lemma_o_degen(x: OModel, y: OModel)
    ensures
        o_raw_0(x, y) * o_raw_0(x, y) + o_raw_1(x, y) * o_raw_1(x, y) + o_raw_2(x, y) * o_raw_2(
            x,
            y,
        ) + o_raw_3(x, y) * o_raw_3(x, y) + o_raw_4(x, y) * o_raw_4(x, y) + o_raw_5(x, y)
            * o_raw_5(x, y) + o_raw_6(x, y) * o_raw_6(x, y) + o_raw_7(x, y) * o_raw_7(x, y)
            == o_norm2_raw(x) * o_norm2_raw(y),
{
    lemma_degen_raw(x.a, x.b, x.c, x.d, x.e, x.f, x.g, x.h, y.a, y.b, y.c, y.d, y.e, y.f, y.g, y.h);
}


/// The parity of a product is the product of the parities.
proof fn lemma_o_prod_parity(x: int, y: int, p: int, q: int)
    requires
        x % 2 == p,
        y % 2 == q,
        0 <= p < 2,
        0 <= q < 2,
    ensures
        (x * y) % 2 == p * q,
{
    vstd::arithmetic::div_mod::lemma_mul_mod_noop_general(x, y, 2);
    assert(p * q == 0 || p * q == 1) by (nonlinear_arith)
        requires
            0 <= p < 2 && 0 <= q < 2,
    ;
    vstd::arithmetic::div_mod::lemma_small_mod((p * q) as nat, 2);
}

/// Eight terms of one parity sum to an even value.
proof fn lemma_sum8_parity(
    t0: int, t1: int, t2: int, t3: int, t4: int, t5: int, t6: int, t7: int, w: int,
)
    requires
        t0 % 2 == w && t1 % 2 == w && t2 % 2 == w && t3 % 2 == w,
        t4 % 2 == w && t5 % 2 == w && t6 % 2 == w && t7 % 2 == w,
        0 <= w < 2,
    ensures
        (t0 + t1 + t2 + t3 + t4 + t5 + t6 + t7) % 2 == 0,
{
    vstd::arithmetic::div_mod::lemma_add_mod_noop(t0, t1, 2);
    vstd::arithmetic::div_mod::lemma_add_mod_noop(t0 + t1, t2, 2);
    vstd::arithmetic::div_mod::lemma_add_mod_noop(t0 + t1 + t2, t3, 2);
    vstd::arithmetic::div_mod::lemma_add_mod_noop(t0 + t1 + t2 + t3, t4, 2);
    vstd::arithmetic::div_mod::lemma_add_mod_noop(t0 + t1 + t2 + t3 + t4, t5, 2);
    vstd::arithmetic::div_mod::lemma_add_mod_noop(t0 + t1 + t2 + t3 + t4 + t5, t6, 2);
    vstd::arithmetic::div_mod::lemma_add_mod_noop(t0 + t1 + t2 + t3 + t4 + t5 + t6, t7, 2);
}

/// Subtracting a doubled value preserves parity.
proof fn lemma_sub_double_parity(s: int, b: int)
    ensures
        (s - 2 * b) % 2 == s % 2,
{
    vstd::arithmetic::div_mod::lemma_sub_mod_noop(s, 2 * b, 2);
    vstd::arithmetic::div_mod::lemma_fundamental_div_mod_converse(2 * b, 2, b, 0);
}

/// An even value is twice its half.
proof fn lemma_o_even_halves(v: int)
    requires
        v % 2 == 0,
    ensures
        v == 2 * (v / 2),
{
    vstd::arithmetic::div_mod::lemma_fundamental_div_mod(v, 2);
}

/// On well-formed operands every raw product form is even, so the stored
/// product components are exact halves.
pub proof fn lemma_o_raw_even(x: OModel, y: OModel)
    requires
        o_wf(x),
        o_wf(y),
    ensures
        o_raw_0(x, y) == 2 * o_mul(x, y).a,
        o_raw_1(x, y) == 2 * o_mul(x, y).b,
        o_raw_2(x, y) == 2 * o_mul(x, y).c,
        o_raw_3(x, y) == 2 * o_mul(x, y).d,
        o_raw_4(x, y) == 2 * o_mul(x, y).e,
        o_raw_5(x, y) == 2 * o_mul(x, y).f,
        o_raw_6(x, y) == 2 * o_mul(x, y).g,
        o_raw_7(x, y) == 2 * o_mul(x, y).h,
{
    let p = x.a % 2;
    let q = y.a % 2;
    let w = p * q;
    assert(0 <= w < 2) by (nonlinear_arith)
        requires
            w == p * q,
            0 <= p < 2 && 0 <= q < 2,
    ;
    lemma_o_prod_parity(x.a, y.a, p, q);
    lemma_o_prod_parity(x.a, y.b, p, q);
    lemma_o_prod_parity(x.a, y.c, p, q);
    lemma_o_prod_parity(x.a, y.d, p, q);
    lemma_o_prod_parity(x.a, y.e, p, q);
    lemma_o_prod_parity(x.a, y.f, p, q);
    lemma_o_prod_parity(x.a, y.g, p, q);
    lemma_o_prod_parity(x.a, y.h, p, q);
    lemma_o_prod_parity(x.b, y.a, p, q);
    lemma_o_prod_parity(x.b, y.b, p, q);
    lemma_o_prod_parity(x.b, y.c, p, q);
    lemma_o_prod_parity(x.b, y.d, p, q);
    lemma_o_prod_parity(x.b, y.e, p, q);
    lemma_o_prod_parity(x.b, y.f, p, q);
    lemma_o_prod_parity(x.b, y.g, p, q);
    lemma_o_prod_parity(x.b, y.h, p, q);
    lemma_o_prod_parity(x.c, y.a, p, q);
    lemma_o_prod_parity(x.c, y.b, p, q);
    lemma_o_prod_parity(x.c, y.d, p, q);
    lemma_o_prod_parity(x.c, y.e, p, q);
    lemma_o_prod_parity(x.c, y.f, p, q);
    lemma_o_prod_parity(x.c, y.g, p, q);
    lemma_o_prod_parity(x.c, y.h, p, q);
    lemma_o_prod_parity(x.d, y.a, p, q);
    lemma_o_prod_parity(x.d, y.b, p, q);
    lemma_o_prod_parity(x.d, y.c, p, q);
    lemma_o_prod_parity(x.d, y.e, p, q);
    lemma_o_prod_parity(x.d, y.f, p, q);
    lemma_o_prod_parity(x.d, y.g, p, q);
    lemma_o_prod_parity(x.d, y.h, p, q);
    lemma_o_prod_parity(x.e, y.a, p, q);
    lemma_o_prod_parity(x.e, y.b, p, q);
    lemma_o_prod_parity(x.e, y.c, p, q);
    lemma_o_prod_parity(x.e, y.d, p, q);
    lemma_o_prod_parity(x.e, y.f, p, q);
    lemma_o_prod_parity(x.e, y.g, p, q);
    lemma_o_prod_parity(x.e, y.h, p, q);
    lemma_o_prod_parity(x.f, y.a, p, q);
    lemma_o_prod_parity(x.f, y.b, p, q);
    lemma_o_prod_parity(x.f, y.c, p, q);
    lemma_o_prod_parity(x.f, y.d, p, q);
    lemma_o_prod_parity(x.f, y.e, p, q);
    lemma_o_prod_parity(x.f, y.g, p, q);
    lemma_o_prod_parity(x.f, y.h, p, q);
    lemma_o_prod_parity(x.g, y.a, p, q);
    lemma_o_prod_parity(x.g, y.b, p, q);
    lemma_o_prod_parity(x.g, y.c, p, q);
    lemma_o_prod_parity(x.g, y.d, p, q);
    lemma_o_prod_parity(x.g, y.e, p, q);
    lemma_o_prod_parity(x.g, y.f, p, q);
    lemma_o_prod_parity(x.g, y.h, p, q);
    lemma_o_prod_parity(x.h, y.a, p, q);
    lemma_o_prod_parity(x.h, y.b, p, q);
    lemma_o_prod_parity(x.h, y.c, p, q);
    lemma_o_prod_parity(x.h, y.d, p, q);
    lemma_o_prod_parity(x.h, y.e, p, q);
    lemma_o_prod_parity(x.h, y.f, p, q);
    lemma_o_prod_parity(x.h, y.g, p, q);
    lemma_o_prod_parity(x.c, y.c, p, q);
    lemma_o_prod_parity(x.d, y.d, p, q);
    lemma_o_prod_parity(x.e, y.e, p, q);
    lemma_o_prod_parity(x.f, y.f, p, q);
    lemma_o_prod_parity(x.g, y.g, p, q);
    lemma_o_prod_parity(x.h, y.h, p, q);

    lemma_sum8_parity(
        x.a * y.a, x.b * y.b, x.c * y.c, x.d * y.d, x.e * y.e, x.f * y.f, x.g * y.g, x.h * y.h,
        w,
    );
    lemma_sub_double_parity(
        x.a * y.a + x.b * y.b + x.c * y.c + x.d * y.d + x.e * y.e + x.f * y.f + x.g * y.g + x.h
            * y.h,
        x.b * y.b + x.c * y.c + x.d * y.d + x.e * y.e + x.f * y.f + x.g * y.g + x.h * y.h,
    );
    lemma_o_even_halves(o_raw_0(x, y));

    lemma_sum8_parity(
        x.a * y.b, x.b * y.a, x.c * y.e, x.e * y.c, x.f * y.g, x.g * y.f, x.d * y.h, x.h * y.d,
        w,
    );
    lemma_sub_double_parity(
        x.a * y.b + x.b * y.a + x.c * y.e + x.e * y.c + x.f * y.g + x.g * y.f + x.d * y.h + x.h
            * y.d,
        x.e * y.c + x.g * y.f + x.h * y.d,
    );
    lemma_o_even_halves(o_raw_1(x, y));

    lemma_sum8_parity(
        x.a * y.c, x.c * y.a, x.e * y.b, x.b * y.e, x.d * y.f, x.f * y.d, x.g * y.h, x.h * y.g,
        w,
    );
    lemma_sub_double_parity(
        x.a * y.c + x.c * y.a + x.e * y.b + x.b * y.e + x.d * y.f + x.f * y.d + x.g * y.h + x.h
            * y.g,
        x.b * y.e + x.f * y.d + x.h * y.g,
    );
    lemma_o_even_halves(o_raw_2(x, y));

    lemma_sum8_parity(
        x.a * y.d, x.d * y.a, x.f * y.c, x.c * y.f, x.e * y.g, x.g * y.e, x.h * y.b, x.b * y.h,
        w,
    );
    lemma_sub_double_parity(
        x.a * y.d + x.d * y.a + x.f * y.c + x.c * y.f + x.e * y.g + x.g * y.e + x.h * y.b + x.b
            * y.h,
        x.c * y.f + x.g * y.e + x.b * y.h,
    );
    lemma_o_even_halves(o_raw_3(x, y));

    lemma_sum8_parity(
        x.a * y.e, x.e * y.a, x.b * y.c, x.c * y.b, x.g * y.d, x.d * y.g, x.f * y.h, x.h * y.f,
        w,
    );
    lemma_sub_double_parity(
        x.a * y.e + x.e * y.a + x.b * y.c + x.c * y.b + x.g * y.d + x.d * y.g + x.f * y.h + x.h
            * y.f,
        x.c * y.b + x.d * y.g + x.h * y.f,
    );
    lemma_o_even_halves(o_raw_4(x, y));

    lemma_sum8_parity(
        x.a * y.f, x.f * y.a, x.c * y.d, x.d * y.c, x.h * y.e, x.e * y.h, x.g * y.b, x.b * y.g,
        w,
    );
    lemma_sub_double_parity(
        x.a * y.f + x.f * y.a + x.c * y.d + x.d * y.c + x.h * y.e + x.e * y.h + x.g * y.b + x.b
            * y.g,
        x.d * y.c + x.e * y.h + x.b * y.g,
    );
    lemma_o_even_halves(o_raw_5(x, y));

    lemma_sum8_parity(
        x.a * y.g, x.g * y.a, x.d * y.e, x.e * y.d, x.b * y.f, x.f * y.b, x.h * y.c, x.c * y.h,
        w,
    );
    lemma_sub_double_parity(
        x.a * y.g + x.g * y.a + x.d * y.e + x.e * y.d + x.b * y.f + x.f * y.b + x.h * y.c + x.c
            * y.h,
        x.e * y.d + x.f * y.b + x.c * y.h,
    );
    lemma_o_even_halves(o_raw_6(x, y));

    lemma_sum8_parity(
        x.a * y.h, x.h * y.a, x.e * y.f, x.f * y.e, x.c * y.g, x.g * y.c, x.b * y.d, x.d * y.b,
        w,
    );
    lemma_sub_double_parity(
        x.a * y.h + x.h * y.a + x.e * y.f + x.f * y.e + x.c * y.g + x.g * y.c + x.b * y.d + x.d
            * y.b,
        x.f * y.e + x.g * y.c + x.d * y.b,
    );
    lemma_o_even_halves(o_raw_7(x, y));
}

/// The square of a component is its parity plus a multiple of four.
proof fn lemma_o_square_parity(x: int, p: int)
    requires
        x % 2 == p,
        0 <= p < 2,
    ensures
        x * x == 4 * ((x / 2) * (x / 2) + (x / 2) * p) + p * p,
{
    vstd::arithmetic::div_mod::lemma_fundamental_div_mod(x, 2);
    let h = x / 2;
    assert((2 * h + p) * (2 * h + p) == 4 * (h * h + h * p) + p * p) by (nonlinear_arith);
}

/// On a well-formed value the raw norm form is four times the norm.
pub proof fn lemma_o_norm2_exact(x: OModel)
    requires
        o_wf(x),
    ensures
        o_norm2_raw(x) == 4 * o_norm2(x),
{
    let p = x.a % 2;
    lemma_o_square_parity(x.a, p);
    lemma_o_square_parity(x.b, p);
    lemma_o_square_parity(x.c, p);
    lemma_o_square_parity(x.d, p);
    lemma_o_square_parity(x.e, p);
    lemma_o_square_parity(x.f, p);
    lemma_o_square_parity(x.g, p);
    lemma_o_square_parity(x.h, p);
    assert(p * p == p) by (nonlinear_arith)
        requires
            0 <= p < 2,
    ;
    let m = (x.a / 2) * (x.a / 2) + (x.a / 2) * p + (x.b / 2) * (x.b / 2) + (x.b / 2) * p + (x.c
        / 2) * (x.c / 2) + (x.c / 2) * p + (x.d / 2) * (x.d / 2) + (x.d / 2) * p + (x.e / 2) * (
    x.e / 2) + (x.e / 2) * p + (x.f / 2) * (x.f / 2) + (x.f / 2) * p + (x.g / 2) * (x.g / 2) + (
    x.g / 2) * p + (x.h / 2) * (x.h / 2) + (x.h / 2) * p + 2 * p;
    assert(o_norm2_raw(x) == 4 * m);
    vstd::arithmetic::div_mod::lemma_fundamental_div_mod_converse(o_norm2_raw(x), 4, m, 0);
}

/// The squared norm is multiplicative on well-formed values: the
/// composition-algebra law at rank 8.
pub proof fn lemma_o_norm2_mul(x: OModel, y: OModel)
    requires
        o_wf(x),
        o_wf(y),
    ensures
        o_norm2(o_mul(x, y)) == o_norm2(x) * o_norm2(y),
{
    let z = o_mul(x, y);
    lemma_o_degen(x, y);
    lemma_o_raw_even(x, y);
    lemma_o_norm2_exact(x);
    lemma_o_norm2_exact(y);
    assert((2 * z.a) * (2 * z.a) == 4 * (z.a * z.a)) by (nonlinear_arith);
    assert((2 * z.b) * (2 * z.b) == 4 * (z.b * z.b)) by (nonlinear_arith);
    assert((2 * z.c) * (2 * z.c) == 4 * (z.c * z.c)) by (nonlinear_arith);
    assert((2 * z.d) * (2 * z.d) == 4 * (z.d * z.d)) by (nonlinear_arith);
    assert((2 * z.e) * (2 * z.e) == 4 * (z.e * z.e)) by (nonlinear_arith);
    assert((2 * z.f) * (2 * z.f) == 4 * (z.f * z.f)) by (nonlinear_arith);
    assert((2 * z.g) * (2 * z.g) == 4 * (z.g * z.g)) by (nonlinear_arith);
    assert((2 * z.h) * (2 * z.h) == 4 * (z.h * z.h)) by (nonlinear_arith);
    assert(o_norm2_raw(x) * o_norm2_raw(y) == 16 * (o_norm2(x) * o_norm2(y))) by (nonlinear_arith)
        requires
            o_norm2_raw(x) == 4 * o_norm2(x),
            o_norm2_raw(y) == 4 * o_norm2(y),
    ;
    assert(o_norm2_raw(z) == 4 * (o_norm2(x) * o_norm2(y)));
    vstd::arithmetic::div_mod::lemma_fundamental_div_mod_converse(
        o_norm2_raw(z),
        4,
        o_norm2(x) * o_norm2(y),
        0,
    );
}


/// The doubled-storage basis elements: 1 and e1 through e7.
pub open spec fn o_basis(i: int) -> OModel {
    if i == 0 {
        OModel { a: 2, b: 0, c: 0, d: 0, e: 0, f: 0, g: 0, h: 0 }
    } else if i == 1 {
        OModel { a: 0, b: 2, c: 0, d: 0, e: 0, f: 0, g: 0, h: 0 }
    } else if i == 2 {
        OModel { a: 0, b: 0, c: 2, d: 0, e: 0, f: 0, g: 0, h: 0 }
    } else if i == 3 {
        OModel { a: 0, b: 0, c: 0, d: 2, e: 0, f: 0, g: 0, h: 0 }
    } else if i == 4 {
        OModel { a: 0, b: 0, c: 0, d: 0, e: 2, f: 0, g: 0, h: 0 }
    } else if i == 5 {
        OModel { a: 0, b: 0, c: 0, d: 0, e: 0, f: 2, g: 0, h: 0 }
    } else if i == 6 {
        OModel { a: 0, b: 0, c: 0, d: 0, e: 0, f: 0, g: 2, h: 0 }
    } else {
        OModel { a: 0, b: 0, c: 0, d: 0, e: 0, f: 0, g: 0, h: 2 }
    }
}

/// The multiplication table is faithful: the product of two basis elements
/// is the signed basis element the table gives, with the minus sign for
/// squares of imaginary units and reversed lines.
#[verifier::rlimit(100)]
pub proof fn lemma_o_basis_mul(i: int, j: int)
    requires
        0 <= i < 8,
        0 <= j < 8,
    ensures
        o_mul(o_basis(i), o_basis(j)) == (if otab_sign(i, j) == 1 {
            o_basis(otab_tgt(i, j))
        } else {
            o_neg(o_basis(otab_tgt(i, j)))
        }),
{
}


/// The Moufang identity at the table level: the signs and targets of
/// `(e_i*e_j)*(e_k*e_i)` and `e_i*((e_j*e_k)*e_i)` agree.
#[verifier::rlimit(100)]
proof fn lemma_moufang_table(i: int, j: int, k: int)
    requires
        0 <= i < 8,
        0 <= j < 8,
        0 <= k < 8,
    ensures
        otab_tgt(otab_tgt(i, j), otab_tgt(k, i)) == otab_tgt(i, otab_tgt(otab_tgt(j, k), i)),
        otab_sign(i, j) * otab_sign(k, i) * otab_sign(otab_tgt(i, j), otab_tgt(k, i))
            == otab_sign(j, k) * otab_sign(otab_tgt(j, k), i) * otab_sign(
            i,
            otab_tgt(otab_tgt(j, k), i),
        ),
{
}


/// Every basis element is well formed, and the table outputs stay in
/// range with signs of exactly one.
proof fn lemma_o_basis_facts(i: int, j: int)
    requires
        0 <= i < 8,
        0 <= j < 8,
    ensures
        o_wf(o_basis(i)),
        0 <= otab_tgt(i, j) < 8,
        otab_sign(i, j) == 1 || otab_sign(i, j) == -1,
{
    vstd::arithmetic::div_mod::lemma_fundamental_div_mod_converse(0, 2, 0, 0);
    vstd::arithmetic::div_mod::lemma_fundamental_div_mod_converse(2, 2, 1, 0);
}

/// Negation preserves well-formedness.
proof fn lemma_o_wf_neg(b: OModel)
    requires
        o_wf(b),
    ensures
        o_wf(o_neg(b)),
{
    crate::hmodel::lemma_neg_parity(b.a);
    crate::hmodel::lemma_neg_parity(b.b);
    crate::hmodel::lemma_neg_parity(b.c);
    crate::hmodel::lemma_neg_parity(b.d);
    crate::hmodel::lemma_neg_parity(b.e);
    crate::hmodel::lemma_neg_parity(b.f);
    crate::hmodel::lemma_neg_parity(b.g);
    crate::hmodel::lemma_neg_parity(b.h);
}

/// Halving the negation of a doubled value gives the negated half.
proof fn lemma_neg_halves(m: int)
    ensures
        (-(2 * m)) / 2 == -m,
{
    vstd::arithmetic::div_mod::lemma_fundamental_div_mod_converse(-(2 * m), 2, -m, 0);
}

/// Negating the left factor negates the product, when both operands are
/// well formed (so that the halving in the product is exact).
proof fn lemma_o_mul_neg_left(a: OModel, b: OModel)
    requires
        o_wf(a),
        o_wf(b),
    ensures
        o_mul(o_neg(a), b) == o_neg(o_mul(a, b)),
{
    let na = o_neg(a);
    assert(o_raw_0(na, b) == -o_raw_0(a, b) && o_raw_1(na, b) == -o_raw_1(a, b) && o_raw_2(na, b)
        == -o_raw_2(a, b) && o_raw_3(na, b) == -o_raw_3(a, b) && o_raw_4(na, b) == -o_raw_4(a, b)
        && o_raw_5(na, b) == -o_raw_5(a, b) && o_raw_6(na, b) == -o_raw_6(a, b) && o_raw_7(na, b)
        == -o_raw_7(a, b)) by (nonlinear_arith)
        requires
            na.a == -a.a && na.b == -a.b && na.c == -a.c && na.d == -a.d && na.e == -a.e && na.f
                == -a.f && na.g == -a.g && na.h == -a.h,
    ;
    lemma_o_raw_even(a, b);
    lemma_neg_halves(o_mul(a, b).a);
    lemma_neg_halves(o_mul(a, b).b);
    lemma_neg_halves(o_mul(a, b).c);
    lemma_neg_halves(o_mul(a, b).d);
    lemma_neg_halves(o_mul(a, b).e);
    lemma_neg_halves(o_mul(a, b).f);
    lemma_neg_halves(o_mul(a, b).g);
    lemma_neg_halves(o_mul(a, b).h);
}

/// Negating the right factor negates the product, when both operands are
/// well formed.
proof fn lemma_o_mul_neg_right(a: OModel, b: OModel)
    requires
        o_wf(a),
        o_wf(b),
    ensures
        o_mul(a, o_neg(b)) == o_neg(o_mul(a, b)),
{
    let nb = o_neg(b);
    assert(o_raw_0(a, nb) == -o_raw_0(a, b) && o_raw_1(a, nb) == -o_raw_1(a, b) && o_raw_2(a, nb)
        == -o_raw_2(a, b) && o_raw_3(a, nb) == -o_raw_3(a, b) && o_raw_4(a, nb) == -o_raw_4(a, b)
        && o_raw_5(a, nb) == -o_raw_5(a, b) && o_raw_6(a, nb) == -o_raw_6(a, b) && o_raw_7(a, nb)
        == -o_raw_7(a, b)) by (nonlinear_arith)
        requires
            nb.a == -b.a && nb.b == -b.b && nb.c == -b.c && nb.d == -b.d && nb.e == -b.e && nb.f
                == -b.f && nb.g == -b.g && nb.h == -b.h,
    ;
    lemma_o_raw_even(a, b);
    lemma_neg_halves(o_mul(a, b).a);
    lemma_neg_halves(o_mul(a, b).b);
    lemma_neg_halves(o_mul(a, b).c);
    lemma_neg_halves(o_mul(a, b).d);
    lemma_neg_halves(o_mul(a, b).e);
    lemma_neg_halves(o_mul(a, b).f);
    lemma_neg_halves(o_mul(a, b).g);
    lemma_neg_halves(o_mul(a, b).h);
}

/// The product of two signed basis elements, with the signs pulled out
/// in front of the table product.
#[verifier::rlimit(100)]
proof fn lemma_o_signed_basis_mul(s1: int, t1: int, s2: int, t2: int)
    requires
        s1 == 1 || s1 == -1,
        s2 == 1 || s2 == -1,
        0 <= t1 < 8,
        0 <= t2 < 8,
    ensures
        o_mul(
            if s1 == 1 {
                o_basis(t1)
            } else {
                o_neg(o_basis(t1))
            },
            if s2 == 1 {
                o_basis(t2)
            } else {
                o_neg(o_basis(t2))
            },
        ) == (if s1 * s2 * otab_sign(t1, t2) == 1 {
            o_basis(otab_tgt(t1, t2))
        } else {
            o_neg(o_basis(otab_tgt(t1, t2)))
        }),
{
    lemma_o_basis_facts(t1, t2);
    lemma_o_basis_facts(t2, t1);
    lemma_o_basis_mul(t1, t2);
    let b1 = o_basis(t1);
    let b2 = o_basis(t2);
    let st = otab_sign(t1, t2);
    assert(s1 * s2 * st == 1 || s1 * s2 * st == -1) by (nonlinear_arith)
        requires
            s1 == 1 || s1 == -1,
            s2 == 1 || s2 == -1,
            st == 1 || st == -1,
    ;
    if s1 == 1 && s2 == 1 {
        assert(s1 * s2 * st == st) by (nonlinear_arith)
            requires
                s1 == 1 && s2 == 1,
        ;
    } else if s1 == -1 && s2 == 1 {
        lemma_o_mul_neg_left(b1, b2);
        assert(s1 * s2 * st == -st) by (nonlinear_arith)
            requires
                s1 == -1 && s2 == 1,
        ;
    } else if s1 == 1 && s2 == -1 {
        lemma_o_mul_neg_right(b1, b2);
        assert(s1 * s2 * st == -st) by (nonlinear_arith)
            requires
                s1 == 1 && s2 == -1,
        ;
    } else {
        lemma_o_wf_neg(b2);
        lemma_o_mul_neg_left(b1, o_neg(b2));
        lemma_o_mul_neg_right(b1, b2);
        assert(s1 * s2 * st == st) by (nonlinear_arith)
            requires
                s1 == -1 && s2 == -1,
        ;
    }
}

/// The Moufang identity holds for every triple of basis elements:
/// `(a*b)*(c*a) == a*((b*c)*a)` when `a`, `b`, `c` are drawn from the
/// basis 1, e1, ..., e7.
pub proof fn lemma_o_moufang_basis(i: int, j: int, k: int)
    requires
        0 <= i < 8,
        0 <= j < 8,
        0 <= k < 8,
    ensures
        o_mul(o_mul(o_basis(i), o_basis(j)), o_mul(o_basis(k), o_basis(i))) == o_mul(
            o_basis(i),
            o_mul(o_mul(o_basis(j), o_basis(k)), o_basis(i)),
        ),
{
    lemma_o_basis_facts(i, j);
    lemma_o_basis_facts(k, i);
    lemma_o_basis_facts(j, k);
    lemma_o_basis_mul(i, j);
    lemma_o_basis_mul(k, i);
    lemma_o_basis_mul(j, k);
    let s1 = otab_sign(i, j);
    let t1 = otab_tgt(i, j);
    let s2 = otab_sign(k, i);
    let t2 = otab_tgt(k, i);
    let s3 = otab_sign(j, k);
    let t3 = otab_tgt(j, k);
    lemma_o_basis_facts(t1, t2);
    lemma_o_basis_facts(t3, i);
    lemma_o_signed_basis_mul(s1, t1, s2, t2);
    lemma_o_signed_basis_mul(s3, t3, 1, i);
    let s4 = otab_sign(t3, i);
    let t5 = otab_tgt(t3, i);
    lemma_o_basis_facts(i, t5);
    assert(s3 * 1 * s4 == s3 * s4) by (nonlinear_arith);
    let sin = s3 * s4;
    assert(sin == 1 || sin == -1) by (nonlinear_arith)
        requires
            sin == s3 * s4,
            s3 == 1 || s3 == -1,
            s4 == 1 || s4 == -1,
    ;
    lemma_o_signed_basis_mul(1, i, sin, t5);
    lemma_moufang_table(i, j, k);
    assert(1 * sin * otab_sign(i, t5) == s1 * s2 * otab_sign(t1, t2)) by (nonlinear_arith)
        requires
            sin == s3 * s4,
            otab_sign(j, k) * otab_sign(otab_tgt(j, k), i) * otab_sign(i, otab_tgt(otab_tgt(j, k), i))
                == otab_sign(i, j) * otab_sign(k, i) * otab_sign(otab_tgt(i, j), otab_tgt(k, i)),
            s3 == otab_sign(j, k),
            s4 == otab_sign(otab_tgt(j, k), i),
            s1 == otab_sign(i, j),
            s2 == otab_sign(k, i),
            otab_sign(i, t5) == otab_sign(i, otab_tgt(otab_tgt(j, k), i)),
            otab_sign(otab_tgt(i, j), otab_tgt(k, i)) == otab_sign(t1, t2),
    ;
}

} // verus!
