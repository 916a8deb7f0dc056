//! Mathematical model of the rank-4 algebra: Hurwitz-style quaternions.
//! Components store twice the represented coordinate, so that half-integer
//! points carry odd components; a value is well formed when all four
//! components share one parity.
use vstd::prelude::*;

verus! {

use vstd::arithmetic::div_mod::{lemma_fundamental_div_mod, lemma_fundamental_div_mod_converse};

/// `a + b*i + c*j + d*k`, each component stored doubled.
pub struct QModel {
    pub a: int,
    pub b: int,
    pub c: int,
    pub d: int,
}

pub open spec fn h_zero() -> QModel {
    QModel { a: 0, b: 0, c: 0, d: 0 }
}

/// All components even (integer point) or all odd (half-integer point).
pub open spec fn h_wf(x: QModel) -> bool {
    (x.a % 2 == 0 && x.b % 2 == 0 && x.c % 2 == 0 && x.d % 2 == 0) || (x.a % 2 == 1 && x.b % 2
        == 1 && x.c % 2 == 1 && x.d % 2 == 1)
}

pub open spec fn h_add(x: QModel, y: QModel) -> QModel {
    QModel { a: x.a + y.a, b: x.b + y.b, c: x.c + y.c, d: x.d + y.d }
}

pub open spec fn h_sub(x: QModel, y: QModel) -> QModel {
    QModel { a: x.a - y.a, b: x.b - y.b, c: x.c - y.c, d: x.d - y.d }
}

pub open spec fn h_neg(x: QModel) -> QModel {
    QModel { a: -x.a, b: -x.b, c: -x.c, d: -x.d }
}

pub open spec fn h_conj(x: QModel) -> QModel {
    QModel { a: x.a, b: -x.b, c: -x.c, d: -x.d }
}

/// The four Hamilton bilinear forms on the stored (doubled) components.
/// These are twice the stored components of the product.
pub open spec fn h_raw_a(x: QModel, y: QModel) -> int {
    x.a * y.a - x.b * y.b - x.c * y.c - x.d * y.d
}

pub open spec fn h_raw_b(x: QModel, y: QModel) -> int {
    x.a * y.b + x.b * y.a + x.c * y.d - x.d * y.c
}

pub open spec fn h_raw_c(x: QModel, y: QModel) -> int {
    x.a * y.c - x.b * y.d + x.c * y.a + x.d * y.b
}

pub open spec fn h_raw_d(x: QModel, y: QModel) -> int {
    x.a * y.d + x.b * y.c - x.c * y.b + x.d * y.a
}

/// The Hamilton product in stored form: each raw form halved (the halving
/// is exact on well-formed operands).
pub open spec fn h_mul(x: QModel, y: QModel) -> QModel {
    QModel {
        a: h_raw_a(x, y) / 2,
        b: h_raw_b(x, y) / 2,
        c: h_raw_c(x, y) / 2,
        d: h_raw_d(x, y) / 2,
    }
}

/// Sum of the squared stored components: four times the squared norm.
pub open spec fn h_norm2_raw(x: QModel) -> int {
    x.a * x.a + x.b * x.b + x.c * x.c + x.d * x.d
}

/// The squared norm of the represented value.
pub open spec fn h_norm2(x: QModel) -> int {
    h_norm2_raw(x) / 4
}

pub open spec fn h_is_zero(x: QModel) -> bool {
    x.a == 0 && x.b == 0 && x.c == 0 && x.d == 0
}

pub open spec fn h_is_unit(x: QModel) -> bool {
    h_norm2(x) == 1
}

/// The conjugate is an involution.
pub proof fn lemma_h_conj_involution(x: QModel)
    ensures
        h_conj(h_conj(x)) == x,
{
}

/// The conjugate is additive.
pub proof fn lemma_h_conj_additive(x: QModel, y: QModel)
    ensures
        h_conj(h_add(x, y)) == h_add(h_conj(x), h_conj(y)),
{
}

/// The conjugate preserves the squared norm.
pub proof fn lemma_h_conj_norm2(x: QModel)
    ensures
        h_norm2(h_conj(x)) == h_norm2(x),
{
    assert((-x.b) * (-x.b) == x.b * x.b && (-x.c) * (-x.c) == x.c * x.c && (-x.d) * (-x.d) == x.d
        * x.d) by (nonlinear_arith);
}

/// Negation preserves the squared norm.
pub proof fn lemma_h_neg_norm2(x: QModel)
    ensures
        h_norm2(h_neg(x)) == h_norm2(x),
{
    assert((-x.a) * (-x.a) == x.a * x.a && (-x.b) * (-x.b) == x.b * x.b && (-x.c) * (-x.c) == x.c
        * x.c && (-x.d) * (-x.d) == x.d * x.d) by (nonlinear_arith);
}

/// The raw norm form is nonnegative, and zero only on zero.
pub proof fn lemma_h_norm2_raw_zero(x: QModel)
    ensures
        h_norm2_raw(x) >= 0,
        h_norm2_raw(x) == 0 <==> h_is_zero(x),
{
    assert(x.a * x.a >= 0 && x.b * x.b >= 0 && x.c * x.c >= 0 && x.d * x.d >= 0 && (x.a != 0
        ==> x.a * x.a > 0) && (x.b != 0 ==> x.b * x.b > 0) && (x.c != 0 ==> x.c * x.c > 0) && (x.d
        != 0 ==> x.d * x.d > 0)) by (nonlinear_arith);
}

/// The squared norm is nonnegative.
pub proof fn lemma_h_norm2_nonneg(x: QModel)
    ensures
        h_norm2(x) >= 0,
{
    lemma_h_norm2_raw_zero(x);
    assert(h_norm2_raw(x) / 4 >= 0) by {
        vstd::arithmetic::div_mod::lemma_div_is_ordered(0, h_norm2_raw(x), 4);
    }
}

/// Euler's four-square identity on plain integers.
#[verifier::rlimit(100)]
pub(crate) proof fn lemma_euler_raw(
    x0: int, x1: int, x2: int, x3: int,
    y0: int, y1: int, y2: int, y3: int,
)
    ensures
        (x0 * y0 - x1 * y1 - x2 * y2 - x3 * y3) * (x0 * y0 - x1 * y1 - x2 * y2 - x3 * y3)
        + (x0 * y1 + x1 * y0 + x2 * y3 - x3 * y2) * (x0 * y1 + x1 * y0 + x2 * y3 - x3 * y2)
        + (x0 * y2 - x1 * y3 + x2 * y0 + x3 * y1) * (x0 * y2 - x1 * y3 + x2 * y0 + x3 * y1)
        + (x0 * y3 + x1 * y2 - x2 * y1 + x3 * y0) * (x0 * y3 + x1 * y2 - x2 * y1 + x3 * y0)
        == (x0 * x0 + x1 * x1 + x2 * x2 + x3 * x3) * (y0 * y0 + y1 * y1 + y2 * y2 + y3 * y3),
{
    broadcast use vstd::arithmetic::mul::group_mul_properties;

    assert((x0 * y0 - x1 * y1 - x2 * y2 - x3 * y3) * (x0 * y0 - x1 * y1 - x2 * y2 - x3 * y3)
        + (x0 * y1 + x1 * y0 + x2 * y3 - x3 * y2) * (x0 * y1 + x1 * y0 + x2 * y3 - x3 * y2)
        + (x0 * y2 - x1 * y3 + x2 * y0 + x3 * y1) * (x0 * y2 - x1 * y3 + x2 * y0 + x3 * y1)
        + (x0 * y3 + x1 * y2 - x2 * y1 + x3 * y0) * (x0 * y3 + x1 * y2 - x2 * y1 + x3 * y0)
        == (x0 * x0 + x1 * x1 + x2 * x2 + x3 * x3) * (y0 * y0 + y1 * y1 + y2 * y2 + y3 * y3));
}

/// Euler's four-square identity on the raw bilinear forms.
pub proof fn lemma_h_euler(x: QModel, y: QModel)
    ensures
        h_raw_a(x, y) * h_raw_a(x, y) + h_raw_b(x, y) * h_raw_b(x, y) + h_raw_c(x, y) * h_raw_c(
            x,
            y,
        ) + h_raw_d(x, y) * h_raw_d(x, y) == h_norm2_raw(x) * h_norm2_raw(y),
{
    lemma_euler_raw(x.a, x.b, x.c, x.d, y.a, y.b, y.c, y.d);
}

/// The parity of a product is the product of the parities.
proof fn lemma_prod_parity(x: int, y: int, p: int, q: int)
    requires
        x % 2 == p,
        y % 2 == q,
        0 <= p < 2,
        0 <= q < 2,
    ensures
        (x * y) % 2 == p * q,
{
    vstd::arithmetic::div_mod::lemma_mul_mod_noop_general(x, y, 2);
    assert(p * q == 0 || p * q == 1) by (nonlinear_arith)
        requires
            0 <= p < 2 && 0 <= q < 2,
    ;
    vstd::arithmetic::div_mod::lemma_small_mod((p * q) as nat, 2);
}

/// Four terms of equal parity: every signed sum with an even count of
/// minus signs is even.
proof fn lemma_form_even(t0: int, t1: int, t2: int, t3: int, w: int)
    requires
        t0 % 2 == w,
        t1 % 2 == w,
        t2 % 2 == w,
        t3 % 2 == w,
        0 <= w < 2,
    ensures
        (t0 - t1 - t2 - t3) % 2 == 0,
        (t0 + t1 + t2 - t3) % 2 == 0,
        (t0 - t1 + t2 + t3) % 2 == 0,
        (t0 + t1 - t2 + t3) % 2 == 0,
{
    vstd::arithmetic::div_mod::lemma_sub_mod_noop(t0, t1, 2);
    vstd::arithmetic::div_mod::lemma_add_mod_noop(t0, t1, 2);
    vstd::arithmetic::div_mod::lemma_sub_mod_noop(t0 - t1, t2, 2);
    vstd::arithmetic::div_mod::lemma_add_mod_noop(t0 + t1, t2, 2);
    vstd::arithmetic::div_mod::lemma_add_mod_noop(t0 - t1, t2, 2);
    vstd::arithmetic::div_mod::lemma_sub_mod_noop(t0 + t1, t2, 2);
    vstd::arithmetic::div_mod::lemma_sub_mod_noop(t0 - t1 - t2, t3, 2);
    vstd::arithmetic::div_mod::lemma_sub_mod_noop(t0 + t1 + t2, t3, 2);
    vstd::arithmetic::div_mod::lemma_add_mod_noop(t0 - t1 + t2, t3, 2);
    vstd::arithmetic::div_mod::lemma_add_mod_noop(t0 + t1 - t2, t3, 2);
}

/// On well-formed operands every raw product form is even, so the stored
/// product components are exact halves.
pub proof fn lemma_h_raw_even(x: QModel, y: QModel)
    requires
        h_wf(x),
        h_wf(y),
    ensures
        h_raw_a(x, y) == 2 * h_mul(x, y).a,
        h_raw_b(x, y) == 2 * h_mul(x, y).b,
        h_raw_c(x, y) == 2 * h_mul(x, y).c,
        h_raw_d(x, y) == 2 * h_mul(x, y).d,
{
    let p = x.a % 2;
    let q = y.a % 2;
    lemma_prod_parity(x.a, y.a, p, q);
    lemma_prod_parity(x.b, y.b, p, q);
    lemma_prod_parity(x.c, y.c, p, q);
    lemma_prod_parity(x.d, y.d, p, q);
    lemma_prod_parity(x.a, y.b, p, q);
    lemma_prod_parity(x.b, y.a, p, q);
    lemma_prod_parity(x.c, y.d, p, q);
    lemma_prod_parity(x.d, y.c, p, q);
    lemma_prod_parity(x.a, y.c, p, q);
    lemma_prod_parity(x.b, y.d, p, q);
    lemma_prod_parity(x.c, y.a, p, q);
    lemma_prod_parity(x.d, y.b, p, q);
    lemma_prod_parity(x.a, y.d, p, q);
    lemma_prod_parity(x.b, y.c, p, q);
    lemma_prod_parity(x.c, y.b, p, q);
    lemma_prod_parity(x.d, y.a, p, q);
    let w = p * q;
    assert(0 <= w < 2) by (nonlinear_arith)
        requires
            w == p * q,
            0 <= p < 2 && 0 <= q < 2,
    ;
    lemma_form_even(x.a * y.a, x.b * y.b, x.c * y.c, x.d * y.d, w);
    lemma_form_even(x.a * y.b, x.b * y.a, x.c * y.d, x.d * y.c, w);
    lemma_form_even(x.a * y.c, x.b * y.d, x.c * y.a, x.d * y.b, w);
    lemma_form_even(x.a * y.d, x.b * y.c, x.c * y.b, x.d * y.a, w);
    lemma_even_halves(h_raw_a(x, y));
    lemma_even_halves(h_raw_b(x, y));
    lemma_even_halves(h_raw_c(x, y));
    lemma_even_halves(h_raw_d(x, y));
}

/// A value with zero remainder mod 2 is twice its half.
proof fn lemma_even_halves(v: int)
    requires
        v % 2 == 0,
    ensures
        v == 2 * (v / 2),
{
    lemma_fundamental_div_mod(v, 2);
}

/// The square of a component is its parity plus a multiple of four.
proof fn lemma_square_parity(x: int, p: int)
    requires
        x % 2 == p,
        0 <= p < 2,
    ensures
        x * x == 4 * ((x / 2) * (x / 2) + (x / 2) * p) + p * p,
{
    lemma_fundamental_div_mod(x, 2);
    let h = x / 2;
    assert((2 * h + p) * (2 * h + p) == 4 * (h * h + h * p) + p * p) by (nonlinear_arith);
}

/// On a well-formed value the raw norm form is four times the norm.
pub proof fn lemma_h_norm2_exact(x: QModel)
    requires
        h_wf(x),
    ensures
        h_norm2_raw(x) == 4 * h_norm2(x),
{
    let p = x.a % 2;
    lemma_square_parity(x.a, p);
    lemma_square_parity(x.b, p);
    lemma_square_parity(x.c, p);
    lemma_square_parity(x.d, p);
    let m = (x.a / 2) * (x.a / 2) + (x.a / 2) * p + (x.b / 2) * (x.b / 2) + (x.b / 2) * p + (x.c
        / 2) * (x.c / 2) + (x.c / 2) * p + (x.d / 2) * (x.d / 2) + (x.d / 2) * p + p * p;
    assert(h_norm2_raw(x) == 4 * m);
    vstd::arithmetic::div_mod::lemma_fundamental_div_mod_converse(h_norm2_raw(x), 4, m, 0);
}

/// Arithmetic glue: halved forms and exact quarters give the product of
/// the two norms.
proof fn lemma_norm_combine(
    z0: int, z1: int, z2: int, z3: int,
    s0: int, s1: int, s2: int, s3: int,
    nrx: int, nry: int, nx: int, ny: int, nrz: int,
)
    requires
        s0 == 2 * z0 && s1 == 2 * z1 && s2 == 2 * z2 && s3 == 2 * z3,
        s0 * s0 + s1 * s1 + s2 * s2 + s3 * s3 == nrx * nry,
        nrx == 4 * nx,
        nry == 4 * ny,
        nrz == z0 * z0 + z1 * z1 + z2 * z2 + z3 * z3,
    ensures
        nrz == 4 * (nx * ny),
{
    assert(s0 * s0 == 4 * (z0 * z0)) by (nonlinear_arith)
        requires
            s0 == 2 * z0,
    ;
    assert(s1 * s1 == 4 * (z1 * z1)) by (nonlinear_arith)
        requires
            s1 == 2 * z1,
    ;
    assert(s2 * s2 == 4 * (z2 * z2)) by (nonlinear_arith)
        requires
            s2 == 2 * z2,
    ;
    assert(s3 * s3 == 4 * (z3 * z3)) by (nonlinear_arith)
        requires
            s3 == 2 * z3,
    ;
    assert(nrx * nry == 16 * (nx * ny)) by (nonlinear_arith)
        requires
            nrx == 4 * nx && nry == 4 * ny,
    ;
}

/// The squared norm is multiplicative on well-formed values.
pub proof fn lemma_h_norm2_mul(x: QModel, y: QModel)
    requires
        h_wf(x),
        h_wf(y),
    ensures
        h_norm2(h_mul(x, y)) == h_norm2(x) * h_norm2(y),
{
    let z = h_mul(x, y);
    lemma_h_euler(x, y);
    lemma_h_raw_even(x, y);
    lemma_h_norm2_exact(x);
    lemma_h_norm2_exact(y);
    lemma_norm_combine(
        z.a, z.b, z.c, z.d,
        h_raw_a(x, y), h_raw_b(x, y), h_raw_c(x, y), h_raw_d(x, y),
        h_norm2_raw(x), h_norm2_raw(y), h_norm2(x), h_norm2(y), h_norm2_raw(z),
    );
    vstd::arithmetic::div_mod::lemma_fundamental_div_mod_converse(
        h_norm2_raw(z), 4, h_norm2(x) * h_norm2(y), 0,
    );
}



/// Canonical associate for rank 4: flip the sign when the scalar part is
/// negative.
pub open spec fn h_normalize(x: QModel) -> QModel {
    if h_is_zero(x) {
        x
    } else if x.a > 0 {
        x
    } else if -x.a > 0 {
        h_neg(x)
    } else {
        x
    }
}

/// Normalization is idempotent.
pub proof fn lemma_h_normalize_idempotent(x: QModel)
    ensures
        h_normalize(h_normalize(x)) == h_normalize(x),
{
}

/// Normalization preserves the squared norm.
pub proof fn lemma_h_normalize_norm2(x: QModel)
    ensures
        h_norm2(h_normalize(x)) == h_norm2(x),
{
    lemma_h_neg_norm2(x);
}


/// Negation preserves parity.
pub proof fn lemma_neg_parity(v: int)
    ensures
        (-v) % 2 == v % 2,
{
    vstd::arithmetic::div_mod::lemma_add_mod_noop(v, -v, 2);
    vstd::arithmetic::div_mod::lemma_mod_division_less_than_divisor(v, 2);
    vstd::arithmetic::div_mod::lemma_mod_division_less_than_divisor(-v, 2);
    vstd::arithmetic::div_mod::lemma_small_mod(0, 2);
    vstd::arithmetic::div_mod::lemma_small_mod(1, 2);
    if v % 2 == 0 {
        assert((0 + (-v) % 2) % 2 == 0);
        vstd::arithmetic::div_mod::lemma_small_mod(((-v) % 2) as nat, 2);
    } else {
        assert((1 + (-v) % 2) % 2 == 0);
        if (-v) % 2 == 0 {
            assert((1 + 0) % 2 == 0);
        }
    }
}

/// The conjugate of a well-formed value is well formed.
pub proof fn lemma_h_wf_conj(d: QModel)
    requires
        h_wf(d),
    ensures
        h_wf(h_conj(d)),
{
    lemma_neg_parity(d.b);
    lemma_neg_parity(d.c);
    lemma_neg_parity(d.d);
}

/// The conjugate preserves the raw norm form.
pub proof fn lemma_h_conj_norm2_raw(d: QModel)
    ensures
        h_norm2_raw(h_conj(d)) == h_norm2_raw(d),
{
    assert((-d.b) * (-d.b) == d.b * d.b && (-d.c) * (-d.c) == d.c * d.c && (-d.d) * (-d.d) == d.d
        * d.d) by (nonlinear_arith);
}

/// Multiplying a product by the conjugate of its right factor scales the
/// left factor by the raw norm of that factor: the bilinear-form face of
/// `(q*d)*conj(d) == q*(d*conj(d))`, one component per lemma.
#[verifier::rlimit(100)]
proof fn lemma_assoc_conj_raw_0(
    q0: int, q1: int, q2: int, q3: int,
    d0: int, d1: int, d2: int, d3: int,
)
    ensures
        (q0 * d0 - q1 * d1 - q2 * d2 - q3 * d3) * d0 + (q0 * d1 + q1 * d0 + q2 * d3 - q3 * d2)
            * d1 + (q0 * d2 - q1 * d3 + q2 * d0 + q3 * d1) * d2 + (q0 * d3 + q1 * d2 - q2 * d1
            + q3 * d0) * d3 == (d0 * d0 + d1 * d1 + d2 * d2 + d3 * d3) * q0,
{
    broadcast use vstd::arithmetic::mul::group_mul_properties;

}

#[verifier::rlimit(100)]
proof fn lemma_assoc_conj_raw_1(
    q0: int, q1: int, q2: int, q3: int,
    d0: int, d1: int, d2: int, d3: int,
)
    ensures
        (q0 * d1 + q1 * d0 + q2 * d3 - q3 * d2) * d0 - (q0 * d0 - q1 * d1 - q2 * d2 - q3 * d3)
            * d1 - (q0 * d2 - q1 * d3 + q2 * d0 + q3 * d1) * d3 + (q0 * d3 + q1 * d2 - q2 * d1
            + q3 * d0) * d2 == (d0 * d0 + d1 * d1 + d2 * d2 + d3 * d3) * q1,
{
    broadcast use vstd::arithmetic::mul::group_mul_properties;

}

#[verifier::rlimit(100)]
proof fn lemma_assoc_conj_raw_2(
    q0: int, q1: int, q2: int, q3: int,
    d0: int, d1: int, d2: int, d3: int,
)
    ensures
        (q0 * d2 - q1 * d3 + q2 * d0 + q3 * d1) * d0 + (q0 * d1 + q1 * d0 + q2 * d3 - q3 * d2)
            * d3 - (q0 * d0 - q1 * d1 - q2 * d2 - q3 * d3) * d2 - (q0 * d3 + q1 * d2 - q2 * d1
            + q3 * d0) * d1 == (d0 * d0 + d1 * d1 + d2 * d2 + d3 * d3) * q2,
{
    broadcast use vstd::arithmetic::mul::group_mul_properties;

}

#[verifier::rlimit(100)]
proof fn lemma_assoc_conj_raw_3(
    q0: int, q1: int, q2: int, q3: int,
    d0: int, d1: int, d2: int, d3: int,
)
    ensures
        (q0 * d3 + q1 * d2 - q2 * d1 + q3 * d0) * d0 - (q0 * d0 - q1 * d1 - q2 * d2 - q3 * d3)
            * d3 - (q0 * d1 + q1 * d0 + q2 * d3 - q3 * d2) * d2 + (q0 * d2 - q1 * d3 + q2 * d0
            + q3 * d1) * d1 == (d0 * d0 + d1 * d1 + d2 * d2 + d3 * d3) * q3,
{
    broadcast use vstd::arithmetic::mul::group_mul_properties;

}

/// The same fact over the model: with `w` the raw-form vector of `(q, d)`,
/// the raw forms of `(w, conj(d))` are the raw norm of `d` times `q`.
pub proof fn lemma_h_assoc_conj(q: QModel, d: QModel)
    ensures
        ({
            let w = QModel {
                a: h_raw_a(q, d),
                b: h_raw_b(q, d),
                c: h_raw_c(q, d),
                d: h_raw_d(q, d),
            };
            let cd = h_conj(d);
            h_raw_a(w, cd) == h_norm2_raw(d) * q.a && h_raw_b(w, cd) == h_norm2_raw(d) * q.b
                && h_raw_c(w, cd) == h_norm2_raw(d) * q.c && h_raw_d(w, cd) == h_norm2_raw(d)
                * q.d
        }),
{
    let w = QModel { a: h_raw_a(q, d), b: h_raw_b(q, d), c: h_raw_c(q, d), d: h_raw_d(q, d) };
    let cd = h_conj(d);
    lemma_assoc_conj_raw_0(q.a, q.b, q.c, q.d, d.a, d.b, d.c, d.d);
    lemma_assoc_conj_raw_1(q.a, q.b, q.c, q.d, d.a, d.b, d.c, d.d);
    lemma_assoc_conj_raw_2(q.a, q.b, q.c, q.d, d.a, d.b, d.c, d.d);
    lemma_assoc_conj_raw_3(q.a, q.b, q.c, q.d, d.a, d.b, d.c, d.d);
    assert(h_raw_a(w, cd) == w.a * d.a + w.b * d.b + w.c * d.c + w.d * d.d) by (nonlinear_arith)
        requires
            cd.a == d.a && cd.b == -d.b && cd.c == -d.c && cd.d == -d.d,
            h_raw_a(w, cd) == w.a * cd.a - w.b * cd.b - w.c * cd.c - w.d * cd.d,
    ;
    assert(h_raw_b(w, cd) == w.b * d.a - w.a * d.b - w.c * d.d + w.d * d.c) by (nonlinear_arith)
        requires
            cd.a == d.a && cd.b == -d.b && cd.c == -d.c && cd.d == -d.d,
            h_raw_b(w, cd) == w.a * cd.b + w.b * cd.a + w.c * cd.d - w.d * cd.c,
    ;
    assert(h_raw_c(w, cd) == w.c * d.a + w.b * d.d - w.a * d.c - w.d * d.b) by (nonlinear_arith)
        requires
            cd.a == d.a && cd.b == -d.b && cd.c == -d.c && cd.d == -d.d,
            h_raw_c(w, cd) == w.a * cd.c - w.b * cd.d + w.c * cd.a + w.d * cd.b,
    ;
    assert(h_raw_d(w, cd) == w.d * d.a - w.a * d.d - w.b * d.c + w.c * d.b) by (nonlinear_arith)
        requires
            cd.a == d.a && cd.b == -d.b && cd.c == -d.c && cd.d == -d.d,
            h_raw_d(w, cd) == w.a * cd.d + w.b * cd.c - w.c * cd.b + w.d * cd.a,
    ;
}

/// The raw forms are linear in their first argument.
#[verifier::rlimit(100)]
pub proof fn lemma_h_raw_linear_sub(x: QModel, p: QModel, y: QModel)
    ensures
        h_raw_a(h_sub(x, p), y) == h_raw_a(x, y) - h_raw_a(p, y),
        h_raw_b(h_sub(x, p), y) == h_raw_b(x, y) - h_raw_b(p, y),
        h_raw_c(h_sub(x, p), y) == h_raw_c(x, y) - h_raw_c(p, y),
        h_raw_d(h_sub(x, p), y) == h_raw_d(x, y) - h_raw_d(p, y),
{
    assert((x.a - p.a) * y.a - (x.b - p.b) * y.b - (x.c - p.c) * y.c - (x.d - p.d) * y.d == (x.a
        * y.a - x.b * y.b - x.c * y.c - x.d * y.d) - (p.a * y.a - p.b * y.b - p.c * y.c - p.d
        * y.d)) by (nonlinear_arith);
    assert((x.a - p.a) * y.b + (x.b - p.b) * y.a + (x.c - p.c) * y.d - (x.d - p.d) * y.c == (x.a
        * y.b + x.b * y.a + x.c * y.d - x.d * y.c) - (p.a * y.b + p.b * y.a + p.c * y.d - p.d
        * y.c)) by (nonlinear_arith);
    assert((x.a - p.a) * y.c - (x.b - p.b) * y.d + (x.c - p.c) * y.a + (x.d - p.d) * y.b == (x.a
        * y.c - x.b * y.d + x.c * y.a + x.d * y.b) - (p.a * y.c - p.b * y.d + p.c * y.a + p.d
        * y.b)) by (nonlinear_arith);
    assert((x.a - p.a) * y.d + (x.b - p.b) * y.c - (x.c - p.c) * y.b + (x.d - p.d) * y.a == (x.a
        * y.d + x.b * y.c - x.c * y.b + x.d * y.a) - (p.a * y.d + p.b * y.c - p.c * y.b + p.d
        * y.a)) by (nonlinear_arith);
}

/// Doubling the first argument doubles every raw form.
pub proof fn lemma_h_raw_doubled(p: QModel, w: QModel, y: QModel)
    requires
        w.a == 2 * p.a,
        w.b == 2 * p.b,
        w.c == 2 * p.c,
        w.d == 2 * p.d,
    ensures
        h_raw_a(w, y) == 2 * h_raw_a(p, y),
        h_raw_b(w, y) == 2 * h_raw_b(p, y),
        h_raw_c(w, y) == 2 * h_raw_c(p, y),
        h_raw_d(w, y) == 2 * h_raw_d(p, y),
{
    assert((2 * p.a) * y.a - (2 * p.b) * y.b - (2 * p.c) * y.c - (2 * p.d) * y.d == 2 * (p.a * y.a
        - p.b * y.b - p.c * y.c - p.d * y.d)) by (nonlinear_arith);
    assert((2 * p.a) * y.b + (2 * p.b) * y.a + (2 * p.c) * y.d - (2 * p.d) * y.c == 2 * (p.a * y.b
        + p.b * y.a + p.c * y.d - p.d * y.c)) by (nonlinear_arith);
    assert((2 * p.a) * y.c - (2 * p.b) * y.d + (2 * p.c) * y.a + (2 * p.d) * y.b == 2 * (p.a * y.c
        - p.b * y.d + p.c * y.a + p.d * y.b)) by (nonlinear_arith);
    assert((2 * p.a) * y.d + (2 * p.b) * y.c - (2 * p.c) * y.b + (2 * p.d) * y.a == 2 * (p.a * y.d
        + p.b * y.c - p.c * y.b + p.d * y.a)) by (nonlinear_arith);
}

/// Two quotient candidates a half-step apart cannot both leave a large
/// residual: the squares of two residuals that differ by an odd multiple
/// of `n` and are each at most `n` sum to at most `n` squared.
pub proof fn lemma_two_candidate_sq(f: int, g: int, n: int, m: int)
    requires
        -n <= f <= n,
        -n <= g <= n,
        g == f - m * n,
        m % 2 == 1,
        n > 0,
    ensures
        f * f + g * g <= n * n,
{
    assert(m != 0) by {
        if m == 0 {
            assert(0int % 2 == 0) by {
                vstd::arithmetic::div_mod::lemma_small_mod(0, 2);
            }
        }
    }
    assert(m != 2 && m != -2) by {
        vstd::arithmetic::div_mod::lemma_fundamental_div_mod_converse(2, 2, 1, 0);
        vstd::arithmetic::div_mod::lemma_fundamental_div_mod_converse(-2, 2, -1, 0);
    }
    assert(m == 1 || m == -1) by (nonlinear_arith)
        requires
            g == f - m * n,
            -n <= f <= n,
            -n <= g <= n,
            n > 0,
            m != 0,
            m != 2 && m != -2,
    ;
    if m == 1 {
        assert(f * f + g * g <= n * n) by (nonlinear_arith)
            requires
                g == f - n,
                -n <= g,
                f <= n,
                n > 0,
        ;
    } else {
        assert(f * f + g * g <= n * n) by (nonlinear_arith)
            requires
                g == f + n,
                g <= n,
                -n <= f,
                n > 0,
        ;
    }
}


/// The inner-product exchange identity behind the Cayley-Dickson doubling:
/// `<p*r, conj(s)*q> == <s*p, q*conj(r)>` over the Hamilton bilinear forms.
#[verifier::rlimit(100)]
#[verifier::spinoff_prover]
pub(crate) proof fn lemma_exchange_raw(
    p0: int, p1: int, p2: int, p3: int,
    q0: int, q1: int, q2: int, q3: int,
    r0: int, r1: int, r2: int, r3: int,
    s0: int, s1: int, s2: int, s3: int,
)
    ensures
        ({
            let pr0 = p0 * r0 - p1 * r1 - p2 * r2 - p3 * r3;
            let pr1 = p0 * r1 + p1 * r0 + p2 * r3 - p3 * r2;
            let pr2 = p0 * r2 - p1 * r3 + p2 * r0 + p3 * r1;
            let pr3 = p0 * r3 + p1 * r2 - p2 * r1 + p3 * r0;
            let cq0 = s0 * q0 + s1 * q1 + s2 * q2 + s3 * q3;
            let cq1 = s0 * q1 - s1 * q0 - s2 * q3 + s3 * q2;
            let cq2 = s0 * q2 + s1 * q3 - s2 * q0 - s3 * q1;
            let cq3 = s0 * q3 - s1 * q2 + s2 * q1 - s3 * q0;
            let sp0 = s0 * p0 - s1 * p1 - s2 * p2 - s3 * p3;
            let sp1 = s0 * p1 + s1 * p0 + s2 * p3 - s3 * p2;
            let sp2 = s0 * p2 - s1 * p3 + s2 * p0 + s3 * p1;
            let sp3 = s0 * p3 + s1 * p2 - s2 * p1 + s3 * p0;
            let qr0 = q0 * r0 + q1 * r1 + q2 * r2 + q3 * r3;
            let qr1 = q1 * r0 - q0 * r1 + q3 * r2 - q2 * r3;
            let qr2 = q2 * r0 - q0 * r2 + q1 * r3 - q3 * r1;
            let qr3 = q3 * r0 - q0 * r3 + q2 * r1 - q1 * r2;
            pr0 * cq0 + pr1 * cq1 + pr2 * cq2 + pr3 * cq3
                == sp0 * qr0 + sp1 * qr1 + sp2 * qr2 + sp3 * qr3
        }),
{
    broadcast use vstd::arithmetic::mul::group_mul_is_commutative_and_distributive;
    broadcast use vstd::arithmetic::mul::lemma_mul_is_associative;

}

} // verus!
