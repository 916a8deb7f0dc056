//! Mathematical model of the rank-2 algebra: Gaussian integers as pairs of
//! unbounded integers, with the laws that the executable type relies on.
use vstd::prelude::*;

verus! {

/// `a + b*i` with unbounded integer components.
pub struct CModel {
    pub a: int,
    pub b: int,
}

pub open spec fn c_zero() -> CModel {
    CModel { a: 0, b: 0 }
}

pub open spec fn c_one() -> CModel {
    CModel { a: 1, b: 0 }
}

pub open spec fn c_imag() -> CModel {
    CModel { a: 0, b: 1 }
}

pub open spec fn c_add(x: CModel, y: CModel) -> CModel {
    CModel { a: x.a + y.a, b: x.b + y.b }
}

pub open spec fn c_sub(x: CModel, y: CModel) -> CModel {
    CModel { a: x.a - y.a, b: x.b - y.b }
}

pub open spec fn c_neg(x: CModel) -> CModel {
    CModel { a: -x.a, b: -x.b }
}

pub open spec fn c_conj(x: CModel) -> CModel {
    CModel { a: x.a, b: -x.b }
}

pub open spec fn c_mul(x: CModel, y: CModel) -> CModel {
    CModel { a: x.a * y.a - x.b * y.b, b: x.a * y.b + x.b * y.a }
}

pub open spec fn c_norm2(x: CModel) -> int {
    x.a * x.a + x.b * x.b
}

pub open spec fn c_is_zero(x: CModel) -> bool {
    x.a == 0 && x.b == 0
}

pub open spec fn c_is_unit(x: CModel) -> bool {
    c_norm2(x) == 1
}

/// `d` divides `x` in the Gaussian integers.
pub open spec fn c_divides(d: CModel, x: CModel) -> bool {
    exists|q: CModel| x == #[trigger] c_mul(q, d)
}

/// The conjugate is an involution.
pub proof fn lemma_c_conj_involution(x: CModel)
    ensures
        c_conj(c_conj(x)) == x,
{
}

/// The conjugate is additive.
pub proof fn lemma_c_conj_additive(x: CModel, y: CModel)
    ensures
        c_conj(c_add(x, y)) == c_add(c_conj(x), c_conj(y)),
{
}

/// The conjugate leaves the squared norm unchanged.
pub proof fn lemma_c_conj_norm2(x: CModel)
    ensures
        c_norm2(c_conj(x)) == c_norm2(x),
{
    assert((-x.b) * (-x.b) == x.b * x.b) by (nonlinear_arith);
}

/// The squared norm is multiplicative.
pub proof fn lemma_c_norm2_mul(x: CModel, y: CModel)
    ensures
        c_norm2(c_mul(x, y)) == c_norm2(x) * c_norm2(y),
{
    broadcast use vstd::arithmetic::mul::group_mul_properties;

    assert((x.a * y.a - x.b * y.b) * (x.a * y.a - x.b * y.b) + (x.a * y.b + x.b * y.a) * (x.a
        * y.b + x.b * y.a) == (x.a * x.a + x.b * x.b) * (y.a * y.a + y.b * y.b));
}

/// The squared norm is zero exactly on the zero value.
pub proof fn lemma_c_norm2_zero(x: CModel)
    ensures
        c_norm2(x) >= 0,
        c_norm2(x) == 0 <==> c_is_zero(x),
{
    assert(x.a * x.a >= 0 && x.b * x.b >= 0 && (x.a != 0 ==> x.a * x.a > 0) && (x.b != 0 ==> x.b
        * x.b > 0)) by (nonlinear_arith);
}

/// Multiplication by `d` then by `e` is multiplication by `e*d`.
pub proof fn lemma_c_mul_assoc(x: CModel, y: CModel, z: CModel)
    ensures
        c_mul(c_mul(x, y), z) == c_mul(x, c_mul(y, z)),
{
    broadcast use vstd::arithmetic::mul::group_mul_properties;

}


pub proof fn lemma_c_mul_comm(x: CModel, y: CModel)
    ensures
        c_mul(x, y) == c_mul(y, x),
{
    broadcast use vstd::arithmetic::mul::group_mul_properties;

}

pub proof fn lemma_c_mul_one(x: CModel)
    ensures
        c_mul(x, c_one()) == x,
        c_mul(c_one(), x) == x,
{
}


/// Multiplication distributes over subtraction.
pub proof fn lemma_c_mul_distributes_sub(x: CModel, y: CModel, z: CModel)
    ensures
        c_mul(c_sub(x, y), z) == c_sub(c_mul(x, z), c_mul(y, z)),
{
    assert((x.a - y.a) * z.a - (x.b - y.b) * z.b == (x.a * z.a - x.b * z.b) - (y.a * z.a - y.b
        * z.b)) by (nonlinear_arith);
    assert((x.a - y.a) * z.b + (x.b - y.b) * z.a == (x.a * z.b + x.b * z.a) - (y.a * z.b + y.b
        * z.a)) by (nonlinear_arith);
}

/// Multiplication distributes over addition.
pub proof fn lemma_c_mul_distributes_add(x: CModel, y: CModel, z: CModel)
    ensures
        c_mul(c_add(x, y), z) == c_add(c_mul(x, z), c_mul(y, z)),
{
    assert((x.a + y.a) * z.a - (x.b + y.b) * z.b == (x.a * z.a - x.b * z.b) + (y.a * z.a - y.b
        * z.b)) by (nonlinear_arith);
    assert((x.a + y.a) * z.b + (x.b + y.b) * z.a == (x.a * z.b + x.b * z.a) + (y.a * z.b + y.b
        * z.a)) by (nonlinear_arith);
}

/// A value times its conjugate is its squared norm as a scalar.
pub proof fn lemma_c_mul_conj(x: CModel)
    ensures
        c_mul(x, c_conj(x)) == (CModel { a: c_norm2(x), b: 0 }),
{
    assert(x.a * x.a - x.b * (-x.b) == x.a * x.a + x.b * x.b) by (nonlinear_arith);
    assert(x.a * (-x.b) + x.b * x.a == 0) by (nonlinear_arith);
}


/// The units are exactly the four values of squared norm 1.
pub proof fn lemma_c_units(x: CModel)
    ensures
        c_is_unit(x) <==> (x == c_one() || x == c_imag() || x == c_neg(c_one()) || x == c_neg(
            c_imag(),
        )),
{
    assert(x.a * x.a + x.b * x.b == 1 <==> ((x.a == 1 && x.b == 0) || (x.a == 0 && x.b == 1) || (
    x.a == -1 && x.b == 0) || (x.a == 0 && x.b == -1))) by (nonlinear_arith);
}

/// Quotient of the Euclidean division: each component of `x * conj(d) / norm2(d)`
/// rounded half away from zero.
pub open spec fn c_divq(x: CModel, d: CModel) -> CModel {
    let t = c_mul(x, c_conj(d));
    let n = c_norm2(d);
    CModel {
        a: crate::num_utils::rnd_half_away(t.a, n),
        b: crate::num_utils::rnd_half_away(t.b, n),
    }
}

/// Remainder of the Euclidean division.
pub open spec fn c_divr(x: CModel, d: CModel) -> CModel {
    c_sub(x, c_mul(c_divq(x, d), d))
}

/// The Euclidean property of the rank-2 division: the division is exact as an
/// identity, and the remainder has a strictly smaller squared norm than the
/// divisor.
pub proof fn lemma_c_divrem(x: CModel, d: CModel)
    requires
        !c_is_zero(d),
    ensures
        c_add(c_mul(c_divq(x, d), d), c_divr(x, d)) == x,
        c_norm2(c_divr(x, d)) < c_norm2(d),
{
    let t = c_mul(x, c_conj(d));
    let n = c_norm2(d);
    let q = c_divq(x, d);
    let r = c_divr(x, d);
    lemma_c_norm2_zero(d);

    // r * conj(d) == t - n*q, componentwise.
    lemma_c_mul_distributes_sub(x, c_mul(q, d), c_conj(d));
    lemma_c_mul_assoc(q, d, c_conj(d));
    lemma_c_mul_conj(d);
    let s = c_mul(r, c_conj(d));
    assert(c_mul(q, CModel { a: n, b: 0 }) == (CModel { a: q.a * n, b: q.b * n })) by {
        assert(q.a * n - q.b * 0 == q.a * n && q.a * 0 + q.b * n == q.b * n) by (nonlinear_arith);
    }
    assert(s == (CModel { a: t.a - q.a * n, b: t.b - q.b * n }));

    // Each component of r * conj(d) is at most n/2 in magnitude.
    crate::num_utils::lemma_rnd_half_away_close(t.a, n);
    crate::num_utils::lemma_rnd_half_away_close(t.b, n);
    assert(4 * c_norm2(s) <= 2 * (n * n)) by (nonlinear_arith)
        requires
            -n <= 2 * (t.a - n * q.a) && 2 * (t.a - n * q.a) <= n,
            -n <= 2 * (t.b - n * q.b) && 2 * (t.b - n * q.b) <= n,
            c_norm2(s) == (t.a - q.a * n) * (t.a - q.a * n) + (t.b - q.b * n) * (t.b - q.b * n),
    ;

    // norm2(s) == norm2(r) * n, so norm2(r) < n follows.
    lemma_c_norm2_mul(r, c_conj(d));
    lemma_c_conj_norm2(d);
    lemma_c_norm2_zero(r);
    assert(c_norm2(r) < n) by (nonlinear_arith)
        requires
            4 * (c_norm2(r) * n) <= 2 * (n * n),
            n > 0,
            c_norm2(r) >= 0,
    ;
    lemma_c_norm2_zero(r);
}

/// Canonical associate: the representative in the closed first quadrant
/// (positive real part, nonnegative imaginary part), with the positive real
/// axis chosen for values on an axis, and zero for zero.
pub open spec fn c_normalize(x: CModel) -> CModel {
    if c_is_zero(x) {
        x
    } else if x.a == 0 {
        CModel { a: if x.b >= 0 { x.b } else { -x.b }, b: 0 }
    } else if x.a > 0 && x.b >= 0 {
        x
    } else if -x.b > 0 && x.a >= 0 {
        CModel { a: -x.b, b: x.a }
    } else if -x.a > 0 && -x.b >= 0 {
        CModel { a: -x.a, b: -x.b }
    } else {
        CModel { a: x.b, b: -x.a }
    }
}

/// Normalization is idempotent.
pub proof fn lemma_c_normalize_idempotent(x: CModel)
    ensures
        c_normalize(c_normalize(x)) == c_normalize(x),
{
}

/// The normal form is the value times some unit.
pub proof fn lemma_c_normalize_unit(x: CModel)
    ensures
        exists|u: CModel|
            c_is_unit(u) && c_normalize(x) == #[trigger] c_mul(x, u),
{
    let nx = c_normalize(x);
    lemma_c_unit_table(x);
    if c_is_zero(x) || (x.a != 0 && x.a > 0 && x.b >= 0) {
        lemma_c_mul_one(x);
        assert(c_is_unit(c_one()) && nx == c_mul(x, c_one()));
    } else if x.a == 0 && x.b >= 0 {
        assert(c_is_unit(c_neg(c_imag())) && nx == c_mul(x, c_neg(c_imag())));
    } else if x.a == 0 {
        assert(c_is_unit(c_imag()) && nx == c_mul(x, c_imag()));
    } else if -x.b > 0 && x.a >= 0 {
        assert(c_is_unit(c_imag()) && nx == c_mul(x, c_imag()));
    } else if -x.a > 0 && -x.b >= 0 {
        assert(c_is_unit(c_neg(c_one())) && nx == c_mul(x, c_neg(c_one())));
    } else {
        assert(c_is_unit(c_neg(c_imag())) && nx == c_mul(x, c_neg(c_imag())));
    }
}

/// The four units have squared norm 1, and multiplying `x` by each of them
/// rotates its components.
pub proof fn lemma_c_unit_table(x: CModel)
    ensures
        c_is_unit(c_one()),
        c_is_unit(c_imag()),
        c_is_unit(c_neg(c_one())),
        c_is_unit(c_neg(c_imag())),
        c_mul(x, c_one()) == x,
        c_mul(x, c_imag()) == (CModel { a: -x.b, b: x.a }),
        c_mul(x, c_neg(c_one())) == (CModel { a: -x.a, b: -x.b }),
        c_mul(x, c_neg(c_imag())) == (CModel { a: x.b, b: -x.a }),
{
    assert(1 * 1 + 0 * 0 == 1 && 0 * 0 + 1 * 1 == 1 && (-1) * (-1) + (-0) * (-0) == 1 && (-0) * (
    -0) + (-1) * (-1) == 1) by (nonlinear_arith);
    assert(x.a * 1 - x.b * 0 == x.a && x.a * 0 + x.b * 1 == x.b) by (nonlinear_arith);
    assert(x.a * 0 - x.b * 1 == -x.b && x.a * 1 + x.b * 0 == x.a) by (nonlinear_arith);
    assert(x.a * (-1) - x.b * (-0) == -x.a && x.a * (-0) + x.b * (-1) == -x.b) by (nonlinear_arith);
    assert(x.a * (-0) - x.b * (-1) == x.b && x.a * (-1) + x.b * (-0) == -x.a) by (nonlinear_arith);
}

/// Every unit has a unit inverse.
pub proof fn lemma_c_unit_inverse(u: CModel)
    requires
        c_is_unit(u),
    ensures
        exists|v: CModel|
            c_is_unit(v) && #[trigger] c_mul(u, v) == c_one(),
{
    lemma_c_units(u);
    lemma_c_unit_table(u);
    if u == c_one() {
        assert(c_is_unit(c_one()) && c_mul(u, c_one()) == c_one());
    } else if u == c_imag() {
        assert(c_is_unit(c_neg(c_imag())) && c_mul(u, c_neg(c_imag())) == c_one());
    } else if u == c_neg(c_one()) {
        assert(c_is_unit(c_neg(c_one())) && c_mul(u, c_neg(c_one())) == c_one());
    } else {
        assert(c_is_unit(c_imag()) && c_mul(u, c_imag()) == c_one());
    }
}

/// Multiplying by a unit preserves the squared norm: all associates of a
/// value share its squared norm.
pub proof fn lemma_c_associate_norm2(x: CModel, u: CModel)
    requires
        c_is_unit(u),
    ensures
        c_norm2(c_mul(x, u)) == c_norm2(x),
{
    lemma_c_norm2_mul(x, u);
    assert(c_norm2(x) * c_norm2(u) == c_norm2(x)) by (nonlinear_arith)
        requires
            c_norm2(u) == 1,
    ;
}

/// Normalization preserves the squared norm.
pub proof fn lemma_c_normalize_norm2(x: CModel)
    ensures
        c_norm2(c_normalize(x)) == c_norm2(x),
{
    lemma_c_normalize_unit(x);
    let u = choose|u: CModel| c_is_unit(u) && c_normalize(x) == #[trigger] c_mul(x, u);
    lemma_c_associate_norm2(x, u);
}

/// A value and its normal form divide each other.
pub proof fn lemma_c_normalize_divides(x: CModel)
    ensures
        c_divides(x, c_normalize(x)),
        c_divides(c_normalize(x), x),
{
    let nx = c_normalize(x);
    lemma_c_normalize_unit(x);
    let u = choose|u: CModel| c_is_unit(u) && nx == #[trigger] c_mul(x, u);
    lemma_c_mul_comm(x, u);
    assert(nx == c_mul(u, x));
    lemma_c_unit_inverse(u);
    let v = choose|v: CModel| c_is_unit(v) && #[trigger] c_mul(u, v) == c_one();
    lemma_c_mul_comm(u, v);
    lemma_c_mul_assoc(v, u, x);
    lemma_c_mul_one(x);
    assert(c_mul(v, nx) == c_mul(v, c_mul(u, x)));
    assert(x == c_mul(v, nx));
}

/// Divisibility is transitive.
pub proof fn lemma_c_divides_trans(a: CModel, b: CModel, c: CModel)
    requires
        c_divides(a, b),
        c_divides(b, c),
    ensures
        c_divides(a, c),
{
    let q1 = choose|q: CModel| b == #[trigger] c_mul(q, a);
    let q2 = choose|q: CModel| c == #[trigger] c_mul(q, b);
    lemma_c_mul_assoc(q2, q1, a);
    assert(c == c_mul(c_mul(q2, q1), a));
}

/// If `d` divides two values it divides their difference.
pub proof fn lemma_c_divides_sub(d: CModel, x: CModel, y: CModel)
    requires
        c_divides(d, x),
        c_divides(d, y),
    ensures
        c_divides(d, c_sub(x, y)),
{
    let qx = choose|q: CModel| x == #[trigger] c_mul(q, d);
    let qy = choose|q: CModel| y == #[trigger] c_mul(q, d);
    lemma_c_mul_distributes_sub(qx, qy, d);
    assert(c_sub(x, y) == c_mul(c_sub(qx, qy), d));
}

/// If `d` divides two values it divides their sum.
pub proof fn lemma_c_divides_add(d: CModel, x: CModel, y: CModel)
    requires
        c_divides(d, x),
        c_divides(d, y),
    ensures
        c_divides(d, c_add(x, y)),
{
    let qx = choose|q: CModel| x == #[trigger] c_mul(q, d);
    let qy = choose|q: CModel| y == #[trigger] c_mul(q, d);
    lemma_c_mul_distributes_add(qx, qy, d);
    assert(c_add(x, y) == c_mul(c_add(qx, qy), d));
}

/// If `d` divides `y`, it divides any multiple of `y`.
pub proof fn lemma_c_divides_mul_left(d: CModel, y: CModel, q: CModel)
    requires
        c_divides(d, y),
    ensures
        c_divides(d, c_mul(q, y)),
{
    let qy = choose|w: CModel| y == #[trigger] c_mul(w, d);
    lemma_c_mul_assoc(q, qy, d);
    assert(c_mul(q, y) == c_mul(c_mul(q, qy), d));
}

/// Everything divides zero, and 1 divides everything.
pub proof fn lemma_c_divides_basics(d: CModel)
    ensures
        c_divides(d, c_zero()),
        c_divides(c_one(), d),
{
    assert(c_zero() == c_mul(c_zero(), d)) by {
        assert(0 * d.a - 0 * d.b == 0 && 0 * d.b + 0 * d.a == 0) by (nonlinear_arith);
    }
    lemma_c_mul_comm(d, c_one());
    lemma_c_mul_one(d);
    assert(d == c_mul(d, c_one()));
}

/// Every value divides itself.
pub proof fn lemma_c_divides_self(d: CModel)
    ensures
        c_divides(d, d),
{
    lemma_c_mul_one(d);
    lemma_c_mul_comm(c_one(), d);
    assert(d == c_mul(c_one(), d));
}

/// Iterated Euclidean gcd on the model.
pub open spec fn c_gcd_rec(x: CModel, y: CModel) -> CModel
    decreases c_norm2(y),
    via c_gcd_rec_decreases
{
    if c_is_zero(y) {
        x
    } else {
        c_gcd_rec(y, c_divr(x, y))
    }
}

#[via_fn]
proof fn c_gcd_rec_decreases(x: CModel, y: CModel) {
    if !c_is_zero(y) {
        lemma_c_divrem(x, y);
        lemma_c_norm2_zero(c_divr(x, y));
    }
}

/// The gcd divides both arguments.
pub proof fn lemma_c_gcd_divides(x: CModel, y: CModel)
    ensures
        c_divides(c_gcd_rec(x, y), x),
        c_divides(c_gcd_rec(x, y), y),
    decreases c_norm2(y),
{
    lemma_c_norm2_zero(y);
    let g = c_gcd_rec(x, y);
    if c_is_zero(y) {
        lemma_c_divides_self(x);
        lemma_c_divides_basics(x);
    } else {
        let q = c_divq(x, y);
        let r = c_divr(x, y);
        lemma_c_divrem(x, y);
        lemma_c_norm2_zero(r);
        lemma_c_gcd_divides(y, r);
        lemma_c_divides_mul_left(g, y, q);
        lemma_c_divides_add(g, c_mul(q, y), r);
        assert(c_add(c_mul(q, y), r) == x);
    }
}

/// Every common divisor of the arguments divides the gcd.
pub proof fn lemma_c_divides_gcd(x: CModel, y: CModel, d: CModel)
    requires
        c_divides(d, x),
        c_divides(d, y),
    ensures
        c_divides(d, c_gcd_rec(x, y)),
    decreases c_norm2(y),
{
    lemma_c_norm2_zero(y);
    if c_is_zero(y) {
    } else {
        let q = c_divq(x, y);
        let r = c_divr(x, y);
        lemma_c_divrem(x, y);
        lemma_c_norm2_zero(r);
        lemma_c_divides_mul_left(d, y, q);
        lemma_c_divides_sub(d, x, c_mul(q, y));
        assert(r == c_sub(x, c_mul(q, y)));
        lemma_c_divides_gcd(y, r, d);
    }
}

/// Two values that divide each other have the same squared norm.
pub proof fn lemma_c_divides_antisym_norm2(x: CModel, y: CModel)
    requires
        c_divides(x, y),
        c_divides(y, x),
    ensures
        c_norm2(x) == c_norm2(y),
{
    let qy = choose|q: CModel| y == #[trigger] c_mul(q, x);
    let qx = choose|q: CModel| x == #[trigger] c_mul(q, y);
    lemma_c_norm2_mul(qy, x);
    lemma_c_norm2_mul(qx, y);
    lemma_c_norm2_zero(x);
    lemma_c_norm2_zero(y);
    lemma_c_norm2_zero(qx);
    lemma_c_norm2_zero(qy);
    if c_norm2(x) == 0 {
        assert(c_norm2(y) == c_norm2(qy) * 0);
        assert(c_norm2(qy) * 0 == 0) by (nonlinear_arith);
    } else {
        assert(c_norm2(x) == c_norm2(qx) * (c_norm2(qy) * c_norm2(x)));
        assert(c_norm2(qy) == 1) by (nonlinear_arith)
            requires
                c_norm2(x) == c_norm2(qx) * (c_norm2(qy) * c_norm2(x)),
                c_norm2(x) > 0,
                c_norm2(qx) >= 0,
                c_norm2(qy) >= 0,
        ;
        assert(c_norm2(y) == 1 * c_norm2(x));
    }
}

/// Extended Euclidean recursion carrying Bezout coefficient pairs.
pub open spec fn c_xgcd_rec(
    r0: CModel,
    r1: CModel,
    s0: CModel,
    s1: CModel,
    t0: CModel,
    t1: CModel,
) -> (CModel, CModel, CModel)
    decreases c_norm2(r1),
    via c_xgcd_rec_decreases
{
    if c_is_zero(r1) {
        (r0, s0, t0)
    } else {
        let q = c_divq(r0, r1);
        c_xgcd_rec(
            r1,
            c_divr(r0, r1),
            s1,
            c_sub(s0, c_mul(q, s1)),
            t1,
            c_sub(t0, c_mul(q, t1)),
        )
    }
}

#[via_fn]
proof fn c_xgcd_rec_decreases(
    r0: CModel,
    r1: CModel,
    s0: CModel,
    s1: CModel,
    t0: CModel,
    t1: CModel,
) {
    if !c_is_zero(r1) {
        lemma_c_divrem(r0, r1);
        lemma_c_norm2_zero(c_divr(r0, r1));
    }
}

/// The gcd part of the extended recursion is the plain Euclidean gcd.
pub proof fn lemma_c_xgcd_is_gcd(
    r0: CModel,
    r1: CModel,
    s0: CModel,
    s1: CModel,
    t0: CModel,
    t1: CModel,
)
    ensures
        c_xgcd_rec(r0, r1, s0, s1, t0, t1).0 == c_gcd_rec(r0, r1),
    decreases c_norm2(r1),
{
    lemma_c_norm2_zero(r1);
    if !c_is_zero(r1) {
        let q = c_divq(r0, r1);
        lemma_c_divrem(r0, r1);
        lemma_c_norm2_zero(c_divr(r0, r1));
        lemma_c_xgcd_is_gcd(
            r1,
            c_divr(r0, r1),
            s1,
            c_sub(s0, c_mul(q, s1)),
            t1,
            c_sub(t0, c_mul(q, t1)),
        );
    }
}

/// Bezout invariant: if both coefficient pairs reproduce their remainders,
/// the final coefficients reproduce the final gcd.
pub proof fn lemma_c_xgcd_bezout(
    a: CModel,
    b: CModel,
    r0: CModel,
    r1: CModel,
    s0: CModel,
    s1: CModel,
    t0: CModel,
    t1: CModel,
)
    requires
        c_add(c_mul(s0, a), c_mul(t0, b)) == r0,
        c_add(c_mul(s1, a), c_mul(t1, b)) == r1,
    ensures
        ({
            let (g, s, t) = c_xgcd_rec(r0, r1, s0, s1, t0, t1);
            c_add(c_mul(s, a), c_mul(t, b)) == g
        }),
    decreases c_norm2(r1),
{
    lemma_c_norm2_zero(r1);
    if !c_is_zero(r1) {
        let q = c_divq(r0, r1);
        let r2 = c_divr(r0, r1);
        let s2 = c_sub(s0, c_mul(q, s1));
        let t2 = c_sub(t0, c_mul(q, t1));
        lemma_c_divrem(r0, r1);
        lemma_c_norm2_zero(r2);

        // s2*a + t2*b == r0 - q*r1 == r2.
        lemma_c_mul_distributes_sub(s0, c_mul(q, s1), a);
        lemma_c_mul_distributes_sub(t0, c_mul(q, t1), b);
        lemma_c_mul_assoc(q, s1, a);
        lemma_c_mul_assoc(q, t1, b);
        assert(c_add(c_mul(s2, a), c_mul(t2, b)) == c_sub(
            c_add(c_mul(s0, a), c_mul(t0, b)),
            c_add(c_mul(q, c_mul(s1, a)), c_mul(q, c_mul(t1, b))),
        ));
        lemma_c_mul_comm(q, c_add(c_mul(s1, a), c_mul(t1, b)));
        lemma_c_mul_distributes_add(c_mul(s1, a), c_mul(t1, b), q);
        lemma_c_mul_comm(c_mul(s1, a), q);
        lemma_c_mul_comm(c_mul(t1, a), q);
        lemma_c_mul_comm(c_mul(t1, b), q);
        assert(c_add(c_mul(q, c_mul(s1, a)), c_mul(q, c_mul(t1, b))) == c_mul(q, r1));
        assert(c_add(c_mul(s2, a), c_mul(t2, b)) == r2);

        lemma_c_xgcd_bezout(a, b, r1, r2, s1, s2, t1, t2);
    }
}

/// The gcd of the whole pipeline: inputs normalized, then the Euclidean
/// recursion, then the result normalized.  This is exactly what the
/// executable `gcd` computes.
pub open spec fn c_gcd_full(a: CModel, b: CModel) -> CModel {
    c_normalize(c_gcd_rec(c_normalize(a), c_normalize(b)))
}

/// The full gcd divides both arguments, and every common divisor of the
/// arguments divides it.
pub proof fn lemma_c_gcd_full_divides(a: CModel, b: CModel)
    ensures
        c_divides(c_gcd_full(a, b), a),
        c_divides(c_gcd_full(a, b), b),
        forall|d: CModel|
            c_divides(d, a) && c_divides(d, b) ==> c_divides(d, #[trigger] c_gcd_full(a, b)),
{
    let na = c_normalize(a);
    let nb = c_normalize(b);
    let gr = c_gcd_rec(na, nb);
    let g = c_gcd_full(a, b);
    lemma_c_gcd_divides(na, nb);
    lemma_c_normalize_divides(gr);
    lemma_c_normalize_divides(a);
    lemma_c_normalize_divides(b);
    lemma_c_divides_trans(g, gr, na);
    lemma_c_divides_trans(g, na, a);
    lemma_c_divides_trans(g, gr, nb);
    lemma_c_divides_trans(g, nb, b);
    assert forall|d: CModel| c_divides(d, a) && c_divides(d, b) implies c_divides(
        d,
        #[trigger] c_gcd_full(a, b),
    ) by {
        lemma_c_divides_trans(d, a, na);
        lemma_c_divides_trans(d, b, nb);
        lemma_c_divides_gcd(na, nb, d);
        lemma_c_divides_trans(d, gr, g);
    }
}

/// `gcd(x, y)` and `gcd(y, x)` are associates: they share one squared norm.
pub proof fn lemma_c_gcd_symmetric_norm2(a: CModel, b: CModel)
    ensures
        c_norm2(c_gcd_full(a, b)) == c_norm2(c_gcd_full(b, a)),
{
    let g1 = c_gcd_full(a, b);
    let g2 = c_gcd_full(b, a);
    lemma_c_gcd_full_divides(a, b);
    lemma_c_gcd_full_divides(b, a);
    lemma_c_divides_antisym_norm2(g1, g2);
}

/// `gcd(x, 0)` is an associate of `x`: it has the same squared norm and
/// divides `x` exactly.
pub proof fn lemma_c_gcd_zero(x: CModel)
    ensures
        c_gcd_full(x, c_zero()) == c_normalize(x),
        c_norm2(c_gcd_full(x, c_zero())) == c_norm2(x),
        c_divides(c_gcd_full(x, c_zero()), x),
{
    let nx = c_normalize(x);
    assert(c_normalize(c_zero()) == c_zero());
    assert(c_gcd_rec(nx, c_zero()) == nx);
    lemma_c_normalize_idempotent(x);
    lemma_c_normalize_norm2(x);
    lemma_c_normalize_divides(x);
}

} // verus!
