//! Integer helpers shared by the three algebras: the Euclidean gcd on
//! unsigned integers, its specification and laws, and divisibility facts
//! used by the fraction reducers.
use vstd::prelude::*;

verus! {

use vstd::arithmetic::div_mod::{
    lemma_fundamental_div_mod, lemma_fundamental_div_mod_converse,
    lemma_mod_division_less_than_divisor,
};

/// Mathematical gcd by Euclid's recursion.
pub open spec fn spec_gcd(a: nat, b: nat) -> nat
    decreases b,
{
    if b == 0 {
        a
    } else {
        spec_gcd(b, a % b)
    }
}

/// `d` divides `x` exactly.
pub open spec fn divides(d: nat, x: nat) -> bool {
    exists|e: nat| x == #[trigger] (d * e)
}

pub proof fn lemma_divides_mod(d: nat, x: nat)
    requires
        d > 0,
        x % d == 0,
    ensures
        divides(d, x),
{
    lemma_fundamental_div_mod(x as int, d as int);
    assert(x == d * (x / d));
    assert(x as int / d as int >= 0) by {
        vstd::arithmetic::div_mod::lemma_div_is_ordered(0, x as int, d as int);
    }
    assert(x == d * ((x / d) as nat));
}

pub proof fn lemma_mod_of_divides(d: nat, x: nat)
    requires
        d > 0,
        divides(d, x),
    ensures
        x % d == 0,
{
    let e = choose|e: nat| x == #[trigger] (d * e);
    assert(x == e * d + 0) by (nonlinear_arith)
        requires
            x == d * e,
    ;
    lemma_fundamental_div_mod_converse(x as int, d as int, e as int, 0);
}

/// Every common divisor of `a` and `b` is a common divisor of `b` and `a % b`,
/// and the other way round.
proof fn lemma_common_divisors_step(a: nat, b: nat, d: nat)
    requires
        b > 0,
        d > 0,
    ensures
        divides(d, a) && divides(d, b) <==> divides(d, b) && divides(d, a % b),
{
    lemma_fundamental_div_mod(a as int, b as int);
    let q = a as int / b as int;
    assert(a == b * q + (a % b));
    if divides(d, a) && divides(d, b) {
        let ea = choose|e: nat| a == #[trigger] (d * e);
        let eb = choose|e: nat| b == #[trigger] (d * e);
        let em = ea - q * eb;
        assert(d * em == a - b * q) by (nonlinear_arith)
            requires
                em == ea - q * eb,
                a == d * ea,
                b == d * eb,
        ;
        assert(em >= 0) by (nonlinear_arith)
            requires
                d > 0,
                d * em >= 0,
        ;
        assert((a % b) as nat == d * (em as nat));
        assert(divides(d, (a % b) as nat));
    }
    if divides(d, b) && divides(d, (a % b) as nat) {
        let eb = choose|e: nat| b == #[trigger] (d * e);
        let er = choose|e: nat| (a % b) as nat == #[trigger] (d * e);
        let ea = q * eb + er;
        assert(d * ea == b * q + (a % b)) by (nonlinear_arith)
            requires
                ea == q * eb + er,
                b == d * eb,
                (a % b) as int == d * er,
        ;
        assert(ea >= 0) by (nonlinear_arith)
            requires
                d > 0,
                d * ea >= 0,
        ;
        assert(a == d * (ea as nat));
        assert(divides(d, a));
    }
}

/// The gcd divides both of its arguments.
pub proof fn lemma_gcd_divides_both(a: nat, b: nat)
    ensures
        divides(spec_gcd(a, b), a),
        divides(spec_gcd(a, b), b),
    decreases b,
{
    let g = spec_gcd(a, b);
    if b == 0 {
        assert(a == g * 1);
        assert(b == g * 0);
    } else {
        lemma_mod_division_less_than_divisor(a as int, b as int);
        lemma_gcd_divides_both(b, a % b);
        if g > 0 {
            lemma_common_divisors_step(a, b, g);
        } else {
            lemma_gcd_zero_args(b, a % b);
        }
    }
}

/// A gcd of 0 happens only when both arguments are 0.
pub proof fn lemma_gcd_zero_args(a: nat, b: nat)
    requires
        spec_gcd(a, b) == 0,
    ensures
        a == 0 && b == 0,
    decreases b,
{
    if b == 0 {
    } else {
        lemma_gcd_zero_args(b, a % b);
    }
}

/// Every common divisor of the arguments divides the gcd.
pub proof fn lemma_divides_gcd(a: nat, b: nat, d: nat)
    requires
        d > 0,
        divides(d, a),
        divides(d, b),
    ensures
        divides(d, spec_gcd(a, b)),
    decreases b,
{
    if b == 0 {
    } else {
        lemma_common_divisors_step(a, b, d);
        lemma_mod_division_less_than_divisor(a as int, b as int);
        lemma_divides_gcd(b, a % b, d);
    }
}

/// Divisibility is transitive.
pub proof fn lemma_divides_trans(a: nat, b: nat, c: nat)
    requires
        divides(a, b),
        divides(b, c),
    ensures
        divides(a, c),
{
    let e1 = choose|e: nat| b == #[trigger] (a * e);
    let e2 = choose|e: nat| c == #[trigger] (b * e);
    assert(c == a * (e1 * e2)) by (nonlinear_arith)
        requires
            b == a * e1,
            c == b * e2,
    ;
}

/// A positive divisor is no larger than what it divides, when that is positive.
pub proof fn lemma_divides_le(d: nat, x: nat)
    requires
        x > 0,
        divides(d, x),
    ensures
        0 < d <= x,
{
    let e = choose|e: nat| x == #[trigger] (d * e);
    assert(0 < d && d <= x) by (nonlinear_arith)
        requires
            x > 0,
            x == d * e,
            e >= 0,
    ;
}

/// Nearest integer to `t / n`, rounding halves away from zero.  This is the
/// one rounding convention used by every Euclidean divider in the crate.
pub open spec fn rnd_half_away(t: int, n: int) -> int {
    if t >= 0 {
        (2 * t + n) / (2 * n)
    } else {
        -((2 * (-t) + n) / (2 * n))
    }
}

/// The rounded quotient is within half of the true ratio:
/// `|t - n*rnd| <= n/2`, stated without division.
pub proof fn lemma_rnd_half_away_close(t: int, n: int)
    requires
        n > 0,
    ensures
        -n <= 2 * (t - n * rnd_half_away(t, n)),
        2 * (t - n * rnd_half_away(t, n)) <= n,
{
    if t >= 0 {
        let q = (2 * t + n) / (2 * n);
        let m = (2 * t + n) % (2 * n);
        lemma_fundamental_div_mod(2 * t + n, 2 * n);
        lemma_mod_division_less_than_divisor(2 * t + n, 2 * n);
        assert(2 * t + n == 2 * n * q + m);
        assert(2 * (t - n * q) == m - n) by (nonlinear_arith)
            requires
                2 * t + n == 2 * n * q + m,
        ;
    } else {
        let q = (2 * (-t) + n) / (2 * n);
        let m = (2 * (-t) + n) % (2 * n);
        lemma_fundamental_div_mod(2 * (-t) + n, 2 * n);
        lemma_mod_division_less_than_divisor(2 * (-t) + n, 2 * n);
        assert(2 * (-t) + n == 2 * n * q + m);
        assert(2 * (t - n * (-q)) == n - m) by (nonlinear_arith)
            requires
                2 * (-t) + n == 2 * n * q + m,
        ;
    }
}

/// Computes `rnd_half_away(t, n)` with exact integer arithmetic.
pub fn round_div_i128(t: i128, n: i128) -> (r: i128)
    requires
        0 < n <= 0x1_0000_0000_0000_0000,
        -0x4000_0000_0000_0000_0000 <= t <= 0x4000_0000_0000_0000_0000,
    ensures
        r == rnd_half_away(t as int, n as int),
{
    if t >= 0 {
        (2 * t + n) / (2 * n)
    } else {
        -((2 * (-t) + n) / (2 * n))
    }
}

/// Magnitude of an integer as a natural number.
pub open spec fn nat_abs(x: int) -> nat {
    if x >= 0 {
        x as nat
    } else {
        (-x) as nat
    }
}

/// Dividing two values and a positive third by their common gcd leaves a
/// coprime triple: the core of fraction reduction.
pub proof fn lemma_gcd3_reduced(a: nat, b: nat, d: nat)
    requires
        d > 0,
    ensures
        ({
            let g = spec_gcd(spec_gcd(a, b), d);
            g > 0 && spec_gcd(spec_gcd(a / g, b / g), d / g) == 1
        }),
{
    let g = spec_gcd(spec_gcd(a, b), d);
    if g == 0 {
        lemma_gcd_zero_args(spec_gcd(a, b), d);
    }
    lemma_gcd_divides_both(spec_gcd(a, b), d);
    lemma_gcd_divides_both(a, b);
    lemma_divides_trans(g, spec_gcd(a, b), a);
    lemma_divides_trans(g, spec_gcd(a, b), b);
    lemma_mod_of_divides(g, a);
    lemma_mod_of_divides(g, b);
    lemma_mod_of_divides(g, d);
    lemma_fundamental_div_mod(a as int, g as int);
    lemma_fundamental_div_mod(b as int, g as int);
    lemma_fundamental_div_mod(d as int, g as int);
    let a1 = a / g;
    let b1 = b / g;
    let d1 = d / g;
    assert(a == g * a1 && b == g * b1 && d == g * d1);
    assert(d1 > 0) by (nonlinear_arith)
        requires
            d == g * d1,
            d > 0,
            d1 >= 0,
    ;
    let h = spec_gcd(spec_gcd(a1, b1), d1);
    if h == 0 {
        lemma_gcd_zero_args(spec_gcd(a1, b1), d1);
    }
    lemma_gcd_divides_both(spec_gcd(a1, b1), d1);
    lemma_gcd_divides_both(a1, b1);
    lemma_divides_trans(h, spec_gcd(a1, b1), a1);
    lemma_divides_trans(h, spec_gcd(a1, b1), b1);
    let ea = choose|e: nat| a1 == #[trigger] (h * e);
    let eb = choose|e: nat| b1 == #[trigger] (h * e);
    let ed = choose|e: nat| d1 == #[trigger] (h * e);
    assert(a == (h * g) * ea && b == (h * g) * eb && d == (h * g) * ed) by (nonlinear_arith)
        requires
            a == g * a1 && b == g * b1 && d == g * d1,
            a1 == h * ea && b1 == h * eb && d1 == h * ed,
    ;
    assert(divides(h * g, a) && divides(h * g, b) && divides(h * g, d));
    lemma_divides_gcd(a, b, h * g);
    lemma_divides_gcd(spec_gcd(a, b), d, h * g);
    lemma_divides_le(h * g, g);
    assert(h == 1) by (nonlinear_arith)
        requires
            h * g <= g,
            g > 0,
            h > 0,
    ;
}

/// Exact division of `x` by a known divisor `g`.
pub fn exact_div_u64(x: u64, g: u64) -> (r: u64)
    requires
        g > 0,
        divides(g as nat, x as nat),
    ensures
        r == x as nat / g as nat,
        r * g == x,
{
    proof {
        lemma_mod_of_divides(g as nat, x as nat);
        lemma_fundamental_div_mod(x as int, g as int);
        assert((x as nat / g as nat) * g == x) by (nonlinear_arith)
            requires
                x == g * (x as nat / g as nat),
        ;
    }
    x / g
}

/// Euclid's algorithm on unsigned 64-bit integers.
pub fn integer_gcd(a: u64, b: u64) -> (g: u64)
    ensures
        g == spec_gcd(a as nat, b as nat),
{
    let mut x = a;
    let mut y = b;
    while y != 0
        invariant
            spec_gcd(x as nat, y as nat) == spec_gcd(a as nat, b as nat),
        decreases y,
    {
        let temp = y;
        y = x % y;
        x = temp;
    }
    x
}

} // verus!
