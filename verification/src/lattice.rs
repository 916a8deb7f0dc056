//! Lattice-geometry views of the three algebras: coordinate conversions,
//! squared distances and membership tests for the square, checkerboard and
//! dense rank-8 lattices.
use vstd::prelude::*;

verus! {

use crate::cint::CInt;
use crate::hint::HInt;
use crate::oint::OInt;

/// Membership in the rank-4 lattice used by the quaternion layer: equal
/// parity in all coordinates and a coordinate sum divisible by four.
pub open spec fn d4_member(v0: int, v1: int, v2: int, v3: int) -> bool {
    ((v0 % 2 == 0 && v1 % 2 == 0 && v2 % 2 == 0 && v3 % 2 == 0) || (v0 % 2 != 0 && v1 % 2 != 0
        && v2 % 2 != 0 && v3 % 2 != 0)) && (v0 + v1 + v2 + v3) % 4 == 0
}

impl CInt {
    pub fn to_lattice_vector(self) -> (r: (i32, i32))
        ensures
            r.0 == self.a && r.1 == self.b,
    {
        (self.a, self.b)
    }

    pub fn from_lattice_vector(v: (i32, i32)) -> (r: CInt)
        ensures
            r.a == v.0 && r.b == v.1,
    {
        CInt::new(v.0, v.1)
    }

    /// Squared Euclidean distance between two lattice points.  The bound
    /// 16383 on each coordinate is the largest symmetric bound for which
    /// the 32-bit difference-and-square arithmetic cannot overflow.
    pub fn lattice_distance_squared(self, other: CInt) -> (r: i32)
        requires
            -16383 <= self.a <= 16383,
            -16383 <= self.b <= 16383,
            -16383 <= other.a <= 16383,
            -16383 <= other.b <= 16383,
        ensures
            r == (self.a - other.a) * (self.a - other.a) + (self.b - other.b) * (self.b - other.b),
    {
        let da = self.a - other.a;
        let db = self.b - other.b;
        proof {
            assert(0 <= da * da <= 0x3ffe_0004 && 0 <= db * db <= 0x3ffe_0004) by (nonlinear_arith)
                requires
                    -32766 <= da <= 32766 && -32766 <= db <= 32766,
            ;
        }
        da * da + db * db
    }

    /// Squared distance from the origin.  The bound 32767 on each
    /// coordinate is the largest symmetric bound for which the 32-bit sum
    /// of squares cannot overflow.
    pub fn lattice_norm_squared(self) -> (r: i32)
        requires
            -32767 <= self.a <= 32767,
            -32767 <= self.b <= 32767,
        ensures
            r == self.a * self.a + self.b * self.b,
    {
        proof {
            assert(0 <= self.a as int * self.a as int <= 0x3fff_0001 && 0 <= self.b as int
                * self.b as int <= 0x3fff_0001) by (nonlinear_arith)
                requires
                    -32767 <= self.a as int <= 32767 && -32767 <= self.b as int <= 32767,
            ;
        }
        self.a * self.a + self.b * self.b
    }

    /// Every integer point is itself the closest lattice point.
    pub fn closest_lattice_point_int(target: (i32, i32)) -> (r: CInt)
        ensures
            r.a == target.0 && r.b == target.1,
    {
        CInt::new(target.0, target.1)
    }

    /// Basis of the fundamental parallelotope.
    pub fn fundamental_domain() -> (r: ((i32, i32), (i32, i32)))
        ensures
            r == ((1i32, 0i32), (0i32, 1i32)),
    {
        ((1, 0), (0, 1))
    }

    /// Volume of the fundamental parallelotope.
    pub fn lattice_volume() -> (r: i32)
        ensures
            r == 1,
    {
        1
    }

    /// Every integer pair lies on the square lattice.
    pub fn is_in_lattice(v: (i32, i32)) -> (r: bool)
        ensures
            r,
    {
        let _ = v;
        true
    }
}

impl HInt {
    pub fn to_lattice_vector(self) -> (r: (i32, i32, i32, i32))
        ensures
            r.0 == self.a && r.1 == self.b && r.2 == self.c && r.3 == self.d,
    {
        (self.a, self.b, self.c, self.d)
    }

    pub fn from_lattice_vector(v: (i32, i32, i32, i32)) -> (r: HInt)
        requires
            -0x4000_0000 <= v.0 < 0x4000_0000,
            -0x4000_0000 <= v.1 < 0x4000_0000,
            -0x4000_0000 <= v.2 < 0x4000_0000,
            -0x4000_0000 <= v.3 < 0x4000_0000,
        ensures
            r.a == 2 * v.0 && r.b == 2 * v.1 && r.c == 2 * v.2 && r.d == 2 * v.3,
    {
        HInt::new(v.0, v.1, v.2, v.3)
    }

    /// Squared distance between the stored coordinates, in represented
    /// units (the stored values are doubled, hence the division by four).
    /// The bound 11585 on each stored coordinate is the largest symmetric
    /// bound for which the 32-bit difference-and-square arithmetic cannot
    /// overflow.
    pub fn lattice_distance_squared(self, other: HInt) -> (r: i32)
        requires
            -11585 <= self.a <= 11585,
            -11585 <= self.b <= 11585,
            -11585 <= self.c <= 11585,
            -11585 <= self.d <= 11585,
            -11585 <= other.a <= 11585,
            -11585 <= other.b <= 11585,
            -11585 <= other.c <= 11585,
            -11585 <= other.d <= 11585,
        ensures
            r == ((self.a - other.a) * (self.a - other.a) + (self.b - other.b) * (self.b - other.b)
                + (self.c - other.c) * (self.c - other.c) + (self.d - other.d) * (self.d
                - other.d)) / 4,
    {
        let da = self.a - other.a;
        let db = self.b - other.b;
        let dc = self.c - other.c;
        let dd = self.d - other.d;
        proof {
            assert(0 <= da * da <= 0x1fff_d224 && 0 <= db * db <= 0x1fff_d224 && 0 <= dc * dc
                <= 0x1fff_d224 && 0 <= dd * dd <= 0x1fff_d224) by (nonlinear_arith)
                requires
                    -23170 <= da <= 23170 && -23170 <= db <= 23170 && -23170 <= dc <= 23170
                        && -23170 <= dd <= 23170,
            ;
        }
        let s = da * da + db * db + dc * dc + dd * dd;
        proof {
            vstd::arithmetic::div_mod::lemma_div_is_ordered(0, s as int, 4);
            vstd::arithmetic::div_mod::lemma_div_is_ordered(s as int, 0x7fff_4890, 4);
        }
        (s as u32 / 4) as i32
    }

    /// Squared distance from the origin, in represented units.
    pub fn lattice_norm_squared(self) -> (r: i32)
        requires
            -11585 <= self.a <= 11585,
            -11585 <= self.b <= 11585,
            -11585 <= self.c <= 11585,
            -11585 <= self.d <= 11585,
        ensures
            r == (self.a * self.a + self.b * self.b + self.c * self.c + self.d * self.d) / 4,
    {
        let z = HInt { a: 0, b: 0, c: 0, d: 0 };
        self.lattice_distance_squared(z)
    }

    pub fn closest_lattice_point_int(target: (i32, i32, i32, i32)) -> (r: HInt)
        requires
            -0x4000_0000 <= target.0 < 0x4000_0000,
            -0x4000_0000 <= target.1 < 0x4000_0000,
            -0x4000_0000 <= target.2 < 0x4000_0000,
            -0x4000_0000 <= target.3 < 0x4000_0000,
        ensures
            r.a == 2 * target.0 && r.b == 2 * target.1 && r.c == 2 * target.2 && r.d == 2
                * target.3,
    {
        HInt::new(target.0, target.1, target.2, target.3)
    }

    pub fn fundamental_domain() -> (r: ((i32, i32, i32, i32), (i32, i32, i32, i32)))
        ensures
            r == ((2i32, 0i32, 0i32, 0i32), (0i32, 2i32, 2i32, 2i32)),
    {
        ((2, 0, 0, 0), (0, 2, 2, 2))
    }

    pub fn lattice_volume() -> (r: i32)
        ensures
            r == 1,
    {
        1
    }

    /// Membership test for the rank-4 lattice: equal parity coordinates
    /// whose sum is a multiple of four.
    pub fn is_in_lattice(v: (i32, i32, i32, i32)) -> (r: bool)
        requires
            -0x1000_0000 <= v.0 <= 0x1000_0000,
            -0x1000_0000 <= v.1 <= 0x1000_0000,
            -0x1000_0000 <= v.2 <= 0x1000_0000,
            -0x1000_0000 <= v.3 <= 0x1000_0000,
        ensures
            r == d4_member(v.0 as int, v.1 as int, v.2 as int, v.3 as int),
    {
        let e0 = parity_even(v.0);
        let e1 = parity_even(v.1);
        let e2 = parity_even(v.2);
        let e3 = parity_even(v.3);
        let all_even = e0 && e1 && e2 && e3;
        let all_odd = !e0 && !e1 && !e2 && !e3;
        let sum = v.0 + v.1 + v.2 + v.3;
        (all_even || all_odd) && mod4_zero(sum)
    }
}

impl OInt {
    pub fn to_lattice_vector(self) -> (r: (i32, i32, i32, i32, i32, i32, i32, i32))
        ensures
            r.0 == self.a && r.1 == self.b && r.2 == self.c && r.3 == self.d && r.4 == self.e
                && r.5 == self.f && r.6 == self.g && r.7 == self.h,
    {
        (self.a, self.b, self.c, self.d, self.e, self.f, self.g, self.h)
    }

    pub fn from_lattice_vector(v: (i32, i32, i32, i32, i32, i32, i32, i32)) -> (r: OInt)
        requires
            -0x4000_0000 <= v.0 < 0x4000_0000,
            -0x4000_0000 <= v.1 < 0x4000_0000,
            -0x4000_0000 <= v.2 < 0x4000_0000,
            -0x4000_0000 <= v.3 < 0x4000_0000,
            -0x4000_0000 <= v.4 < 0x4000_0000,
            -0x4000_0000 <= v.5 < 0x4000_0000,
            -0x4000_0000 <= v.6 < 0x4000_0000,
            -0x4000_0000 <= v.7 < 0x4000_0000,
        ensures
            r.a == 2 * v.0 && r.b == 2 * v.1 && r.c == 2 * v.2 && r.d == 2 * v.3 && r.e == 2 * v.4
                && r.f == 2 * v.5 && r.g == 2 * v.6 && r.h == 2 * v.7,
    {
        OInt::new(v.0, v.1, v.2, v.3, v.4, v.5, v.6, v.7)
    }

    /// Squared distance between the stored coordinates, in represented
    /// units.
    /// The bound 8191 on each stored coordinate is the largest symmetric
    /// bound for which the 32-bit difference-and-square arithmetic cannot
    /// overflow.
    pub fn lattice_distance_squared(self, other: OInt) -> (r: i32)
        requires
            -8191 <= self.a <= 8191 && -8191 <= self.b <= 8191,
            -8191 <= self.c <= 8191 && -8191 <= self.d <= 8191,
            -8191 <= self.e <= 8191 && -8191 <= self.f <= 8191,
            -8191 <= self.g <= 8191 && -8191 <= self.h <= 8191,
            -8191 <= other.a <= 8191 && -8191 <= other.b <= 8191,
            -8191 <= other.c <= 8191 && -8191 <= other.d <= 8191,
            -8191 <= other.e <= 8191 && -8191 <= other.f <= 8191,
            -8191 <= other.g <= 8191 && -8191 <= other.h <= 8191,
        ensures
            r == ((self.a - other.a) * (self.a - other.a) + (self.b - other.b) * (self.b - other.b)
                + (self.c - other.c) * (self.c - other.c) + (self.d - other.d) * (self.d - other.d)
                + (self.e - other.e) * (self.e - other.e) + (self.f - other.f) * (self.f - other.f)
                + (self.g - other.g) * (self.g - other.g) + (self.h - other.h) * (self.h
                - other.h)) / 4,
    {
        let d0 = self.a - other.a;
        let d1 = self.b - other.b;
        let d2 = self.c - other.c;
        let d3 = self.d - other.d;
        let d4 = self.e - other.e;
        let d5 = self.f - other.f;
        let d6 = self.g - other.g;
        let d7 = self.h - other.h;
        proof {
            assert(0 <= d0 * d0 <= 0xfff_e004 && 0 <= d1 * d1 <= 0xfff_e004 && 0 <= d2 * d2
                <= 0xfff_e004 && 0 <= d3 * d3 <= 0xfff_e004 && 0 <= d4 * d4 <= 0xfff_e004 && 0
                <= d5 * d5 <= 0xfff_e004 && 0 <= d6 * d6 <= 0xfff_e004 && 0 <= d7 * d7
                <= 0xfff_e004) by (nonlinear_arith)
                requires
                    -16382 <= d0 <= 16382 && -16382 <= d1 <= 16382 && -16382 <= d2 <= 16382
                        && -16382 <= d3 <= 16382 && -16382 <= d4 <= 16382 && -16382 <= d5
                        <= 16382 && -16382 <= d6 <= 16382 && -16382 <= d7 <= 16382,
            ;
        }
        let s = d0 * d0 + d1 * d1 + d2 * d2 + d3 * d3 + d4 * d4 + d5 * d5 + d6 * d6 + d7 * d7;
        proof {
            vstd::arithmetic::div_mod::lemma_div_is_ordered(0, s as int, 4);
            vstd::arithmetic::div_mod::lemma_div_is_ordered(s as int, 0x7fff_0020, 4);
        }
        (s as u32 / 4) as i32
    }

    /// Squared distance from the origin, in represented units.
    pub fn lattice_norm_squared(self) -> (r: i32)
        requires
            -8191 <= self.a <= 8191 && -8191 <= self.b <= 8191,
            -8191 <= self.c <= 8191 && -8191 <= self.d <= 8191,
            -8191 <= self.e <= 8191 && -8191 <= self.f <= 8191,
            -8191 <= self.g <= 8191 && -8191 <= self.h <= 8191,
        ensures
            r == (self.a * self.a + self.b * self.b + self.c * self.c + self.d * self.d + self.e
                * self.e + self.f * self.f + self.g * self.g + self.h * self.h) / 4,
    {
        let z = OInt { a: 0, b: 0, c: 0, d: 0, e: 0, f: 0, g: 0, h: 0 };
        self.lattice_distance_squared(z)
    }

    pub fn closest_lattice_point_int(target: (i32, i32, i32, i32, i32, i32, i32, i32)) -> (r: OInt)
        requires
            -0x4000_0000 <= target.0 < 0x4000_0000,
            -0x4000_0000 <= target.1 < 0x4000_0000,
            -0x4000_0000 <= target.2 < 0x4000_0000,
            -0x4000_0000 <= target.3 < 0x4000_0000,
            -0x4000_0000 <= target.4 < 0x4000_0000,
            -0x4000_0000 <= target.5 < 0x4000_0000,
            -0x4000_0000 <= target.6 < 0x4000_0000,
            -0x4000_0000 <= target.7 < 0x4000_0000,
        ensures
            r.a == 2 * target.0 && r.b == 2 * target.1 && r.c == 2 * target.2 && r.d == 2
                * target.3 && r.e == 2 * target.4 && r.f == 2 * target.5 && r.g == 2 * target.6
                && r.h == 2 * target.7,
    {
        OInt::new(
            target.0,
            target.1,
            target.2,
            target.3,
            target.4,
            target.5,
            target.6,
            target.7,
        )
    }

    pub fn fundamental_domain() -> (r: (
        (i32, i32, i32, i32, i32, i32, i32, i32),
        (i32, i32, i32, i32, i32, i32, i32, i32),
    ))
        ensures
            r == ((1i32, 0i32, 0i32, 0i32, 0i32, 0i32, 0i32, 0i32), (
                0i32,
                1i32,
                1i32,
                1i32,
                1i32,
                0i32,
                0i32,
                0i32,
            )),
    {
        ((1, 0, 0, 0, 0, 0, 0, 0), (0, 1, 1, 1, 1, 0, 0, 0))
    }

    pub fn lattice_volume() -> (r: i32)
        ensures
            r == 1,
    {
        1
    }

    /// Every integer tuple is accepted at this rank.
    pub fn is_in_lattice(v: (i32, i32, i32, i32, i32, i32, i32, i32)) -> (r: bool)
        ensures
            r,
    {
        let _ = v;
        true
    }
}

/// Parity of a 32-bit value, computed through a shifted unsigned image.
fn parity_even(x: i32) -> (r: bool)
    ensures
        r == (x as int % 2 == 0),
{
    let y: u64 = (x as i64 + 0x1_0000_0000) as u64;
    proof {
        lemma_cast_parity(x as int, y as int, 2);
    }
    y % 2 == 0
}

/// Divisibility by four of a 32-bit value, computed through a shifted
/// unsigned image.
fn mod4_zero(x: i32) -> (r: bool)
    ensures
        r == (x as int % 4 == 0),
{
    let y: u64 = (x as i64 + 0x1_0000_0000) as u64;
    proof {
        lemma_cast_parity(x as int, y as int, 4);
    }
    y % 4 == 0
}

/// Casting to unsigned adds a multiple of the modulus, so small moduli are
/// preserved.
proof fn lemma_cast_parity(x: int, u: int, m: int)
    requires
        m == 2 || m == 4,
        u == x + 0x1_0000_0000,
    ensures
        u % m == x % m,
{
    if u != x {
        vstd::arithmetic::div_mod::lemma_add_mod_noop(x, 0x1_0000_0000, m);
        if m == 2 {
            vstd::arithmetic::div_mod::lemma_fundamental_div_mod_converse(
                0x1_0000_0000,
                2,
                0x8000_0000,
                0,
            );
        } else {
            vstd::arithmetic::div_mod::lemma_fundamental_div_mod_converse(
                0x1_0000_0000,
                4,
                0x4000_0000,
                0,
            );
        }
    }
}

} // verus!
