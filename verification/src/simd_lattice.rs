//! Batch variants of the lattice-geometry helpers, one method per scalar
//! helper and rank, each specified to agree with the scalar helper at
//! every index.
use vstd::prelude::*;

verus! {

use crate::cint::CInt;
use crate::hint::HInt;
use crate::oint::OInt;
use crate::lattice::d4_member;

/// Batch lattice operations over the three ranks.
pub struct LatticeSimd;

impl LatticeSimd {
    pub fn z2_to_lattice_batch(points: &[CInt]) -> (out: Vec<(i32, i32)>)
        ensures
            out.len() == points.len(),
            forall|k: int|
                0 <= k < points.len() ==> #[trigger] out[k] == (points[k].a, points[k].b),
    {
        let mut out: Vec<(i32, i32)> = Vec::new();
        let mut idx: usize = 0;
        while idx < points.len()
            invariant
                idx <= points.len(),
                out.len() == idx,
                forall|k: int|
                    0 <= k < idx ==> #[trigger] out[k] == (points[k].a, points[k].b),
            decreases points.len() - idx,
        {
            out.push(points[idx].to_lattice_vector());
            idx = idx + 1;
        }
        out
    }

    pub fn z2_from_lattice_batch(vecs: &[(i32, i32)]) -> (out: Vec<CInt>)
        ensures
            out.len() == vecs.len(),
            forall|k: int|
                0 <= k < vecs.len() ==> #[trigger] out[k] == (CInt {
                    a: vecs[k].0,
                    b: vecs[k].1,
                }),
    {
        let mut out: Vec<CInt> = Vec::new();
        let mut idx: usize = 0;
        while idx < vecs.len()
            invariant
                idx <= vecs.len(),
                out.len() == idx,
                forall|k: int|
                    0 <= k < idx ==> #[trigger] out[k] == (CInt { a: vecs[k].0, b: vecs[k].1 }),
            decreases vecs.len() - idx,
        {
            out.push(CInt::from_lattice_vector(vecs[idx]));
            idx = idx + 1;
        }
        out
    }

    pub fn z2_distance_squared_batch(points: &[CInt], target: CInt) -> (out: Vec<i32>)
        requires
            -16383 <= target.a <= 16383,
            -16383 <= target.b <= 16383,
            forall|k: int|
                0 <= k < points.len() ==> -16383 <= #[trigger] points[k].a <= 16383 && -16383
                    <= points[k].b <= 16383,
        ensures
            out.len() == points.len(),
            forall|k: int|
                0 <= k < points.len() ==> #[trigger] out[k] == (points[k].a - target.a) * (
                points[k].a - target.a) + (points[k].b - target.b) * (points[k].b - target.b),
    {
        let mut out: Vec<i32> = Vec::new();
        let mut idx: usize = 0;
        while idx < points.len()
            invariant
                idx <= points.len(),
                out.len() == idx,
                -16383 <= target.a <= 16383,
                -16383 <= target.b <= 16383,
                forall|k: int|
                    0 <= k < points.len() ==> -16383 <= #[trigger] points[k].a <= 16383
                        && -16383 <= points[k].b <= 16383,
                forall|k: int|
                    0 <= k < idx ==> #[trigger] out[k] == (points[k].a - target.a) * (points[k].a
                        - target.a) + (points[k].b - target.b) * (points[k].b - target.b),
            decreases points.len() - idx,
        {
            proof {
                assert(-16383 <= points[idx as int].a <= 16383 && -16383
                    <= points[idx as int].b <= 16383);
            }
            out.push(points[idx].lattice_distance_squared(target));
            idx = idx + 1;
        }
        out
    }

    pub fn z2_norm_squared_batch(points: &[CInt]) -> (out: Vec<i32>)
        requires
            forall|k: int|
                0 <= k < points.len() ==> -16383 <= #[trigger] points[k].a <= 16383 && -16383
                    <= points[k].b <= 16383,
        ensures
            out.len() == points.len(),
            forall|k: int|
                0 <= k < points.len() ==> #[trigger] out[k] == points[k].a * points[k].a
                    + points[k].b * points[k].b,
    {
        let mut out: Vec<i32> = Vec::new();
        let mut idx: usize = 0;
        while idx < points.len()
            invariant
                idx <= points.len(),
                out.len() == idx,
                forall|k: int|
                    0 <= k < points.len() ==> -16383 <= #[trigger] points[k].a <= 16383
                        && -16383 <= points[k].b <= 16383,
                forall|k: int|
                    0 <= k < idx ==> #[trigger] out[k] == points[k].a * points[k].a + points[k].b
                        * points[k].b,
            decreases points.len() - idx,
        {
            proof {
                assert(-16383 <= points[idx as int].a <= 16383 && -16383
                    <= points[idx as int].b <= 16383);
            }
            out.push(points[idx].lattice_norm_squared());
            idx = idx + 1;
        }
        out
    }

    pub fn z2_closest_point_batch(targets: &[(i32, i32)]) -> (out: Vec<CInt>)
        ensures
            out.len() == targets.len(),
            forall|k: int|
                0 <= k < targets.len() ==> #[trigger] out[k] == (CInt {
                    a: targets[k].0,
                    b: targets[k].1,
                }),
    {
        let mut out: Vec<CInt> = Vec::new();
        let mut idx: usize = 0;
        while idx < targets.len()
            invariant
                idx <= targets.len(),
                out.len() == idx,
                forall|k: int|
                    0 <= k < idx ==> #[trigger] out[k] == (CInt {
                        a: targets[k].0,
                        b: targets[k].1,
                    }),
            decreases targets.len() - idx,
        {
            out.push(CInt::closest_lattice_point_int(targets[idx]));
            idx = idx + 1;
        }
        out
    }

    pub fn z2_fundamental_domain_batch(count: usize) -> (out: Vec<((i32, i32), (i32, i32))>)
        ensures
            out.len() == count,
            forall|k: int|
                0 <= k < count ==> #[trigger] out[k] == ((1i32, 0i32), (0i32, 1i32)),
    {
        let mut out: Vec<((i32, i32), (i32, i32))> = Vec::new();
        let mut idx: usize = 0;
        while idx < count
            invariant
                idx <= count,
                out.len() == idx,
                forall|k: int| 0 <= k < idx ==> #[trigger] out[k] == ((1i32, 0i32), (0i32, 1i32)),
            decreases count - idx,
        {
            out.push(CInt::fundamental_domain());
            idx = idx + 1;
        }
        out
    }

    pub fn z2_volume_batch(count: usize) -> (out: Vec<i32>)
        ensures
            out.len() == count,
            forall|k: int| 0 <= k < count ==> #[trigger] out[k] == 1,
    {
        let mut out: Vec<i32> = Vec::new();
        let mut idx: usize = 0;
        while idx < count
            invariant
                idx <= count,
                out.len() == idx,
                forall|k: int| 0 <= k < idx ==> #[trigger] out[k] == 1,
            decreases count - idx,
        {
            out.push(CInt::lattice_volume());
            idx = idx + 1;
        }
        out
    }

    pub fn z2_in_lattice_batch(points: &[(i32, i32)]) -> (out: Vec<bool>)
        ensures
            out.len() == points.len(),
            forall|k: int| 0 <= k < points.len() ==> #[trigger] out[k],
    {
        let mut out: Vec<bool> = Vec::new();
        let mut idx: usize = 0;
        while idx < points.len()
            invariant
                idx <= points.len(),
                out.len() == idx,
                forall|k: int| 0 <= k < idx ==> #[trigger] out[k],
            decreases points.len() - idx,
        {
            out.push(CInt::is_in_lattice(points[idx]));
            idx = idx + 1;
        }
        out
    }

    pub fn d4_to_lattice_batch(points: &[HInt]) -> (out: Vec<(i32, i32, i32, i32)>)
        ensures
            out.len() == points.len(),
            forall|k: int|
                0 <= k < points.len() ==> #[trigger] out[k] == (
                    points[k].a,
                    points[k].b,
                    points[k].c,
                    points[k].d,
                ),
    {
        let mut out: Vec<(i32, i32, i32, i32)> = Vec::new();
        let mut idx: usize = 0;
        while idx < points.len()
            invariant
                idx <= points.len(),
                out.len() == idx,
                forall|k: int|
                    0 <= k < idx ==> #[trigger] out[k] == (
                        points[k].a,
                        points[k].b,
                        points[k].c,
                        points[k].d,
                    ),
            decreases points.len() - idx,
        {
            out.push(points[idx].to_lattice_vector());
            idx = idx + 1;
        }
        out
    }

    pub fn d4_from_lattice_batch(vecs: &[(i32, i32, i32, i32)]) -> (out: Vec<HInt>)
        requires
            forall|k: int|
                0 <= k < vecs.len() ==> -0x4000_0000 <= #[trigger] vecs[k].0 < 0x4000_0000
                    && -0x4000_0000 <= vecs[k].1 < 0x4000_0000 && -0x4000_0000 <= vecs[k].2
                    < 0x4000_0000 && -0x4000_0000 <= vecs[k].3 < 0x4000_0000,
        ensures
            out.len() == vecs.len(),
            forall|k: int|
                0 <= k < vecs.len() ==> #[trigger] out[k]@ == (crate::hmodel::QModel {
                    a: 2 * vecs[k].0 as int,
                    b: 2 * vecs[k].1 as int,
                    c: 2 * vecs[k].2 as int,
                    d: 2 * vecs[k].3 as int,
                }),
    {
        let mut out: Vec<HInt> = Vec::new();
        let mut idx: usize = 0;
        while idx < vecs.len()
            invariant
                idx <= vecs.len(),
                out.len() == idx,
                forall|k: int|
                    0 <= k < vecs.len() ==> -0x4000_0000 <= #[trigger] vecs[k].0 < 0x4000_0000
                        && -0x4000_0000 <= vecs[k].1 < 0x4000_0000 && -0x4000_0000 <= vecs[k].2
                        < 0x4000_0000 && -0x4000_0000 <= vecs[k].3 < 0x4000_0000,
                forall|k: int|
                    0 <= k < idx ==> #[trigger] out[k]@ == (crate::hmodel::QModel {
                        a: 2 * vecs[k].0 as int,
                        b: 2 * vecs[k].1 as int,
                        c: 2 * vecs[k].2 as int,
                        d: 2 * vecs[k].3 as int,
                    }),
            decreases vecs.len() - idx,
        {
            proof {
                assert(-0x4000_0000 <= vecs[idx as int].0 < 0x4000_0000 && -0x4000_0000
                    <= vecs[idx as int].1 < 0x4000_0000 && -0x4000_0000 <= vecs[idx as int].2
                    < 0x4000_0000 && -0x4000_0000 <= vecs[idx as int].3 < 0x4000_0000);
            }
            out.push(HInt::from_lattice_vector(vecs[idx]));
            idx = idx + 1;
        }
        out
    }

    pub fn d4_distance_squared_batch(points: &[HInt], target: HInt) -> (out: Vec<i32>)
        requires
            -11585 <= target.a <= 11585 && -11585 <= target.b <= 11585 && -11585 <= target.c
                <= 11585 && -11585 <= target.d <= 11585,
            forall|k: int|
                0 <= k < points.len() ==> -11585 <= #[trigger] points[k].a <= 11585 && -11585
                    <= points[k].b <= 11585 && -11585 <= points[k].c <= 11585 && -11585
                    <= points[k].d <= 11585,
        ensures
            out.len() == points.len(),
            forall|k: int|
                0 <= k < points.len() ==> #[trigger] out[k] == ((points[k].a - target.a) * (
                points[k].a - target.a) + (points[k].b - target.b) * (points[k].b - target.b) + (
                points[k].c - target.c) * (points[k].c - target.c) + (points[k].d - target.d) * (
                points[k].d - target.d)) / 4,
    {
        let mut out: Vec<i32> = Vec::new();
        let mut idx: usize = 0;
        while idx < points.len()
            invariant
                idx <= points.len(),
                out.len() == idx,
                -11585 <= target.a <= 11585 && -11585 <= target.b <= 11585 && -11585
                    <= target.c <= 11585 && -11585 <= target.d <= 11585,
                forall|k: int|
                    0 <= k < points.len() ==> -11585 <= #[trigger] points[k].a <= 11585
                        && -11585 <= points[k].b <= 11585 && -11585 <= points[k].c <= 11585
                        && -11585 <= points[k].d <= 11585,
                forall|k: int|
                    0 <= k < idx ==> #[trigger] out[k] == ((points[k].a - target.a) * (points[k].a
                        - target.a) + (points[k].b - target.b) * (points[k].b - target.b) + (
                    points[k].c - target.c) * (points[k].c - target.c) + (points[k].d - target.d)
                        * (points[k].d - target.d)) / 4,
            decreases points.len() - idx,
        {
            proof {
                assert(-11585 <= points[idx as int].a <= 11585 && -11585
                    <= points[idx as int].b <= 11585 && -11585 <= points[idx as int].c <= 11585
                    && -11585 <= points[idx as int].d <= 11585);
            }
            out.push(points[idx].lattice_distance_squared(target));
            idx = idx + 1;
        }
        out
    }

    pub fn d4_norm_squared_batch(points: &[HInt]) -> (out: Vec<i32>)
        requires
            forall|k: int|
                0 <= k < points.len() ==> -11585 <= #[trigger] points[k].a <= 11585 && -11585
                    <= points[k].b <= 11585 && -11585 <= points[k].c <= 11585 && -11585
                    <= points[k].d <= 11585,
        ensures
            out.len() == points.len(),
            forall|k: int|
                0 <= k < points.len() ==> #[trigger] out[k] == (points[k].a * points[k].a
                    + points[k].b * points[k].b + points[k].c * points[k].c + points[k].d
                    * points[k].d) / 4,
    {
        let mut out: Vec<i32> = Vec::new();
        let mut idx: usize = 0;
        while idx < points.len()
            invariant
                idx <= points.len(),
                out.len() == idx,
                forall|k: int|
                    0 <= k < points.len() ==> -11585 <= #[trigger] points[k].a <= 11585
                        && -11585 <= points[k].b <= 11585 && -11585 <= points[k].c <= 11585
                        && -11585 <= points[k].d <= 11585,
                forall|k: int|
                    0 <= k < idx ==> #[trigger] out[k] == (points[k].a * points[k].a + points[k].b
                        * points[k].b + points[k].c * points[k].c + points[k].d * points[k].d) / 4,
            decreases points.len() - idx,
        {
            proof {
                assert(-11585 <= points[idx as int].a <= 11585 && -11585
                    <= points[idx as int].b <= 11585 && -11585 <= points[idx as int].c <= 11585
                    && -11585 <= points[idx as int].d <= 11585);
            }
            out.push(points[idx].lattice_norm_squared());
            idx = idx + 1;
        }
        out
    }

    pub fn d4_closest_point_batch(targets: &[(i32, i32, i32, i32)]) -> (out: Vec<HInt>)
        requires
            forall|k: int|
                0 <= k < targets.len() ==> -0x4000_0000 <= #[trigger] targets[k].0 < 0x4000_0000
                    && -0x4000_0000 <= targets[k].1 < 0x4000_0000 && -0x4000_0000 <= targets[k].2
                    < 0x4000_0000 && -0x4000_0000 <= targets[k].3 < 0x4000_0000,
        ensures
            out.len() == targets.len(),
            forall|k: int|
                0 <= k < targets.len() ==> #[trigger] out[k]@ == (crate::hmodel::QModel {
                    a: 2 * targets[k].0 as int,
                    b: 2 * targets[k].1 as int,
                    c: 2 * targets[k].2 as int,
                    d: 2 * targets[k].3 as int,
                }),
    {
        let mut out: Vec<HInt> = Vec::new();
        let mut idx: usize = 0;
        while idx < targets.len()
            invariant
                idx <= targets.len(),
                out.len() == idx,
                forall|k: int|
                    0 <= k < targets.len() ==> -0x4000_0000 <= #[trigger] targets[k].0
                        < 0x4000_0000 && -0x4000_0000 <= targets[k].1 < 0x4000_0000
                        && -0x4000_0000 <= targets[k].2 < 0x4000_0000 && -0x4000_0000
                        <= targets[k].3 < 0x4000_0000,
                forall|k: int|
                    0 <= k < idx ==> #[trigger] out[k]@ == (crate::hmodel::QModel {
                        a: 2 * targets[k].0 as int,
                        b: 2 * targets[k].1 as int,
                        c: 2 * targets[k].2 as int,
                        d: 2 * targets[k].3 as int,
                    }),
            decreases targets.len() - idx,
        {
            proof {
                assert(-0x4000_0000 <= targets[idx as int].0 < 0x4000_0000 && -0x4000_0000
                    <= targets[idx as int].1 < 0x4000_0000 && -0x4000_0000
                    <= targets[idx as int].2 < 0x4000_0000 && -0x4000_0000
                    <= targets[idx as int].3 < 0x4000_0000);
            }
            out.push(HInt::closest_lattice_point_int(targets[idx]));
            idx = idx + 1;
        }
        out
    }

    pub fn d4_fundamental_domain_batch(count: usize) -> (out: Vec<
        ((i32, i32, i32, i32), (i32, i32, i32, i32)),
    >)
        ensures
            out.len() == count,
            forall|k: int|
                0 <= k < count ==> #[trigger] out[k] == ((2i32, 0i32, 0i32, 0i32), (
                    0i32,
                    2i32,
                    2i32,
                    2i32,
                )),
    {
        let mut out: Vec<((i32, i32, i32, i32), (i32, i32, i32, i32))> = Vec::new();
        let mut idx: usize = 0;
        while idx < count
            invariant
                idx <= count,
                out.len() == idx,
                forall|k: int|
                    0 <= k < idx ==> #[trigger] out[k] == ((2i32, 0i32, 0i32, 0i32), (
                        0i32,
                        2i32,
                        2i32,
                        2i32,
                    )),
            decreases count - idx,
        {
            out.push(HInt::fundamental_domain());
            idx = idx + 1;
        }
        out
    }

    pub fn d4_volume_batch(count: usize) -> (out: Vec<i32>)
        ensures
            out.len() == count,
            forall|k: int| 0 <= k < count ==> #[trigger] out[k] == 1,
    {
        let mut out: Vec<i32> = Vec::new();
        let mut idx: usize = 0;
        while idx < count
            invariant
                idx <= count,
                out.len() == idx,
                forall|k: int| 0 <= k < idx ==> #[trigger] out[k] == 1,
            decreases count - idx,
        {
            out.push(HInt::lattice_volume());
            idx = idx + 1;
        }
        out
    }

    pub fn d4_in_lattice_batch(points: &[(i32, i32, i32, i32)]) -> (out: Vec<bool>)
        requires
            forall|k: int|
                0 <= k < points.len() ==> -0x1000_0000 <= #[trigger] points[k].0 <= 0x1000_0000
                    && -0x1000_0000 <= points[k].1 <= 0x1000_0000 && -0x1000_0000 <= points[k].2
                    <= 0x1000_0000 && -0x1000_0000 <= points[k].3 <= 0x1000_0000,
        ensures
            out.len() == points.len(),
            forall|k: int|
                0 <= k < points.len() ==> #[trigger] out[k] == d4_member(
                    points[k].0 as int,
                    points[k].1 as int,
                    points[k].2 as int,
                    points[k].3 as int,
                ),
    {
        let mut out: Vec<bool> = Vec::new();
        let mut idx: usize = 0;
        while idx < points.len()
            invariant
                idx <= points.len(),
                out.len() == idx,
                forall|k: int|
                    0 <= k < points.len() ==> -0x1000_0000 <= #[trigger] points[k].0
                        <= 0x1000_0000 && -0x1000_0000 <= points[k].1 <= 0x1000_0000
                        && -0x1000_0000 <= points[k].2 <= 0x1000_0000 && -0x1000_0000
                        <= points[k].3 <= 0x1000_0000,
                forall|k: int|
                    0 <= k < idx ==> #[trigger] out[k] == d4_member(
                        points[k].0 as int,
                        points[k].1 as int,
                        points[k].2 as int,
                        points[k].3 as int,
                    ),
            decreases points.len() - idx,
        {
            proof {
                assert(-0x1000_0000 <= points[idx as int].0 <= 0x1000_0000 && -0x1000_0000
                    <= points[idx as int].1 <= 0x1000_0000 && -0x1000_0000
                    <= points[idx as int].2 <= 0x1000_0000 && -0x1000_0000
                    <= points[idx as int].3 <= 0x1000_0000);
            }
            out.push(HInt::is_in_lattice(points[idx]));
            idx = idx + 1;
        }
        out
    }

    pub fn e8_to_lattice_batch(points: &[OInt]) -> (out: Vec<
        (i32, i32, i32, i32, i32, i32, i32, i32),
    >)
        ensures
            out.len() == points.len(),
            forall|k: int|
                0 <= k < points.len() ==> #[trigger] out[k] == (
                    points[k].a,
                    points[k].b,
                    points[k].c,
                    points[k].d,
                    points[k].e,
                    points[k].f,
                    points[k].g,
                    points[k].h,
                ),
    {
        let mut out: Vec<(i32, i32, i32, i32, i32, i32, i32, i32)> = Vec::new();
        let mut idx: usize = 0;
        while idx < points.len()
            invariant
                idx <= points.len(),
                out.len() == idx,
                forall|k: int|
                    0 <= k < idx ==> #[trigger] out[k] == (
                        points[k].a,
                        points[k].b,
                        points[k].c,
                        points[k].d,
                        points[k].e,
                        points[k].f,
                        points[k].g,
                        points[k].h,
                    ),
            decreases points.len() - idx,
        {
            out.push(points[idx].to_lattice_vector());
            idx = idx + 1;
        }
        out
    }

    pub fn e8_from_lattice_batch(vecs: &[(i32, i32, i32, i32, i32, i32, i32, i32)]) -> (out: Vec<
        OInt,
    >)
        requires
            forall|k: int|
                0 <= k < vecs.len() ==> -0x4000_0000 <= #[trigger] vecs[k].0 < 0x4000_0000
                    && -0x4000_0000 <= vecs[k].1 < 0x4000_0000 && -0x4000_0000 <= vecs[k].2
                    < 0x4000_0000 && -0x4000_0000 <= vecs[k].3 < 0x4000_0000 && -0x4000_0000
                    <= vecs[k].4 < 0x4000_0000 && -0x4000_0000 <= vecs[k].5 < 0x4000_0000
                    && -0x4000_0000 <= vecs[k].6 < 0x4000_0000 && -0x4000_0000 <= vecs[k].7
                    < 0x4000_0000,
        ensures
            out.len() == vecs.len(),
            forall|k: int|
                0 <= k < vecs.len() ==> #[trigger] out[k]@ == (crate::omodel::OModel {
                    a: 2 * vecs[k].0 as int,
                    b: 2 * vecs[k].1 as int,
                    c: 2 * vecs[k].2 as int,
                    d: 2 * vecs[k].3 as int,
                    e: 2 * vecs[k].4 as int,
                    f: 2 * vecs[k].5 as int,
                    g: 2 * vecs[k].6 as int,
                    h: 2 * vecs[k].7 as int,
                }),
    {
        let mut out: Vec<OInt> = Vec::new();
        let mut idx: usize = 0;
        while idx < vecs.len()
            invariant
                idx <= vecs.len(),
                out.len() == idx,
                forall|k: int|
                    0 <= k < vecs.len() ==> -0x4000_0000 <= #[trigger] vecs[k].0 < 0x4000_0000
                        && -0x4000_0000 <= vecs[k].1 < 0x4000_0000 && -0x4000_0000 <= vecs[k].2
                        < 0x4000_0000 && -0x4000_0000 <= vecs[k].3 < 0x4000_0000 && -0x4000_0000
                        <= vecs[k].4 < 0x4000_0000 && -0x4000_0000 <= vecs[k].5 < 0x4000_0000
                        && -0x4000_0000 <= vecs[k].6 < 0x4000_0000 && -0x4000_0000 <= vecs[k].7
                        < 0x4000_0000,
                forall|k: int|
                    0 <= k < idx ==> #[trigger] out[k]@ == (crate::omodel::OModel {
                        a: 2 * vecs[k].0 as int,
                        b: 2 * vecs[k].1 as int,
                        c: 2 * vecs[k].2 as int,
                        d: 2 * vecs[k].3 as int,
                        e: 2 * vecs[k].4 as int,
                        f: 2 * vecs[k].5 as int,
                        g: 2 * vecs[k].6 as int,
                        h: 2 * vecs[k].7 as int,
                    }),
            decreases vecs.len() - idx,
        {
            proof {
                assert(-0x4000_0000 <= vecs[idx as int].0 < 0x4000_0000 && -0x4000_0000
                    <= vecs[idx as int].1 < 0x4000_0000 && -0x4000_0000 <= vecs[idx as int].2
                    < 0x4000_0000 && -0x4000_0000 <= vecs[idx as int].3 < 0x4000_0000
                    && -0x4000_0000 <= vecs[idx as int].4 < 0x4000_0000 && -0x4000_0000
                    <= vecs[idx as int].5 < 0x4000_0000 && -0x4000_0000 <= vecs[idx as int].6
                    < 0x4000_0000 && -0x4000_0000 <= vecs[idx as int].7 < 0x4000_0000);
            }
            out.push(OInt::from_lattice_vector(vecs[idx]));
            idx = idx + 1;
        }
        out
    }

    pub fn e8_distance_squared_batch(points: &[OInt], target: OInt) -> (out: Vec<i32>)
        requires
            -8191 <= target.a <= 8191 && -8191 <= target.b <= 8191 && -8191 <= target.c
                <= 8191 && -8191 <= target.d <= 8191 && -8191 <= target.e <= 8191
                && -8191 <= target.f <= 8191 && -8191 <= target.g <= 8191 && -8191
                <= target.h <= 8191,
            forall|k: int|
                0 <= k < points.len() ==> -8191 <= #[trigger] points[k].a <= 8191 && -8191
                    <= points[k].b <= 8191 && -8191 <= points[k].c <= 8191 && -8191
                    <= points[k].d <= 8191 && -8191 <= points[k].e <= 8191 && -8191
                    <= points[k].f <= 8191 && -8191 <= points[k].g <= 8191 && -8191
                    <= points[k].h <= 8191,
        ensures
            out.len() == points.len(),
            forall|k: int|
                0 <= k < points.len() ==> #[trigger] out[k] == ((points[k].a - target.a) * (
                points[k].a - target.a) + (points[k].b - target.b) * (points[k].b - target.b) + (
                points[k].c - target.c) * (points[k].c - target.c) + (points[k].d - target.d) * (
                points[k].d - target.d) + (points[k].e - target.e) * (points[k].e - target.e) + (
                points[k].f - target.f) * (points[k].f - target.f) + (points[k].g - target.g) * (
                points[k].g - target.g) + (points[k].h - target.h) * (points[k].h - target.h))
                    / 4,
    {
        let mut out: Vec<i32> = Vec::new();
        let mut idx: usize = 0;
        while idx < points.len()
            invariant
                idx <= points.len(),
                out.len() == idx,
                -8191 <= target.a <= 8191 && -8191 <= target.b <= 8191 && -8191
                    <= target.c <= 8191 && -8191 <= target.d <= 8191 && -8191 <= target.e
                    <= 8191 && -8191 <= target.f <= 8191 && -8191 <= target.g <= 8191
                    && -8191 <= target.h <= 8191,
                forall|k: int|
                    0 <= k < points.len() ==> -8191 <= #[trigger] points[k].a <= 8191
                        && -8191 <= points[k].b <= 8191 && -8191 <= points[k].c <= 8191
                        && -8191 <= points[k].d <= 8191 && -8191 <= points[k].e <= 8191
                        && -8191 <= points[k].f <= 8191 && -8191 <= points[k].g <= 8191
                        && -8191 <= points[k].h <= 8191,
                forall|k: int|
                    0 <= k < idx ==> #[trigger] out[k] == ((points[k].a - target.a) * (points[k].a
                        - target.a) + (points[k].b - target.b) * (points[k].b - target.b) + (
                    points[k].c - target.c) * (points[k].c - target.c) + (points[k].d - target.d)
                        * (points[k].d - target.d) + (points[k].e - target.e) * (points[k].e
                        - target.e) + (points[k].f - target.f) * (points[k].f - target.f) + (
                    points[k].g - target.g) * (points[k].g - target.g) + (points[k].h - target.h)
                        * (points[k].h - target.h)) / 4,
            decreases points.len() - idx,
        {
            proof {
                assert(-8191 <= points[idx as int].a <= 8191 && -8191
                    <= points[idx as int].b <= 8191 && -8191 <= points[idx as int].c <= 8191
                    && -8191 <= points[idx as int].d <= 8191 && -8191
                    <= points[idx as int].e <= 8191 && -8191 <= points[idx as int].f <= 8191
                    && -8191 <= points[idx as int].g <= 8191 && -8191
                    <= points[idx as int].h <= 8191);
            }
            out.push(points[idx].lattice_distance_squared(target));
            idx = idx + 1;
        }
        out
    }

    pub fn e8_norm_squared_batch(points: &[OInt]) -> (out: Vec<i32>)
        requires
            forall|k: int|
                0 <= k < points.len() ==> -8191 <= #[trigger] points[k].a <= 8191 && -8191
                    <= points[k].b <= 8191 && -8191 <= points[k].c <= 8191 && -8191
                    <= points[k].d <= 8191 && -8191 <= points[k].e <= 8191 && -8191
                    <= points[k].f <= 8191 && -8191 <= points[k].g <= 8191 && -8191
                    <= points[k].h <= 8191,
        ensures
            out.len() == points.len(),
            forall|k: int|
                0 <= k < points.len() ==> #[trigger] out[k] == (points[k].a * points[k].a
                    + points[k].b * points[k].b + points[k].c * points[k].c + points[k].d
                    * points[k].d + points[k].e * points[k].e + points[k].f * points[k].f
                    + points[k].g * points[k].g + points[k].h * points[k].h) / 4,
    {
        let mut out: Vec<i32> = Vec::new();
        let mut idx: usize = 0;
        while idx < points.len()
            invariant
                idx <= points.len(),
                out.len() == idx,
                forall|k: int|
                    0 <= k < points.len() ==> -8191 <= #[trigger] points[k].a <= 8191
                        && -8191 <= points[k].b <= 8191 && -8191 <= points[k].c <= 8191
                        && -8191 <= points[k].d <= 8191 && -8191 <= points[k].e <= 8191
                        && -8191 <= points[k].f <= 8191 && -8191 <= points[k].g <= 8191
                        && -8191 <= points[k].h <= 8191,
                forall|k: int|
                    0 <= k < idx ==> #[trigger] out[k] == (points[k].a * points[k].a + points[k].b
                        * points[k].b + points[k].c * points[k].c + points[k].d * points[k].d
                        + points[k].e * points[k].e + points[k].f * points[k].f + points[k].g
                        * points[k].g + points[k].h * points[k].h) / 4,
            decreases points.len() - idx,
        {
            proof {
                assert(-8191 <= points[idx as int].a <= 8191 && -8191
                    <= points[idx as int].b <= 8191 && -8191 <= points[idx as int].c <= 8191
                    && -8191 <= points[idx as int].d <= 8191 && -8191
                    <= points[idx as int].e <= 8191 && -8191 <= points[idx as int].f <= 8191
                    && -8191 <= points[idx as int].g <= 8191 && -8191
                    <= points[idx as int].h <= 8191);
            }
            out.push(points[idx].lattice_norm_squared());
            idx = idx + 1;
        }
        out
    }

    pub fn e8_closest_point_batch(targets: &[(i32, i32, i32, i32, i32, i32, i32, i32)]) -> (out:
        Vec<OInt>)
        requires
            forall|k: int|
                0 <= k < targets.len() ==> -0x4000_0000 <= #[trigger] targets[k].0 < 0x4000_0000
                    && -0x4000_0000 <= targets[k].1 < 0x4000_0000 && -0x4000_0000 <= targets[k].2
                    < 0x4000_0000 && -0x4000_0000 <= targets[k].3 < 0x4000_0000 && -0x4000_0000
                    <= targets[k].4 < 0x4000_0000 && -0x4000_0000 <= targets[k].5 < 0x4000_0000
                    && -0x4000_0000 <= targets[k].6 < 0x4000_0000 && -0x4000_0000 <= targets[k].7
                    < 0x4000_0000,
        ensures
            out.len() == targets.len(),
            forall|k: int|
                0 <= k < targets.len() ==> #[trigger] out[k]@ == (crate::omodel::OModel {
                    a: 2 * targets[k].0 as int,
                    b: 2 * targets[k].1 as int,
                    c: 2 * targets[k].2 as int,
                    d: 2 * targets[k].3 as int,
                    e: 2 * targets[k].4 as int,
                    f: 2 * targets[k].5 as int,
                    g: 2 * targets[k].6 as int,
                    h: 2 * targets[k].7 as int,
                }),
    {
        let mut out: Vec<OInt> = Vec::new();
        let mut idx: usize = 0;
        while idx < targets.len()
            invariant
                idx <= targets.len(),
                out.len() == idx,
                forall|k: int|
                    0 <= k < targets.len() ==> -0x4000_0000 <= #[trigger] targets[k].0
                        < 0x4000_0000 && -0x4000_0000 <= targets[k].1 < 0x4000_0000
                        && -0x4000_0000 <= targets[k].2 < 0x4000_0000 && -0x4000_0000
                        <= targets[k].3 < 0x4000_0000 && -0x4000_0000 <= targets[k].4
                        < 0x4000_0000 && -0x4000_0000 <= targets[k].5 < 0x4000_0000
                        && -0x4000_0000 <= targets[k].6 < 0x4000_0000 && -0x4000_0000
                        <= targets[k].7 < 0x4000_0000,
                forall|k: int|
                    0 <= k < idx ==> #[trigger] out[k]@ == (crate::omodel::OModel {
                        a: 2 * targets[k].0 as int,
                        b: 2 * targets[k].1 as int,
                        c: 2 * targets[k].2 as int,
                        d: 2 * targets[k].3 as int,
                        e: 2 * targets[k].4 as int,
                        f: 2 * targets[k].5 as int,
                        g: 2 * targets[k].6 as int,
                        h: 2 * targets[k].7 as int,
                    }),
            decreases targets.len() - idx,
        {
            proof {
                assert(-0x4000_0000 <= targets[idx as int].0 < 0x4000_0000 && -0x4000_0000
                    <= targets[idx as int].1 < 0x4000_0000 && -0x4000_0000
                    <= targets[idx as int].2 < 0x4000_0000 && -0x4000_0000
                    <= targets[idx as int].3 < 0x4000_0000 && -0x4000_0000
                    <= targets[idx as int].4 < 0x4000_0000 && -0x4000_0000
                    <= targets[idx as int].5 < 0x4000_0000 && -0x4000_0000
                    <= targets[idx as int].6 < 0x4000_0000 && -0x4000_0000
                    <= targets[idx as int].7 < 0x4000_0000);
            }
            out.push(OInt::closest_lattice_point_int(targets[idx]));
            idx = idx + 1;
        }
        out
    }

    pub fn e8_fundamental_domain_batch(count: usize) -> (out: Vec<
        ((i32, i32, i32, i32, i32, i32, i32, i32), (i32, i32, i32, i32, i32, i32, i32, i32)),
    >)
        ensures
            out.len() == count,
            forall|k: int|
                0 <= k < count ==> #[trigger] out[k] == ((
                    1i32,
                    0i32,
                    0i32,
                    0i32,
                    0i32,
                    0i32,
                    0i32,
                    0i32,
                ), (0i32, 1i32, 1i32, 1i32, 1i32, 0i32, 0i32, 0i32)),
    {
        let mut out: Vec<
            ((i32, i32, i32, i32, i32, i32, i32, i32), (i32, i32, i32, i32, i32, i32, i32, i32)),
        > = Vec::new();
        let mut idx: usize = 0;
        while idx < count
            invariant
                idx <= count,
                out.len() == idx,
                forall|k: int|
                    0 <= k < idx ==> #[trigger] out[k] == ((
                        1i32,
                        0i32,
                        0i32,
                        0i32,
                        0i32,
                        0i32,
                        0i32,
                        0i32,
                    ), (0i32, 1i32, 1i32, 1i32, 1i32, 0i32, 0i32, 0i32)),
            decreases count - idx,
        {
            out.push(OInt::fundamental_domain());
            idx = idx + 1;
        }
        out
    }

    pub fn e8_volume_batch(count: usize) -> (out: Vec<i32>)
        ensures
            out.len() == count,
            forall|k: int| 0 <= k < count ==> #[trigger] out[k] == 1,
    {
        let mut out: Vec<i32> = Vec::new();
        let mut idx: usize = 0;
        while idx < count
            invariant
                idx <= count,
                out.len() == idx,
                forall|k: int| 0 <= k < idx ==> #[trigger] out[k] == 1,
            decreases count - idx,
        {
            out.push(OInt::lattice_volume());
            idx = idx + 1;
        }
        out
    }

    pub fn e8_in_lattice_batch(points: &[(i32, i32, i32, i32, i32, i32, i32, i32)]) -> (out: Vec<
        bool,
    >)
        ensures
            out.len() == points.len(),
            forall|k: int| 0 <= k < points.len() ==> #[trigger] out[k],
    {
        let mut out: Vec<bool> = Vec::new();
        let mut idx: usize = 0;
        while idx < points.len()
            invariant
                idx <= points.len(),
                out.len() == idx,
                forall|k: int| 0 <= k < idx ==> #[trigger] out[k],
            decreases points.len() - idx,
        {
            out.push(OInt::is_in_lattice(points[idx]));
            idx = idx + 1;
        }
        out
    }
}

} // verus!
