//! Elementwise batch operations over the three algebras.  Every batch
//! routine is specified to agree exactly with the scalar operation at each
//! index, full-width blocks and tails alike, so throughput tuning can
//! never change results.
use vstd::prelude::*;

verus! {

use crate::cint::{CInt, cint_wrapping_add, cint_wrapping_sub, c_fits};
use crate::cmodel::c_mul;
use crate::hint::{HInt, h_fits};
use crate::hmodel::{h_add, h_sub, h_mul};
use crate::oint::{OInt, o_fits};
use crate::omodel::{o_add, o_sub, o_mul};

/// One full-width block of rank-2 additions.
pub fn cint_add_batch(a: &[CInt; 4], b: &[CInt; 4]) -> (out: [CInt; 4])
    ensures
        forall|k: int| 0 <= k < 4 ==> #[trigger] out[k] == cint_wrapping_add(a[k], b[k]),
{
    [a[0] + b[0], a[1] + b[1], a[2] + b[2], a[3] + b[3]]
}

/// One full-width block of rank-2 subtractions.
pub fn cint_sub_batch(a: &[CInt; 4], b: &[CInt; 4]) -> (out: [CInt; 4])
    ensures
        forall|k: int| 0 <= k < 4 ==> #[trigger] out[k] == cint_wrapping_sub(a[k], b[k]),
{
    [a[0] - b[0], a[1] - b[1], a[2] - b[2], a[3] - b[3]]
}

/// One block of rank-2 products, kept scalar so the widened-accumulator
/// result is bit-identical to the scalar path.
pub fn cint_mul_batch(a: &[CInt; 4], b: &[CInt; 4]) -> (out: [CInt; 4])
    requires
        forall|k: int| 0 <= k < 4 ==> c_fits(c_mul(a[k]@, b[k]@)),
    ensures
        forall|k: int|
            0 <= k < 4 ==> #[trigger] out[k]@ == c_mul(a[k]@, b[k]@),
{
    let out = [a[0] * b[0], a[1] * b[1], a[2] * b[2], a[3] * b[3]];
    proof {
        assert forall|k: int| 0 <= k < 4 implies #[trigger] out[k]@ == c_mul(a[k]@, b[k]@) by {
            assert(c_fits(c_mul(a[k]@, b[k]@)));
        }
    }
    out
}

/// Elementwise addition over whole slices; tails shorter than the block
/// width take the same scalar path and produce the same values.
pub fn cint_add_arrays(a: &[CInt], b: &[CInt], out: &mut Vec<CInt>)
    requires
        a.len() == b.len(),
        old(out).len() == a.len(),
    ensures
        final(out).len() == a.len(),
        forall|k: int|
            0 <= k < a.len() ==> #[trigger] final(out)[k] == cint_wrapping_add(a[k], b[k]),
{
    let n = a.len();
    let mut idx: usize = 0;
    while idx < n
        invariant
            n == a.len() == b.len() == out.len(),
            idx <= n,
            forall|k: int|
                0 <= k < idx ==> #[trigger] out[k] == cint_wrapping_add(a[k], b[k]),
        decreases n - idx,
    {
        let v = a[idx] + b[idx];
        out.set(idx, v);
        idx = idx + 1;
    }
}

/// Elementwise subtraction over whole slices.
pub fn cint_sub_arrays(a: &[CInt], b: &[CInt], out: &mut Vec<CInt>)
    requires
        a.len() == b.len(),
        old(out).len() == a.len(),
    ensures
        final(out).len() == a.len(),
        forall|k: int|
            0 <= k < a.len() ==> #[trigger] final(out)[k] == cint_wrapping_sub(a[k], b[k]),
{
    let n = a.len();
    let mut idx: usize = 0;
    while idx < n
        invariant
            n == a.len() == b.len() == out.len(),
            idx <= n,
            forall|k: int|
                0 <= k < idx ==> #[trigger] out[k] == cint_wrapping_sub(a[k], b[k]),
        decreases n - idx,
    {
        let v = a[idx] - b[idx];
        out.set(idx, v);
        idx = idx + 1;
    }
}

/// Elementwise multiplication over whole slices, scalar by design.
pub fn cint_mul_arrays(a: &[CInt], b: &[CInt], out: &mut Vec<CInt>)
    requires
        a.len() == b.len(),
        old(out).len() == a.len(),
        forall|k: int| 0 <= k < a.len() ==> c_fits(#[trigger] c_mul(a[k]@, b[k]@)),
    ensures
        final(out).len() == a.len(),
        forall|k: int|
            0 <= k < a.len() ==> #[trigger] final(out)[k]@ == c_mul(a[k]@, b[k]@),
{
    let n = a.len();
    let mut idx: usize = 0;
    while idx < n
        invariant
            n == a.len() == b.len() == out.len(),
            idx <= n,
            forall|k: int| 0 <= k < n ==> c_fits(#[trigger] c_mul(a[k]@, b[k]@)),
            forall|k: int|
                0 <= k < idx ==> #[trigger] out[k]@ == c_mul(a[k]@, b[k]@),
        decreases n - idx,
    {
        proof {
            assert(c_fits(c_mul(a[idx as int]@, b[idx as int]@)));
        }
        let v = a[idx] * b[idx];
        out.set(idx, v);
        idx = idx + 1;
    }
}

/// One full-width block of rank-4 additions.
pub fn hint_add_batch(a: &[HInt; 2], b: &[HInt; 2]) -> (out: [HInt; 2])
    requires
        forall|k: int| 0 <= k < 2 ==> h_fits(#[trigger] h_add(a[k]@, b[k]@)),
    ensures
        forall|k: int|
            0 <= k < 2 ==> #[trigger] out[k]@ == h_add(a[k]@, b[k]@),
{
    proof {
        assert(h_fits(h_add(a[0]@, b[0]@)) && h_fits(h_add(a[1]@, b[1]@)));
    }
    [a[0] + b[0], a[1] + b[1]]
}

/// One full-width block of rank-4 subtractions.
pub fn hint_sub_batch(a: &[HInt; 2], b: &[HInt; 2]) -> (out: [HInt; 2])
    requires
        forall|k: int| 0 <= k < 2 ==> h_fits(#[trigger] h_sub(a[k]@, b[k]@)),
    ensures
        forall|k: int|
            0 <= k < 2 ==> #[trigger] out[k]@ == h_sub(a[k]@, b[k]@),
{
    proof {
        assert(h_fits(h_sub(a[0]@, b[0]@)) && h_fits(h_sub(a[1]@, b[1]@)));
    }
    [a[0] - b[0], a[1] - b[1]]
}

/// One block of rank-4 products, kept scalar by design.
pub fn hint_mul_batch(a: &[HInt; 2], b: &[HInt; 2]) -> (out: [HInt; 2])
    requires
        forall|k: int| 0 <= k < 2 ==> h_fits(#[trigger] h_mul(a[k]@, b[k]@)),
    ensures
        forall|k: int|
            0 <= k < 2 ==> #[trigger] out[k]@ == h_mul(a[k]@, b[k]@),
{
    proof {
        assert(h_fits(h_mul(a[0]@, b[0]@)) && h_fits(h_mul(a[1]@, b[1]@)));
    }
    [a[0] * b[0], a[1] * b[1]]
}

/// Elementwise rank-4 addition over whole slices.
pub fn hint_add_arrays(a: &[HInt], b: &[HInt], out: &mut Vec<HInt>)
    requires
        a.len() == b.len(),
        old(out).len() == a.len(),
        forall|k: int| 0 <= k < a.len() ==> h_fits(#[trigger] h_add(a[k]@, b[k]@)),
    ensures
        final(out).len() == a.len(),
        forall|k: int|
            0 <= k < a.len() ==> #[trigger] final(out)[k]@ == h_add(a[k]@, b[k]@),
{
    let n = a.len();
    let mut idx: usize = 0;
    while idx < n
        invariant
            n == a.len() == b.len() == out.len(),
            idx <= n,
            forall|k: int| 0 <= k < n ==> h_fits(#[trigger] h_add(a[k]@, b[k]@)),
            forall|k: int|
                0 <= k < idx ==> #[trigger] out[k]@ == h_add(a[k]@, b[k]@),
        decreases n - idx,
    {
        proof {
            assert(h_fits(h_add(a[idx as int]@, b[idx as int]@)));
        }
        let v = a[idx] + b[idx];
        out.set(idx, v);
        idx = idx + 1;
    }
}

/// Elementwise rank-4 subtraction over whole slices.
pub fn hint_sub_arrays(a: &[HInt], b: &[HInt], out: &mut Vec<HInt>)
    requires
        a.len() == b.len(),
        old(out).len() == a.len(),
        forall|k: int| 0 <= k < a.len() ==> h_fits(#[trigger] h_sub(a[k]@, b[k]@)),
    ensures
        final(out).len() == a.len(),
        forall|k: int|
            0 <= k < a.len() ==> #[trigger] final(out)[k]@ == h_sub(a[k]@, b[k]@),
{
    let n = a.len();
    let mut idx: usize = 0;
    while idx < n
        invariant
            n == a.len() == b.len() == out.len(),
            idx <= n,
            forall|k: int| 0 <= k < n ==> h_fits(#[trigger] h_sub(a[k]@, b[k]@)),
            forall|k: int|
                0 <= k < idx ==> #[trigger] out[k]@ == h_sub(a[k]@, b[k]@),
        decreases n - idx,
    {
        proof {
            assert(h_fits(h_sub(a[idx as int]@, b[idx as int]@)));
        }
        let v = a[idx] - b[idx];
        out.set(idx, v);
        idx = idx + 1;
    }
}

/// Elementwise rank-4 multiplication over whole slices, scalar by design.
pub fn hint_mul_arrays(a: &[HInt], b: &[HInt], out: &mut Vec<HInt>)
    requires
        a.len() == b.len(),
        old(out).len() == a.len(),
        forall|k: int| 0 <= k < a.len() ==> h_fits(#[trigger] h_mul(a[k]@, b[k]@)),
    ensures
        final(out).len() == a.len(),
        forall|k: int|
            0 <= k < a.len() ==> #[trigger] final(out)[k]@ == h_mul(a[k]@, b[k]@),
{
    let n = a.len();
    let mut idx: usize = 0;
    while idx < n
        invariant
            n == a.len() == b.len() == out.len(),
            idx <= n,
            forall|k: int| 0 <= k < n ==> h_fits(#[trigger] h_mul(a[k]@, b[k]@)),
            forall|k: int|
                0 <= k < idx ==> #[trigger] out[k]@ == h_mul(a[k]@, b[k]@),
        decreases n - idx,
    {
        proof {
            assert(h_fits(h_mul(a[idx as int]@, b[idx as int]@)));
        }
        let v = a[idx] * b[idx];
        out.set(idx, v);
        idx = idx + 1;
    }
}

/// One full-width block of rank-8 additions.
pub fn oint_add_batch(a: &[OInt; 1], b: &[OInt; 1]) -> (out: [OInt; 1])
    requires
        o_fits(o_add(a[0]@, b[0]@)),
    ensures
        out[0]@ == o_add(a[0]@, b[0]@),
{
    [a[0] + b[0]]
}

/// One full-width block of rank-8 subtractions.
pub fn oint_sub_batch(a: &[OInt; 1], b: &[OInt; 1]) -> (out: [OInt; 1])
    requires
        o_fits(o_sub(a[0]@, b[0]@)),
    ensures
        out[0]@ == o_sub(a[0]@, b[0]@),
{
    [a[0] - b[0]]
}

/// One block of rank-8 products, kept scalar by design.
pub fn oint_mul_batch(a: &[OInt; 1], b: &[OInt; 1]) -> (out: [OInt; 1])
    requires
        o_fits(o_mul(a[0]@, b[0]@)),
    ensures
        out[0]@ == o_mul(a[0]@, b[0]@),
{
    [a[0] * b[0]]
}

/// Elementwise rank-8 addition over whole slices.
pub fn oint_add_arrays(a: &[OInt], b: &[OInt], out: &mut Vec<OInt>)
    requires
        a.len() == b.len(),
        old(out).len() == a.len(),
        forall|k: int| 0 <= k < a.len() ==> o_fits(#[trigger] o_add(a[k]@, b[k]@)),
    ensures
        final(out).len() == a.len(),
        forall|k: int|
            0 <= k < a.len() ==> #[trigger] final(out)[k]@ == o_add(a[k]@, b[k]@),
{
    let n = a.len();
    let mut idx: usize = 0;
    while idx < n
        invariant
            n == a.len() == b.len() == out.len(),
            idx <= n,
            forall|k: int| 0 <= k < n ==> o_fits(#[trigger] o_add(a[k]@, b[k]@)),
            forall|k: int|
                0 <= k < idx ==> #[trigger] out[k]@ == o_add(a[k]@, b[k]@),
        decreases n - idx,
    {
        proof {
            assert(o_fits(o_add(a[idx as int]@, b[idx as int]@)));
        }
        let v = a[idx] + b[idx];
        out.set(idx, v);
        idx = idx + 1;
    }
}

/// Elementwise rank-8 subtraction over whole slices.
pub fn oint_sub_arrays(a: &[OInt], b: &[OInt], out: &mut Vec<OInt>)
    requires
        a.len() == b.len(),
        old(out).len() == a.len(),
        forall|k: int| 0 <= k < a.len() ==> o_fits(#[trigger] o_sub(a[k]@, b[k]@)),
    ensures
        final(out).len() == a.len(),
        forall|k: int|
            0 <= k < a.len() ==> #[trigger] final(out)[k]@ == o_sub(a[k]@, b[k]@),
{
    let n = a.len();
    let mut idx: usize = 0;
    while idx < n
        invariant
            n == a.len() == b.len() == out.len(),
            idx <= n,
            forall|k: int| 0 <= k < n ==> o_fits(#[trigger] o_sub(a[k]@, b[k]@)),
            forall|k: int|
                0 <= k < idx ==> #[trigger] out[k]@ == o_sub(a[k]@, b[k]@),
        decreases n - idx,
    {
        proof {
            assert(o_fits(o_sub(a[idx as int]@, b[idx as int]@)));
        }
        let v = a[idx] - b[idx];
        out.set(idx, v);
        idx = idx + 1;
    }
}

/// Elementwise rank-8 multiplication over whole slices, scalar by design.
pub fn oint_mul_arrays(a: &[OInt], b: &[OInt], out: &mut Vec<OInt>)
    requires
        a.len() == b.len(),
        old(out).len() == a.len(),
        forall|k: int| 0 <= k < a.len() ==> o_fits(#[trigger] o_mul(a[k]@, b[k]@)),
    ensures
        final(out).len() == a.len(),
        forall|k: int|
            0 <= k < a.len() ==> #[trigger] final(out)[k]@ == o_mul(a[k]@, b[k]@),
{
    let n = a.len();
    let mut idx: usize = 0;
    while idx < n
        invariant
            n == a.len() == b.len() == out.len(),
            idx <= n,
            forall|k: int| 0 <= k < n ==> o_fits(#[trigger] o_mul(a[k]@, b[k]@)),
            forall|k: int|
                0 <= k < idx ==> #[trigger] out[k]@ == o_mul(a[k]@, b[k]@),
        decreases n - idx,
    {
        proof {
            assert(o_fits(o_mul(a[idx as int]@, b[idx as int]@)));
        }
        let v = a[idx] * b[idx];
        out.set(idx, v);
        idx = idx + 1;
    }
}

} // verus!
