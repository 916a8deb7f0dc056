use entropy_hpc::simd_engine::{
    cint_add_arrays, cint_add_batch, cint_mul_arrays, cint_mul_batch, cint_sub_arrays,
    cint_sub_batch, hint_add_arrays, hint_add_batch, hint_mul_arrays, hint_mul_batch,
    hint_sub_arrays, hint_sub_batch, oint_add_arrays, oint_add_batch, oint_mul_arrays,
    oint_mul_batch, oint_sub_arrays, oint_sub_batch,
};
use entropy_hpc::{CInt, HInt, OInt};

#[test]
fn batch_add_matches_scalar_on_odd_length() {
    // Length 2003 is not a multiple of the rank-2 block width of 4, so the
    // tail takes the scalar path; every index must still match the scalar
    // sum exactly.
    let n = 2003usize;
    let a: Vec<CInt> = (0..n).map(|i| CInt::new(i as i32, -(i as i32) / 2)).collect();
    let b: Vec<CInt> = (0..n).map(|i| CInt::new(7 - (i as i32), 3 * (i as i32 % 11))).collect();
    let mut out: Vec<CInt> = vec![CInt::zero(); n];
    cint_add_arrays(&a, &b, &mut out);
    for i in 0..n {
        assert_eq!(out[i], a[i] + b[i]);
    }
}

#[test]
fn batch_blocks_match_scalar() {
    let a = [CInt::new(1, 2), CInt::new(-3, 4), CInt::new(5, -6), CInt::new(0, 7)];
    let b = [CInt::new(2, -1), CInt::new(8, 0), CInt::new(-5, 5), CInt::new(3, 3)];
    let add = cint_add_batch(&a, &b);
    let sub = cint_sub_batch(&a, &b);
    let mul = cint_mul_batch(&a, &b);
    for k in 0..4 {
        assert_eq!(add[k], a[k] + b[k]);
        assert_eq!(sub[k], a[k] - b[k]);
        assert_eq!(mul[k], a[k] * b[k]);
    }
}

#[test]
fn batch_sub_and_mul_arrays_match_scalar() {
    let n = 257usize;
    let a: Vec<CInt> = (0..n).map(|i| CInt::new(2 * i as i32, i as i32 - 9)).collect();
    let b: Vec<CInt> = (0..n).map(|i| CInt::new(i as i32 % 5, 4 - (i as i32))).collect();
    let mut sub: Vec<CInt> = vec![CInt::zero(); n];
    let mut mul: Vec<CInt> = vec![CInt::zero(); n];
    cint_sub_arrays(&a, &b, &mut sub);
    cint_mul_arrays(&a, &b, &mut mul);
    for i in 0..n {
        assert_eq!(sub[i], a[i] - b[i]);
        assert_eq!(mul[i], a[i] * b[i]);
    }
}

#[test]
fn quaternion_batches_match_scalar() {
    let a = [HInt::new(1, 2, 3, 4), HInt::new(-5, 0, 1, -2)];
    let b = [HInt::new(2, -1, 0, 1), HInt::new(3, 3, -3, 0)];
    let add = hint_add_batch(&a, &b);
    let sub = hint_sub_batch(&a, &b);
    let mul = hint_mul_batch(&a, &b);
    for k in 0..2 {
        assert_eq!(add[k], a[k] + b[k]);
        assert_eq!(sub[k], a[k] - b[k]);
        assert_eq!(mul[k], a[k] * b[k]);
    }
    let n = 101usize;
    let av: Vec<HInt> = (0..n).map(|i| HInt::new(i as i32, 1, -(i as i32), 2)).collect();
    let bv: Vec<HInt> = (0..n).map(|i| HInt::new(3, i as i32 % 7, 2, -1)).collect();
    let mut add_v: Vec<HInt> = vec![HInt::zero(); n];
    let mut sub_v: Vec<HInt> = vec![HInt::zero(); n];
    let mut mul_v: Vec<HInt> = vec![HInt::zero(); n];
    hint_add_arrays(&av, &bv, &mut add_v);
    hint_sub_arrays(&av, &bv, &mut sub_v);
    hint_mul_arrays(&av, &bv, &mut mul_v);
    for i in 0..n {
        assert_eq!(add_v[i], av[i] + bv[i]);
        assert_eq!(sub_v[i], av[i] - bv[i]);
        assert_eq!(mul_v[i], av[i] * bv[i]);
    }
}

#[test]
fn octonion_batches_match_scalar() {
    let a = [OInt::new(1, 2, 3, 4, -1, 0, 2, -3)];
    let b = [OInt::new(2, -1, 0, 1, 4, 2, -2, 1)];
    let add = oint_add_batch(&a, &b);
    let sub = oint_sub_batch(&a, &b);
    let mul = oint_mul_batch(&a, &b);
    assert_eq!(add[0], a[0] + b[0]);
    assert_eq!(sub[0], a[0] - b[0]);
    assert_eq!(mul[0], a[0] * b[0]);
    let n = 67usize;
    let av: Vec<OInt> = (0..n).map(|i| OInt::new(i as i32, 1, -2, 0, 3, -1, 2, 1)).collect();
    let bv: Vec<OInt> = (0..n).map(|i| OInt::new(2, i as i32 % 5, 1, -1, 0, 2, -3, 4)).collect();
    let mut add_v: Vec<OInt> = vec![OInt::zero(); n];
    let mut sub_v: Vec<OInt> = vec![OInt::zero(); n];
    let mut mul_v: Vec<OInt> = vec![OInt::zero(); n];
    oint_add_arrays(&av, &bv, &mut add_v);
    oint_sub_arrays(&av, &bv, &mut sub_v);
    oint_mul_arrays(&av, &bv, &mut mul_v);
    for i in 0..n {
        assert_eq!(add_v[i], av[i] + bv[i]);
        assert_eq!(sub_v[i], av[i] - bv[i]);
        assert_eq!(mul_v[i], av[i] * bv[i]);
    }
}

#[test]
fn lattice_batches_match_scalar() {
    let pts = vec![CInt::new(1, 2), CInt::new(-3, 0), CInt::new(4, 4)];
    let dists = entropy_hpc::LatticeSimd::z2_distance_squared_batch(&pts, CInt::new(1, 1));
    assert_eq!(dists, vec![1, 17, 18]);
    let hv = vec![(2, 2, 2, 2), (1, 1, 1, 1), (1, 2, 1, 2)];
    let flags = entropy_hpc::LatticeSimd::d4_in_lattice_batch(&hv);
    assert_eq!(flags, vec![true, true, false]);
    assert_eq!(entropy_hpc::LatticeSimd::e8_volume_batch(3), vec![1, 1, 1]);
}
