use entropy_hpc::{CInt, HInt, LatticeSimd, OInt};

#[test]
fn test_complete_api_showcase() {
    let z1 = CInt::new(3, 4);
    let z2 = CInt::new(1, 2);
    println!("rank 2:");
    println!("  z1={:?} z2={:?}", z1, z2);
    println!("  z1.is_zero()={} | z1.is_unit()={}", z1.is_zero(), z1.is_unit());
    println!("  +: {:?} | *: {:?}", z1 + z2, z1 * z2);
    println!("  conj: {:?} | norm2: {}", z1.conj(), z1.norm_squared());
    println!("  normalize: {:?}", z1.normalize());
    if let Ok((_q, _r)) = z1.div_rem(z2) {
        println!("  div_rem ok");
    }
    println!("  to_lattice_vector: {:?}", z1.to_lattice_vector());
    println!(
        "  distance2: {} | norm2: {}",
        z1.lattice_distance_squared(z2),
        z1.lattice_norm_squared()
    );
    println!(
        "  closest: {:?} | volume: {}",
        CInt::closest_lattice_point_int((3, 4)),
        CInt::lattice_volume()
    );
    println!("  is_in_lattice: {}", CInt::is_in_lattice((3, 4)));
    let pts = vec![CInt::new(0, 0), CInt::new(1, 1)];
    println!("  norm2_batch: {:?}", LatticeSimd::z2_norm_squared_batch(&pts));

    let h1 = HInt::new(1, 1, 1, 1);
    let h2 = HInt::new(2, 0, 0, 0);
    println!("rank 4:");
    println!("  h1={:?} h2={:?}", h1, h2);
    println!("  h1.is_zero()={} | h1.is_unit()={}", h1.is_zero(), h1.is_unit());
    println!("  +: {:?} | *: {:?}", h1 + h2, h1 * h2);
    println!("  conj: {:?} | norm2: {}", h1.conj(), h1.norm_squared());
    println!("  normalize: {:?}", h1.normalize());
    if let Ok((_q, _r)) = h1.div_rem(h2) {
        println!("  div_rem ok");
    }
    println!(
        "  is_anticommutative_pair: {}",
        HInt::is_anticommutative_pair(h1, h2)
    );
    println!(
        "  distance2: {} | parity: {}",
        h1.lattice_distance_squared(h2),
        HInt::is_in_lattice((1, 1, 1, 1))
    );
    let pts_h = vec![HInt::new(0, 0, 0, 0), HInt::new(1, 1, 0, 0)];
    println!("  norm2_batch: {:?}", LatticeSimd::d4_norm_squared_batch(&pts_h));

    let o1 = OInt::new(1, 1, 1, 1, 0, 0, 0, 0);
    let o2 = OInt::new(2, 0, 0, 0, 2, 0, 0, 0);
    println!("rank 8:");
    println!("  o1={:?} o2={:?}", o1, o2);
    println!("  o1.is_zero()={} | o1.is_unit()={}", o1.is_zero(), o1.is_unit());
    println!("  +: {:?} | -: {:?}", o1 + o2, o1 - o2);
    println!("  conj: {:?} | norm2: {}", o1.conj(), o1.norm_squared());
    println!("  normalize: {:?}", o1.normalize());
    if let Ok((_q, _r)) = o1.div_rem(o2) {
        println!("  div_rem ok");
    }
    println!(
        "  is_non_commutative_pair: {}",
        OInt::is_non_commutative_pair(o1, o2)
    );
    println!(
        "  alternative_identity: {}",
        OInt::alternative_identity(o1, o2)
    );
    println!(
        "  distance2: {} | parity: {}",
        o1.lattice_distance_squared(o2),
        OInt::is_in_lattice((1, 1, 1, 1, 0, 0, 0, 0))
    );
    let pts_o = vec![OInt::new(0, 0, 0, 0, 0, 0, 0, 0), OInt::new(1, 1, 0, 0, 1, 1, 0, 0)];
    println!("  norm2_batch: {:?}", LatticeSimd::e8_norm_squared_batch(&pts_o));
}
