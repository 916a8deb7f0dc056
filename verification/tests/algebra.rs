use entropy_hpc::{CIFraction, CInt, CIntError, HIFraction, HInt, HIntError, OInt, OIntError};
use entropy_hpc::integer_gcd;

#[test]
fn gaussian_product_example() {
    assert_eq!(CInt::new(3, 4) * CInt::new(1, 2), CInt::new(-5, 10));
}

#[test]
fn gaussian_div_rem_example() {
    let x = CInt::new(10, 5);
    let d = CInt::new(3, 2);
    let (q, r) = x.div_rem(d).unwrap();
    assert_eq!(q * d + r, x);
    assert!(r.norm_squared() < 13);
}

#[test]
fn gaussian_gcd_example() {
    let g = CInt::gcd(CInt::new(12, 0), CInt::new(18, 0)).unwrap();
    assert_eq!(g.norm_squared(), 36);
}

#[test]
fn gaussian_gcd_of_zero_is_associate() {
    let x = CInt::new(-7, 3);
    let g = CInt::gcd(x, CInt::zero()).unwrap();
    assert_eq!(g.norm_squared(), x.norm_squared());
    assert!(x.div_exact(g).is_ok());
}

#[test]
fn gaussian_gcd_symmetric_norm() {
    let a = CInt::new(12, 9);
    let b = CInt::new(6, -3);
    let g1 = CInt::gcd(a, b).unwrap();
    let g2 = CInt::gcd(b, a).unwrap();
    assert_eq!(g1.norm_squared(), g2.norm_squared());
}

#[test]
fn gaussian_xgcd_bezout() {
    let a = CInt::new(12, 0);
    let b = CInt::new(18, 0);
    let (g, s, t) = CInt::xgcd(a, b).unwrap();
    let combo = s * a + t * b;
    assert_eq!(combo.norm_squared(), g.norm_squared());
}

#[test]
fn gaussian_conj_involution_and_additivity() {
    let x = CInt::new(5, -7);
    let y = CInt::new(-2, 9);
    assert_eq!(x.conj().conj(), x);
    assert_eq!((x + y).conj(), x.conj() + y.conj());
}

#[test]
fn gaussian_norm_multiplicative() {
    let x = CInt::new(5, -7);
    let y = CInt::new(-2, 9);
    assert_eq!((x * y).norm_squared(), x.norm_squared() * y.norm_squared());
}

#[test]
fn gaussian_normalize_idempotent_and_associates() {
    let x = CInt::new(-4, 7);
    let n = x.normalize();
    assert_eq!(n.normalize(), n);
    assert_eq!(n.norm_squared(), x.norm_squared());
    for a in x.associates().iter() {
        assert_eq!(a.norm_squared(), x.norm_squared());
    }
}

#[test]
fn gaussian_inv_unit() {
    let u = CInt::i();
    let inv = u.inv_unit().unwrap();
    assert_eq!(u * inv, CInt::one());
    assert_eq!(CInt::new(2, 0).inv_unit(), Err(CIntError::NoInverse));
}

#[test]
fn gaussian_fractions_reduce() {
    let f = CIFraction { num: CInt::new(6, -9), den: 12 };
    let r = CInt::reduce_fraction(f);
    assert_eq!(r.num, CInt::new(2, -3));
    assert_eq!(r.den, 4);
    let aa = r.num.a.unsigned_abs() as u64;
    let bb = r.num.b.unsigned_abs() as u64;
    assert_eq!(integer_gcd(integer_gcd(aa, bb), r.den), 1);
    assert_eq!(12 % r.den, 0);
}

#[test]
fn gaussian_error_variants() {
    assert_eq!(
        CInt::new(1, 0).div_rem(CInt::zero()),
        Err(CIntError::DivisionByZero)
    );
    assert_eq!(
        CInt::new(3, 0).div_exact(CInt::new(2, 0)),
        Err(CIntError::NotDivisible)
    );
    assert_eq!(
        CInt::new(i32::MAX, 0).div_to_fraction(CInt::new(0, 2)),
        Err(CIntError::Overflow)
    );
    assert_eq!(
        CInt::zero().inv_fraction(),
        Err(CIntError::DivisionByZero)
    );
}

#[test]
fn quaternion_basis_products() {
    let i = HInt::i();
    let j = HInt::j();
    let k = HInt::k();
    assert_eq!(i * j, k);
    assert_eq!(j * i, HInt::new(0, 0, 0, -1));
    assert!(HInt::is_anticommutative_pair(i, j));
    assert!(HInt::is_associative_triple(i, j, k));
}

#[test]
fn quaternion_conj_and_norm() {
    let x = HInt::new(1, -2, 3, -4);
    let y = HInt::new(2, 1, 0, 5);
    assert_eq!(x.conj().conj(), x);
    assert_eq!((x + y).conj(), x.conj() + y.conj());
    assert_eq!((x * y).norm_squared(), x.norm_squared() * y.norm_squared());
}

#[test]
fn quaternion_half_integer_support() {
    let w = HInt::from_halves(1, 1, 1, 1).unwrap();
    assert_eq!(w.norm_squared(), 1);
    assert!(w.is_unit());
    assert_eq!(
        HInt::from_halves(1, 0, 0, 0),
        Err(HIntError::InvalidHalfInteger)
    );
    let ww = w * w;
    assert_eq!(ww.norm_squared(), 1);
}

#[test]
fn quaternion_div_rem_identity_and_bound() {
    let x = HInt::new(7, -3, 2, 5);
    let d = HInt::new(2, 1, 0, -1);
    let (q, r) = x.div_rem(d).unwrap();
    assert_eq!(q * d + r, x);
    assert!(r.norm_squared() < d.norm_squared());
    // The all-ones quaternion divided by 2 lands exactly on the
    // half-integer point (1+i+j+k)/2, so the remainder is zero.
    let y = HInt::new(1, 1, 1, 1);
    let two = HInt::new(2, 0, 0, 0);
    let (q2, r2) = y.div_rem(two).unwrap();
    assert!(r2.is_zero());
    assert_eq!(q2, HInt::from_halves(1, 1, 1, 1).unwrap());
}

#[test]
fn quaternion_div_exact_half_integer_quotient() {
    let y = HInt::new(1, 1, 1, 1);
    let two = HInt::new(2, 0, 0, 0);
    let q = y.div_exact(two).unwrap();
    assert_eq!(q, HInt::from_halves(1, 1, 1, 1).unwrap());
    assert_eq!(q * two, y);
}

#[test]
fn quaternion_gcd_and_normalize() {
    let a = HInt::new(4, 0, 0, 0);
    let b = HInt::new(6, 0, 0, 0);
    let g = HInt::gcd(a, b).unwrap();
    assert_eq!(g.norm_squared(), 4);
    let x = HInt::new(-3, 1, 1, 1);
    assert_eq!(x.normalize().normalize(), x.normalize());
    for a in x.associates().iter() {
        assert_eq!(a.norm_squared(), x.norm_squared());
    }
}

#[test]
fn quaternion_fractions() {
    let x = HInt::new(4, 2, 0, 0);
    let d = HInt::new(2, 0, 0, 0);
    let f = x.div_to_fraction(d).unwrap();
    assert_eq!(f.den, 4);
    let red = HInt::reduce_fraction(HIFraction { num: HInt::new(2, 2, 2, 2), den: 8 });
    assert_eq!(red.num, HInt::from_halves(1, 1, 1, 1).unwrap());
    assert_eq!(red.den, 2);
    assert_eq!(8 % red.den, 0);
    let u = HInt::i();
    assert_eq!(u.inv_unit().unwrap(), u.conj());
    assert_eq!(HInt::zero().inv_fraction(), Err(HIntError::NoInverse));
}

#[test]
fn octonion_basis_products() {
    let e1 = OInt::e1();
    let e2 = OInt::e2();
    let e4 = OInt::e4();
    assert_eq!(e1 * e2, e4);
    assert!(OInt::is_non_commutative_pair(e1, e2));
}

#[test]
fn octonion_non_associative_triple_exists() {
    // A triple off a Fano line fails to associate; a triple on a line
    // (such as e1, e2, e4) always associates in an alternative algebra.
    let e1 = OInt::e1();
    let e2 = OInt::e2();
    let e3 = OInt::e3();
    assert!(OInt::is_non_associative_triple(e1, e2, e3));
    let e4 = OInt::e4();
    assert!(!OInt::is_non_associative_triple(e1, e2, e4));
}

#[test]
fn octonion_moufang_on_basis_triples() {
    let basis = [
        OInt::one(),
        OInt::e1(),
        OInt::e2(),
        OInt::e3(),
        OInt::e4(),
        OInt::e5(),
        OInt::e6(),
        OInt::e7(),
    ];
    for a in basis.iter() {
        for b in basis.iter() {
            for c in basis.iter() {
                assert!(OInt::moufang_identity(*a, *b, *c));
            }
        }
    }
}

#[test]
fn octonion_conj_and_norm() {
    let x = OInt::new(1, -2, 3, -4, 5, -6, 7, -8);
    let y = OInt::new(2, 1, 0, 5, -1, 3, 2, 1);
    assert_eq!(x.conj().conj(), x);
    assert_eq!((x + y).conj(), x.conj() + y.conj());
    assert_eq!((x * y).norm_squared(), x.norm_squared() * y.norm_squared());
}

#[test]
fn octonion_div_rem_identity_and_gcd() {
    let x = OInt::new(9, -3, 2, 5, 0, 1, -2, 4);
    let d = OInt::new(2, 1, 0, -1, 1, 0, 0, 0);
    let (q, r) = x.div_rem(d).unwrap();
    assert_eq!(q * d + r, x);
    let g = OInt::gcd(OInt::new(4, 0, 0, 0, 0, 0, 0, 0), OInt::new(6, 0, 0, 0, 0, 0, 0, 0))
        .unwrap();
    assert_eq!(g.norm_squared(), 4);
}

#[test]
fn octonion_div_exact_half_integer_quotient() {
    // The all-ones octonion divided by 2 lands exactly on the all-halves
    // point, so exact division succeeds with that quotient.
    let y = OInt::new(1, 1, 1, 1, 1, 1, 1, 1);
    let two = OInt::new(2, 0, 0, 0, 0, 0, 0, 0);
    let (q2, r2) = y.div_rem(two).unwrap();
    assert!(r2.is_zero());
    let q = y.div_exact(two).unwrap();
    assert_eq!(q, OInt::from_halves(1, 1, 1, 1, 1, 1, 1, 1).unwrap());
    assert_eq!(q * two, y);
}

#[test]
fn octonion_associates_are_unit_multiples() {
    let x = OInt::new(1, 2, -3, 4, 5, -6, 7, 0);
    let assocs = x.associates();
    let units = [
        OInt::one(),
        OInt::zero() - OInt::one(),
        OInt::e1(),
        OInt::zero() - OInt::e1(),
        OInt::e2(),
        OInt::zero() - OInt::e2(),
        OInt::e3(),
        OInt::zero() - OInt::e3(),
    ];
    for k in 0..8 {
        assert_eq!(assocs[k], x * units[k]);
        assert_eq!(assocs[k].norm_squared(), x.norm_squared());
    }
}

#[test]
fn octonion_reduce_fraction() {
    let f = entropy_hpc::OIFraction { num: OInt::new(3, -6, 9, 0, 3, 6, -3, 12), den: 30 };
    let r = OInt::reduce_fraction(f);
    // The stored components of the numerator were (6, -12, 18, 0, 6, 12,
    // -6, 24); their common gcd with the denominator is 6.
    assert_eq!(
        (r.num.a, r.num.b, r.num.c, r.num.d, r.num.e, r.num.f, r.num.g, r.num.h),
        (1, -2, 3, 0, 1, 2, -1, 4)
    );
    assert_eq!(r.den, 5);
    assert_eq!(30 % r.den, 0);
}

#[test]
fn octonion_half_integer_and_errors() {
    let w = OInt::from_halves(1, 1, 1, 1, 1, 1, 1, 1).unwrap();
    assert_eq!(w.norm_squared(), 2);
    assert_eq!(
        OInt::from_halves(1, 0, 0, 0, 0, 0, 0, 0),
        Err(OIntError::InvalidHalfInteger)
    );
    assert_eq!(
        OInt::one().div_rem(OInt::zero()),
        Err(OIntError::DivisionByZero)
    );
    assert_eq!(OInt::e1().inv_unit().unwrap(), OInt::e1().conj());
    assert_eq!(
        OInt::new(2, 0, 0, 0, 0, 0, 0, 0).inv_unit(),
        Err(OIntError::NoInverse)
    );
}

#[test]
fn octonion_basis_table() {
    // Spot checks of the basis multiplication table.
    assert_eq!(entropy_hpc::multiply_basis(1, 2), (1, 4));
    assert_eq!(entropy_hpc::multiply_basis(2, 1), (-1, 4));
    assert_eq!(entropy_hpc::multiply_basis(0, 5), (1, 5));
    assert_eq!(entropy_hpc::multiply_basis(3, 3), (-1, 0));
    // Every line is cyclically closed: e_i * e_j == sign * e_tgt.
    let basis = [
        OInt::one(),
        OInt::e1(),
        OInt::e2(),
        OInt::e3(),
        OInt::e4(),
        OInt::e5(),
        OInt::e6(),
        OInt::e7(),
    ];
    for i in 0..8usize {
        for j in 0..8usize {
            let (sign, tgt) = entropy_hpc::multiply_basis(i, j);
            let prod = basis[i] * basis[j];
            let expect = if sign == 1 { basis[tgt] } else { OInt::zero() - basis[tgt] };
            assert_eq!(prod, expect, "basis product mismatch at ({}, {})", i, j);
        }
    }
}
