use csidh::elliptic_curves::EllipticCurve;
use csidh::finite_fields::Fp;
use csidh::fp_elliptic_curves::UnsignedProjPoint;

const P: u64 = 10169;

fn sample_montgomery() -> EllipticCurve {
    let mut ell = EllipticCurve::new_montgomery(Fp::new(rand::random_range(0..P) as i64, P));
    while ell.discriminant() == Fp::from_int(0, P) {
        ell = EllipticCurve::new_montgomery(Fp::new(rand::random_range(0..P) as i64, P));
    }
    ell
}

#[test]
fn x_double_coincide() {
    for _j in 1..10 {
        let ell = sample_montgomery();
        for _i in 1..50 {
            let p = ell.sample_point().unwrap();
            let p2 = ell.add_points(p.clone(), p.clone());
            let p_int = ell.unsigne_point(p);

            assert_eq!(ell.x_dbl(p_int), ell.unsigne_point(p2));
        }
    }
}

#[test]
fn x_add_coincide() {
    for _j in 1..10 {
        let ell = sample_montgomery();
        for _i in 1..50 {
            let p1 = ell.sample_point().unwrap();
            let p2 = ell.sample_point().unwrap();
            let p_plus = ell.add_points(p1.clone(), p2.clone());
            let p_moins = ell.add_points(p1.clone(), ell.neg_point(p2.clone()));

            let p1_uns = ell.unsigne_point(p1);
            let p2_uns = ell.unsigne_point(p2);
            let p_plus_uns = ell.unsigne_point(p_plus);
            let p_moins_uns = ell.unsigne_point(p_moins);

            if p1_uns != p2_uns && p_moins_uns != UnsignedProjPoint::order_two(P) {
                assert_eq!(ell.x_add(p1_uns, p2_uns, p_moins_uns), p_plus_uns);
            }
        }
    }
}

#[test]
fn scalar_multiplication_coincide_scalar() {
    for _j in 1..10 {
        let ell = sample_montgomery();
        for _i in 1..50 {
            let n = rand::random_range(0..1000u64);
            let p = ell.sample_point().unwrap();

            let np = ell.scalar_mult(n as i32, p.clone());

            let unsign_p = ell.unsigne_point(p);

            assert_eq!(ell.unsigne_point(np), ell.scalar_mult_unsigned(n, unsign_p));
        }
    }
}
