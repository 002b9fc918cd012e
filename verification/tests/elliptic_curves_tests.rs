use csidh::elliptic_curves::{EllipticCurve, ProjKPoint};
use csidh::finite_fields::Fp;

const P: u64 = 10169;

fn sample_fp() -> Fp {
    Fp::new(rand::random_range(0..P) as i64, P)
}

fn sample_point(ell: &EllipticCurve) -> ProjKPoint {
    if ell.is_reduced_weierstrass() {
        ell.sample_point().unwrap()
    } else {
        let mut p = ProjKPoint::FinPoint(Fp::from_int(0, P), Fp::from_int(0, P));
        while !(ell.is_on_curve(&p)) {
            p = ProjKPoint::FinPoint(sample_fp(), sample_fp());
        }
        p
    }
}

fn sample_elliptic_curve() -> EllipticCurve {
    let mut ell = EllipticCurve {
        a_1: sample_fp(),
        a_3: sample_fp(),
        a_2: sample_fp(),
        a_4: sample_fp(),
        a_6: sample_fp(),
    };
    while ell.discriminant() == Fp::from_int(0, P) {
        ell = EllipticCurve {
            a_1: sample_fp(),
            a_3: sample_fp(),
            a_2: sample_fp(),
            a_4: sample_fp(),
            a_6: sample_fp(),
        };
    }
    ell
}

#[test]
fn test_discriminant_zero() {
    assert_eq!(
        EllipticCurve::new_reduced_weierstrass(Fp::from_int(0, P), Fp::from_int(0, P))
            .discriminant(),
        Fp::from_int(0, P)
    );

    assert_eq!(
        EllipticCurve {
            a_1: Fp::from_int(0, P),
            a_3: Fp::from_int(0, P),
            a_2: Fp::from_int(1, P),
            a_4: Fp::from_int(0, P),
            a_6: Fp::from_int(0, P),
        }
        .discriminant(),
        Fp::from_int(0, P)
    );
}

#[test]
fn reduced_weierstrass_work() {
    for _i in 1..10 {
        let ell = sample_elliptic_curve();
        assert!(ell.to_reduced_weierstrass().is_reduced_weierstrass());
    }
}

#[test]
fn j_invariant_constant_weierstrass() {
    for _i in 1..10 {
        let ell = sample_elliptic_curve();
        assert_eq!(ell.j_invariant(), ell.to_reduced_weierstrass().j_invariant());
    }
}

#[test]
fn point_addition_commut() {
    let ell = sample_elliptic_curve().to_reduced_weierstrass();
    for _i in 1..10 {
        let p1 = sample_point(&ell);
        let p2 = sample_point(&ell);
        assert_eq!(ell.add_points(p1.clone(), p2.clone()), ell.add_points(p2, p1));
    }
}

#[test]
fn point_addition_assoc() {
    let ell = sample_elliptic_curve().to_reduced_weierstrass();
    for _i in 1..10 {
        let p1 = sample_point(&ell);
        let p2 = sample_point(&ell);
        let p3 = sample_point(&ell);
        assert_eq!(
            ell.add_points(p1.clone(), ell.add_points(p2.clone(), p3.clone())),
            ell.add_points(ell.add_points(p1, p2), p3)
        );
    }
}

fn trivial_scalar_mult(ell: &EllipticCurve, n: i32, point: ProjKPoint) -> ProjKPoint {
    if n < 0 {
        return trivial_scalar_mult(ell, -n, ell.neg_point(point));
    }

    let mut p2 = ProjKPoint::InfPoint;
    for _i in 1..(n + 1) {
        p2 = ell.add_points(p2, point.clone());
    }
    p2
}

#[test]
fn scalar_mult_correct() {
    let ell = sample_elliptic_curve().to_reduced_weierstrass();
    for _i in 1..3 {
        let n_int = rand::random::<i32>() % 100;
        let p = sample_point(&ell);
        let p_trivial = trivial_scalar_mult(&ell, n_int, p.clone());
        let p_ladder = ell.scalar_mult(n_int, p);
        assert_eq!(p_trivial, p_ladder);
    }
}

#[test]
fn velu_isogeny_is_isogeny() {
    for _i in 1..3 {
        let ell = sample_elliptic_curve().to_reduced_weierstrass();
        let p = sample_point(&ell);

        assert_eq!(ell.velu_projection(&p, ProjKPoint::InfPoint).unwrap(), ProjKPoint::InfPoint);
    }
}

#[test]
fn velu_isogeny_ip_kernel() {
    for _i in 1..3 {
        let ell = sample_elliptic_curve().to_reduced_weierstrass();
        let p = sample_point(&ell);

        for _j in 1..3 {
            let n = rand::random_range(0..500u64);

            assert_eq!(
                ell.velu_projection(&p, ell.scalar_mult(n as i32, p.clone())).unwrap(),
                ProjKPoint::InfPoint
            );
        }
    }
}

#[test]
fn velu_formula_match_isogeny() {
    for _i in 1..3 {
        let ell = sample_elliptic_curve().to_reduced_weierstrass();
        let p = sample_point(&ell);

        let ell_velu = ell.velu_curve(&p).unwrap();

        for _j in 1..10 {
            let q = sample_point(&ell);
            assert!(ell_velu.is_on_curve(&ell.velu_projection(&p, q).unwrap()));
        }
    }
}
