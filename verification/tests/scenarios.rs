use csidh::csidh::{
    check_well_defined, class_group_action, deserialize_public_key, isogeny,
    naive_class_group_action, order_naive, sample_keys, serialize_public_key, verify_public_key,
    CSIDHInstance, CsidhError, SecretKey,
};
use csidh::elliptic_curves::EllipticCurve;
use csidh::finite_fields::Fp;
use csidh::fp_elliptic_curves::UnsignedProjPoint;

const TOY_P: u64 = 1021019;

fn toy_instance() -> CSIDHInstance {
    CSIDHInstance { n_primes: 6, p: TOY_P, l: vec![3, 5, 7, 11, 13, 17] }
}

#[test]
fn toy_instance_well_defined() {
    assert!(check_well_defined(&toy_instance()).is_ok());
}

#[test]
fn toy_action_and_inverse() {
    let inst = toy_instance();
    let e: SecretKey = vec![1, 0, 0, 0, 0, 0];
    let a = class_group_action(&inst, Fp::from_int(0, TOY_P), e).unwrap();
    assert!(verify_public_key(&inst, a).unwrap());
    assert!(a != Fp::from_int(0, TOY_P));

    let e_inv: SecretKey = vec![-1, 0, 0, 0, 0, 0];
    let back = class_group_action(&inst, a, e_inv).unwrap();
    assert_eq!(back, Fp::from_int(0, TOY_P));
}

#[test]
fn toy_diffie_hellman() {
    let inst = toy_instance();
    let e_a: SecretKey = vec![2, -1, 0, 1, 0, -1];
    let e_b: SecretKey = vec![-1, 2, 1, 0, -1, 0];

    let pk_a = class_group_action(&inst, Fp::from_int(0, TOY_P), e_a.clone()).unwrap();
    let pk_b = class_group_action(&inst, Fp::from_int(0, TOY_P), e_b.clone()).unwrap();

    let shared_a = class_group_action(&inst, pk_b, e_a).unwrap();
    let shared_b = class_group_action(&inst, pk_a, e_b).unwrap();
    assert_eq!(shared_a, shared_b);
}

#[test]
fn degree_three_velu_sanity() {
    let ell = EllipticCurve::new_montgomery(Fp::from_int(0, TOY_P));
    let mut checked = 0;
    while checked < 3 {
        let pt = ell.unsigne_point(ell.sample_point().unwrap());
        let kernel = ell.scalar_mult_unsigned((TOY_P + 1) / 3, pt);
        if kernel == UnsignedProjPoint::infinite_point(TOY_P)
            || kernel.x == Fp::from_int(0, TOY_P)
        {
            continue;
        }
        let (image, pushed) = isogeny(&ell, &kernel, kernel.clone(), 3).unwrap();
        assert!(image.a_2 != Fp::from_int(0, TOY_P));
        assert_eq!(pushed, UnsignedProjPoint::infinite_point(TOY_P));
        checked += 1;
    }
}

#[test]
fn action_round_trip() {
    let inst = toy_instance();
    for _i in 0..3 {
        let mut e: SecretKey = vec![];
        let mut e_inv: SecretKey = vec![];
        for _j in 0..6 {
            let c = rand::random_range(-2..=2i32);
            e.push(c);
            e_inv.push(-c);
        }
        let a = class_group_action(&inst, Fp::from_int(0, TOY_P), e).unwrap();
        let back = class_group_action(&inst, a, e_inv).unwrap();
        assert_eq!(back, Fp::from_int(0, TOY_P));
    }
}

#[test]
fn naive_matches_batched_on_toy() {
    let inst = toy_instance();
    for _i in 0..3 {
        let mut e: SecretKey = vec![];
        for _j in 0..6 {
            e.push(rand::random_range(-1..=1i32));
        }
        let batched = class_group_action(&inst, Fp::from_int(0, TOY_P), e.clone()).unwrap();
        let naive = naive_class_group_action(&inst, Fp::from_int(0, TOY_P), e).unwrap();
        assert_eq!(batched, naive);
    }
}

#[test]
fn identity_action_fixes_any_key() {
    let inst = toy_instance();
    let pk = Fp::new(123456, TOY_P);
    let zeros: SecretKey = vec![0, 0, 0, 0, 0, 0];
    assert_eq!(class_group_action(&inst, pk, zeros.clone()).unwrap(), pk);
    assert_eq!(naive_class_group_action(&inst, pk, zeros).unwrap(), pk);
}

#[test]
fn sampled_keys_stay_in_the_cube() {
    let inst = toy_instance();
    let (pk, sk) = sample_keys(&inst, 1).unwrap();
    assert_eq!(sk.len(), 6);
    for c in sk.iter() {
        assert!(-1 <= *c && *c <= 1);
    }
    assert!(pk.repr < TOY_P);
    assert!(verify_public_key(&inst, pk).unwrap());
}

#[test]
fn config_error_on_wrong_characteristic() {
    let bad = CSIDHInstance { n_primes: 2, p: 11, l: vec![3, 5] };
    assert_eq!(check_well_defined(&bad), Err(CsidhError::Config));
    let miscounted = CSIDHInstance { n_primes: 3, p: 11, l: vec![3] };
    assert_eq!(check_well_defined(&miscounted), Err(CsidhError::Config));
    let good = CSIDHInstance { n_primes: 1, p: 11, l: vec![3] };
    assert!(check_well_defined(&good).is_ok());
}

#[test]
fn degenerate_kernels_are_reported() {
    let ell = EllipticCurve::new_montgomery(Fp::from_int(0, TOY_P));
    let two_torsion = UnsignedProjPoint::order_two(TOY_P);
    assert_eq!(
        isogeny(&ell, &two_torsion, two_torsion.clone(), 3),
        Err(CsidhError::KernelDegenerate)
    );
    let infinity = UnsignedProjPoint::infinite_point(TOY_P);
    assert_eq!(isogeny(&ell, &infinity, infinity.clone(), 3), Err(CsidhError::IdentityKernel));
}

#[test]
fn field_laws_on_values() {
    let p: u64 = 8001047;
    let a = Fp::new(123456, p);
    let b = Fp::new(654321, p);
    let c = Fp::new(777777, p);

    assert_eq!(a.add(b), b.add(a));
    assert_eq!(a.add(b).add(c), a.add(b.add(c)));
    assert_eq!(a.mul(b), b.mul(a));
    assert_eq!(a.mul(b).mul(c), a.mul(b.mul(c)));

    // the inverse of a product is the reversed product of the inverses
    assert_eq!(a.mul(b).inv(), b.inv().mul(a.inv()));
    // and dividing twice returns to the start
    assert_eq!(a.div(b).mul(b), a);
}

#[test]
fn exact_arithmetic_values() {
    assert_eq!(Fp::from_int(2, 23).exp(5).repr, 9);
    assert_eq!(Fp::from_int(-1, 23).repr, 22);
    assert_eq!(Fp::new(-24, 23).repr, 22);
    assert_eq!(Fp::from_int(4, 23).square_root().unwrap().repr, 2);
    assert_eq!(Fp::from_int(7, 23).inv().mul(Fp::from_int(7, 23)).repr, 1);
    assert_eq!(Fp::from_int(5, 23).sign(), true);
    assert_eq!(Fp::from_int(18, 23).sign(), false);
}

#[test]
fn ladder_degenerate_scalars() {
    let ell = EllipticCurve::new_montgomery(Fp::from_int(0, TOY_P));
    let pt = UnsignedProjPoint::finite_point(Fp::from_int(9, TOY_P));
    assert_eq!(ell.scalar_mult_unsigned(0, pt), UnsignedProjPoint::infinite_point(TOY_P));
    assert_eq!(ell.scalar_mult_unsigned(1, pt.clone()), pt);
}

#[test]
fn sampled_points_are_reduced() {
    let ell = EllipticCurve::new_montgomery(Fp::from_int(0, TOY_P));
    for _i in 0..5 {
        match ell.sample_point().unwrap() {
            csidh::elliptic_curves::ProjKPoint::FinPoint(x, y) => {
                assert!(x.repr < TOY_P);
                assert!(y.repr < TOY_P);
                assert!(ell.is_on_curve(&csidh::elliptic_curves::ProjKPoint::FinPoint(x, y)));
            },
            csidh::elliptic_curves::ProjKPoint::InfPoint => panic!("sampled infinity"),
        }
    }
}

#[test]
fn public_key_wire_format() {
    let inst = toy_instance();
    // 1021019 has 20 binary digits, so the wire format takes 3 bytes
    let pk = Fp::new(0x0A0B0C, TOY_P);
    let bytes = serialize_public_key(&inst, pk);
    assert_eq!(bytes, vec![0x0A, 0x0B, 0x0C]);
    assert_eq!(deserialize_public_key(&inst, &bytes), Some(pk));

    let zero = Fp::from_int(0, TOY_P);
    assert_eq!(serialize_public_key(&inst, zero), vec![0, 0, 0]);

    // a wrong length and a value outside the field are both rejected
    assert_eq!(deserialize_public_key(&inst, &vec![1, 2]), None);
    assert_eq!(deserialize_public_key(&inst, &vec![0xFF, 0xFF, 0xFF]), None);
}

#[test]
fn naive_orders_of_special_points() {
    let ell = EllipticCurve::new_montgomery(Fp::from_int(0, TOY_P));
    assert_eq!(order_naive(&ell, &UnsignedProjPoint::infinite_point(TOY_P)).unwrap(), 1);
    assert_eq!(order_naive(&ell, &UnsignedProjPoint::order_two(TOY_P)).unwrap(), 2);
    // a point of order 3, drawn through the (p+1)/3 cofactor
    loop {
        let pt = ell.unsigne_point(ell.sample_point().unwrap());
        let kernel = ell.scalar_mult_unsigned((TOY_P + 1) / 3, pt);
        if kernel == UnsignedProjPoint::infinite_point(TOY_P) {
            continue;
        }
        assert_eq!(order_naive(&ell, &kernel).unwrap(), 3);
        break;
    }
}

#[test]
fn retry_limit_on_empty_instance() {
    // p = 3 = 4 * 1 - 1: a well-defined instance with no primes at all, on
    // which the oracle can never conclude
    let inst = CSIDHInstance { n_primes: 0, p: 3, l: vec![] };
    assert!(check_well_defined(&inst).is_ok());
    assert_eq!(verify_public_key(&inst, Fp::from_int(0, 3)), None);
}
