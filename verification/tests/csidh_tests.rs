use csidh::csidh::{
    check_well_defined, class_group_action, is_supersingular, isogeny, naive_class_group_action,
    verify_public_key, CSIDHInstance, PublicKey, SecretKey,
};
use csidh::elliptic_curves::EllipticCurve;
use csidh::finite_fields::Fp;
use csidh::fp_elliptic_curves::UnsignedProjPoint;

const P: u64 = 37118532150319619;

fn get_global_instance() -> CSIDHInstance {
    CSIDHInstance {
        n_primes: 13,
        p: P,
        l: vec![3, 5, 7, 11, 13, 17, 19, 23, 29, 31, 37, 41, 61],
    }
}

#[test]
fn everything_ok() {
    let inst = get_global_instance();

    assert!(check_well_defined(&inst).is_ok());
}

#[test]
fn known_supersingular_ec() {
    let inst = get_global_instance();

    // Note P = 3 mod 4, 2 mod 3
    assert!(
        is_supersingular(
            &inst,
            &EllipticCurve::new_reduced_weierstrass(Fp::from_int(1, P), Fp::from_int(0, P))
        )
        .unwrap()
    ); // supersingular iff P = 3 mod 4
    assert!(
        is_supersingular(
            &inst,
            &EllipticCurve::new_reduced_weierstrass(Fp::from_int(0, P), Fp::from_int(1, P))
        )
        .unwrap()
    ); // supersingular iff P = 2 mod 3
}

#[test]
fn class_group_action_keep_valid() {
    let inst = get_global_instance();

    for _i in 0..10 {
        let pk = PublicKey::from_int(0, P);

        let mut action: SecretKey = vec![0, 0, 0, 0, 0, 0];
        for j in 0..6 {
            action[j] = rand::random::<i32>() % 3;
        }
        assert!(
            verify_public_key(&inst, class_group_action(&inst, pk, action).unwrap()).unwrap()
        );
    }
}

#[test]
fn class_group_action_commute() {
    let inst = get_global_instance();
    let n_primes = inst.n_primes;

    for _i in 0..3 {
        let pk = Fp::from_int(0, P);

        let mut action1: SecretKey = vec![];
        let mut action2: SecretKey = vec![];

        for _j in 0..n_primes {
            action1.push(rand::random::<i32>() % 2);
            action2.push(rand::random::<i32>() % 2);
        }

        let pk1 = class_group_action(&inst, pk.clone(), action1.clone()).unwrap();
        let pk12 = class_group_action(&inst, pk1.clone(), action2.clone()).unwrap();

        let pk2 = class_group_action(&inst, pk, action2.clone()).unwrap();
        let pk21 = class_group_action(&inst, pk2, action1.clone()).unwrap();

        assert_eq!(pk12, pk21);
    }
}

#[test]
fn naive_class_group_action_commute() {
    let inst = get_global_instance();
    let n_primes = inst.n_primes;

    assert!(check_well_defined(&inst).is_ok());

    for _i in 0..10 {
        let pk = Fp::from_int(0, P);

        let mut action1: SecretKey = vec![];
        let mut action2: SecretKey = vec![];

        for _j in 0..n_primes {
            action1.push(rand::random::<i32>() % 2);
            action2.push(rand::random::<i32>() % 2);
        }

        let pk1 = naive_class_group_action(&inst, pk.clone(), action1.clone()).unwrap();
        let pk12 = naive_class_group_action(&inst, pk1.clone(), action2.clone()).unwrap();

        let pk2 = naive_class_group_action(&inst, pk, action2.clone()).unwrap();
        let pk21 = naive_class_group_action(&inst, pk2, action1.clone()).unwrap();

        assert_eq!(pk12, pk21);
    }
}

#[test]
fn isogeny_kernel() {
    let inst = get_global_instance();
    let n_primes = inst.n_primes;

    let ell = EllipticCurve::new_montgomery(Fp::from_int(0, P));
    let mut k: u64 = 4;

    for i in 0..n_primes {
        k *= inst.l[i];
    }

    for _i in 0..10 {
        let j = rand::random_range(0..n_primes);
        let mut p = ell.unsigne_point(ell.sample_point().unwrap());

        p = ell.scalar_mult_unsigned(k / inst.l[j], p);
        if p == UnsignedProjPoint::infinite_point(P) || p.x == Fp::from_int(0, P) {
            continue;
        }

        let (_, q) = isogeny(&ell, &p, p.clone(), inst.l[j]).unwrap();
        assert_eq!(UnsignedProjPoint::infinite_point(P), q);
    }
}
