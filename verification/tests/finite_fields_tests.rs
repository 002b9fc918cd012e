use csidh::finite_fields::Fp;

const P8001047: u64 = 8001047;
const P5483: u64 = 5483;
const P1009: u64 = 1009;
const P2: u64 = 2;

#[test]
fn addition_zero() {
    for _i in 0..100 {
        let a = rand::random_range(0..8001047u64) as i64;
        assert_eq!(Fp::new(a, P2).add(Fp::from_int(0, P2)), Fp::new(a, P2));
        assert_eq!(Fp::new(a, P5483).add(Fp::from_int(0, P5483)), Fp::new(a, P5483));
        assert_eq!(Fp::new(a, P8001047).add(Fp::from_int(0, P8001047)), Fp::new(a, P8001047));
    }
}

#[test]
fn addition_commut() {
    for _i in 0..100 {
        let a = rand::random_range(0..8001047u64) as i64;
        let b = rand::random_range(0..8001047u64) as i64;
        assert_eq!(Fp::new(a, P2).add(Fp::new(b, P2)), Fp::new(b, P2).add(Fp::new(a, P2)));
        assert_eq!(
            Fp::new(a, P5483).add(Fp::new(b, P5483)),
            Fp::new(b, P5483).add(Fp::new(a, P5483))
        );
        assert_eq!(
            Fp::new(a, P8001047).add(Fp::new(b, P8001047)),
            Fp::new(b, P8001047).add(Fp::new(a, P8001047))
        );
    }
}

#[test]
fn is_square_works() {
    assert_eq!(Fp::new(-1, P8001047).legendre_symbol(), -1);
    assert_eq!(Fp::new(-1, P5483).legendre_symbol(), -1);
    assert_eq!(Fp::new(-1, P2).legendre_symbol(), 1);

    assert_eq!(Fp::new(2, P8001047).legendre_symbol(), 1);
    assert_eq!(Fp::new(2, P5483).legendre_symbol(), -1);

    for _i in 0..100 {
        let a = rand::random_range(0..8001047u64);
        if a % 5483 != 0 {
            let x = Fp::new(a as i64, P5483);
            assert_eq!(x.mul(x).legendre_symbol(), 1);
        }
        if a % 8001047 != 0 {
            let x = Fp::new(a as i64, P8001047);
            assert_eq!(x.mul(x).legendre_symbol(), 1);
        }
    }
}

#[test]
fn square_root_works() {
    for _i in 0..100 {
        let a = rand::random_range(0..8001047u64) as i64;
        let a_gl1009 = Fp::new(a, P1009);
        let a_gl5483 = Fp::new(a, P5483);
        let a_gl8001047 = Fp::new(a, P8001047);

        if a_gl1009.legendre_symbol() == 1 {
            let sq = a_gl1009.square_root().unwrap();
            assert_eq!(sq.mul(sq), a_gl1009);
        }

        if a_gl5483.legendre_symbol() == 1 {
            let sq = a_gl5483.square_root().unwrap();
            assert_eq!(sq.mul(sq), a_gl5483);
        }

        if a_gl8001047.legendre_symbol() == 1 {
            let sq = a_gl8001047.square_root().unwrap();
            assert_eq!(sq.mul(sq), a_gl8001047);
        }

        let sq8001047 = a_gl8001047.mul(a_gl8001047).square_root().unwrap();
        let sq5483 = a_gl5483.mul(a_gl5483).square_root().unwrap();
        let sq1009 = a_gl1009.mul(a_gl1009).square_root().unwrap();

        assert!(sq1009 == a_gl1009 || sq1009 == a_gl1009.neg());
        assert!(sq5483 == a_gl5483 || sq5483 == a_gl5483.neg());
        assert!(sq8001047 == a_gl8001047 || sq8001047 == a_gl8001047.neg());
    }
}
