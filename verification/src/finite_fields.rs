//! The prime field: canonical residues modulo a runtime prime `p`, with the
//! four operations, exponentiation, the Legendre character and square roots.

use vstd::prelude::*;
use vstd::arithmetic::div_mod::{
    lemma_mod_bound, lemma_mod_multiples_basic, lemma_mod_multiples_vanish,
    lemma_mul_mod_noop_general, lemma_small_mod, lemma_sub_mod_noop,
};
use vstd::arithmetic::mul::lemma_mul_is_commutative;
use vstd::arithmetic::power::{
    lemma_pow1, lemma_pow_adds, lemma_pow_mod_noop, lemma_pow_multiplies, lemma_square_is_pow2,
    pow,
};
use vstd::arithmetic::power2::pow2;
use crate::mod_arith::{
    add_f, div_f, int_f, inv_f, is_prime, leg_f, lemma_inv_f_is, lemma_mod_of_negative,
    lemma_sub_f_exec, modulus_ok, mul_f, neg_f, pow_f, sign_f, sub_f,
};

verus! {

/// An element of the prime field F_p: the canonical representative together
/// with the modulus it lives under.
#[derive(Clone, Copy, Debug, PartialEq, Eq, Structural)]
pub struct Fp {
    pub repr: u64,
    pub p: u64,
}

impl Fp {
    /// The representation invariant: a supported prime modulus and a reduced
    /// representative.
    pub open spec fn valid(self) -> bool {
        modulus_ok(self.p as int) && self.repr < self.p
    }

    /// Two elements live in the same field.
    pub open spec fn same_field(self, other: Fp) -> bool {
        self.p == other.p
    }

    /// The canonical residue of an arbitrary signed integer.
    pub fn new(x: i64, p: u64) -> (r: Fp)
        requires
            modulus_ok(p as int),
            x > i64::MIN,
        ensures
            r.valid(),
            r.p == p,
            r.repr == int_f(p as int, x as int),
    {
        if x >= 0 {
            let repr = (x as u64) % p;
            Fp { repr, p }
        } else {
            let m = ((-x) as u64) % p;
            proof {
                lemma_mod_of_negative(p as int, x as int);
            }
            if m == 0 {
                Fp { repr: 0, p }
            } else {
                Fp { repr: p - m, p }
            }
        }
    }

    /// The residue of a small signed constant.
    pub fn from_int(n: i32, p: u64) -> (r: Fp)
        requires
            modulus_ok(p as int),
        ensures
            r.valid(),
            r.p == p,
            r.repr == int_f(p as int, n as int),
    {
        Fp::new(n as i64, p)
    }

    /// The additive identity.
    pub fn zero(p: u64) -> (r: Fp)
        requires
            modulus_ok(p as int),
        ensures
            r.valid(),
            r.p == p,
            r.repr == 0,
    {
        Fp { repr: 0, p }
    }

    /// The size of the field.
    pub fn cardinal(self) -> (r: u64)
        ensures
            r == self.p,
    {
        self.p
    }

    /// Field addition.
    pub fn add(self, other: Fp) -> (r: Fp)
        requires
            self.valid(),
            other.valid(),
            self.same_field(other),
        ensures
            r.valid(),
            r.p == self.p,
            r.repr == add_f(self.p as int, self.repr as int, other.repr as int),
    {
        Fp { repr: (self.repr + other.repr) % self.p, p: self.p }
    }

    /// Field subtraction.
    pub fn sub(self, other: Fp) -> (r: Fp)
        requires
            self.valid(),
            other.valid(),
            self.same_field(other),
        ensures
            r.valid(),
            r.p == self.p,
            r.repr == sub_f(self.p as int, self.repr as int, other.repr as int),
    {
        proof {
            lemma_sub_f_exec(self.p as int, self.repr as int, other.repr as int);
        }
        Fp { repr: (self.repr + self.p - other.repr) % self.p, p: self.p }
    }

    /// Field negation.
    pub fn neg(self) -> (r: Fp)
        requires
            self.valid(),
        ensures
            r.valid(),
            r.p == self.p,
            r.repr == neg_f(self.p as int, self.repr as int),
    {
        Fp { repr: (self.p - self.repr) % self.p, p: self.p }
    }

    /// Field multiplication, through a 128-bit intermediate product.
    pub fn mul(self, other: Fp) -> (r: Fp)
        requires
            self.valid(),
            other.valid(),
            self.same_field(other),
        ensures
            r.valid(),
            r.p == self.p,
            r.repr == mul_f(self.p as int, self.repr as int, other.repr as int),
    {
        proof {
            crate::mod_arith::lemma_u64_mul_in_u128(self.repr, other.repr);
        }
        let wide = (self.repr as u128) * (other.repr as u128);
        let repr = (wide % (self.p as u128)) as u64;
        proof {
            lemma_mod_bound(wide as int, self.p as int);
        }
        Fp { repr, p: self.p }
    }

    /// The multiplicative inverse of a non-zero element, by the extended
    /// Euclidean algorithm with coefficients tracked modulo `p`.
    pub fn inv(self) -> (r: Fp)
        requires
            self.valid(),
            self.repr != 0,
        ensures
            r.valid(),
            r.p == self.p,
            (self.repr as int * r.repr as int) % (self.p as int) == 1,
            r.repr == inv_f(self.p as int, self.repr as int),
    {
        let p = self.p;
        let a = self.repr;
        let ghost pi = p as int;
        let ghost ai = a as int;
        let mut r: u64 = p;
        let mut new_r: u64 = a;
        // Bezout coefficients of `a`, tracked modulo p in exec code and
        // exactly in ghost code.
        let mut t: u64 = 0;
        let mut new_t: u64 = 1;
        let ghost mut tg: int = 0;
        let ghost mut sg: int = 1;
        let ghost mut new_tg: int = 1;
        let ghost mut new_sg: int = 0;
        // `a` and `p` written back as integer combinations of r and new_r.
        let ghost mut al: int = 0;
        let ghost mut be: int = 1;
        let ghost mut ga: int = 1;
        let ghost mut de: int = 0;
        proof {
            lemma_small_mod(0nat, p as nat);
            lemma_small_mod(1nat, p as nat);
        }
        while new_r != 0
            invariant
                pi == p as int,
                ai == a as int,
                modulus_ok(pi),
                1 <= ai < pi,
                0 <= new_r < r <= p,
                t < p,
                new_t < p,
                tg * ai + sg * pi == r as int,
                new_tg * ai + new_sg * pi == new_r as int,
                t as int == tg % pi,
                new_t as int == new_tg % pi,
                ai == al * (r as int) + be * (new_r as int),
                pi == ga * (r as int) + de * (new_r as int),
            decreases new_r,
        {
            let q = r / new_r;
            let rem = r % new_r;
            let qq = q % p;
            proof {
                crate::mod_arith::lemma_u64_mul_in_u128(qq, new_t);
            }
            let qm = (((qq as u128) * (new_t as u128)) % (p as u128)) as u64;
            proof {
                lemma_mod_bound((qq as u128 * new_t as u128) as int, pi);
            }
            let tnext = (t + p - qm) % p;
            proof {
                let qi = q as int;
                let ri = r as int;
                let nri = new_r as int;
                // rem == r - q*new_r
                assert(ri == nri * qi + rem as int) by {
                    vstd::arithmetic::div_mod::lemma_fundamental_div_mod(ri, nri);
                }
                // the new exact Bezout pair reproduces rem
                assert((tg - qi * new_tg) * ai + (sg - qi * new_sg) * pi == rem as int) by (nonlinear_arith)
                    requires
                        tg * ai + sg * pi == ri,
                        new_tg * ai + new_sg * pi == nri,
                        ri == nri * qi + rem as int,
                {}
                // the reverse combinations follow the same step
                assert(ai == (al * qi + be) * (nri as int) + al * (rem as int)) by (nonlinear_arith)
                    requires
                        ai == al * ri + be * nri,
                        ri == nri * qi + rem as int,
                {}
                assert(pi == (ga * qi + de) * (nri as int) + ga * (rem as int)) by (nonlinear_arith)
                    requires
                        pi == ga * ri + de * nri,
                        ri == nri * qi + rem as int,
                {}
                // the reduced coefficient follows the exact one
                assert((qi * new_tg) % pi == (qm as int)) by {
                    lemma_mul_mod_noop_general(qi, new_tg, pi);
                    assert((qq as int * new_t as int) % pi == qm as int);
                }
                assert((tg - qi * new_tg) % pi == tnext as int) by {
                    lemma_sub_mod_noop(tg, qi * new_tg, pi);
                    lemma_small_mod(t as nat, p as nat);
                    lemma_sub_f_exec(pi, t as int, qm as int);
                }
            }
            r = new_r;
            new_r = rem;
            t = new_t;
            new_t = tnext;
            proof {
                let old_tg = tg;
                let old_sg = sg;
                tg = new_tg;
                sg = new_sg;
                new_tg = old_tg - (q as int) * new_tg;
                new_sg = old_sg - (q as int) * new_sg;
                let old_al = al;
                let old_ga = ga;
                al = al * (q as int) + be;
                be = old_al;
                ga = ga * (q as int) + de;
                de = old_ga;
            }
        }
        proof {
            // now a == al * r and p == ga * r, so r divides p; primality and
            // a != 0 force r == 1.
            assert(ai == al * (r as int));
            assert(pi == ga * (r as int));
            if r >= 2 {
                assert(al >= 1) by (nonlinear_arith)
                    requires
                        al * (r as int) == ai,
                        ai >= 1,
                        r >= 1,
                {}
                assert(r as int <= ai) by (nonlinear_arith)
                    requires
                        al >= 1,
                        al * (r as int) == ai,
                        r >= 0,
                {}
                assert(pi % (r as int) == 0) by {
                    lemma_mod_multiples_basic(ga, r as int);
                    lemma_mul_is_commutative(ga, r as int);
                }
                assert(false);
            }
            assert(r == 1);
            assert((tg * ai) % pi == 1) by {
                assert(pi * (-sg) == -(sg * pi)) by (nonlinear_arith);
                assert(tg * ai == pi * (-sg) + 1);
                lemma_mod_multiples_vanish(-sg, 1, pi);
                lemma_small_mod(1nat, p as nat);
            }
            assert((t as int * ai) % pi == 1) by {
                lemma_mul_mod_noop_general(tg, ai, pi);
            }
            lemma_mul_is_commutative(ai, t as int);
            lemma_inv_f_is(pi, ai, t as int);
        }
        Fp { repr: t, p }
    }

    /// Field division: multiplication by the inverse of the divisor.
    pub fn div(self, other: Fp) -> (r: Fp)
        requires
            self.valid(),
            other.valid(),
            self.same_field(other),
            other.repr != 0,
        ensures
            r.valid(),
            r.p == self.p,
            r.repr == div_f(self.p as int, self.repr as int, other.repr as int),
    {
        self.mul(other.inv())
    }

    /// Exponentiation by squaring.
    pub fn exp(self, n: u64) -> (r: Fp)
        requires
            self.valid(),
        ensures
            r.valid(),
            r.p == self.p,
            r.repr == pow_f(self.p as int, self.repr as int, n as nat),
        decreases n,
    {
        let ghost pi = self.p as int;
        let ghost ai = self.repr as int;
        if n == 0 {
            proof {
                lemma_small_mod(1nat, self.p as nat);
                vstd::arithmetic::power::lemma_pow0(ai);
            }
            Fp::from_int(1, self.p)
        } else {
            let ghost m: nat = (n / 2) as nat;
            let sq = self.mul(self);
            let half = sq.exp(n / 2);
            proof {
                lemma_square_is_pow2(ai);
                lemma_pow_mod_noop(ai * ai, m, pi);
                lemma_pow_multiplies(ai, 2, m);
                assert(half.repr == pow(ai, 2 * m) % pi);
            }
            if n % 2 == 0 {
                proof {
                    assert(2 * m == n as nat);
                }
                half
            } else {
                proof {
                    assert(1 + 2 * m == n as nat);
                    lemma_pow1(ai);
                    lemma_pow_adds(ai, 1nat, 2 * m);
                    assert(pow(ai, n as nat) == ai * pow(ai, 2 * m));
                    lemma_mul_mod_noop_general(ai, pow(ai, 2 * m), pi);
                    lemma_small_mod(self.repr as nat, self.p as nat);
                }
                self.mul(half)
            }
        }
    }

    /// The Legendre character of the element, as -1, 0 or +1.
    pub fn legendre_symbol(self) -> (r: i8)
        requires
            self.valid(),
        ensures
            r as int == leg_f(self.p as int, self.repr as int),
    {
        let e = self.exp((self.p - 1) / 2);
        if e.repr == 1 {
            1
        } else if e.repr == self.p - 1 {
            -1
        } else {
            0
        }
    }

    /// Checks a square-root candidate: accepted exactly when its square is
    /// the receiver, and then normalized to the positive sign.
    fn try_root(self, cand: Fp) -> (r: Option<Fp>)
        requires
            self.valid(),
            cand.valid(),
            self.same_field(cand),
        ensures
            match r {
                Some(s) => s.valid() && s.p == self.p && mul_f(
                    self.p as int,
                    s.repr as int,
                    s.repr as int,
                ) == self.repr && (self.p > 2 ==> sign_f(self.p as int, s.repr as int)),
                None => mul_f(self.p as int, cand.repr as int, cand.repr as int) != self.repr,
            },
            mul_f(self.p as int, cand.repr as int, cand.repr as int) == self.repr ==> r is Some,
    {
        let sq = cand.mul(cand);
        if sq == self {
            if cand.sign() {
                Some(cand)
            } else {
                proof {
                    crate::mod_arith::lemma_neg_square(self.p as int, cand.repr as int);
                    if self.p > 2 {
                        crate::mod_arith::lemma_odd_prime(self.p as int);
                        lemma_small_mod((self.p - cand.repr) as nat, self.p as nat);
                    }
                }
                Some(cand.neg())
            }
        } else {
            None
        }
    }

    /// The core of Tonelli-Shanks for p = 1 mod 8, given a quadratic
    /// non-residue `d`: write p - 1 = t * 2^s, then cancel the obstruction
    /// A * D^m bit by bit.  The candidate is checked before it is returned.
    fn tonelli_shanks(self, d: Fp) -> (r: Option<Fp>)
        requires
            self.valid(),
            d.valid(),
            self.same_field(d),
            self.p > 2,
        ensures
            match r {
                Some(s) => s.valid() && s.p == self.p && mul_f(
                    self.p as int,
                    s.repr as int,
                    s.repr as int,
                ) == self.repr && sign_f(self.p as int, s.repr as int),
                None => true,
            },
    {
        let p = self.p;
        let mut t: u64 = p - 1;
        let mut s: u64 = 0;
        proof {
            vstd::arithmetic::power2::lemma2_to64();
        }
        while t % 2 == 0
            invariant
                p == self.p,
                modulus_ok(p as int),
                1 <= t < p,
                s <= 63,
                t as int * pow2(s as nat) as int == p - 1,
            decreases t,
        {
            proof {
                vstd::arithmetic::power2::lemma_pow2_unfold((s + 1) as nat);
                assert((t as int / 2) * pow2((s + 1) as nat) as int == t as int * pow2(s as nat) as int)
                    by (nonlinear_arith)
                    requires
                        t as int % 2 == 0,
                        pow2((s + 1) as nat) == 2 * pow2(s as nat),
                        t >= 1,
                {}
                if s + 1 > 63 {
                    vstd::arithmetic::power2::lemma2_to64();
                    assert(false) by (nonlinear_arith)
                        requires
                            t as int / 2 >= 1,
                            s + 1 == 64,
                            pow2(64nat) == 0x10000000000000000,
                            (t as int / 2) * pow2((s + 1) as nat) as int == p - 1,
                            p < 0x8000000000000000u64,
                    {}
                }
            }
            t = t / 2;
            s = s + 1;
        }
        if s == 0 {
            // p - 1 is even for every odd prime, so this does not happen;
            // kept so that the shift below is always in range.
            return None;
        }
        let big_a = self.exp(t);
        let big_d = d.exp(t);
        let mut m: u64 = 0;
        let mut exponent: u64 = 1u64 << (s - 1);
        let mut i: u64 = 0;
        let minus_one = Fp::from_int(-1, p);
        while i < s
            invariant
                p == self.p,
                modulus_ok(p as int),
                big_a.valid(),
                big_a.p == p,
                big_d.valid(),
                big_d.p == p,
                s <= 63,
                i <= s,
                m < pow2(i as nat),
            decreases s - i,
        {
            proof {
                vstd::arithmetic::power2::lemma_pow2_unfold((i + 1) as nat);
                vstd::arithmetic::power2::lemma2_to64();
                vstd::arithmetic::power2::lemma_pow2_strictly_increases(i as nat, 64nat);
                vstd::arithmetic::power2::lemma_pow2_strictly_increases((i + 1) as nat, 64nat);
                vstd::bits::lemma_u64_shl_is_mul(1u64, i);
            }
            if big_a.mul(big_d.exp(m)).exp(exponent) == minus_one {
                m = m + (1u64 << i);
            }
            exponent = exponent / 2;
            i = i + 1;
        }
        let sqr = self.exp((t + 1) / 2).mul(big_d.exp(m / 2));
        self.try_root(sqr)
    }

    /// The square root of a quadratic residue, normalized to the positive
    /// sign.  For p = 3 mod 4 a residue always gets a root; in the remaining
    /// cases the candidate produced by Tonelli-Shanks is checked, and an
    /// element whose square differs from the receiver gets `None`.
    pub fn square_root(self) -> (r: Option<Fp>)
        requires
            self.valid(),
        ensures
            match r {
                Some(s) => s.valid() && s.p == self.p && mul_f(
                    self.p as int,
                    s.repr as int,
                    s.repr as int,
                ) == self.repr && (self.p > 2 ==> sign_f(self.p as int, s.repr as int)),
                None => leg_f(self.p as int, self.repr as int) != 1 || self.p % 4 != 3,
            },
            self.p % 4 == 3 && leg_f(self.p as int, self.repr as int) == 1 ==> r is Some,
    {
        let p = self.p;
        let ghost pi = p as int;
        let ghost ai = self.repr as int;
        proof {
            // relate the residue of p modulo 8 to its residue modulo 4
            vstd::arithmetic::div_mod::lemma_mod_mod(pi, 4, 2);
        }
        if p % 8 == 3 || p % 8 == 7 {
            let cand = self.exp((p + 1) / 4);
            proof {
                self.lemma_root_of_residue_exponent();
            }
            self.try_root(cand)
        } else if p % 8 == 5 {
            let mut x = self.exp((p + 3) / 8);
            let c = x.mul(x);
            if c != self {
                x = x.mul(Fp::from_int(2, p).exp((p - 1) / 4));
            }
            self.try_root(x)
        } else if p == 2 {
            // each element of F_2 is its own square
            proof {
                assert(mul_f(2, 0, 0) == 0);
                assert(mul_f(2, 1, 1) == 1);
            }
            Some(self)
        } else {
            // p = 1 mod 8: search the smallest quadratic non-residue, then
            // run Tonelli-Shanks with it.
            let mut dv: u64 = 2;
            proof {
                assert(pi % 4 != 3);
            }
            while dv < p
                invariant
                    p == self.p,
                    modulus_ok(pi),
                    pi == p as int,
                    self.valid(),
                    self.p > 2,
                    pi % 4 != 3,
                    2 <= dv,
                decreases p - dv,
            {
                let cand = Fp { repr: dv, p };
                if cand.legendre_symbol() == -1 {
                    return self.tonelli_shanks(cand);
                }
                dv = dv + 1;
            }
            None
        }
    }

    /// For p = 3 mod 4, the square of a^((p+1)/4) is a whenever the Legendre
    /// character of a is +1: the exponent doubles to (p-1)/2 + 1 and the
    /// character contributes the trivial factor.
    proof fn lemma_root_of_residue_exponent(self)
        requires
            self.valid(),
            self.p % 4 == 3,
        ensures
            leg_f(self.p as int, self.repr as int) == 1 ==> mul_f(
                self.p as int,
                pow_f(self.p as int, self.repr as int, ((self.p + 1) / 4) as nat),
                pow_f(self.p as int, self.repr as int, ((self.p + 1) / 4) as nat),
            ) == self.repr,
    {
        let pi = self.p as int;
        let ai = self.repr as int;
        let e = ((self.p + 1) / 4) as nat;
        let h = ((self.p - 1) / 2) as nat;
        if leg_f(pi, ai) == 1 {
            assert(pow_f(pi, ai, h) == 1);
            assert(e + e == h + 1);
            lemma_mul_mod_noop_general(pow(ai, e), pow(ai, e), pi);
            lemma_pow_adds(ai, e, e);
            lemma_pow_adds(ai, h, 1nat);
            lemma_pow1(ai);
            assert(mul_f(pi, pow_f(pi, ai, e), pow_f(pi, ai, e)) == pow(ai, (h + 1) as nat) % pi);
            assert(pow(ai, (h + 1) as nat) == pow(ai, h) * ai);
            lemma_mul_mod_noop_general(pow(ai, h), ai, pi);
            lemma_small_mod(self.repr as nat, self.p as nat);
        }
    }

    /// The canonical sign: positive when the representative is at most
    /// (p-1)/2.
    pub fn sign(self) -> (r: bool)
        requires
            self.valid(),
        ensures
            r == sign_f(self.p as int, self.repr as int),
    {
        self.repr <= (self.p - 1) / 2
    }
}

} // verus!
