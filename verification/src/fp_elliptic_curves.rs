//! X-only arithmetic on Montgomery curves over the prime field: unsigned
//! projective points on the Kummer line, differential addition, doubling,
//! the Montgomery ladder and point sampling.

use vstd::prelude::*;
use vstd::arithmetic::div_mod::{lemma_div_denominator, lemma_mod_bound};
use vstd::arithmetic::power2::pow2;
use crate::elliptic_curves::{cp, on_curve_s, EllipticCurve, ProjKPoint};
use crate::finite_fields::Fp;
use crate::mod_arith::{
    add_f, div_f, int_f, lemma_four_nonzero, lemma_u64_mul_in_u128, lemma_unit_ops, modulus_ok,
    mul_f, sub_f,
};
use crate::rng::sample_u64_below;

verus! {

/// How many draws a rejection-sampling loop may make before it gives up.
pub const MAX_SAMPLE_ATTEMPTS: u64 = 1048576;

/// An unsigned projective point (X : Z) on the Kummer line.  Any pair with
/// Z = 0 stands for the point at infinity.
#[derive(Clone, Copy, Debug)]
pub struct UnsignedProjPoint {
    pub x: Fp,
    pub z: Fp,
}

/// Projective equality by cross-multiplication; the pairs with Z = 0
/// collapse to one point at infinity.
pub open spec fn proj_eq_s(a: UnsignedProjPoint, b: UnsignedProjPoint) -> bool {
    if a.z.repr == 0 {
        b.z.repr == 0
    } else if b.z.repr == 0 {
        false
    } else if a.x.p == 0 {
        a.x.repr == b.x.repr
    } else {
        mul_f(a.x.p as int, b.x.repr as int, a.z.repr as int) == mul_f(
            a.x.p as int,
            a.x.repr as int,
            b.z.repr as int,
        )
    }
}

/// A spec-level point from the canonical values of its two coordinates.
pub open spec fn upp_of(p: int, xv: int, zv: int) -> UnsignedProjPoint {
    UnsignedProjPoint { x: Fp { repr: xv as u64, p: p as u64 }, z: Fp { repr: zv as u64, p: p as u64 } }
}

/// The canonical point at infinity (1 : 0).
pub open spec fn inf_s(p: int) -> UnsignedProjPoint {
    upp_of(p, 1, 0)
}

/// The canonical representative of a projective class: (X/Z : 1), or the
/// point at infinity for Z = 0.
pub open spec fn normalize_s(pt: UnsignedProjPoint) -> UnsignedProjPoint {
    let p = pt.x.p as int;
    if pt.z.repr == 0 {
        inf_s(p)
    } else {
        upp_of(p, div_f(p, pt.x.repr as int, pt.z.repr as int), 1)
    }
}

/// Differential addition: P + Q from P, Q and P - Q.
pub open spec fn x_add_s(
    c: EllipticCurve,
    pt: UnsignedProjPoint,
    q: UnsignedProjPoint,
    pmq: UnsignedProjPoint,
) -> UnsignedProjPoint {
    let m = cp(c);
    let u = mul_f(
        m,
        sub_f(m, pt.x.repr as int, pt.z.repr as int),
        add_f(m, q.x.repr as int, q.z.repr as int),
    );
    let v = mul_f(
        m,
        add_f(m, pt.x.repr as int, pt.z.repr as int),
        sub_f(m, q.x.repr as int, q.z.repr as int),
    );
    let xx = add_f(m, u, v);
    let zz = sub_f(m, u, v);
    upp_of(
        m,
        mul_f(m, mul_f(m, pmq.z.repr as int, xx), xx),
        mul_f(m, mul_f(m, pmq.x.repr as int, zz), zz),
    )
}

/// Doubling on the Kummer line.
pub open spec fn x_dbl_s(c: EllipticCurve, pt: UnsignedProjPoint) -> UnsignedProjPoint {
    let m = cp(c);
    let q = mul_f(
        m,
        add_f(m, pt.x.repr as int, pt.z.repr as int),
        add_f(m, pt.x.repr as int, pt.z.repr as int),
    );
    let r = mul_f(
        m,
        sub_f(m, pt.x.repr as int, pt.z.repr as int),
        sub_f(m, pt.x.repr as int, pt.z.repr as int),
    );
    let s = sub_f(m, q, r);
    upp_of(
        m,
        mul_f(m, q, r),
        mul_f(
            m,
            s,
            add_f(
                m,
                r,
                div_f(
                    m,
                    mul_f(m, s, add_f(m, c.a_2.repr as int, int_f(m, 2))),
                    int_f(m, 4),
                ),
            ),
        ),
    )
}

/// The pair ([n]P, [n+1]P) produced by the Montgomery ladder recursion.
pub open spec fn ladder_s(c: EllipticCurve, point: UnsignedProjPoint, n: nat) -> (
    UnsignedProjPoint,
    UnsignedProjPoint,
)
    decreases n,
{
    if n == 0 {
        (inf_s(cp(c)), point)
    } else {
        let s = ladder_s(c, point, n / 2);
        if n % 2 == 0 {
            (x_dbl_s(c, s.0), x_add_s(c, s.0, s.1, point))
        } else {
            (x_add_s(c, s.1, s.0, point), x_dbl_s(c, s.1))
        }
    }
}

impl UnsignedProjPoint {
    /// Both coordinates are reduced elements of the field modulo `p`.
    pub open spec fn valid(self, p: int) -> bool {
        self.x.valid() && self.z.valid() && self.x.p == p && self.z.p == p
    }

    /// The canonical point at infinity (1 : 0).
    pub fn infinite_point(p: u64) -> (r: UnsignedProjPoint)
        requires
            modulus_ok(p as int),
        ensures
            r.valid(p as int),
            r == inf_s(p as int),
    {
        UnsignedProjPoint { x: Fp { repr: 1, p }, z: Fp { repr: 0, p } }
    }

    /// The affine point with the given x-coordinate, as (x : 1).
    pub fn finite_point(x: Fp) -> (r: UnsignedProjPoint)
        requires
            x.valid(),
        ensures
            r.valid(x.p as int),
            r.x == x,
            r.z.repr == 1,
    {
        UnsignedProjPoint { x, z: Fp { repr: 1, p: x.p } }
    }

    /// The 2-torsion point (0 : 1).
    pub fn order_two(p: u64) -> (r: UnsignedProjPoint)
        requires
            modulus_ok(p as int),
        ensures
            r.valid(p as int),
            r.x.repr == 0,
            r.z.repr == 1,
    {
        UnsignedProjPoint { x: Fp { repr: 0, p }, z: Fp { repr: 1, p } }
    }

    /// The canonical representative of the projective class: (X/Z : 1), or
    /// (1 : 0) at infinity.
    pub fn normalize(self) -> (r: UnsignedProjPoint)
        requires
            self.valid(self.x.p as int),
        ensures
            r.valid(self.x.p as int),
            r == normalize_s(self),
    {
        if self.z.repr == 0 {
            UnsignedProjPoint::infinite_point(self.x.p)
        } else {
            UnsignedProjPoint::finite_point(self.x.div(self.z))
        }
    }
}

impl PartialEq for UnsignedProjPoint {
    /// Projective equality by cross-multiplication.
    fn eq(&self, other: &UnsignedProjPoint) -> (r: bool) {
        if self.z.repr == 0 {
            other.z.repr == 0
        } else if other.z.repr == 0 {
            false
        } else {
            let p = self.x.p;
            if p == 0 {
                self.x.repr == other.x.repr
            } else {
                proof {
                    lemma_u64_mul_in_u128(other.x.repr, self.z.repr);
                    lemma_u64_mul_in_u128(self.x.repr, other.z.repr);
                }
                let left = ((other.x.repr as u128) * (self.z.repr as u128)) % (p as u128);
                let right = ((self.x.repr as u128) * (other.z.repr as u128)) % (p as u128);
                left == right
            }
        }
    }
}

impl vstd::std_specs::cmp::PartialEqSpecImpl for UnsignedProjPoint {
    open spec fn obeys_eq_spec() -> bool {
        true
    }

    open spec fn eq_spec(&self, other: &UnsignedProjPoint) -> bool {
        proj_eq_s(*self, *other)
    }
}

impl EllipticCurve {
    /// No left-hand cross terms: a_1 = a_3 = 0.
    fn left_side_empty(&self) -> (r: bool)
        requires
            self.valid(),
        ensures
            r == (self.a_1.repr == 0 && self.a_3.repr == 0),
    {
        self.a_1.repr == 0 && self.a_3.repr == 0
    }

    /// Whether the curve is the Montgomery curve y^2 = x^3 + a_2 x^2 + x.
    pub fn is_montgomery(&self) -> (r: bool)
        requires
            self.valid(),
        ensures
            r == (self.a_1.repr == 0 && self.a_3.repr == 0 && self.a_4.repr == 1
                && self.a_6.repr == 0),
    {
        self.left_side_empty() && self.a_4.repr == 1 && self.a_6.repr == 0
    }

    /// The Montgomery curve with the given coefficient of x^2.
    pub fn new_montgomery(a: Fp) -> (r: EllipticCurve)
        requires
            a.valid(),
        ensures
            r.valid(),
            cp(r) == a.p,
            r.a_1.repr == 0 && r.a_3.repr == 0 && r.a_6.repr == 0,
            r.a_2 == a,
            r.a_4.repr == 1,
    {
        proof {
            lemma_unit_ops(a.p as int, 0);
        }
        EllipticCurve {
            a_1: Fp::zero(a.p),
            a_3: Fp::zero(a.p),
            a_2: a,
            a_4: Fp::from_int(1, a.p),
            a_6: Fp::zero(a.p),
        }
    }

    /// Forgets the y-coordinate of an affine point.
    pub fn unsigne_point(&self, point: ProjKPoint) -> (r: UnsignedProjPoint)
        requires
            self.valid(),
            point.valid(cp(*self)),
        ensures
            r.valid(cp(*self)),
            point is InfPoint ==> r == inf_s(cp(*self)),
            point matches ProjKPoint::FinPoint(x, _) ==> r.x == x && r.z.repr == 1,
    {
        match point {
            ProjKPoint::InfPoint => UnsignedProjPoint::infinite_point(self.a_1.p),
            ProjKPoint::FinPoint(x, _) => UnsignedProjPoint::finite_point(x),
        }
    }

    /// Rejection-samples an affine point of a curve without left-hand cross
    /// terms: an x whose cubic is a quadratic residue, with a matching y.
    /// Gives `None` when the attempt budget runs out.
    pub fn sample_point(&self) -> (r: Option<ProjKPoint>)
        requires
            self.valid(),
            self.a_1.repr == 0,
            self.a_3.repr == 0,
        ensures
            match r {
                Some(pt) => pt.valid(cp(*self)) && on_curve_s(*self, pt) && pt is FinPoint,
                None => true,
            },
    {
        let p = self.a_1.p;
        let ghost pi = p as int;
        let mut budget: u64 = MAX_SAMPLE_ATTEMPTS;
        while budget > 0
            invariant
                self.valid(),
                self.a_1.repr == 0,
                self.a_3.repr == 0,
                p == self.a_1.p,
                pi == p as int,
            decreases budget,
        {
            let x = Fp { repr: sample_u64_below(p), p };
            let fx = x.mul(x).mul(x).add(self.a_2.mul(x.mul(x))).add(self.a_4.mul(x)).add(
                self.a_6,
            );
            if fx.legendre_symbol() == 1 {
                match fx.square_root() {
                    Some(y) => {
                        proof {
                            lemma_unit_ops(pi, mul_f(pi, y.repr as int, y.repr as int));
                            lemma_unit_ops(pi, y.repr as int);
                            lemma_unit_ops(pi, x.repr as int);
                        }
                        return Some(ProjKPoint::FinPoint(x, y));
                    },
                    None => {},
                }
            }
            budget = budget - 1;
        }
        None
    }

    /// A sampled point with the y-coordinate forgotten.
    pub fn sample_unsigned(&self) -> (r: Option<UnsignedProjPoint>)
        requires
            self.valid(),
            self.a_1.repr == 0,
            self.a_3.repr == 0,
        ensures
            match r {
                Some(pt) => pt.valid(cp(*self)),
                None => true,
            },
    {
        match self.sample_point() {
            Some(pt) => Some(self.unsigne_point(pt)),
            None => None,
        }
    }

    /// Differential addition of P and Q when P - Q is known.
    pub fn x_add(
        &self,
        pt: UnsignedProjPoint,
        q: UnsignedProjPoint,
        p_minus_q: UnsignedProjPoint,
    ) -> (r: UnsignedProjPoint)
        requires
            self.valid(),
            pt.valid(cp(*self)),
            q.valid(cp(*self)),
            p_minus_q.valid(cp(*self)),
        ensures
            r == x_add_s(*self, pt, q, p_minus_q),
            r.valid(cp(*self)),
    {
        let u = pt.x.sub(pt.z).mul(q.x.add(q.z));
        let v = pt.x.add(pt.z).mul(q.x.sub(q.z));
        let x = u.add(v);
        let z = u.sub(v);
        UnsignedProjPoint { x: p_minus_q.z.mul(x).mul(x), z: p_minus_q.x.mul(z).mul(z) }
    }

    /// Doubling of a point on the Kummer line.
    pub fn x_dbl(&self, pt: UnsignedProjPoint) -> (r: UnsignedProjPoint)
        requires
            self.valid(),
            pt.valid(cp(*self)),
            cp(*self) > 2,
        ensures
            r == x_dbl_s(*self, pt),
            r.valid(cp(*self)),
    {
        let p = self.a_1.p;
        let a = self.a_2;
        let mut q = pt.x.add(pt.z);
        q = q.mul(q);
        let mut r = pt.x.sub(pt.z);
        r = r.mul(r);
        let s = q.sub(r);
        proof {
            lemma_four_nonzero(p as int);
        }
        UnsignedProjPoint {
            x: q.mul(r),
            z: s.mul(r.add(s.mul(a.add(Fp::from_int(2, p))).div(Fp::from_int(4, p)))),
        }
    }

    /// The Montgomery ladder: [n]P on the Kummer line, by one differential
    /// addition and one doubling per scalar bit, driven by a branch-free
    /// arithmetic swap.
    pub fn scalar_mult_unsigned(&self, n: u64, point: UnsignedProjPoint) -> (r: UnsignedProjPoint)
        requires
            self.valid(),
            point.valid(cp(*self)),
            cp(*self) > 2,
        ensures
            r == ladder_s(*self, point, n as nat).0,
            r.valid(cp(*self)),
    {
        let p = self.a_1.p;
        let ghost c = *self;
        if n == 0 {
            return UnsignedProjPoint::infinite_point(p);
        }
        let mut logm: u64 = 0;
        let mut m: u64 = n;
        proof {
            vstd::arithmetic::power2::lemma2_to64();
        }
        while m != 0
            invariant
                logm <= 64,
                m as int == n as int / pow2(logm as nat) as int,
                m >= 1 ==> pow2(logm as nat) <= n,
                logm >= 1 ==> n as int / pow2((logm - 1) as nat) as int >= 1,
            decreases m,
        {
            proof {
                let lg = logm as nat;
                vstd::arithmetic::power2::lemma2_to64();
                if logm >= 64 {
                    if logm > 64 {
                        vstd::arithmetic::power2::lemma_pow2_strictly_increases(64nat, lg);
                    }
                    assert(false);
                }
                vstd::arithmetic::power2::lemma_pow2_unfold((lg + 1) as nat);
                vstd::arithmetic::power2::lemma_pow2_pos(lg);
                lemma_div_denominator(n as int, pow2(lg) as int, 2);
                assert(m as int / 2 == n as int / pow2((lg + 1) as nat) as int);
                if m / 2 >= 1 {
                    assert(n as int >= (m / 2) as int * pow2((lg + 1) as nat) as int) by {
                        vstd::arithmetic::div_mod::lemma_fundamental_div_mod(
                            n as int,
                            pow2((lg + 1) as nat) as int,
                        );
                        lemma_mod_bound(n as int, pow2((lg + 1) as nat) as int);
                    }
                    assert(pow2((lg + 1) as nat) <= n) by (nonlinear_arith)
                        requires
                            m / 2 >= 1,
                            n as int >= (m / 2) as int * pow2((lg + 1) as nat) as int,
                            pow2((lg + 1) as nat) >= 1,
                    {}
                }
            }
            m = m / 2;
            logm = logm + 1;
        }
        let mut x0 = UnsignedProjPoint::infinite_point(p);
        let mut x1 = point;
        let ghost logm0 = logm;
        while logm >= 1
            invariant
                c == *self,
                self.valid(),
                cp(c) > 2,
                p == self.a_1.p,
                point.valid(cp(c)),
                x0.valid(cp(c)),
                x1.valid(cp(c)),
                logm <= logm0,
                logm0 <= 64,
                n >= 1,
                n as int / pow2(logm0 as nat) as int == 0,
                logm0 >= 1 ==> n as int / pow2((logm0 - 1) as nat) as int >= 1,
                logm < logm0 ==> n as int / pow2(logm as nat) as int >= 1,
                (x0, x1) == ladder_s(c, point, (n as int / pow2(logm as nat) as int) as nat),
            decreases logm,
        {
            let bit = (n & (1u64 << (logm - 1))) >> (logm - 1);
            proof {
                let k = (logm - 1) as nat;
                let kk: u64 = (logm - 1) as u64;
                let ghost prefix = n as int / pow2(logm as nat) as int;
                let ghost prefix2 = n as int / pow2(k) as int;
                assert((n & (1u64 << kk)) >> kk == (n >> kk) & 1) by (bit_vector)
                    requires
                        kk < 64,
                ;
                assert((n >> kk) & 1 == (n >> kk) % 2) by (bit_vector);
                vstd::bits::lemma_u64_shr_is_div(n, kk);
                vstd::arithmetic::power2::lemma_pow2_unfold(logm as nat);
                vstd::arithmetic::power2::lemma_pow2_pos(k);
                lemma_div_denominator(n as int, pow2(k) as int, 2);
                assert(bit == (n >> kk) % 2);
                assert(prefix2 == 2 * prefix + bit);
                if prefix == 0 {
                    // the scan starts at the leading bit, which is 1
                    assert(logm == logm0);
                    assert(prefix2 >= 1);
                }
            }
            logm = logm - 1;
            let b = Fp::new(bit as i64, p);
            proof {
                lemma_unit_ops(p as int, x0.x.repr as int);
                lemma_unit_ops(p as int, x0.z.repr as int);
                lemma_unit_ops(p as int, x1.x.repr as int);
                lemma_unit_ops(p as int, x1.z.repr as int);
            }
            let (a, bb) = cond_swap(b, x0, x1);
            let added = self.x_add(a, bb, point);
            let doubled = self.x_dbl(a);
            proof {
                lemma_unit_ops(p as int, added.x.repr as int);
                lemma_unit_ops(p as int, added.z.repr as int);
                lemma_unit_ops(p as int, doubled.x.repr as int);
                lemma_unit_ops(p as int, doubled.z.repr as int);
            }
            let (na, nb) = cond_swap(b, doubled, added);
            x0 = na;
            x1 = nb;
        }
        proof {
            vstd::arithmetic::power2::lemma2_to64();
        }
        x0
    }
}

/// The branch-free conditional swap of the ladder: with a selector bit that
/// is 0 or 1 as a field element, each output coordinate is the arithmetic
/// blend (1 - b) u + b v.
fn cond_swap(b: Fp, first: UnsignedProjPoint, second: UnsignedProjPoint) -> (r: (
    UnsignedProjPoint,
    UnsignedProjPoint,
))
    requires
        b.valid(),
        first.valid(b.p as int),
        second.valid(b.p as int),
        b.repr == 0 || b.repr == 1,
    ensures
        b.repr == 0 ==> r == (first, second),
        b.repr == 1 ==> r == (second, first),
        r.0.valid(b.p as int),
        r.1.valid(b.p as int),
{
    let p = b.p;
    let one = Fp::from_int(1, p);
    let nb = one.sub(b);
    proof {
        lemma_unit_ops(p as int, first.x.repr as int);
        lemma_unit_ops(p as int, first.z.repr as int);
        lemma_unit_ops(p as int, second.x.repr as int);
        lemma_unit_ops(p as int, second.z.repr as int);
        lemma_unit_ops(p as int, 0);
    }
    let out0 = UnsignedProjPoint {
        x: nb.mul(first.x).add(b.mul(second.x)),
        z: nb.mul(first.z).add(b.mul(second.z)),
    };
    let out1 = UnsignedProjPoint {
        x: nb.mul(second.x).add(b.mul(first.x)),
        z: nb.mul(second.z).add(b.mul(first.z)),
    };
    (out0, out1)
}

} // verus!
