//! Elliptic curves in long Weierstrass form over the prime field, with affine
//! point arithmetic: negation, the chord-and-tangent addition and signed
//! scalar multiplication.

use vstd::prelude::*;
use vstd::arithmetic::div_mod::lemma_div_denominator;
use vstd::arithmetic::power2::pow2;
use crate::finite_fields::Fp;
use crate::mod_arith::{
    add_f, div_f, int_f, lemma_sub_f_zero_iff, modulus_ok, mul_f, neg_f, sub_f,
};

verus! {

/// A projective point of the curve, written through its affine coordinates:
/// either a finite point (x, y) or the point at infinity.
#[derive(Clone, Copy, Debug, PartialEq, Eq, Structural)]
pub enum ProjKPoint {
    FinPoint(Fp, Fp),
    InfPoint,
}

impl ProjKPoint {
    /// Field elements of the point are reduced and live modulo `p`.
    pub open spec fn valid(self, p: int) -> bool {
        match self {
            ProjKPoint::FinPoint(x, y) => x.valid() && y.valid() && x.p == p && y.p == p,
            ProjKPoint::InfPoint => true,
        }
    }
}

/// The curve y^2 + a_1 xy + a_3 y = x^3 + a_2 x^2 + a_4 x + a_6.
#[derive(Clone, Copy, Debug, PartialEq, Eq, Structural)]
pub struct EllipticCurve {
    pub a_1: Fp,
    pub a_3: Fp,
    pub a_2: Fp,
    pub a_4: Fp,
    pub a_6: Fp,
}

/// The modulus the curve lives under.
pub open spec fn cp(c: EllipticCurve) -> int {
    c.a_1.p as int
}

/// A spec-level field element of the curve's field, from its canonical value.
pub open spec fn fp_of(p: int, v: int) -> Fp {
    Fp { repr: v as u64, p: p as u64 }
}

/// The quantity b2 = a_1^2 + 4 a_2.
pub open spec fn b2_s(c: EllipticCurve) -> int {
    let p = cp(c);
    add_f(p, mul_f(p, c.a_1.repr as int, c.a_1.repr as int), mul_f(p, int_f(p, 4), c.a_2.repr as int))
}

/// The quantity b4 = 2 a_4 + a_1 a_3.
pub open spec fn b4_s(c: EllipticCurve) -> int {
    let p = cp(c);
    add_f(p, mul_f(p, int_f(p, 2), c.a_4.repr as int), mul_f(p, c.a_1.repr as int, c.a_3.repr as int))
}

/// The quantity b6 = a_3^2 + 4 a_6.
pub open spec fn b6_s(c: EllipticCurve) -> int {
    let p = cp(c);
    add_f(p, mul_f(p, c.a_3.repr as int, c.a_3.repr as int), mul_f(p, int_f(p, 4), c.a_6.repr as int))
}

/// The quantity c4 = b2^2 - 24 b4.
pub open spec fn c4_s(c: EllipticCurve) -> int {
    let p = cp(c);
    sub_f(p, mul_f(p, b2_s(c), b2_s(c)), mul_f(p, int_f(p, 24), b4_s(c)))
}

/// The quantity c6 = -b2^3 + 36 b2 b4 - 216 b6.
pub open spec fn c6_s(c: EllipticCurve) -> int {
    let p = cp(c);
    let b2 = b2_s(c);
    let b4 = b4_s(c);
    let b6 = b6_s(c);
    sub_f(
        p,
        add_f(
            p,
            mul_f(p, mul_f(p, neg_f(p, b2), b2), b2),
            mul_f(p, mul_f(p, int_f(p, 36), b2), b4),
        ),
        mul_f(p, int_f(p, 216), b6),
    )
}

/// The discriminant, written through b2, b4 and b6.
pub open spec fn discriminant_s(c: EllipticCurve) -> int {
    let p = cp(c);
    let b2 = b2_s(c);
    let b4 = b4_s(c);
    let b6 = b6_s(c);
    mul_f(
        p,
        int_f(p, -4),
        add_f(
            p,
            add_f(
                p,
                sub_f(
                    p,
                    sub_f(
                        p,
                        mul_f(p, mul_f(p, mul_f(p, b2, b2), b2), b6),
                        mul_f(p, mul_f(p, mul_f(p, b2, b2), b4), b4),
                    ),
                    mul_f(p, mul_f(p, mul_f(p, int_f(p, 36), b2), b4), b6),
                ),
                mul_f(p, mul_f(p, mul_f(p, int_f(p, 32), b4), b4), b4),
            ),
            mul_f(p, mul_f(p, int_f(p, 108), b6), b6),
        ),
    )
}

/// Whether a point satisfies the curve equation.
pub open spec fn on_curve_s(c: EllipticCurve, point: ProjKPoint) -> bool {
    let p = cp(c);
    match point {
        ProjKPoint::InfPoint => true,
        ProjKPoint::FinPoint(x, y) => {
            let xv = x.repr as int;
            let yv = y.repr as int;
            add_f(
                p,
                add_f(p, mul_f(p, yv, yv), mul_f(p, mul_f(p, c.a_1.repr as int, xv), yv)),
                mul_f(p, c.a_3.repr as int, yv),
            ) == add_f(
                p,
                add_f(
                    p,
                    add_f(p, mul_f(p, mul_f(p, xv, xv), xv), mul_f(p, c.a_2.repr as int, mul_f(p, xv, xv))),
                    mul_f(p, c.a_4.repr as int, xv),
                ),
                c.a_6.repr as int,
            )
        },
    }
}

/// The negative of a point: infinity stays put, and a finite point keeps its
/// x while its y goes to -y - a_1 x - a_3.
pub open spec fn neg_point_s(c: EllipticCurve, point: ProjKPoint) -> ProjKPoint {
    let p = cp(c);
    match point {
        ProjKPoint::InfPoint => ProjKPoint::InfPoint,
        ProjKPoint::FinPoint(x, y) => ProjKPoint::FinPoint(
            x,
            fp_of(
                p,
                sub_f(
                    p,
                    sub_f(p, neg_f(p, y.repr as int), mul_f(p, c.a_1.repr as int, x.repr as int)),
                    c.a_3.repr as int,
                ),
            ),
        ),
    }
}

/// Chord-and-tangent addition.  Opposite points sum to infinity; infinity is
/// the neutral element; otherwise the line through the two points (or the
/// tangent when they coincide) meets the curve in the result's negative.  A
/// vanishing tangent denominator, which cannot occur for distinct points on
/// the curve that are not opposite, also gives infinity.
pub open spec fn add_points_s(c: EllipticCurve, point1: ProjKPoint, point2: ProjKPoint) -> ProjKPoint {
    let p = cp(c);
    let a1 = c.a_1.repr as int;
    let a2 = c.a_2.repr as int;
    let a3 = c.a_3.repr as int;
    let a4 = c.a_4.repr as int;
    let a6 = c.a_6.repr as int;
    if point1 == neg_point_s(c, point2) {
        ProjKPoint::InfPoint
    } else {
        match (point1, point2) {
            (ProjKPoint::InfPoint, _) => point2,
            (_, ProjKPoint::InfPoint) => point1,
            (ProjKPoint::FinPoint(x1, y1), ProjKPoint::FinPoint(x2, y2)) => {
                let x1v = x1.repr as int;
                let y1v = y1.repr as int;
                let x2v = x2.repr as int;
                let y2v = y2.repr as int;
                let den = if x1 != x2 {
                    sub_f(p, x2v, x1v)
                } else {
                    add_f(p, add_f(p, mul_f(p, int_f(p, 2), y1v), mul_f(p, a1, x1v)), a3)
                };
                if x1 == x2 && den == 0 {
                    ProjKPoint::InfPoint
                } else {
                    let lambda = if x1 != x2 {
                        div_f(p, sub_f(p, y2v, y1v), den)
                    } else {
                        div_f(
                            p,
                            sub_f(
                                p,
                                add_f(
                                    p,
                                    add_f(
                                        p,
                                        mul_f(p, mul_f(p, int_f(p, 3), x1v), x1v),
                                        mul_f(p, mul_f(p, int_f(p, 2), a2), x1v),
                                    ),
                                    a4,
                                ),
                                mul_f(p, a1, y1v),
                            ),
                            den,
                        )
                    };
                    let nu = if x1 != x2 {
                        div_f(p, sub_f(p, mul_f(p, y1v, x2v), mul_f(p, y2v, x1v)), den)
                    } else {
                        div_f(
                            p,
                            sub_f(
                                p,
                                add_f(
                                    p,
                                    add_f(
                                        p,
                                        mul_f(p, mul_f(p, neg_f(p, x1v), x1v), x1v),
                                        mul_f(p, a4, x1v),
                                    ),
                                    mul_f(p, int_f(p, 2), a6),
                                ),
                                mul_f(p, a3, y1v),
                            ),
                            den,
                        )
                    };
                    let x3 = sub_f(
                        p,
                        sub_f(
                            p,
                            sub_f(p, add_f(p, mul_f(p, lambda, lambda), mul_f(p, a1, lambda)), a2),
                            x1v,
                        ),
                        x2v,
                    );
                    let y3 = sub_f(
                        p,
                        sub_f(p, mul_f(p, neg_f(p, add_f(p, lambda, a1)), x3), nu),
                        a3,
                    );
                    ProjKPoint::FinPoint(fp_of(p, x3), fp_of(p, y3))
                }
            },
        }
    }
}

/// The pair ([m]P, [m+1]P) produced by the binary double-and-add recursion,
/// for m at least 1.
pub open spec fn double_add_s(c: EllipticCurve, point: ProjKPoint, m: nat) -> (ProjKPoint, ProjKPoint)
    decreases m,
{
    if m <= 1 {
        (point, add_points_s(c, point, point))
    } else {
        let q = double_add_s(c, point, m / 2);
        if m % 2 == 0 {
            (add_points_s(c, q.0, q.0), add_points_s(c, q.0, q.1))
        } else {
            (add_points_s(c, q.0, q.1), add_points_s(c, q.1, q.1))
        }
    }
}

/// Scalar multiplication by a signed integer: 0 gives infinity, a negative
/// scalar acts through the negated point.
pub open spec fn scalar_mult_s(c: EllipticCurve, n: int, point: ProjKPoint) -> ProjKPoint {
    if n == 0 {
        ProjKPoint::InfPoint
    } else if n > 0 {
        double_add_s(c, point, n as nat).0
    } else {
        double_add_s(c, neg_point_s(c, point), (-n) as nat).0
    }
}

/// The running sums of Vélu's curve formulas over a walk of the kernel:
/// each finite kernel point Q contributes t_Q = 3 x_Q^2 + a to the first sum
/// and u_Q + x_Q t_Q with u_Q = 2 y_Q^2 to the second; the walk advances by
/// one addition of the generator and stops at infinity.
pub open spec fn velu_sums_rec(
    c: EllipticCurve,
    gen: ProjKPoint,
    q: ProjKPoint,
    t: int,
    w: int,
    fuel: nat,
) -> Option<(int, int)>
    decreases fuel,
{
    let m = cp(c);
    match q {
        ProjKPoint::InfPoint => Some((t, w)),
        ProjKPoint::FinPoint(x, y) => if fuel == 0 {
            None
        } else {
            let tq = add_f(
                m,
                mul_f(m, mul_f(m, int_f(m, 3), x.repr as int), x.repr as int),
                c.a_4.repr as int,
            );
            let uq = mul_f(m, mul_f(m, int_f(m, 2), y.repr as int), y.repr as int);
            velu_sums_rec(
                c,
                gen,
                add_points_s(c, q, gen),
                add_f(m, t, tq),
                add_f(m, w, add_f(m, uq, mul_f(m, x.repr as int, tq))),
                (fuel - 1) as nat,
            )
        },
    }
}

/// The image curve of Vélu's isogeny with the cyclic kernel generated by
/// `gen`: y^2 = x^3 + (a - 5t) x + (b - 7w) over the walk's two sums.
pub open spec fn velu_curve_s(c: EllipticCurve, gen: ProjKPoint) -> Option<EllipticCurve> {
    let m = cp(c);
    match velu_sums_rec(c, gen, gen, 0, 0, (2 * c.a_1.p) as nat) {
        Some((t, w)) => Some(
            EllipticCurve {
                a_1: Fp { repr: 0, p: c.a_1.p },
                a_3: Fp { repr: 0, p: c.a_1.p },
                a_2: Fp { repr: 0, p: c.a_1.p },
                a_4: fp_of(m, sub_f(m, c.a_4.repr as int, mul_f(m, int_f(m, 5), t))),
                a_6: fp_of(m, sub_f(m, c.a_6.repr as int, mul_f(m, int_f(m, 7), w))),
            },
        ),
        None => None,
    }
}

/// Whether the target equals some non-zero multiple of the generator, by
/// walking the cyclic subgroup until infinity closes the walk.
pub open spec fn kernel_member_rec(
    c: EllipticCurve,
    gen: ProjKPoint,
    target: ProjKPoint,
    q: ProjKPoint,
    fuel: nat,
) -> Option<bool>
    decreases fuel,
{
    match q {
        ProjKPoint::InfPoint => Some(false),
        ProjKPoint::FinPoint(_, _) => if q == target {
            Some(true)
        } else if fuel == 0 {
            None
        } else {
            kernel_member_rec(c, gen, target, add_points_s(c, q, gen), (fuel - 1) as nat)
        },
    }
}

/// The running sums of Vélu's point formulas: each finite kernel point Q
/// contributes the difference of the coordinates of target + Q and of Q.
pub open spec fn velu_proj_rec(
    c: EllipticCurve,
    gen: ProjKPoint,
    target: ProjKPoint,
    q: ProjKPoint,
    sx: int,
    sy: int,
    fuel: nat,
) -> Option<(int, int)>
    decreases fuel,
{
    let m = cp(c);
    match q {
        ProjKPoint::InfPoint => Some((sx, sy)),
        ProjKPoint::FinPoint(xq, yq) => if fuel == 0 {
            None
        } else {
            match add_points_s(c, target, q) {
                ProjKPoint::InfPoint => None,
                ProjKPoint::FinPoint(xs, ys) => velu_proj_rec(
                    c,
                    gen,
                    target,
                    add_points_s(c, q, gen),
                    add_f(m, sx, sub_f(m, xs.repr as int, xq.repr as int)),
                    add_f(m, sy, sub_f(m, ys.repr as int, yq.repr as int)),
                    (fuel - 1) as nat,
                ),
            }
        },
    }
}

/// The image of a point under Vélu's isogeny: infinity and the kernel map
/// to infinity, and any other point is translated by the two walk sums.
pub open spec fn velu_projection_s(
    c: EllipticCurve,
    gen: ProjKPoint,
    target: ProjKPoint,
) -> Option<ProjKPoint> {
    let m = cp(c);
    let fuel = (2 * c.a_1.p) as nat;
    match target {
        ProjKPoint::InfPoint => Some(ProjKPoint::InfPoint),
        ProjKPoint::FinPoint(xt, yt) => match kernel_member_rec(c, gen, target, gen, fuel) {
            None => None,
            Some(true) => Some(ProjKPoint::InfPoint),
            Some(false) => match velu_proj_rec(c, gen, target, gen, 0, 0, fuel) {
                None => None,
                Some((sx, sy)) => Some(
                    ProjKPoint::FinPoint(
                        fp_of(m, add_f(m, xt.repr as int, sx)),
                        fp_of(m, add_f(m, yt.repr as int, sy)),
                    ),
                ),
            },
        },
    }
}

impl EllipticCurve {
    /// All coefficients are reduced elements of one field.
    pub open spec fn valid(self) -> bool {
        &&& self.a_1.valid()
        &&& self.a_3.valid()
        &&& self.a_2.valid()
        &&& self.a_4.valid()
        &&& self.a_6.valid()
        &&& self.a_3.p == self.a_1.p
        &&& self.a_2.p == self.a_1.p
        &&& self.a_4.p == self.a_1.p
        &&& self.a_6.p == self.a_1.p
    }

    /// The short Weierstrass curve y^2 = x^3 + a x + b.
    pub fn new_reduced_weierstrass(a: Fp, b: Fp) -> (r: EllipticCurve)
        requires
            a.valid(),
            b.valid(),
            a.same_field(b),
        ensures
            r.valid(),
            cp(r) == a.p,
            r.a_1.repr == 0 && r.a_2.repr == 0 && r.a_3.repr == 0,
            r.a_4 == a,
            r.a_6 == b,
    {
        EllipticCurve {
            a_1: Fp::zero(a.p),
            a_3: Fp::zero(a.p),
            a_2: Fp::zero(a.p),
            a_4: a,
            a_6: b,
        }
    }

    /// An alias of the short Weierstrass constructor.
    pub fn new(a: Fp, b: Fp) -> (r: EllipticCurve)
        requires
            a.valid(),
            b.valid(),
            a.same_field(b),
        ensures
            r.valid(),
            cp(r) == a.p,
            r.a_1.repr == 0 && r.a_2.repr == 0 && r.a_3.repr == 0,
            r.a_4 == a,
            r.a_6 == b,
    {
        EllipticCurve::new_reduced_weierstrass(a, b)
    }

    /// Whether the curve is already in the reduced form.
    pub fn is_reduced_weierstrass(&self) -> (r: bool)
        requires
            self.valid(),
        ensures
            r == (self.a_1.repr == 0 && self.a_2.repr == 0 && self.a_3.repr == 0),
    {
        self.a_1.repr == 0 && self.a_2.repr == 0 && self.a_3.repr == 0
    }

    /// The reduced Weierstrass model y^2 = x^3 - 27 c4 x - 54 c6.
    pub fn to_reduced_weierstrass(self) -> (r: EllipticCurve)
        requires
            self.valid(),
        ensures
            r.valid(),
            cp(r) == cp(self),
            r.a_1.repr == 0 && r.a_2.repr == 0 && r.a_3.repr == 0,
            r.a_4.repr == mul_f(cp(self), neg_f(cp(self), int_f(cp(self), 27)), c4_s(self)),
            r.a_6.repr == mul_f(cp(self), neg_f(cp(self), int_f(cp(self), 54)), c6_s(self)),
    {
        let p = self.a_1.p;
        EllipticCurve::new_reduced_weierstrass(
            Fp::from_int(27, p).neg().mul(self.c4()),
            Fp::from_int(54, p).neg().mul(self.c6()),
        )
    }

    fn b2(&self) -> (r: Fp)
        requires
            self.valid(),
        ensures
            r.valid(),
            r.p == self.a_1.p,
            r.repr == b2_s(*self),
    {
        self.a_1.mul(self.a_1).add(Fp::from_int(4, self.a_1.p).mul(self.a_2))
    }

    fn b4(&self) -> (r: Fp)
        requires
            self.valid(),
        ensures
            r.valid(),
            r.p == self.a_1.p,
            r.repr == b4_s(*self),
    {
        Fp::from_int(2, self.a_1.p).mul(self.a_4).add(self.a_1.mul(self.a_3))
    }

    fn b6(&self) -> (r: Fp)
        requires
            self.valid(),
        ensures
            r.valid(),
            r.p == self.a_1.p,
            r.repr == b6_s(*self),
    {
        self.a_3.mul(self.a_3).add(Fp::from_int(4, self.a_1.p).mul(self.a_6))
    }

    fn c4(&self) -> (r: Fp)
        requires
            self.valid(),
        ensures
            r.valid(),
            r.p == self.a_1.p,
            r.repr == c4_s(*self),
    {
        let b2 = self.b2();
        let b4 = self.b4();
        b2.mul(b2).sub(Fp::from_int(24, self.a_1.p).mul(b4))
    }

    fn c6(&self) -> (r: Fp)
        requires
            self.valid(),
        ensures
            r.valid(),
            r.p == self.a_1.p,
            r.repr == c6_s(*self),
    {
        let p = self.a_1.p;
        let b2 = self.b2();
        let b4 = self.b4();
        let b6 = self.b6();
        b2.neg().mul(b2).mul(b2).add(Fp::from_int(36, p).mul(b2).mul(b4)).sub(
            Fp::from_int(216, p).mul(b6),
        )
    }

    /// The discriminant of the curve.
    pub fn discriminant(&self) -> (r: Fp)
        requires
            self.valid(),
        ensures
            r.valid(),
            r.p == self.a_1.p,
            r.repr == discriminant_s(*self),
    {
        let p = self.a_1.p;
        let b2 = self.b2();
        let b4 = self.b4();
        let b6 = self.b6();
        Fp::from_int(-4, p).mul(
            b2.mul(b2).mul(b2).mul(b6).sub(b2.mul(b2).mul(b4).mul(b4)).sub(
                Fp::from_int(36, p).mul(b2).mul(b4).mul(b6),
            ).add(Fp::from_int(32, p).mul(b4).mul(b4).mul(b4)).add(
                Fp::from_int(108, p).mul(b6).mul(b6),
            ),
        )
    }

    /// The j-invariant c4^3 / discriminant of a non-singular curve.
    pub fn j_invariant(&self) -> (r: Fp)
        requires
            self.valid(),
            discriminant_s(*self) != 0,
        ensures
            r.valid(),
            r.p == self.a_1.p,
            r.repr == div_f(
                cp(*self),
                mul_f(cp(*self), mul_f(cp(*self), c4_s(*self), c4_s(*self)), c4_s(*self)),
                discriminant_s(*self),
            ),
    {
        let c4 = self.c4();
        c4.mul(c4).mul(c4).div(self.discriminant())
    }

    /// Whether the point satisfies the curve equation.
    pub fn is_on_curve(&self, point: &ProjKPoint) -> (r: bool)
        requires
            self.valid(),
            point.valid(cp(*self)),
        ensures
            r == on_curve_s(*self, *point),
    {
        match *point {
            ProjKPoint::InfPoint => true,
            ProjKPoint::FinPoint(x, y) => {
                let lhs = y.mul(y).add(self.a_1.mul(x).mul(y)).add(self.a_3.mul(y));
                let rhs = x.mul(x).mul(x).add(self.a_2.mul(x.mul(x))).add(self.a_4.mul(x)).add(
                    self.a_6,
                );
                lhs.repr == rhs.repr
            },
        }
    }

    /// The additive inverse of a point.
    pub fn neg_point(&self, point: ProjKPoint) -> (r: ProjKPoint)
        requires
            self.valid(),
            point.valid(cp(*self)),
        ensures
            r == neg_point_s(*self, point),
            r.valid(cp(*self)),
    {
        match point {
            ProjKPoint::InfPoint => ProjKPoint::InfPoint,
            ProjKPoint::FinPoint(x, y) => ProjKPoint::FinPoint(
                x,
                y.neg().sub(self.a_1.mul(x)).sub(self.a_3),
            ),
        }
    }

    /// Chord-and-tangent addition of two points.
    pub fn add_points(&self, point1: ProjKPoint, point2: ProjKPoint) -> (r: ProjKPoint)
        requires
            self.valid(),
            point1.valid(cp(*self)),
            point2.valid(cp(*self)),
        ensures
            r == add_points_s(*self, point1, point2),
            r.valid(cp(*self)),
    {
        let p = self.a_1.p;
        let a_1 = self.a_1;
        let a_2 = self.a_2;
        let a_3 = self.a_3;
        let a_4 = self.a_4;
        let a_6 = self.a_6;
        if point1 == self.neg_point(point2) {
            return ProjKPoint::InfPoint;
        }
        match (point1, point2) {
            (ProjKPoint::InfPoint, _) => point2,
            (_, ProjKPoint::InfPoint) => point1,
            (ProjKPoint::FinPoint(x1, y1), ProjKPoint::FinPoint(x2, y2)) => {
                let lambda: Fp;
                let nu: Fp;
                if x1 != x2 {
                    let den = x2.sub(x1);
                    proof {
                        lemma_sub_f_zero_iff(p as int, x2.repr as int, x1.repr as int);
                    }
                    lambda = y2.sub(y1).div(den);
                    nu = y1.mul(x2).sub(y2.mul(x1)).div(den);
                } else {
                    let den = Fp::from_int(2, p).mul(y1).add(a_1.mul(x1)).add(a_3);
                    if den.repr == 0 {
                        return ProjKPoint::InfPoint;
                    }
                    lambda = Fp::from_int(3, p).mul(x1).mul(x1).add(
                        Fp::from_int(2, p).mul(a_2).mul(x1),
                    ).add(a_4).sub(a_1.mul(y1)).div(den);
                    nu = x1.neg().mul(x1).mul(x1).add(a_4.mul(x1)).add(
                        Fp::from_int(2, p).mul(a_6),
                    ).sub(a_3.mul(y1)).div(den);
                }
                let x3 = lambda.mul(lambda).add(a_1.mul(lambda)).sub(a_2).sub(x1).sub(x2);
                let y3 = lambda.add(a_1).neg().mul(x3).sub(nu).sub(a_3);
                ProjKPoint::FinPoint(x3, y3)
            },
        }
    }

    /// Scalar multiplication by a signed integer, by binary double-and-add
    /// from the most significant bit.
    pub fn scalar_mult(&self, n: i32, point: ProjKPoint) -> (r: ProjKPoint)
        requires
            self.valid(),
            point.valid(cp(*self)),
            n > i32::MIN,
        ensures
            r == scalar_mult_s(*self, n as int, point),
            r.valid(cp(*self)),
        decreases (if n < 0 { 1int } else { 0int }),
    {
        if n == 0 {
            return ProjKPoint::InfPoint;
        }
        if n < 0 {
            return self.scalar_mult(-n, self.neg_point(point));
        }
        let nu: u32 = n as u32;
        let ghost c = *self;
        let mut p1 = point;
        let mut p2 = self.add_points(p1, p1);
        let mut logm: u32 = 0;
        let mut m: u32 = nu;
        proof {
            vstd::arithmetic::power2::lemma2_to64();
        }
        while m > 1
            invariant
                1 <= m,
                logm <= 32,
                m as int == nu as int / pow2(logm as nat) as int,
                pow2(logm as nat) <= nu,
            decreases m,
        {
            proof {
                let lg = logm as nat;
                vstd::arithmetic::power2::lemma_pow2_unfold((lg + 1) as nat);
                vstd::arithmetic::power2::lemma_pow2_pos(lg);
                lemma_div_denominator(nu as int, pow2(lg) as int, 2);
                assert(pow2(lg) as int * 2 == pow2((lg + 1) as nat) as int);
                assert(nu as int >= m as int * pow2(lg) as int) by {
                    vstd::arithmetic::div_mod::lemma_fundamental_div_mod(
                        nu as int,
                        pow2(lg) as int,
                    );
                    vstd::arithmetic::div_mod::lemma_mod_bound(nu as int, pow2(lg) as int);
                }
                assert(nu as int >= pow2((lg + 1) as nat)) by (nonlinear_arith)
                    requires
                        m >= 2,
                        nu as int >= m as int * pow2(lg) as int,
                        pow2((lg + 1) as nat) == 2 * pow2(lg),
                        pow2(lg) >= 1,
                {}
                if logm + 1 > 32 {
                    vstd::arithmetic::power2::lemma2_to64();
                    vstd::arithmetic::power2::lemma_pow2_strictly_increases(
                        32nat,
                        (lg + 1) as nat,
                    );
                    assert(false);
                }
            }
            m = m / 2;
            logm = logm + 1;
        }
        while logm >= 1
            invariant
                c == *self,
                self.valid(),
                point.valid(cp(c)),
                p1.valid(cp(c)),
                p2.valid(cp(c)),
                logm <= 32,
                nu >= 1,
                nu as int / pow2(logm as nat) as int >= 1,
                (p1, p2) == double_add_s(c, point, (nu as int / pow2(logm as nat) as int) as nat),
            decreases logm,
        {
            let bit = (nu & (1u32 << (logm - 1))) >> (logm - 1);
            proof {
                let k = (logm - 1) as nat;
                let ghost prefix = nu as int / pow2(logm as nat) as int;
                let ghost prefix2 = nu as int / pow2(k) as int;
                let kk: u32 = (logm - 1) as u32;
                assert((nu & (1u32 << kk)) >> kk == (nu >> kk) & 1) by (bit_vector)
                    requires
                        kk < 32,
                ;
                assert((nu >> kk) & 1 == (nu >> kk) % 2) by (bit_vector);
                assert(bit == (nu >> kk) % 2);
                vstd::bits::lemma_u32_shr_is_div(nu, (logm - 1) as u32);
                vstd::arithmetic::power2::lemma_pow2_unfold(logm as nat);
                vstd::arithmetic::power2::lemma_pow2_pos(k);
                lemma_div_denominator(nu as int, pow2(k) as int, 2);
                assert(prefix2 == 2 * prefix + bit);
            }
            logm = logm - 1;
            if bit == 0 {
                p2 = self.add_points(p1, p2);
                p1 = self.add_points(p1, p1);
            } else {
                p1 = self.add_points(p1, p2);
                p2 = self.add_points(p2, p2);
            }
        }
        proof {
            vstd::arithmetic::power2::lemma2_to64();
            assert(nu as int / pow2(0nat) as int == nu as int);
        }
        p1
    }

    /// The image curve of Vélu's isogeny with the cyclic kernel generated by
    /// `point`, on a curve in reduced form.  `None` when the walk of the
    /// kernel does not close within the fuel bound.
    pub fn velu_curve(&self, point: &ProjKPoint) -> (r: Option<EllipticCurve>)
        requires
            self.valid(),
            point.valid(cp(*self)),
            self.a_1.repr == 0,
            self.a_2.repr == 0,
            self.a_3.repr == 0,
        ensures
            r == velu_curve_s(*self, *point),
            match r {
                Some(c2) => c2.valid() && cp(c2) == cp(*self),
                None => true,
            },
    {
        let p = self.a_1.p;
        let ghost c = *self;
        let mut fuel: u64 = p + p;
        let ghost fuel0 = fuel;
        let mut t = Fp::zero(p);
        let mut w = Fp::zero(p);
        let mut q = *point;
        while q != ProjKPoint::InfPoint
            invariant
                c == *self,
                self.valid(),
                p == self.a_1.p,
                point.valid(cp(c)),
                q.valid(cp(c)),
                t.valid() && t.p == p,
                w.valid() && w.p == p,
                fuel0 == 2 * p,
                fuel <= fuel0,
                velu_sums_rec(c, *point, *point, 0, 0, fuel0 as nat) == velu_sums_rec(
                    c,
                    *point,
                    q,
                    t.repr as int,
                    w.repr as int,
                    fuel as nat,
                ),
            decreases fuel,
        {
            if fuel == 0 {
                return None;
            }
            match q {
                ProjKPoint::InfPoint => {},
                ProjKPoint::FinPoint(x, y) => {
                    let tq = Fp::from_int(3, p).mul(x).mul(x).add(self.a_4);
                    let uq = Fp::from_int(2, p).mul(y).mul(y);
                    t = t.add(tq);
                    w = w.add(uq.add(x.mul(tq)));
                    q = self.add_points(q, *point);
                },
            }
            fuel = fuel - 1;
        }
        let five_t = Fp::from_int(5, p).mul(t);
        let seven_w = Fp::from_int(7, p).mul(w);
        Some(
            EllipticCurve {
                a_1: Fp::zero(p),
                a_3: Fp::zero(p),
                a_2: Fp::zero(p),
                a_4: self.a_4.sub(five_t),
                a_6: self.a_6.sub(seven_w),
            },
        )
    }

    /// The image of `target` under Vélu's isogeny with the cyclic kernel
    /// generated by `point`: kernel points and infinity go to infinity, any
    /// other point is translated by the sums of the kernel walk.  `None`
    /// when the walk does not close within the fuel bound.
    pub fn velu_projection(&self, point: &ProjKPoint, target: ProjKPoint) -> (r: Option<
        ProjKPoint,
    >)
        requires
            self.valid(),
            point.valid(cp(*self)),
            target.valid(cp(*self)),
            self.a_1.repr == 0,
            self.a_2.repr == 0,
            self.a_3.repr == 0,
        ensures
            r == velu_projection_s(*self, *point, target),
            match r {
                Some(pt) => pt.valid(cp(*self)),
                None => true,
            },
    {
        let p = self.a_1.p;
        let ghost c = *self;
        let xt: Fp;
        let yt: Fp;
        match target {
            ProjKPoint::InfPoint => {
                return Some(ProjKPoint::InfPoint);
            },
            ProjKPoint::FinPoint(x, y) => {
                xt = x;
                yt = y;
            },
        }
        let mut fuel: u64 = p + p;
        let ghost fuel0 = fuel;
        let mut q = *point;
        while q != ProjKPoint::InfPoint
            invariant
                c == *self,
                self.valid(),
                p == self.a_1.p,
                point.valid(cp(c)),
                target.valid(cp(c)),
                target is FinPoint,
                q.valid(cp(c)),
                fuel0 == 2 * p,
                fuel <= fuel0,
                kernel_member_rec(c, *point, target, *point, fuel0 as nat) == kernel_member_rec(
                    c,
                    *point,
                    target,
                    q,
                    fuel as nat,
                ),
            decreases fuel,
        {
            if q == target {
                return Some(ProjKPoint::InfPoint);
            }
            if fuel == 0 {
                return None;
            }
            q = self.add_points(q, *point);
            fuel = fuel - 1;
        }
        let mut sx = Fp::zero(p);
        let mut sy = Fp::zero(p);
        fuel = p + p;
        q = *point;
        while q != ProjKPoint::InfPoint
            invariant
                c == *self,
                self.valid(),
                p == self.a_1.p,
                point.valid(cp(c)),
                target.valid(cp(c)),
                target == ProjKPoint::FinPoint(xt, yt),
                q.valid(cp(c)),
                sx.valid() && sx.p == p,
                sy.valid() && sy.p == p,
                fuel0 == 2 * p,
                fuel <= fuel0,
                velu_proj_rec(c, *point, target, *point, 0, 0, fuel0 as nat) == velu_proj_rec(
                    c,
                    *point,
                    target,
                    q,
                    sx.repr as int,
                    sy.repr as int,
                    fuel as nat,
                ),
                kernel_member_rec(c, *point, target, *point, fuel0 as nat) == Some(false),
            decreases fuel,
        {
            if fuel == 0 {
                return None;
            }
            match q {
                ProjKPoint::InfPoint => {},
                ProjKPoint::FinPoint(xq, yq) => {
                    match self.add_points(target, q) {
                        ProjKPoint::InfPoint => {
                            return None;
                        },
                        ProjKPoint::FinPoint(xs, ys) => {
                            sx = sx.add(xs.sub(xq));
                            sy = sy.add(ys.sub(yq));
                        },
                    }
                    q = self.add_points(q, *point);
                },
            }
            fuel = fuel - 1;
        }
        Some(ProjKPoint::FinPoint(xt.add(sx), yt.add(sy)))
    }
}

} // verus!
