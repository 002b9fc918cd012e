//! The CSIDH core: parameter sets, the supersingularity oracle, the Vélu
//! isogeny and the class-group-action drivers.

use vstd::prelude::*;
use crate::elliptic_curves::{cp, EllipticCurve};
use crate::finite_fields::Fp;
use crate::fp_elliptic_curves::{
    inf_s, ladder_s, normalize_s, proj_eq_s, x_add_s, x_dbl_s, UnsignedProjPoint,
    MAX_SAMPLE_ATTEMPTS,
};
use crate::mod_arith::{
    add_f, div_f, int_f, leg_f, lemma_u64_mul_in_u128, lemma_unit_ops, modulus_ok, mul_f, sub_f,
};
use crate::rng::{sample_i32_between, sample_u64_below};
use vstd::pervasive::VecAdditionalExecFns;
use vstd::arithmetic::power::pow;
use vstd::arithmetic::power2::pow2;

verus! {

/// A CSIDH parameter set: an ordered list of small odd primes together with
/// the field characteristic p = 4 * (product of the primes) - 1.
pub struct CSIDHInstance {
    pub n_primes: usize,
    pub l: Vec<u64>,
    pub p: u64,
}

/// A public key: the Montgomery coefficient of a supersingular curve.
pub type PublicKey = Fp;

/// A secret key: one small signed exponent for each prime of the instance.
pub type SecretKey = Vec<i32>;

/// The failures the core can surface.
#[derive(Clone, Copy, Debug, PartialEq, Eq, Structural)]
pub enum CsidhError {
    /// The parameter set does not satisfy 4 * (product of primes) - 1 = p.
    Config,
    /// An iterate of the isogeny kernel is a 2-torsion point.
    KernelDegenerate,
    /// An iterate of the isogeny kernel is the point at infinity.
    IdentityKernel,
    /// A rejection-sampling loop ran out of its attempt budget.
    RetryLimit,
}

/// The product of the list entries with indices in [i, j).
pub open spec fn prod_range(l: Seq<u64>, i: int, j: int) -> int
    decreases j - i,
{
    if i >= j {
        1
    } else {
        l[i] * prod_range(l, i + 1, j)
    }
}

/// The structural side of instance validity: a supported field modulus and a
/// list of odd primes at least 3, one count.
pub open spec fn inst_valid(inst: CSIDHInstance) -> bool {
    &&& modulus_ok(inst.p as int)
    &&& inst.p > 2
    &&& inst.n_primes == inst.l@.len()
    &&& forall|i: int|
        0 <= i < inst.l@.len() ==> 3 <= #[trigger] inst.l@[i] && inst.l@[i] % 2 == 1
}

/// The defining equation of the instance: 4 * (product of the primes) = p + 1.
pub open spec fn well_defined_s(inst: CSIDHInstance) -> bool {
    4 * prod_range(inst.l@, 0, inst.l@.len() as int) == inst.p + 1
}

/// A product over a range of entries that are all at least 1 is at least 1.
proof fn lemma_prod_range_pos(l: Seq<u64>, i: int, j: int)
    requires
        0 <= i,
        j <= l.len(),
        forall|t: int| 0 <= t < l.len() ==> #[trigger] l[t] >= 1,
    ensures
        prod_range(l, i, j) >= 1,
    decreases j - i,
{
    if i < j {
        lemma_prod_range_pos(l, i + 1, j);
        assert(l[i] * prod_range(l, i + 1, j) >= 1) by (nonlinear_arith)
            requires
                l[i] >= 1,
                prod_range(l, i + 1, j) >= 1,
        {}
    }
}

/// Splitting a product at an inner index.
proof fn lemma_prod_range_split(l: Seq<u64>, i: int, k: int, j: int)
    requires
        i <= k <= j,
    ensures
        prod_range(l, i, j) == prod_range(l, i, k) * prod_range(l, k, j),
    decreases k - i,
{
    if i == k {
        assert(prod_range(l, i, k) == 1);
    } else {
        lemma_prod_range_split(l, i + 1, k, j);
        assert(l[i] * (prod_range(l, i + 1, k) * prod_range(l, k, j)) == (l[i] * prod_range(
            l,
            i + 1,
            k,
        )) * prod_range(l, k, j)) by (nonlinear_arith);
    }
}

impl CSIDHInstance {
    /// The ghost product of all primes of the instance.
    pub open spec fn full_product(self) -> int {
        prod_range(self.l@, 0, self.l@.len() as int)
    }
}

/// Checks the defining equation of the instance: the prime count matches the
/// list, and 4 times the product of the listed primes is p + 1.  Answers
/// `CsidhError::Config` exactly when the equation fails.
pub fn check_well_defined(inst: &CSIDHInstance) -> (r: Result<(), CsidhError>)
    requires
        modulus_ok(inst.p as int),
        forall|i: int| 0 <= i < inst.l@.len() ==> #[trigger] inst.l@[i] >= 1,
    ensures
        r is Ok <==> (inst.n_primes == inst.l@.len() && well_defined_s(*inst)),
{
    let n = inst.l.len();
    if inst.n_primes != n {
        return Err(CsidhError::Config);
    }
    let mut prod: u64 = 1;
    let mut i: usize = 0;
    while i < n
        invariant
            n == inst.l@.len(),
            modulus_ok(inst.p as int),
            forall|t: int| 0 <= t < inst.l@.len() ==> #[trigger] inst.l@[t] >= 1,
            i <= n,
            prod >= 1,
            prod == prod_range(inst.l@, 0, i as int),
        decreases n - i,
    {
        let li = inst.l[i];
        match prod.checked_mul(li) {
            Some(next) => {
                proof {
                    lemma_prod_range_split(inst.l@, 0, i as int, i + 1);
                    assert(prod_range(inst.l@, i + 1, i + 1) == 1);
                    assert(prod_range(inst.l@, i as int, i + 1) == inst.l@[i as int]
                        * prod_range(inst.l@, i + 1, i + 1));
                    assert(next >= 1) by (nonlinear_arith)
                        requires
                            prod >= 1,
                            li >= 1,
                            next == prod * li,
                    {}
                }
                prod = next;
            },
            None => {
                // the partial product already exceeds any supported p + 1, so
                // the full product cannot satisfy the equation
                proof {
                    lemma_prod_range_split(inst.l@, 0, i as int, i + 1);
                    lemma_prod_range_split(inst.l@, 0, i + 1, inst.l@.len() as int);
                    lemma_prod_range_pos(inst.l@, i + 1, inst.l@.len() as int);
                    assert(prod_range(inst.l@, i + 1, i + 1) == 1);
                    assert(prod_range(inst.l@, i as int, i + 1) == inst.l@[i as int]
                        * prod_range(inst.l@, i + 1, i + 1));
                    let partial = prod as int * li as int;
                    let rest = prod_range(inst.l@, i + 1, inst.l@.len() as int);
                    assert(inst.full_product() == partial * rest);
                    assert(partial * rest >= partial) by (nonlinear_arith)
                        requires
                            partial >= 1,
                            rest >= 1,
                    {}
                    assert(4 * inst.full_product() >= 4 * partial) by (nonlinear_arith)
                        requires
                            inst.full_product() >= partial,
                    {}
                }
                return Err(CsidhError::Config);
            },
        }
        i = i + 1;
    }
    match prod.checked_mul(4) {
        Some(four_prod) => {
            if four_prod == inst.p + 1 {
                Ok(())
            } else {
                Err(CsidhError::Config)
            }
        },
        None => {
            proof {
                assert(4 * prod as int > u64::MAX) by (nonlinear_arith)
                    requires
                        prod as int * 4 > u64::MAX,
                {}
            }
            Err(CsidhError::Config)
        },
    }
}

/// How many differential additions the order walk may take before giving up.
pub const MAX_ORDER_WALK: u64 = 1048576;

/// The state of the naive order walk from the multiple t = [i]P on, with the
/// previous multiple at hand for the differential addition: the count of the
/// first multiple that lands at infinity.
pub open spec fn order_walk_s(
    c: EllipticCurve,
    pt: UnsignedProjPoint,
    t: UnsignedProjPoint,
    t1: UnsignedProjPoint,
    acc: int,
    fuel: nat,
) -> Option<int>
    decreases fuel,
{
    if proj_eq_s(t, inf_s(cp(c))) {
        Some(acc)
    } else if fuel == 0 {
        None
    } else {
        order_walk_s(c, pt, x_add_s(c, t, pt, t1), t, acc + 1, (fuel - 1) as nat)
    }
}

/// The order of a point on the Kummer line, by walking its multiples.
pub open spec fn order_naive_s(c: EllipticCurve, pt: UnsignedProjPoint, fuel: nat) -> Option<
    int,
> {
    if proj_eq_s(pt, inf_s(cp(c))) {
        Some(1)
    } else {
        order_walk_s(c, pt, x_dbl_s(c, normalize_s(pt)), normalize_s(pt), 2, fuel)
    }
}

/// The order of a point of a Montgomery curve, found naively by stepping
/// through its multiples until the walk reaches infinity.  `None` when the
/// order exceeds the walk budget.
pub fn order_naive(ell: &EllipticCurve, pt: &UnsignedProjPoint) -> (r: Option<u64>)
    requires
        ell.valid(),
        cp(*ell) > 2,
        ell.a_1.repr == 0,
        ell.a_3.repr == 0,
        ell.a_4.repr == 1,
        ell.a_6.repr == 0,
        pt.valid(cp(*ell)),
    ensures
        (match r {
            Some(v) => Some(v as int),
            None => None::<int>,
        }) == order_naive_s(*ell, *pt, MAX_ORDER_WALK as nat),
{
    let p = ell.a_1.p;
    let ghost c = *ell;
    if *pt == UnsignedProjPoint::infinite_point(p) {
        return Some(1);
    }
    let p_normalized = pt.normalize();
    let mut order: u64 = 2;
    let mut t = ell.x_dbl(p_normalized);
    let mut t_minus_1 = p_normalized;
    let mut fuel: u64 = MAX_ORDER_WALK;
    while !(t == UnsignedProjPoint::infinite_point(p))
        invariant
            c == *ell,
            ell.valid(),
            cp(c) > 2,
            p == ell.a_1.p,
            pt.valid(cp(c)),
            t.valid(cp(c)),
            t_minus_1.valid(cp(c)),
            fuel <= MAX_ORDER_WALK,
            order as int == 2 + (MAX_ORDER_WALK - fuel),
            order_naive_s(c, *pt, MAX_ORDER_WALK as nat) == order_walk_s(
                c,
                *pt,
                t,
                t_minus_1,
                order as int,
                fuel as nat,
            ),
        decreases fuel,
    {
        if fuel == 0 {
            return None;
        }
        let tmp = t;
        t = ell.x_add(t, *pt, t_minus_1);
        t_minus_1 = tmp;
        order = order + 1;
        fuel = fuel - 1;
    }
    Some(order)
}

/// The outcome of probing one sampled point, read from index `i` on with the
/// accumulated certified factor `d`: `Some(false)` when some l_i-part of the
/// point survives multiplication by l_i past the (p+1)/l_i cofactor (the
/// curve order cannot be p + 1), `Some(true)` once the certified factor
/// passes Sutherland's bound d^2 > 16 p, and `None` when the prime list runs
/// out first.
pub open spec fn probe_s(
    inst: CSIDHInstance,
    ell: EllipticCurve,
    pt: UnsignedProjPoint,
    i: int,
    d: int,
) -> Option<bool>
    decreases inst.l@.len() - i,
{
    if i < 0 || i >= inst.l@.len() {
        None
    } else {
        let li = inst.l@[i] as int;
        let qi = ladder_s(ell, pt, ((inst.p as int + 1) / li) as nat).0;
        let lq = ladder_s(ell, qi, inst.l@[i] as nat).0;
        if !proj_eq_s(lq, inf_s(cp(ell))) {
            Some(false)
        } else {
            let d2 = if !proj_eq_s(qi, inf_s(cp(ell))) {
                d * li
            } else {
                d
            };
            if d2 * d2 > 16 * inst.p {
                Some(true)
            } else {
                probe_s(inst, ell, pt, i + 1, d2)
            }
        }
    }
}

/// Runs the deterministic part of the supersingularity test on one sampled
/// point: scalar multiplications alone decide `Some(false)` with certainty,
/// `Some(true)` up to the oracle's one-sided error, or `None` when the point
/// was not conclusive.
pub fn supersingular_probe(
    inst: &CSIDHInstance,
    ell: &EllipticCurve,
    pt: UnsignedProjPoint,
) -> (r: Option<bool>)
    requires
        inst_valid(*inst),
        well_defined_s(*inst),
        ell.valid(),
        cp(*ell) == inst.p as int,
        pt.valid(cp(*ell)),
    ensures
        r == probe_s(*inst, *ell, pt, 0, 1),
{
    let n = inst.l.len();
    let p = inst.p;
    let mut d: u64 = 1;
    let mut i: usize = 0;
    let inf = UnsignedProjPoint::infinite_point(p);
    while i < n
        invariant
            inst_valid(*inst),
            well_defined_s(*inst),
            ell.valid(),
            cp(*ell) == inst.p as int,
            pt.valid(cp(*ell)),
            n == inst.l@.len(),
            p == inst.p,
            inf == inf_s(cp(*ell)),
            i <= n,
            1 <= d,
            d as int <= prod_range(inst.l@, 0, i as int),
            probe_s(*inst, *ell, pt, 0, 1) == probe_s(*inst, *ell, pt, i as int, d as int),
        decreases n - i,
    {
        let li = inst.l[i];
        let qi = ell.scalar_mult_unsigned((p + 1) / li, pt);
        let lq = ell.scalar_mult_unsigned(li, qi);
        if !(lq == inf) {
            return Some(false);
        }
        proof {
            lemma_prod_range_split(inst.l@, 0, i as int, i + 1);
            lemma_prod_range_split(inst.l@, 0, i + 1, n as int);
            lemma_prod_range_pos(inst.l@, i + 1, n as int);
            lemma_prod_range_pos(inst.l@, 0, i as int);
            assert(prod_range(inst.l@, i + 1, i + 1) == 1);
            assert(prod_range(inst.l@, i as int, i + 1) == inst.l@[i as int] * prod_range(
                inst.l@,
                i + 1,
                i + 1,
            ));
            lemma_prod_range_pos(inst.l@, 0, i + 1);
            assert(d as int * li as int <= prod_range(inst.l@, 0, i + 1)) by (nonlinear_arith)
                requires
                    d as int <= prod_range(inst.l@, 0, i as int),
                    prod_range(inst.l@, 0, i + 1) == prod_range(inst.l@, 0, i as int)
                        * li as int,
                    li >= 1,
                    d >= 1,
            {}
            assert(prod_range(inst.l@, 0, i as int) <= prod_range(inst.l@, 0, i + 1))
                by (nonlinear_arith)
                requires
                    prod_range(inst.l@, 0, i + 1) == prod_range(inst.l@, 0, i as int)
                        * li as int,
                    li >= 1,
                    prod_range(inst.l@, 0, i as int) >= 1,
            {}
            assert(prod_range(inst.l@, 0, i + 1) * prod_range(inst.l@, i + 1, n as int) == inst
                .full_product());
            assert(prod_range(inst.l@, 0, i + 1) <= inst.full_product()) by (nonlinear_arith)
                requires
                    prod_range(inst.l@, 0, i + 1) * prod_range(inst.l@, i + 1, n as int)
                        == inst.full_product(),
                    prod_range(inst.l@, 0, i + 1) >= 1,
                    prod_range(inst.l@, i + 1, n as int) >= 1,
            {}
            lemma_u64_mul_in_u128(d, li);
            assert(d as int * li as int >= 1) by (nonlinear_arith)
                requires
                    d >= 1,
                    li >= 1,
            {}
        }
        if !(qi == inf) {
            d = d * li;
        }
        proof {
            lemma_u64_mul_in_u128(d, d);
            lemma_u64_mul_in_u128(16, p);
        }
        if ((d as u128) * (d as u128)) > 16u128 * (p as u128) {
            return Some(true);
        }
        i = i + 1;
    }
    None
}

/// The probabilistic supersingularity oracle: probes freshly sampled points
/// until one is conclusive, within the attempt budget.  A `Some` answer is
/// the outcome of a probe on some sampled point of the curve.
pub fn is_supersingular(inst: &CSIDHInstance, ell: &EllipticCurve) -> (r: Option<bool>)
    requires
        inst_valid(*inst),
        well_defined_s(*inst),
        ell.valid(),
        cp(*ell) == inst.p as int,
        ell.a_1.repr == 0,
        ell.a_3.repr == 0,
    ensures
        match r {
            Some(b) => exists|pt: UnsignedProjPoint|
                pt.valid(cp(*ell)) && #[trigger] probe_s(*inst, *ell, pt, 0, 1) == Some(b),
            None => true,
        },
{
    let mut budget: u64 = MAX_SAMPLE_ATTEMPTS;
    while budget > 0
        invariant
            inst_valid(*inst),
            well_defined_s(*inst),
            ell.valid(),
            cp(*ell) == inst.p as int,
            ell.a_1.repr == 0,
            ell.a_3.repr == 0,
        decreases budget,
    {
        match ell.sample_point() {
            Some(sampled) => {
                let pt = ell.unsigne_point(sampled);
                match supersingular_probe(inst, ell, pt) {
                    Some(b) => {
                        return Some(b);
                    },
                    None => {},
                }
            },
            None => {},
        }
        budget = budget - 1;
    }
    None
}

/// Runs the supersingularity oracle on the Montgomery curve of a public key.
pub fn verify_public_key(inst: &CSIDHInstance, pk: PublicKey) -> (r: Option<bool>)
    requires
        inst_valid(*inst),
        well_defined_s(*inst),
        pk.valid(),
        pk.p == inst.p,
    ensures
        match r {
            Some(b) => exists|pt: UnsignedProjPoint|
                pt.valid(inst.p as int) && #[trigger] probe_s(
                    *inst,
                    montgomery_of(*inst, pk),
                    pt,
                    0,
                    1,
                ) == Some(b),
            None => true,
        },
{
    let ell = EllipticCurve::new_montgomery(pk);
    proof {
        lemma_unit_ops(inst.p as int, 0);
        assert(ell == montgomery_of(*inst, pk));
    }
    is_supersingular(inst, &ell)
}

/// The Montgomery curve y^2 = x^3 + pk x^2 + x of a public key.
pub open spec fn montgomery_of(inst: CSIDHInstance, pk: PublicKey) -> EllipticCurve {
    EllipticCurve {
        a_1: Fp { repr: 0, p: inst.p },
        a_3: Fp { repr: 0, p: inst.p },
        a_2: pk,
        a_4: Fp { repr: 1, p: inst.p },
        a_6: Fp { repr: 0, p: inst.p },
    }
}

/// The running state of the Vélu iteration: the kernel iterate t = [i]P, the
/// previous iterate, and the four accumulators pi, sigma and the two
/// projection coordinates.
pub type VeluState = (
    UnsignedProjPoint,
    UnsignedProjPoint,
    UnsignedProjPoint,
    Fp,
    Fp,
    Fp,
);

/// The state before the first Vélu iteration.
pub open spec fn velu_init_s(c: EllipticCurve, point: UnsignedProjPoint) -> VeluState {
    let p = c.a_1.p;
    (
        normalize_s(point),
        inf_s(p as int),
        UnsignedProjPoint { x: Fp { repr: 1, p }, z: Fp { repr: 1, p } },
        Fp { repr: 0, p },
        Fp { repr: 1, p },
        Fp { repr: 1, p },
    )
}

/// One Vélu iteration: fold the iterate t into the accumulators, then
/// advance t along the kernel by a doubling (first step) or a differential
/// addition.
pub open spec fn velu_step_s(
    c: EllipticCurve,
    point: UnsignedProjPoint,
    qn: UnsignedProjPoint,
    st: VeluState,
    i: int,
) -> VeluState {
    let m = cp(c);
    let t = st.0;
    let t1 = st.1;
    let pi = st.2;
    let pi2 = UnsignedProjPoint {
        x: Fp { repr: mul_f(m, pi.x.repr as int, t.x.repr as int) as u64, p: c.a_1.p },
        z: Fp { repr: mul_f(m, pi.z.repr as int, t.z.repr as int) as u64, p: c.a_1.p },
    };
    let sg2 = Fp {
        repr: add_f(
            m,
            st.3.repr as int,
            sub_f(
                m,
                div_f(m, t.x.repr as int, t.z.repr as int),
                div_f(m, t.z.repr as int, t.x.repr as int),
            ),
        ) as u64,
        p: c.a_1.p,
    };
    let px2 = Fp {
        repr: mul_f(
            m,
            st.4.repr as int,
            sub_f(m, mul_f(m, t.x.repr as int, qn.x.repr as int), t.z.repr as int),
        ) as u64,
        p: c.a_1.p,
    };
    let pz2 = Fp {
        repr: mul_f(
            m,
            st.5.repr as int,
            sub_f(m, mul_f(m, qn.x.repr as int, t.z.repr as int), t.x.repr as int),
        ) as u64,
        p: c.a_1.p,
    };
    if i == 1 {
        (x_dbl_s(c, point), t, pi2, sg2, px2, pz2)
    } else {
        (x_add_s(c, t, point, t1), t, pi2, sg2, px2, pz2)
    }
}

/// The codomain curve and the pushed point, read off the accumulators after
/// the last iteration: square pi and the projection pair, double sigma,
/// normalize pi, and assemble A' = pi (A - 3 sigma) together with
/// (q_x * proj_x^2 : proj_z^2).
pub open spec fn velu_finish_s(c: EllipticCurve, qn: UnsignedProjPoint, st: VeluState) -> (
    EllipticCurve,
    UnsignedProjPoint,
) {
    let m = cp(c);
    let pi = st.2;
    let pi2 = UnsignedProjPoint {
        x: Fp { repr: mul_f(m, pi.x.repr as int, pi.x.repr as int) as u64, p: c.a_1.p },
        z: Fp { repr: mul_f(m, pi.z.repr as int, pi.z.repr as int) as u64, p: c.a_1.p },
    };
    let px2 = mul_f(m, st.4.repr as int, st.4.repr as int);
    let pz2 = mul_f(m, st.5.repr as int, st.5.repr as int);
    let sg2 = mul_f(m, st.3.repr as int, int_f(m, 2));
    let pin = normalize_s(pi2);
    let a2new = mul_f(
        m,
        pin.x.repr as int,
        sub_f(m, c.a_2.repr as int, mul_f(m, int_f(m, 3), sg2)),
    );
    (
        EllipticCurve {
            a_1: Fp { repr: 0, p: c.a_1.p },
            a_3: Fp { repr: 0, p: c.a_1.p },
            a_2: Fp { repr: a2new as u64, p: c.a_1.p },
            a_4: Fp { repr: 1, p: c.a_1.p },
            a_6: Fp { repr: 0, p: c.a_1.p },
        },
        UnsignedProjPoint {
            x: Fp { repr: mul_f(m, qn.x.repr as int, px2) as u64, p: c.a_1.p },
            z: Fp { repr: pz2 as u64, p: c.a_1.p },
        },
    )
}

/// The Vélu recursion from iteration i on: stop once 2 i is at least the
/// degree, and fail on a degenerate iterate - a 2-torsion point (X = 0)
/// or the point at infinity (Z = 0).
pub open spec fn velu_rec_s(
    c: EllipticCurve,
    point: UnsignedProjPoint,
    qn: UnsignedProjPoint,
    k: int,
    i: int,
    st: VeluState,
) -> Result<(EllipticCurve, UnsignedProjPoint), CsidhError>
    decreases (if 2 * i <= k { k - 2 * i } else { 0int }),
{
    if 2 * i >= k {
        Ok(velu_finish_s(c, qn, st))
    } else if st.0.x.repr == 0 {
        Err(CsidhError::KernelDegenerate)
    } else if st.0.z.repr == 0 {
        Err(CsidhError::IdentityKernel)
    } else {
        velu_rec_s(c, point, qn, k, i + 1, velu_step_s(c, point, qn, st, i))
    }
}

/// What the isogeny computes, as a function of the curve, the kernel
/// generator, the pushed point and the degree.
pub open spec fn velu_top_s(
    c: EllipticCurve,
    point: UnsignedProjPoint,
    q: UnsignedProjPoint,
    k: int,
) -> Result<(EllipticCurve, UnsignedProjPoint), CsidhError> {
    velu_rec_s(c, point, normalize_s(q), k, 1, velu_init_s(c, point))
}

/// The degree-k Vélu isogeny on the Kummer line of a Montgomery curve, for
/// an odd degree k at least 3: walks the multiples [i]P of the kernel
/// generator for 2 i < k, accumulates the codomain coefficient and the image
/// of the pushed point q, and fails on a degenerate iterate, which the
/// caller treats by skipping the current prime.
pub fn isogeny(
    ell: &EllipticCurve,
    point: &UnsignedProjPoint,
    q: UnsignedProjPoint,
    k: u64,
) -> (r: Result<(EllipticCurve, UnsignedProjPoint), CsidhError>)
    requires
        ell.valid(),
        cp(*ell) > 2,
        ell.a_1.repr == 0,
        ell.a_3.repr == 0,
        ell.a_4.repr == 1,
        ell.a_6.repr == 0,
        point.valid(cp(*ell)),
        q.valid(cp(*ell)),
        3 <= k < 0x4000000000000000,
        k % 2 == 1,
    ensures
        r == velu_top_s(*ell, *point, q, k as int),
        match r {
            Ok((c2, q2)) => c2.valid() && cp(c2) == cp(*ell) && c2.a_1.repr == 0 && c2.a_3.repr
                == 0 && c2.a_4.repr == 1 && c2.a_6.repr == 0 && q2.valid(cp(*ell)),
            Err(e) => e == CsidhError::KernelDegenerate || e == CsidhError::IdentityKernel,
        },
{
    let p = ell.a_1.p;
    let ghost c = *ell;
    let ghost rawpt = *point;
    let q_n = q.normalize();
    let mut t = point.normalize();
    let mut t_minus_1 = UnsignedProjPoint::infinite_point(p);
    proof {
        lemma_unit_ops(p as int, 0);
    }
    let mut pi_pt = UnsignedProjPoint::finite_point(Fp::from_int(1, p));
    let mut sigma = Fp::zero(p);
    let mut projection_x = Fp::from_int(1, p);
    let mut projection_z = Fp::from_int(1, p);
    let mut i: u64 = 1;
    proof {
        assert((t, t_minus_1, pi_pt, sigma, projection_x, projection_z) == velu_init_s(
            c,
            rawpt,
        ));
    }
    while 2 * i < k
        invariant
            c == *ell,
            rawpt == *point,
            ell.valid(),
            cp(c) > 2,
            p == ell.a_1.p,
            point.valid(cp(c)),
            q_n.valid(cp(c)),
            q_n == normalize_s(q),
            t.valid(cp(c)),
            t_minus_1.valid(cp(c)),
            pi_pt.valid(cp(c)),
            sigma.valid() && sigma.p == p,
            projection_x.valid() && projection_x.p == p,
            projection_z.valid() && projection_z.p == p,
            1 <= i <= k,
            3 <= k < 0x4000000000000000,
            velu_rec_s(c, rawpt, q_n, k as int, 1, velu_init_s(c, rawpt)) == velu_rec_s(
                c,
                rawpt,
                q_n,
                k as int,
                i as int,
                (t, t_minus_1, pi_pt, sigma, projection_x, projection_z),
            ),
        decreases k + 1 - 2 * i,
    {
        let ghost st = (t, t_minus_1, pi_pt, sigma, projection_x, projection_z);
        if t.x.repr == 0 {
            return Err(CsidhError::KernelDegenerate);
        }
        if t.z.repr == 0 {
            return Err(CsidhError::IdentityKernel);
        }
        let new_pi = UnsignedProjPoint { x: pi_pt.x.mul(t.x), z: pi_pt.z.mul(t.z) };
        let new_sigma = sigma.add(t.x.div(t.z).sub(t.z.div(t.x)));
        let new_px = projection_x.mul(t.x.mul(q_n.x).sub(t.z));
        let new_pz = projection_z.mul(q_n.x.mul(t.z).sub(t.x));
        let old_t = t;
        if i == 1 {
            t = ell.x_dbl(*point);
        } else {
            t = ell.x_add(old_t, *point, t_minus_1);
        }
        t_minus_1 = old_t;
        pi_pt = new_pi;
        sigma = new_sigma;
        projection_x = new_px;
        projection_z = new_pz;
        proof {
            assert((t, t_minus_1, pi_pt, sigma, projection_x, projection_z) == velu_step_s(
                c,
                rawpt,
                q_n,
                st,
                i as int,
            ));
        }
        i = i + 1;
    }
    let pi2 = UnsignedProjPoint { x: pi_pt.x.mul(pi_pt.x), z: pi_pt.z.mul(pi_pt.z) };
    let px2 = projection_x.mul(projection_x);
    let pz2 = projection_z.mul(projection_z);
    let sigma2 = sigma.mul(Fp::from_int(2, p));
    let pin = pi2.normalize();
    proof {
        lemma_unit_ops(p as int, 0);
    }
    let curve = EllipticCurve::new_montgomery(
        pin.x.mul(ell.a_2.sub(Fp::from_int(3, p).mul(sigma2))),
    );
    let out = UnsignedProjPoint { x: q_n.x.mul(px2), z: pz2 };
    proof {
        assert((curve, out) == velu_finish_s(
            c,
            q_n,
            (t, t_minus_1, pi_pt, sigma, projection_x, projection_z),
        ));
    }
    Ok((curve, out))
}

/// An entry of the prime list is bounded by the product of the whole list.
proof fn lemma_elem_below_product(l: Seq<u64>, i: int)
    requires
        0 <= i < l.len(),
        forall|t: int| 0 <= t < l.len() ==> #[trigger] l[t] >= 1,
    ensures
        l[i] <= prod_range(l, 0, l.len() as int),
{
    lemma_prod_range_split(l, 0, i, l.len() as int);
    lemma_prod_range_split(l, i, i + 1, l.len() as int);
    lemma_prod_range_pos(l, 0, i);
    lemma_prod_range_pos(l, i + 1, l.len() as int);
    assert(prod_range(l, i + 1, i + 1) == 1);
    assert(prod_range(l, i, i + 1) == l[i] * prod_range(l, i + 1, i + 1));
    assert(l[i] <= prod_range(l, 0, l.len() as int)) by (nonlinear_arith)
        requires
            prod_range(l, 0, l.len() as int) == prod_range(l, 0, i) * (l[i] * prod_range(
                l,
                i + 1,
                l.len() as int,
            )),
            prod_range(l, 0, i) >= 1,
            prod_range(l, i + 1, l.len() as int) >= 1,
            l[i] >= 1,
    {}
}

/// The cubic x^3 + A x^2 + x of the Montgomery curve, evaluated as the
/// driver's sampling loops do.
pub open spec fn mont_rhs_s(c: EllipticCurve, x: Fp) -> int {
    let m = cp(c);
    let xv = x.repr as int;
    add_f(
        m,
        add_f(
            m,
            mul_f(m, mul_f(m, xv, xv), xv),
            mul_f(m, mul_f(m, c.a_2.repr as int, xv), xv),
        ),
        xv,
    )
}

/// What one attempt of the per-prime step of the naive driver does with a
/// sampled x: nothing unless the cubic of x has the wanted character and the
/// (p+1)/l cofactor of (x : 1) survives; otherwise one degree-l isogeny with
/// that kernel, unless the kernel walk degenerates.
pub open spec fn naive_step_s(
    inst: CSIDHInstance,
    c: EllipticCurve,
    x: Fp,
    li: int,
    s: int,
) -> Option<EllipticCurve> {
    if leg_f(cp(c), mont_rhs_s(c, x)) != s {
        None
    } else {
        let pt = UnsignedProjPoint { x, z: Fp { repr: 1, p: inst.p } };
        let q = ladder_s(c, pt, (((inst.p as int) + 1) / li) as nat).0;
        if proj_eq_s(q, inf_s(cp(c))) {
            None
        } else {
            match velu_top_s(c, q, q, li) {
                Ok((e2, _)) => Some(e2),
                Err(_) => None,
            }
        }
    }
}

/// One attempt of the per-prime step of the naive driver, on a sampled x:
/// when the cubic of x has the wanted character and the (p+1)/l cofactor of
/// the point survives, applies one degree-l isogeny to the current curve.
fn naive_step(inst: &CSIDHInstance, ell: &EllipticCurve, x: Fp, li: u64, s: i32) -> (r: Option<
    EllipticCurve,
>)
    requires
        inst_valid(*inst),
        ell.valid(),
        cp(*ell) == inst.p as int,
        ell.a_1.repr == 0,
        ell.a_3.repr == 0,
        ell.a_4.repr == 1,
        ell.a_6.repr == 0,
        x.valid(),
        x.p == inst.p,
        3 <= li < 0x4000000000000000,
        li % 2 == 1,
    ensures
        r == naive_step_s(*inst, *ell, x, li as int, s as int),
        match r {
            Some(e2) => e2.valid() && cp(e2) == inst.p as int && e2.a_1.repr == 0 && e2.a_3.repr
                == 0 && e2.a_4.repr == 1 && e2.a_6.repr == 0,
            None => true,
        },
{
    let p = inst.p;
    let fx = x.mul(x).mul(x).add(ell.a_2.mul(x).mul(x)).add(x);
    if fx.legendre_symbol() as i32 != s {
        return None;
    }
    let p_point = UnsignedProjPoint::finite_point(x);
    let q_point = ell.scalar_mult_unsigned((p + 1) / li, p_point);
    if q_point == UnsignedProjPoint::infinite_point(p) {
        return None;
    }
    match isogeny(ell, &q_point, q_point, li) {
        Ok((e2, _)) => Some(e2),
        Err(_) => None,
    }
}

/// One degree-l isogeny step in the wanted direction, retried on fresh
/// samples within the attempt budget.
fn naive_rep(inst: &CSIDHInstance, ell: &EllipticCurve, li: u64, s: i32) -> (r: Result<
    EllipticCurve,
    CsidhError,
>)
    requires
        inst_valid(*inst),
        ell.valid(),
        cp(*ell) == inst.p as int,
        ell.a_1.repr == 0,
        ell.a_3.repr == 0,
        ell.a_4.repr == 1,
        ell.a_6.repr == 0,
        3 <= li < 0x4000000000000000,
        li % 2 == 1,
    ensures
        match r {
            Ok(e2) => e2.valid() && cp(e2) == inst.p as int && e2.a_1.repr == 0 && e2.a_3.repr
                == 0 && e2.a_4.repr == 1 && e2.a_6.repr == 0 && exists|x: Fp|
                x.valid() && x.p == inst.p && #[trigger] naive_step_s(
                    *inst,
                    *ell,
                    x,
                    li as int,
                    s as int,
                ) == Some(e2),
            Err(e) => e == CsidhError::RetryLimit,
        },
{
    let mut budget: u64 = MAX_SAMPLE_ATTEMPTS;
    while budget > 0
        invariant
            inst_valid(*inst),
            ell.valid(),
            cp(*ell) == inst.p as int,
            ell.a_1.repr == 0,
            ell.a_3.repr == 0,
            ell.a_4.repr == 1,
            ell.a_6.repr == 0,
            3 <= li < 0x4000000000000000,
            li % 2 == 1,
        decreases budget,
    {
        let x = Fp { repr: sample_u64_below(inst.p), p: inst.p };
        match naive_step(inst, ell, x, li, s) {
            Some(e2) => {
                return Ok(e2);
            },
            None => {},
        }
        budget = budget - 1;
    }
    Err(CsidhError::RetryLimit)
}

/// The naive class-group action: for each exponent, applies that many
/// isogenies of the matching prime degree, each with a freshly sampled
/// kernel point.  A vector of zeros leaves the key unchanged.
pub fn naive_class_group_action(inst: &CSIDHInstance, pk: PublicKey, sk: SecretKey) -> (r: Result<
    PublicKey,
    CsidhError,
>)
    requires
        inst_valid(*inst),
        well_defined_s(*inst),
        pk.valid(),
        pk.p == inst.p,
        sk@.len() <= inst.l@.len(),
        forall|i: int| 0 <= i < sk@.len() ==> #[trigger] sk@[i] > i32::MIN,
    ensures
        match r {
            Ok(a) => a.valid() && a.p == inst.p,
            Err(e) => e == CsidhError::RetryLimit,
        },
        (forall|i: int| 0 <= i < sk@.len() ==> #[trigger] sk@[i] == 0) ==> r == Ok::<
            PublicKey,
            CsidhError,
        >(pk),
{
    let p = inst.p;
    proof {
        lemma_unit_ops(p as int, 0);
    }
    let mut ell = EllipticCurve::new_montgomery(pk);
    let n = sk.len();
    let mut i: usize = 0;
    while i < n
        invariant
            inst_valid(*inst),
            well_defined_s(*inst),
            p == inst.p,
            pk.valid(),
            pk.p == inst.p,
            n == sk@.len(),
            sk@.len() <= inst.l@.len(),
            forall|t: int| 0 <= t < sk@.len() ==> #[trigger] sk@[t] > i32::MIN,
            i <= n,
            ell.valid(),
            cp(ell) == inst.p as int,
            ell.a_1.repr == 0,
            ell.a_3.repr == 0,
            ell.a_4.repr == 1,
            ell.a_6.repr == 0,
            (forall|t: int| 0 <= t < sk@.len() ==> #[trigger] sk@[t] == 0) ==> ell.a_2 == pk,
        decreases n - i,
    {
        let ei = sk[i];
        if ei != 0 {
            let s: i32 = if ei > 0 {
                1
            } else {
                -1
            };
            let li = inst.l[i];
            proof {
                lemma_elem_below_product(inst.l@, i as int);
            }
            let mut remaining: i32 = if ei > 0 {
                ei
            } else {
                -ei
            };
            while remaining > 0
                invariant
                    inst_valid(*inst),
                    p == inst.p,
                    n == sk@.len(),
                    0 <= i < n,
                    sk@[i as int] != 0,
                    3 <= li < 0x4000000000000000,
                    li % 2 == 1,
                    ell.valid(),
                    cp(ell) == inst.p as int,
                    ell.a_1.repr == 0,
                    ell.a_3.repr == 0,
                    ell.a_4.repr == 1,
                    ell.a_6.repr == 0,
                decreases remaining,
            {
                match naive_rep(inst, &ell, li, s) {
                    Ok(e2) => {
                        ell = e2;
                    },
                    Err(e) => {
                        return Err(e);
                    },
                }
                remaining = remaining - 1;
            }
        }
        i = i + 1;
    }
    Ok(ell.a_2)
}

/// The state threaded through one round of the batched driver: the current
/// curve, the carried point, the remaining scalar, the exponent and
/// finished tables, and whether every prime of the class was already
/// finished when the round began.
pub type RoundState = (EllipticCurve, UnsignedProjPoint, int, Seq<i32>, Seq<bool>, bool);

/// One round of the batched driver, walking the class's primes from the
/// largest (the last entry) down: a finished prime is skipped; otherwise
/// the k/l multiple of the carried point is the kernel of one degree-l
/// isogeny, and on success the curve and point advance, the exponent moves
/// one step towards zero, and l is split off the scalar.  A kernel at
/// infinity or a degenerate kernel walk leaves the state unchanged.
pub open spec fn round_rec_s(
    inst: CSIDHInstance,
    primes: Seq<u64>,
    s: int,
    st: RoundState,
    j: int,
) -> RoundState
    decreases primes.len() - j,
{
    if j < 0 || j >= primes.len() {
        st
    } else {
        let i = primes.len() - 1 - j;
        let c = st.0;
        let q = st.1;
        let k = st.2;
        let exps = st.3;
        let done = st.4;
        if done[i] {
            round_rec_s(inst, primes, s, st, j + 1)
        } else {
            let li = primes[i] as int;
            let r_pt = ladder_s(c, q, (k / li) as nat).0;
            let skipped = (c, q, k, exps, done, false);
            if proj_eq_s(r_pt, inf_s(cp(c))) {
                round_rec_s(inst, primes, s, skipped, j + 1)
            } else {
                match velu_top_s(c, r_pt, q, li) {
                    Ok(pair) => {
                        let newe = (exps[i] - s) as i32;
                        let done2 = if newe == 0 {
                            done.update(i, true)
                        } else {
                            done
                        };
                        round_rec_s(
                            inst,
                            primes,
                            s,
                            (pair.0, pair.1, k / li, exps.update(i, newe), done2, false),
                            j + 1,
                        )
                    },
                    Err(_) => round_rec_s(inst, primes, s, skipped, j + 1),
                }
            }
        }
    }
}

/// What one round of the batched driver does with an accepted sample x:
/// push (x : 1) through the (p+1)/k cofactor, then walk the primes.
pub open spec fn action_round_s(
    inst: CSIDHInstance,
    c: EllipticCurve,
    x: Fp,
    kk: int,
    primes: Seq<u64>,
    exps: Seq<i32>,
    done: Seq<bool>,
    s: int,
) -> RoundState {
    let pt = UnsignedProjPoint { x, z: Fp { repr: 1, p: inst.p } };
    let q0 = ladder_s(c, pt, (((inst.p as int) + 1) / kk) as nat).0;
    round_rec_s(inst, primes, s, (c, q0, kk, exps, done, true), 0)
}

/// One round of the batched driver for one sign class, on an accepted
/// sample x: pushes (x : 1) through the (p+1)/k cofactor, then walks the
/// class's primes from the largest down, splitting one degree off at a
/// time.  Finished or failed primes are skipped; the second result reports
/// whether every prime of the class was already finished when the round
/// began.
fn action_round(
    inst: &CSIDHInstance,
    ell: EllipticCurve,
    x: Fp,
    kk: u64,
    primes: &Vec<u64>,
    exps: &mut Vec<i32>,
    done: &mut Vec<bool>,
    s: i32,
) -> (r: (EllipticCurve, bool))
    requires
        inst_valid(*inst),
        ell.valid(),
        cp(ell) == inst.p as int,
        ell.a_1.repr == 0,
        ell.a_3.repr == 0,
        ell.a_4.repr == 1,
        ell.a_6.repr == 0,
        x.valid(),
        x.p == inst.p,
        1 <= kk < 0x4000000000000000,
        primes@.len() == old(exps)@.len(),
        primes@.len() == old(done)@.len(),
        forall|j: int|
            0 <= j < primes@.len() ==> 3 <= #[trigger] primes@[j] && primes@[j] % 2 == 1
                && primes@[j] < 0x4000000000000000,
        s == 1 || s == -1,
        s == 1 ==> forall|j: int|
            0 <= j < old(exps)@.len() ==> #[trigger] old(exps)@[j] >= 0 && (old(exps)@[j] == 0
                ==> old(done)@[j]),
        s == -1 ==> forall|j: int|
            0 <= j < old(exps)@.len() ==> #[trigger] old(exps)@[j] <= 0 && (old(exps)@[j] == 0
                ==> old(done)@[j]),
    ensures
        ({
            let out = action_round_s(
                *inst,
                ell,
                x,
                kk as int,
                primes@,
                old(exps)@,
                old(done)@,
                s as int,
            );
            r.0 == out.0 && final(exps)@ == out.3 && final(done)@ == out.4 && r.1 == out.5
        }),
        r.0.valid() && cp(r.0) == inst.p as int && r.0.a_1.repr == 0 && r.0.a_3.repr == 0
            && r.0.a_4.repr == 1 && r.0.a_6.repr == 0,
        final(exps)@.len() == primes@.len(),
        final(done)@.len() == primes@.len(),
        s == 1 ==> forall|j: int|
            0 <= j < final(exps)@.len() ==> #[trigger] final(exps)@[j] >= 0 && (final(exps)@[j]
                == 0 ==> final(done)@[j]),
        s == -1 ==> forall|j: int|
            0 <= j < final(exps)@.len() ==> #[trigger] final(exps)@[j] <= 0 && (final(exps)@[j]
                == 0 ==> final(done)@[j]),
{
    let p = inst.p;
    let uns_p = UnsignedProjPoint::finite_point(x);
    let mut k = kk;
    let mut ell_cur = ell;
    let mut q_point = ell_cur.scalar_mult_unsigned((p + 1) / k, uns_p);
    let mut finished = true;
    let ghost st0: RoundState = (ell, q_point, kk as int, exps@, done@, true);
    let n = primes.len();
    let mut j: usize = 0;
    while j < n
        invariant
            inst_valid(*inst),
            p == inst.p,
            st0.0 == ell && st0.2 == kk as int && st0.3 == old(exps)@ && st0.4 == old(
                done,
            )@ && st0.5 == true,
            st0.1 == ladder_s(
                ell,
                UnsignedProjPoint { x, z: Fp { repr: 1, p: inst.p } },
                (((inst.p as int) + 1) / (kk as int)) as nat,
            ).0,
            round_rec_s(*inst, primes@, s as int, st0, 0) == round_rec_s(
                *inst,
                primes@,
                s as int,
                (ell_cur, q_point, k as int, exps@, done@, finished),
                j as int,
            ),
            n == primes@.len(),
            primes@.len() == exps@.len(),
            primes@.len() == done@.len(),
            forall|t: int|
                0 <= t < primes@.len() ==> 3 <= #[trigger] primes@[t] && primes@[t] % 2 == 1
                    && primes@[t] < 0x4000000000000000,
            s == 1 || s == -1,
            s == 1 ==> forall|t: int|
                0 <= t < exps@.len() ==> #[trigger] exps@[t] >= 0 && (exps@[t] == 0
                    ==> done@[t]),
            s == -1 ==> forall|t: int|
                0 <= t < exps@.len() ==> #[trigger] exps@[t] <= 0 && (exps@[t] == 0
                    ==> done@[t]),
            j <= n,
            ell_cur.valid(),
            cp(ell_cur) == inst.p as int,
            ell_cur.a_1.repr == 0,
            ell_cur.a_3.repr == 0,
            ell_cur.a_4.repr == 1,
            ell_cur.a_6.repr == 0,
            q_point.valid(cp(ell_cur)),
        decreases n - j,
    {
        let i = n - 1 - j;
        if !done[i] {
            finished = false;
            let li = primes[i];
            let r_point = ell_cur.scalar_mult_unsigned(k / li, q_point);
            if !(r_point == UnsignedProjPoint::infinite_point(p)) {
                match isogeny(&ell_cur, &r_point, q_point, li) {
                    Ok((e2, q2)) => {
                        ell_cur = e2;
                        q_point = q2;
                        let newe = exps[i] - s;
                        exps.set(i, newe);
                        if newe == 0 {
                            done.set(i, true);
                        }
                        k = k / li;
                    },
                    Err(_) => {},
                }
            }
        }
        j = j + 1;
    }
    (ell_cur, finished)
}

/// The batched class-group action: partitions the exponent vector by sign,
/// then repeatedly samples an x, matches it to the sign class given by the
/// Legendre character of its cubic, and spends one round of isogenies on
/// that class, until both classes are exhausted or the attempt budget runs
/// out.  A vector of zeros leaves the key unchanged.
pub fn class_group_action(inst: &CSIDHInstance, pk: PublicKey, sk: SecretKey) -> (r: Result<
    PublicKey,
    CsidhError,
>)
    requires
        inst_valid(*inst),
        well_defined_s(*inst),
        pk.valid(),
        pk.p == inst.p,
        sk@.len() <= inst.l@.len(),
        forall|i: int| 0 <= i < sk@.len() ==> #[trigger] sk@[i] > i32::MIN,
    ensures
        match r {
            Ok(a) => a.valid() && a.p == inst.p,
            Err(e) => e == CsidhError::RetryLimit,
        },
        (forall|i: int| 0 <= i < sk@.len() ==> #[trigger] sk@[i] == 0) ==> r == Ok::<
            PublicKey,
            CsidhError,
        >(pk),
{
    let p = inst.p;
    let n = sk.len();
    let mut k_plus: u64 = 1;
    let mut k_minus: u64 = 1;
    let mut s_plus: Vec<u64> = Vec::new();
    let mut s_minus: Vec<u64> = Vec::new();
    let mut e_plus: Vec<i32> = Vec::new();
    let mut e_minus: Vec<i32> = Vec::new();
    let mut done_plus: Vec<bool> = Vec::new();
    let mut done_minus: Vec<bool> = Vec::new();
    let mut i: usize = 0;
    while i < n
        invariant
            inst_valid(*inst),
            well_defined_s(*inst),
            p == inst.p,
            n == sk@.len(),
            sk@.len() <= inst.l@.len(),
            i <= n,
            s_plus@.len() == e_plus@.len(),
            s_plus@.len() == done_plus@.len(),
            s_minus@.len() == e_minus@.len(),
            s_minus@.len() == done_minus@.len(),
            forall|j: int|
                0 <= j < s_plus@.len() ==> 3 <= #[trigger] s_plus@[j] && s_plus@[j] % 2 == 1
                    && s_plus@[j] < 0x4000000000000000,
            forall|j: int|
                0 <= j < s_minus@.len() ==> 3 <= #[trigger] s_minus@[j] && s_minus@[j] % 2 == 1
                    && s_minus@[j] < 0x4000000000000000,
            forall|j: int|
                0 <= j < e_plus@.len() ==> #[trigger] e_plus@[j] >= 0 && (e_plus@[j] == 0
                    ==> done_plus@[j]),
            forall|j: int|
                0 <= j < e_minus@.len() ==> #[trigger] e_minus@[j] <= 0 && (e_minus@[j] == 0
                    ==> done_minus@[j]),
            1 <= k_plus,
            1 <= k_minus,
            k_plus as int <= prod_range(inst.l@, 0, i as int),
            k_minus as int <= prod_range(inst.l@, 0, i as int),
            (forall|t: int| 0 <= t < sk@.len() ==> #[trigger] sk@[t] == 0) ==> (s_plus@.len()
                == 0 && s_minus@.len() == 0),
        decreases n - i,
    {
        proof {
            lemma_prod_range_split(inst.l@, 0, i as int, i + 1);
            lemma_prod_range_pos(inst.l@, 0, i as int);
            lemma_prod_range_pos(inst.l@, 0, i + 1);
            assert(prod_range(inst.l@, i + 1, i + 1) == 1);
            assert(prod_range(inst.l@, i as int, i + 1) == inst.l@[i as int] * prod_range(
                inst.l@,
                i + 1,
                i + 1,
            ));
            assert(well_defined_s(*inst));
            lemma_prod_range_split(inst.l@, 0, i + 1, inst.l@.len() as int);
            lemma_prod_range_pos(inst.l@, i + 1, inst.l@.len() as int);
            assert(prod_range(inst.l@, 0, i + 1) <= inst.full_product()) by (nonlinear_arith)
                requires
                    inst.full_product() == prod_range(inst.l@, 0, i + 1) * prod_range(
                        inst.l@,
                        i + 1,
                        inst.l@.len() as int,
                    ),
                    prod_range(inst.l@, 0, i + 1) >= 1,
                    prod_range(inst.l@, i + 1, inst.l@.len() as int) >= 1,
            {}
            assert(k_plus as int * inst.l@[i as int] as int <= prod_range(inst.l@, 0, i + 1))
                by (nonlinear_arith)
                requires
                    k_plus as int <= prod_range(inst.l@, 0, i as int),
                    prod_range(inst.l@, 0, i + 1) == prod_range(inst.l@, 0, i as int)
                        * inst.l@[i as int] as int,
                    inst.l@[i as int] >= 1,
                    k_plus >= 1,
            {}
            assert(k_minus as int * inst.l@[i as int] as int <= prod_range(inst.l@, 0, i + 1))
                by (nonlinear_arith)
                requires
                    k_minus as int <= prod_range(inst.l@, 0, i as int),
                    prod_range(inst.l@, 0, i + 1) == prod_range(inst.l@, 0, i as int)
                        * inst.l@[i as int] as int,
                    inst.l@[i as int] >= 1,
                    k_minus >= 1,
            {}
            assert(prod_range(inst.l@, 0, i as int) <= prod_range(inst.l@, 0, i + 1))
                by (nonlinear_arith)
                requires
                    prod_range(inst.l@, 0, i + 1) == prod_range(inst.l@, 0, i as int)
                        * inst.l@[i as int] as int,
                    inst.l@[i as int] >= 1,
                    prod_range(inst.l@, 0, i as int) >= 1,
            {}
        }
        proof {
            lemma_elem_below_product(inst.l@, i as int);
            assert(k_plus as int * inst.l@[i as int] as int >= 1) by (nonlinear_arith)
                requires
                    k_plus >= 1,
                    inst.l@[i as int] >= 1,
            {}
            assert(k_minus as int * inst.l@[i as int] as int >= 1) by (nonlinear_arith)
                requires
                    k_minus >= 1,
                    inst.l@[i as int] >= 1,
            {}
        }
        let ei = sk[i];
        if ei == 0 {
        } else if ei > 0 {
            e_plus.push(ei);
            s_plus.push(inst.l[i]);
            done_plus.push(false);
            k_plus = k_plus * inst.l[i];
        } else {
            e_minus.push(ei);
            s_minus.push(inst.l[i]);
            done_minus.push(false);
            k_minus = k_minus * inst.l[i];
        }
        i = i + 1;
    }
    proof {
        lemma_prod_range_split(inst.l@, 0, n as int, inst.l@.len() as int);
        lemma_prod_range_pos(inst.l@, 0, n as int);
        lemma_prod_range_pos(inst.l@, n as int, inst.l@.len() as int);
        assert(prod_range(inst.l@, 0, n as int) <= inst.full_product()) by (nonlinear_arith)
            requires
                inst.full_product() == prod_range(inst.l@, 0, n as int) * prod_range(
                    inst.l@,
                    n as int,
                    inst.l@.len() as int,
                ),
                prod_range(inst.l@, 0, n as int) >= 1,
                prod_range(inst.l@, n as int, inst.l@.len() as int) >= 1,
        {}
    }
    if s_plus.len() == 0 && s_minus.len() == 0 {
        return Ok(pk);
    }
    proof {
        lemma_unit_ops(p as int, 0);
    }
    let mut ell = EllipticCurve::new_montgomery(pk);
    let mut finished_plus = false;
    let mut finished_minus = false;
    let mut budget: u64 = MAX_SAMPLE_ATTEMPTS;
    while !finished_plus || !finished_minus
        invariant
            inst_valid(*inst),
            p == inst.p,
            s_plus@.len() + s_minus@.len() >= 1,
            (forall|t: int| 0 <= t < sk@.len() ==> #[trigger] sk@[t] == 0) ==> (s_plus@.len()
                == 0 && s_minus@.len() == 0),
            s_plus@.len() == e_plus@.len(),
            s_plus@.len() == done_plus@.len(),
            s_minus@.len() == e_minus@.len(),
            s_minus@.len() == done_minus@.len(),
            forall|j: int|
                0 <= j < s_plus@.len() ==> 3 <= #[trigger] s_plus@[j] && s_plus@[j] % 2 == 1
                    && s_plus@[j] < 0x4000000000000000,
            forall|j: int|
                0 <= j < s_minus@.len() ==> 3 <= #[trigger] s_minus@[j] && s_minus@[j] % 2 == 1
                    && s_minus@[j] < 0x4000000000000000,
            forall|j: int|
                0 <= j < e_plus@.len() ==> #[trigger] e_plus@[j] >= 0 && (e_plus@[j] == 0
                    ==> done_plus@[j]),
            forall|j: int|
                0 <= j < e_minus@.len() ==> #[trigger] e_minus@[j] <= 0 && (e_minus@[j] == 0
                    ==> done_minus@[j]),
            1 <= k_plus < 0x4000000000000000,
            1 <= k_minus < 0x4000000000000000,
            ell.valid(),
            cp(ell) == inst.p as int,
            ell.a_1.repr == 0,
            ell.a_3.repr == 0,
            ell.a_4.repr == 1,
            ell.a_6.repr == 0,
        decreases budget,
    {
        if budget == 0 {
            return Err(CsidhError::RetryLimit);
        }
        budget = budget - 1;
        let x = Fp { repr: sample_u64_below(p), p };
        let fx = x.mul(x).mul(x).add(ell.a_2.mul(x).mul(x)).add(x);
        let s8 = fx.legendre_symbol();
        if s8 == 1 {
            if !finished_plus {
                let (e2, fin) = action_round(
                    inst,
                    ell,
                    x,
                    k_plus,
                    &s_plus,
                    &mut e_plus,
                    &mut done_plus,
                    1,
                );
                ell = e2;
                finished_plus = fin;
            }
        } else if s8 == -1 {
            if !finished_minus {
                let (e2, fin) = action_round(
                    inst,
                    ell,
                    x,
                    k_minus,
                    &s_minus,
                    &mut e_minus,
                    &mut done_minus,
                    -1,
                );
                ell = e2;
                finished_minus = fin;
            }
        }
    }
    Ok(ell.a_2)
}

/// Samples a fresh key pair: each exponent uniform in [-m, m], and the
/// public key is the action of the vector on the identity curve A = 0.
pub fn sample_keys(inst: &CSIDHInstance, m: i32) -> (r: Result<(PublicKey, SecretKey), CsidhError>)
    requires
        inst_valid(*inst),
        well_defined_s(*inst),
        1 <= m,
    ensures
        match r {
            Ok((pk, sk)) => pk.valid() && pk.p == inst.p && sk@.len() == inst.l@.len()
                && forall|i: int| 0 <= i < sk@.len() ==> -m <= #[trigger] sk@[i] <= m,
            Err(e) => e == CsidhError::RetryLimit,
        },
{
    let n = inst.n_primes;
    let mut sk: SecretKey = Vec::new();
    let mut sk_copy: SecretKey = Vec::new();
    let mut i: usize = 0;
    while i < n
        invariant
            inst_valid(*inst),
            1 <= m,
            n == inst.l@.len(),
            i <= n,
            sk@.len() == i,
            sk_copy@ == sk@,
            forall|t: int| 0 <= t < sk@.len() ==> -m <= #[trigger] sk@[t] <= m,
        decreases n - i,
    {
        let e = sample_i32_between(-m, m);
        sk.push(e);
        sk_copy.push(e);
        i = i + 1;
    }
    let pk0 = Fp::from_int(0, inst.p);
    match class_group_action(inst, pk0, sk_copy) {
        Ok(pk) => Ok((pk, sk)),
        Err(e) => Err(e),
    }
}

/// The number of binary digits of a natural number.
pub open spec fn bitlen_s(n: nat) -> nat
    decreases n,
{
    if n == 0 {
        0
    } else {
        1 + bitlen_s(n / 2)
    }
}

/// The byte length of the wire format of a public key: the ceiling of
/// log2(p) / 8.
pub open spec fn key_len_s(p: nat) -> int {
    ((bitlen_s(p) + 7) / 8) as int
}

/// The value of a big-endian byte string.
pub open spec fn be_value_s(s: Seq<u8>) -> int
    decreases s.len(),
{
    if s.len() == 0 {
        0int
    } else {
        be_value_s(s.drop_last()) * 256 + s.last()
    }
}

/// What deserialization accepts: exactly the byte strings of the format's
/// length whose value is a canonical residue.
pub open spec fn parse_key_s(p: nat, s: Seq<u8>) -> Option<PublicKey> {
    if s.len() == key_len_s(p) && 0 <= be_value_s(s) < p {
        Some(Fp { repr: be_value_s(s) as u64, p: p as u64 })
    } else {
        None
    }
}

/// A number is below 2 to its bit length.
proof fn lemma_bitlen_bound(n: nat)
    ensures
        n < pow2(bitlen_s(n)),
    decreases n,
{
    if n == 0 {
        vstd::arithmetic::power2::lemma2_to64();
    } else {
        lemma_bitlen_bound(n / 2);
        vstd::arithmetic::power2::lemma_pow2_unfold(bitlen_s(n));
    }
}

/// A bound on a number bounds its bit length.
proof fn lemma_bitlen_below(n: nat, k: nat)
    requires
        n < pow2(k),
    ensures
        bitlen_s(n) <= k,
    decreases n,
{
    if n > 0 {
        if k == 0 {
            vstd::arithmetic::power2::lemma2_to64();
        } else {
            vstd::arithmetic::power2::lemma_pow2_unfold(k);
            lemma_bitlen_below(n / 2, (k - 1) as nat);
        }
    }
}

/// Powers of 256 are powers of 2.
proof fn lemma_pow256_pow2(e: nat)
    ensures
        pow(256, e) == pow2((8 * e) as nat),
{
    vstd::arithmetic::power2::lemma_pow2((8 * e) as nat);
    vstd::arithmetic::power2::lemma_pow2(8nat);
    vstd::arithmetic::power2::lemma2_to64();
    vstd::arithmetic::power::lemma_pow_multiplies(2, 8, e);
}

/// The byte length of the wire format for the characteristic `p`.
fn key_byte_length(p: u64) -> (r: usize)
    requires
        p >= 2,
    ensures
        r == key_len_s(p as nat),
        1 <= r <= 8,
        (p as nat) < pow2((8 * r) as nat),
{
    let mut m = p;
    let mut bl: u64 = 0;
    proof {
        vstd::arithmetic::power2::lemma2_to64();
        lemma_bitlen_below(p as nat, 64);
    }
    while m != 0
        invariant
            bitlen_s(p as nat) == bl + bitlen_s(m as nat),
            bitlen_s(p as nat) <= 64,
        decreases m,
    {
        m = m / 2;
        bl = bl + 1;
    }
    proof {
        assert(bitlen_s(0nat) == 0);
        assert(bl == bitlen_s(p as nat));
        assert(bl >= 1) by {
            if bitlen_s(p as nat) == 0 {
                vstd::arithmetic::power2::lemma2_to64();
                lemma_bitlen_bound(p as nat);
            }
        }
        lemma_bitlen_bound(p as nat);
        let r = (bl + 7) / 8;
        assert(8 * r >= bl);
        if bl < 8 * r {
            vstd::arithmetic::power2::lemma_pow2_strictly_increases(bl as nat, (8 * r) as nat);
        }
    }
    ((bl + 7) / 8) as usize
}

/// The big-endian bytes of `v`, over a fixed width.
fn be_bytes_rec(v: u64, len: usize) -> (r: Vec<u8>)
    requires
        v < pow(256, len as nat),
    ensures
        r@.len() == len,
        be_value_s(r@) == v,
    decreases len,
{
    if len == 0 {
        proof {
            vstd::arithmetic::power::lemma_pow0(256);
        }
        Vec::new()
    } else {
        proof {
            vstd::arithmetic::power::lemma_pow1(256);
            vstd::arithmetic::power::lemma_pow_adds(256, 1nat, (len - 1) as nat);
            vstd::arithmetic::power::lemma_pow_positive(256, (len - 1) as nat);
            assert(pow(256, len as nat) == 256 * pow(256, (len - 1) as nat));
            assert(v as int / 256 < pow(256, (len - 1) as nat)) by (nonlinear_arith)
                requires
                    v < 256 * pow(256, (len - 1) as nat),
                    pow(256, (len - 1) as nat) >= 1,
                    v >= 0,
            {}
        }
        let mut b = be_bytes_rec(v / 256, len - 1);
        let ghost prefix = b@;
        b.push((v % 256) as u8);
        proof {
            assert(b@.drop_last() =~= prefix);
            assert(b@.last() == (v % 256) as u8);
            vstd::arithmetic::div_mod::lemma_fundamental_div_mod(v as int, 256);
        }
        b
    }
}

/// The wire format of a public key: the canonical residue as a big-endian
/// byte string of ceil(log2 p / 8) bytes.  Deserialization accepts exactly
/// what it produces, and returns the key unchanged.
pub fn serialize_public_key(inst: &CSIDHInstance, pk: PublicKey) -> (r: Vec<u8>)
    requires
        inst.p >= 2,
        pk.valid(),
        pk.p == inst.p,
    ensures
        r@.len() == key_len_s(inst.p as nat),
        be_value_s(r@) == pk.repr,
        parse_key_s(inst.p as nat, r@) == Some(pk),
{
    let len = key_byte_length(inst.p);
    proof {
        lemma_pow256_pow2(len as nat);
    }
    be_bytes_rec(pk.repr, len)
}

/// Reads a public key back from its wire format: the byte string must have
/// the format's exact length and hold a canonical residue.
pub fn deserialize_public_key(inst: &CSIDHInstance, bytes: &Vec<u8>) -> (r: Option<PublicKey>)
    requires
        inst.p >= 2,
    ensures
        r == parse_key_s(inst.p as nat, bytes@),
{
    let len = key_byte_length(inst.p);
    if bytes.len() != len {
        return None;
    }
    let mut acc: u64 = 0;
    let mut i: usize = 0;
    proof {
        vstd::arithmetic::power::lemma_pow0(256);
        assert(bytes@.subrange(0, 0) =~= Seq::<u8>::empty());
    }
    while i < len
        invariant
            i <= len,
            len == bytes@.len(),
            len <= 8,
            acc == be_value_s(bytes@.subrange(0, i as int)),
            acc < pow(256, i as nat),
        decreases len - i,
    {
        proof {
            vstd::arithmetic::power::lemma_pow1(256);
            vstd::arithmetic::power::lemma_pow_adds(256, (i as nat), 1nat);
            vstd::arithmetic::power::lemma_pow_positive(256, i as nat);
            lemma_pow256_pow2((i + 1) as nat);
            vstd::arithmetic::power2::lemma2_to64();
            vstd::arithmetic::power2::lemma2_to64_rest();
            if 8 * (i + 1) < 64 {
                vstd::arithmetic::power2::lemma_pow2_strictly_increases(
                    (8 * (i + 1)) as nat,
                    64nat,
                );
            }
            assert(acc as int * 256 + 255 < pow(256, (i + 1) as nat)) by (nonlinear_arith)
                requires
                    acc < pow(256, i as nat),
                    pow(256, (i + 1) as nat) == pow(256, i as nat) * 256,
                    pow(256, i as nat) >= 1,
                    acc >= 0,
            {}
            assert(pow2((8 * (i + 1)) as nat) <= pow2(64nat));
            assert(bytes@.subrange(0, i + 1).drop_last() =~= bytes@.subrange(0, i as int));
            assert(bytes@.subrange(0, i + 1).last() == bytes@[i as int]);
        }
        let b = bytes[i];
        acc = acc * 256 + (b as u64);
        i = i + 1;
    }
    proof {
        assert(bytes@.subrange(0, len as int) =~= bytes@);
    }
    if acc < inst.p {
        Some(Fp { repr: acc, p: inst.p })
    } else {
        None
    }
}

} // verus!
