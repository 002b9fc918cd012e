//! Mathematical model of arithmetic modulo a prime, together with the lemmas
//! that the executable field operations are proved against.

use vstd::prelude::*;
use vstd::arithmetic::div_mod::{
    lemma_add_mod_noop, lemma_fundamental_div_mod, lemma_fundamental_div_mod_converse_mod,
    lemma_mod_bound, lemma_mod_multiples_vanish, lemma_mul_mod_noop_general, lemma_small_mod,
    lemma_sub_mod_noop,
};
use vstd::arithmetic::mul::{lemma_mul_is_associative, lemma_mul_is_commutative};
use vstd::arithmetic::power::pow;

verus! {

/// `p` has no divisor strictly between 1 and itself.
pub open spec fn is_prime(p: int) -> bool {
    p >= 2 && forall|d: int| 2 <= d < p ==> #[trigger] (p % d) != 0
}

/// A modulus the field representation supports: a prime that leaves room for
/// `p + p` in a 64-bit word.
pub open spec fn modulus_ok(p: int) -> bool {
    2 <= p < 0x8000_0000_0000_0000 && is_prime(p)
}

/// Canonical representative of `n` modulo `p` (Euclidean, so non-negative).
pub open spec fn int_f(p: int, n: int) -> int {
    n % p
}

/// Field addition.
pub open spec fn add_f(p: int, a: int, b: int) -> int {
    (a + b) % p
}

/// Field subtraction.
pub open spec fn sub_f(p: int, a: int, b: int) -> int {
    (a - b) % p
}

/// Field negation.
pub open spec fn neg_f(p: int, a: int) -> int {
    (p - a) % p
}

/// Field multiplication.
pub open spec fn mul_f(p: int, a: int, b: int) -> int {
    (a * b) % p
}

/// Field exponentiation by a natural number.
pub open spec fn pow_f(p: int, a: int, n: nat) -> int {
    pow(a, n) % p
}

/// The multiplicative inverse of `a` modulo `p`: the unique canonical residue
/// whose product with `a` is 1.  Meaningful whenever such a residue exists,
/// which the executable inverse demonstrates for every non-zero residue of a
/// prime modulus.
pub open spec fn inv_f(p: int, a: int) -> int {
    choose|x: int| 0 <= x < p && #[trigger] ((a * x) % p) == 1
}

/// Field division: multiplication by the inverse.
pub open spec fn div_f(p: int, a: int, b: int) -> int {
    mul_f(p, a, inv_f(p, b))
}

/// The Legendre character chi(a) = a^((p-1)/2) mod p read as -1, 0 or +1.
pub open spec fn leg_f(p: int, a: int) -> int {
    let e = pow_f(p, a, (((p - 1) / 2) as nat));
    if e == 1 {
        1int
    } else if e == p - 1 {
        -1int
    } else {
        0int
    }
}

/// The canonical sign convention: a residue counts as positive when it lies in
/// the lower half of the range, 0 through (p-1)/2.
pub open spec fn sign_f(p: int, a: int) -> bool {
    a <= (p - 1) / 2
}

/// Addition commutes.
pub proof fn lemma_add_f_comm(p: int, a: int, b: int)
    requires
        p >= 2,
    ensures
        add_f(p, a, b) == add_f(p, b, a),
{
}

/// Addition associates once the intermediate sums are reduced.
pub proof fn lemma_add_f_assoc(p: int, a: int, b: int, c: int)
    requires
        p >= 2,
        0 <= a < p,
        0 <= b < p,
        0 <= c < p,
    ensures
        add_f(p, add_f(p, a, b), c) == add_f(p, a, add_f(p, b, c)),
{
    lemma_small_mod(a as nat, p as nat);
    lemma_small_mod(c as nat, p as nat);
    lemma_add_mod_noop(a + b, c, p);
    lemma_add_mod_noop(a, b + c, p);
}

/// Multiplication commutes.
pub proof fn lemma_mul_f_comm(p: int, a: int, b: int)
    requires
        p >= 2,
    ensures
        mul_f(p, a, b) == mul_f(p, b, a),
{
    lemma_mul_is_commutative(a, b);
}

/// Multiplication associates once the intermediate products are reduced.
pub proof fn lemma_mul_f_assoc(p: int, a: int, b: int, c: int)
    requires
        p >= 2,
        0 <= a < p,
        0 <= b < p,
        0 <= c < p,
    ensures
        mul_f(p, mul_f(p, a, b), c) == mul_f(p, a, mul_f(p, b, c)),
{
    lemma_small_mod(a as nat, p as nat);
    lemma_small_mod(c as nat, p as nat);
    lemma_mul_mod_noop_general(a * b, c, p);
    lemma_mul_mod_noop_general(a, b * c, p);
    lemma_mul_is_associative(a, b, c);
}

/// A residue has at most one inverse in canonical range.
pub proof fn lemma_inv_unique(p: int, a: int, x: int, y: int)
    requires
        p >= 2,
        0 <= x < p,
        0 <= y < p,
        (a * x) % p == 1,
        (a * y) % p == 1,
    ensures
        x == y,
{
    // x = x * (a * y) = (x * a) * y = y, all modulo p.
    lemma_small_mod(x as nat, p as nat);
    lemma_small_mod(y as nat, p as nat);
    lemma_mul_mod_noop_general(x, a * y, p);
    lemma_mul_is_associative(x, a, y);
    lemma_mul_is_commutative(x, a);
    lemma_mul_mod_noop_general(x * a, y, p);
    assert((x * (a * y)) % p == (x * 1) % p) by {
        lemma_mul_mod_noop_general(x, (a * y) % p, p);
    }
}

/// Any witness of the inverse equation identifies `inv_f`.
pub proof fn lemma_inv_f_is(p: int, a: int, x: int)
    requires
        p >= 2,
        0 <= x < p,
        (a * x) % p == 1,
    ensures
        inv_f(p, a) == x,
{
    let w = choose|w: int| 0 <= w < p && #[trigger] ((a * w) % p) == 1;
    lemma_inv_unique(p, a, w, x);
}

/// The inverse of a product is the product of the inverses, stated over
/// explicit inverse witnesses.
pub proof fn lemma_inv_of_product(p: int, a: int, b: int, ia: int, ib: int, iab: int)
    requires
        p >= 2,
        0 <= a < p,
        0 <= b < p,
        0 <= ia < p,
        0 <= ib < p,
        0 <= iab < p,
        (a * ia) % p == 1,
        (b * ib) % p == 1,
        (mul_f(p, a, b) * iab) % p == 1,
    ensures
        iab == mul_f(p, ib, ia),
{
    // (a*b) * (ib*ia) = a * (b*ib) * ia = a * ia = 1 modulo p,
    // and the inverse of a*b is unique in canonical range.
    let m = mul_f(p, a, b);
    lemma_mod_bound(a * b, p);
    lemma_mod_bound(ib * ia, p);
    assert((m * ((ib * ia) % p)) % p == ((a * b) * (ib * ia)) % p) by {
        lemma_mul_mod_noop_general(a * b, ib * ia, p);
    }
    assert((a * b) * (ib * ia) == (a * ia) * (b * ib)) by {
        lemma_mul_rearrange(a, b, ib, ia);
    }
    assert(((a * ia) * (b * ib)) % p == 1) by {
        lemma_mul_mod_noop_general(a * ia, b * ib, p);
        lemma_small_mod(1nat, p as nat);
    }
    lemma_inv_unique(p, m, iab, (ib * ia) % p);
}

proof fn lemma_mul_rearrange(a: int, b: int, c: int, d: int)
    by (nonlinear_arith)
    ensures
        (a * b) * (c * d) == (a * d) * (b * c),
{
}

/// Euclidean reduction of a negative value, written through the reduction of
/// its absolute value.
pub proof fn lemma_mod_of_negative(p: int, x: int)
    requires
        p >= 2,
        x < 0,
    ensures
        x % p == if (-x) % p == 0 {
            0int
        } else {
            p - ((-x) % p)
        },
{
    let m = (-x) % p;
    let q = (-x) / p;
    lemma_fundamental_div_mod(-x, p);
    lemma_mod_bound(-x, p);
    if m == 0 {
        assert((-q) * p == -(q * p)) by (nonlinear_arith);
        lemma_fundamental_div_mod_converse_mod(x, p, -q, 0);
    } else {
        assert((-q - 1) * p == -(q * p) - p) by (nonlinear_arith);
        lemma_fundamental_div_mod_converse_mod(x, p, -q - 1, p - m);
    }
}

/// Multiplying by the residues 1 and 0, and adding 0, act as expected on a
/// canonical representative.
pub proof fn lemma_unit_ops(p: int, v: int)
    requires
        p >= 2,
        0 <= v < p,
    ensures
        mul_f(p, 1, v) == v,
        mul_f(p, 0, v) == 0,
        add_f(p, 0, v) == v,
        add_f(p, v, 0) == v,
        sub_f(p, 1, 1) == 0,
        sub_f(p, 1, 0) == 1,
        int_f(p, 0) == 0,
        int_f(p, 1) == 1,
    {
    lemma_small_mod(v as nat, p as nat);
    lemma_small_mod(0nat, p as nat);
    lemma_small_mod(1nat, p as nat);
}

/// The residue of 4 vanishes only in the field of two elements.
pub proof fn lemma_four_nonzero(p: int)
    requires
        modulus_ok(p),
        p > 2,
    ensures
        int_f(p, 4) != 0,
{
    if p == 3 {
        assert(4int % 3 == 1);
    } else if p == 4 {
        assert(!is_prime(4)) by {
            assert(2 <= 2 < 4 && 4int % 2 == 0);
        }
    } else {
        lemma_small_mod(4nat, p as nat);
    }
}

/// Subtraction vanishes exactly on equal canonical representatives.
pub proof fn lemma_sub_f_zero_iff(p: int, a: int, b: int)
    requires
        p >= 2,
        0 <= a < p,
        0 <= b < p,
    ensures
        (sub_f(p, a, b) == 0) <==> (a == b),
{
    if a >= b {
        lemma_small_mod((a - b) as nat, p as nat);
    } else {
        assert((-1) * p == -p) by (nonlinear_arith);
        lemma_fundamental_div_mod_converse_mod(a - b, p, -1, a - b + p);
    }
}

/// A prime above 2 is odd.
pub proof fn lemma_odd_prime(p: int)
    requires
        is_prime(p),
        p > 2,
    ensures
        p % 2 == 1,
{
    if p % 2 != 1 {
        assert(2 <= 2 < p && p % 2 == 0);
    }
}

/// Negation does not change a square.
pub proof fn lemma_neg_square(p: int, c: int)
    requires
        p >= 2,
        0 <= c < p,
    ensures
        mul_f(p, neg_f(p, c), neg_f(p, c)) == mul_f(p, c, c),
{
    let n = (p - c) % p;
    lemma_mod_bound(p - c, p);
    lemma_mul_mod_noop_general(p - c, p - c, p);
    assert((p - c) * (p - c) == p * (p - 2 * c) + c * c) by (nonlinear_arith);
    lemma_mod_multiples_vanish(p - 2 * c, c * c, p);
}

/// The product of two 64-bit words fits in a 128-bit word.
pub proof fn lemma_u64_mul_in_u128(a: u64, b: u64)
    ensures
        0 <= (a as int) * (b as int) <= 0xFFFFFFFFFFFFFFFE_0000000000000001,
{
    assert(0 <= (a as int) * (b as int) <= 0xFFFFFFFFFFFFFFFF * 0xFFFFFFFFFFFFFFFF)
        by (nonlinear_arith)
        requires
            0 <= a <= 0xFFFFFFFFFFFFFFFFu64,
            0 <= b <= 0xFFFFFFFFFFFFFFFFu64,
    {}
}

/// The executable subtraction pattern (a + p - b) agrees with the model's
/// subtraction.
pub proof fn lemma_sub_f_exec(p: int, a: int, b: int)
    requires
        p >= 2,
        0 <= a < p,
        0 <= b < p,
    ensures
        (a + p - b) % p == sub_f(p, a, b),
{
    lemma_fundamental_div_mod(a - b, p);
    lemma_mod_bound(a - b, p);
    let r = (a - b) % p;
    let q = (a - b) / p;
    assert((q + 1) * p == p * q + p) by (nonlinear_arith);
    assert(a + p - b == (q + 1) * p + r);
    lemma_fundamental_div_mod_converse_mod(a + p - b, p, q + 1, r);
}

} // verus!
