//! Identities between the operations on integers: what one call gives back
//! of another, and what two ways of computing a value agree on.
use crate::arith::{has_inverse, inverse_of};
use crate::construct::{accepts, expected_view, max_unreduced_limb_of, red_limbs_of};
use crate::laws::{lemma_compose4, lemma_decompose_exact, lemma_inverse_of};
use crate::limbs::{compose_value, decompose_value};
use crate::rns::{column_sum, mul_intermediate, Common, Integer, Limb, ReductionWitness};
use vstd::arithmetic::div_mod::{lemma_add_mod_noop, lemma_mul_mod_noop_right, lemma_small_mod};
use vstd::arithmetic::power::pow;
use vstd::arithmetic::power2::{lemma_pow2_adds, lemma_pow2_pos, pow2};
use vstd::prelude::*;

verus! {

/// A term may be reduced by the modulus before it is scaled and added.
proof fn lemma_mod_term(a: int, x: int, y: int, n: int)
    requires
        n > 0,
    ensures
        (a + x * (y % n)) % n == (a + x * y) % n,
{
    lemma_add_mod_noop(a, x * (y % n), n);
    lemma_add_mod_noop(a, x * y, n);
    lemma_mul_mod_noop_right(x, y, n);
}

/// `2^e` in the field of modulus `n`, computed from two reduced first, is
/// `2^e` reduced.
pub(crate) proof fn lemma_shifter_is_power(e: nat, n: nat)
    requires
        n > 0,
    ensures
        (pow((2nat % n) as int, e) % (n as int)) == pow2(e) % n,
{
    vstd::arithmetic::power::lemma_pow_mod_noop(2, e, n as int);
    vstd::arithmetic::power2::lemma_pow2(e);
}

/// The native value of an integer is its limbs weighted by the left
/// shifters: `l0 + l1 2^b + l2 2^(2b) + l3 2^(3b)` in the native field, with
/// the shifters of a system as `construct` builds it.
pub proof fn lemma_native_limbs<const NUMBER_OF_LIMBS: usize, const BIT_LEN_LIMB: usize>(
    x: &Integer<NUMBER_OF_LIMBS, BIT_LEN_LIMB>,
)
    requires
        NUMBER_OF_LIMBS == 4,
        x.wf(),
        x.context()@ == expected_view(
            x.context().wrong_modulus@,
            x.context().native_modulus@,
            4,
            BIT_LEN_LIMB as nat,
        ),
    ensures
        ({
            let ctx = x.context();
            let l = x.limb_values();
            x.value_spec() % ctx.native_modulus@ == (l[0] + l[1] * ctx.left_shifter_r@ + l[2]
                * ctx.left_shifter_2r@ + l[3] * ctx.left_shifter_3r@) % ctx.native_modulus@
        }),
{
    let ctx = x.context();
    let n = ctx.native_modulus@;
    let b = BIT_LEN_LIMB as nat;
    let l = x.limb_values();
    let (p1, p2, p3) = (pow2(b), pow2(2 * b), pow2(3 * b));
    lemma_shifter_is_power(b, n);
    lemma_shifter_is_power(2 * b, n);
    lemma_shifter_is_power(3 * b, n);
    assert(ctx.left_shifter_r@ == p1 % n);
    assert(ctx.left_shifter_2r@ == p2 % n);
    assert(ctx.left_shifter_3r@ == p3 % n);
    lemma_compose4(l, b);
    lemma_pow2_adds(2 * b, b);
    assert(2 * b + b == 3 * b);
    let v = x.value_spec();
    assert(v == (l[0] + p1 * l[1]) + p2 * (l[2] + p1 * l[3]));
    assert((l[0] + p1 * l[1]) + p2 * (l[2] + p1 * l[3]) == l[0] + l[1] * p1 + l[2] * p2 + l[3] * (p2 * p1))
        by (nonlinear_arith);
    assert(p3 == p2 * p1);
    let ni = n as int;
    lemma_mod_term((l[0] + l[1] * p1 + l[2] * p2) as int, l[3] as int, p3 as int, ni);
    lemma_mod_term((l[0] + l[1] * p1 + l[3] * (p3 % n)) as int, l[2] as int, p2 as int, ni);
    lemma_mod_term((l[0] + l[2] * (p2 % n) + l[3] * (p3 % n)) as int, l[1] as int, p1 as int, ni);
}

/// The native value of a limb that is a native element is the limb itself.
pub proof fn lemma_limb_native(limb: &Limb, native_modulus: nat)
    requires
        limb@ < native_modulus,
    ensures
        limb.value_spec() % native_modulus == limb@,
{
    lemma_small_mod(limb@, native_modulus);
}

/// A system that `construct` accepts has limbs that are native elements,
/// `2^b < n`, and a wrong modulus below `2^(4b)`: the reduction of four
/// largest unreduced limbs by one limb of quotient forces `w > 2^(3b)`, and
/// `2^(4b) n > w^2` then leaves no room for a native modulus below `2^b`.
pub proof fn lemma_accepts_bounds(w: nat, n: nat, b: nat)
    requires
        accepts(w, n, 4, b),
    ensures
        pow2(b) < n,
        w < pow2(4 * b),
        pow2(3 * b) < w,
        n < pow2(4 * b),
{
    let p = pow2(b);
    let p2 = pow2(2 * b);
    lemma_pow2_pos(b);
    lemma_pow2_adds(b, b);
    lemma_pow2_adds(2 * b, 2 * b);
    assert(b + b == 2 * b && 2 * b + 2 * b == 4 * b);
    assert(b >= 4);
    // the largest unreduced limb is at least 2^b
    lemma_pow2_adds(b, b / 2);
    vstd::arithmetic::power2::lemma_pow2_strictly_increases(0, b / 2);
    vstd::arithmetic::power2::lemma2_to64();
    let h = pow2(b / 2);
    let m = max_unreduced_limb_of(b);
    lemma_pow2_pos(b + b / 2);
    assert(pow2(b + b / 2) == p * h);
    assert(m == p * h - 1);
    assert(p * h - 1 >= p) by (nonlinear_arith)
        requires
            h >= 2,
            p >= 1,
    ;
    // four of them put together are at least 2^(2b) 2^b 2^b
    let a = red_limbs_of(b);
    lemma_compose4(a, b);
    let c = compose_value(a, b);
    assert(c == (m + p * m) + p2 * (m + p * m));
    assert(c >= p2 * (p * p)) by (nonlinear_arith)
        requires
            c == (m + p * m) + p2 * (m + p * m),
            m >= p,
            p >= 1,
    ;
    // their quotient by w is below 2^b, so p w > c
    assert(w > 0);
    vstd::arithmetic::div_mod::lemma_fundamental_div_mod(c as int, w as int);
    let q = c / w;
    assert(q < p);
    assert(p * w > c) by (nonlinear_arith)
        requires
            c == w * q + c % w,
            c % w < w,
            q < p,
            w > 0,
    ;
    assert(w > p2 * p) by (nonlinear_arith)
        requires
            p * w > p2 * (p * p),
            p >= 1,
    ;
    lemma_pow2_adds(2 * b, b);
    assert(2 * b + b == 3 * b);
    // and w^2 < 2^(4b) n
    let bm = pow2(4 * b);
    assert(bm == p2 * p2);
    assert(bm * n > w * w);
    if n <= p {
        assert(false) by (nonlinear_arith)
            requires
                p2 * p2 * n > w * w,
                w > p2 * p,
                n <= p,
                p >= 1,
                p2 >= 1,
        ;
    }
}

/// In a system that `construct` accepts, an element of the wrong field
/// taken into limbs puts back together to itself.
pub proof fn lemma_from_fe_exact<const NUMBER_OF_LIMBS: usize, const BIT_LEN_LIMB: usize>(
    x: &Integer<NUMBER_OF_LIMBS, BIT_LEN_LIMB>,
    e: nat,
)
    requires
        NUMBER_OF_LIMBS == 4,
        accepts(x.context().wrong_modulus@, x.context().native_modulus@, 4, BIT_LEN_LIMB as nat),
        e < x.context().wrong_modulus@,
        x.limb_values() == decompose_value(e, x.context().native_modulus@, 4, BIT_LEN_LIMB as nat),
    ensures
        x.value_spec() == e,
        x.value_spec() < x.context().wrong_modulus@,
        x.value_spec() % x.context().wrong_modulus@ == e,
{
    let ctx = x.context();
    let b = BIT_LEN_LIMB as nat;
    lemma_accepts_bounds(ctx.wrong_modulus@, ctx.native_modulus@, b);
    lemma_decompose_exact(e, ctx.native_modulus@, 4, b);
    lemma_small_mod(e, ctx.wrong_modulus@);
}

/// Reducing the result of a reduction changes nothing: the value is already
/// below the wrong modulus, so the second reduction passes with quotient
/// zero, gives back the same limbs as result and as intermediate values, and
/// all four residues are zero; whenever the wrong modulus fits in the limbs
/// and no limb is reduced by the native field.
pub proof fn lemma_reduce_reduced<const NUMBER_OF_LIMBS: usize, const BIT_LEN_LIMB: usize>(
    x: &Integer<NUMBER_OF_LIMBS, BIT_LEN_LIMB>,
    y: &Integer<NUMBER_OF_LIMBS, BIT_LEN_LIMB>,
)
    requires
        x.wf(),
        pow2(BIT_LEN_LIMB as nat) <= x.context().native_modulus@,
        x.context().wrong_modulus@ <= pow2(NUMBER_OF_LIMBS as nat * BIT_LEN_LIMB as nat),
        y.limb_values() == x.reduce_parts().1,
        y.context() == x.context(),
    ensures
        y.wf(),
        y.value_spec() == x.value_spec() % x.context().wrong_modulus@,
        y.reduce_passes(),
        y.reduce_parts().0 == 0,
        y.reduce_parts().1 == y.limb_values(),
        y.reduce_parts().2 == y.limb_values(),
        y.residues_for(y.reduce_parts().2) == (0nat, 0nat, 0nat, 0nat),
{
    let ctx = x.context();
    let w = ctx.wrong_modulus@;
    let n = ctx.native_modulus@;
    let (l, b) = (NUMBER_OF_LIMBS as nat, BIT_LEN_LIMB as nat);
    let v = x.value_spec();
    let r = v % w;
    let a = y.limb_values();
    assert(a == decompose_value(r, n, l, b));
    lemma_decompose_exact(r, n, l, b);
    assert(y.value_spec() == r);
    assert forall|i: int| 0 <= i < l implies #[trigger] a[i] < n by {
        crate::limbs::lemma_decompose_index(r, n, l, b, i as nat);
    }
    // the second quotient is zero and the remainder is the value itself
    vstd::arithmetic::div_mod::lemma_basic_div(r as int, w as int);
    lemma_small_mod(r, w);
    assert(r / w == 0);
    assert(0nat % n == 0);
    let (q2, r2, t2) = y.reduce_parts();
    assert(q2 == 0);
    assert(r2 == a);
    assert forall|i: int| 0 <= i < l implies #[trigger] t2[i] == a[i] by {
        let p = crate::limbs::values(ctx.negative_wrong_modulus_decomposed@);
        assert(t2[i] == (a[i] + p[i] * 0nat) % n);
        assert(p[i] * 0nat == 0) by (nonlinear_arith);
        lemma_small_mod(a[i], n);
    }
    assert(t2 =~= a);
    // every residue cancels
    let s = ctx.left_shifter_r@;
    let rs2 = ctx.right_shifter_2r@;
    assert(((a[0] + s * a[1] - a[0] - s * a[1]) % (n as int)) == 0);
    assert(((a[2] + s * a[3] - a[2] - s * a[3]) % (n as int)) == 0);
    assert(0nat * rs2 == 0) by (nonlinear_arith);
    assert((0nat + 0nat) * rs2 == 0) by (nonlinear_arith);
    assert(crate::big::bit_and(0, ctx.two_limb_mask@) == 0);
    lemma_pow2_pos(b);
}

/// Inverting twice gives back the value modulo the wrong modulus: the
/// inverse puts back together to a number whose own inverse is the value
/// reduced by the wrong modulus; whenever the wrong modulus fits in the limbs
/// and no limb is reduced by the native field.
pub proof fn lemma_invert_twice<const NUMBER_OF_LIMBS: usize, const BIT_LEN_LIMB: usize>(
    x: &Integer<NUMBER_OF_LIMBS, BIT_LEN_LIMB>,
    y: &Integer<NUMBER_OF_LIMBS, BIT_LEN_LIMB>,
)
    requires
        x.wf(),
        pow2(BIT_LEN_LIMB as nat) <= x.context().native_modulus@,
        x.context().wrong_modulus@ <= pow2(NUMBER_OF_LIMBS as nat * BIT_LEN_LIMB as nat),
        has_inverse(x.value_spec() % x.context().wrong_modulus@, x.context().wrong_modulus@),
        y.limb_values() == decompose_value(
            inverse_of(x.value_spec() % x.context().wrong_modulus@, x.context().wrong_modulus@),
            x.context().native_modulus@,
            NUMBER_OF_LIMBS as nat,
            BIT_LEN_LIMB as nat,
        ),
        y.context() == x.context(),
    ensures
        ({
            let w = x.context().wrong_modulus@;
            let n = x.context().native_modulus@;
            let (l, b) = (NUMBER_OF_LIMBS as nat, BIT_LEN_LIMB as nat);
            &&& y.wf()
            &&& has_inverse(y.value_spec() % w, w)
            &&& inverse_of(y.value_spec() % w, w) == x.value_spec() % w
            &&& compose_value(decompose_value(inverse_of(y.value_spec() % w, w), n, l, b), b)
                == x.value_spec() % w
        }),
{
    let ctx = x.context();
    let w = ctx.wrong_modulus@;
    let n = ctx.native_modulus@;
    let (l, b) = (NUMBER_OF_LIMBS as nat, BIT_LEN_LIMB as nat);
    let a = x.value_spec() % w;
    let inv = inverse_of(a, w);
    lemma_inverse_of(a, w);
    lemma_decompose_exact(inv, n, l, b);
    assert(y.value_spec() == inv);
    lemma_small_mod(inv, w);
    assert forall|i: int| 0 <= i < l implies #[trigger] y.limb_values()[i] < n by {
        crate::limbs::lemma_decompose_index(inv, n, l, b, i as nat);
    }
    vstd::arithmetic::mul::lemma_mul_is_commutative(a as int, inv as int);
    assert((inv * a) % w == 1nat % w);
    crate::arith::lemma_is_inverse_of(inv, a, w);
    lemma_decompose_exact(a, n, l, b);
}

/// `a[0] * b[k] + a[1] * b[k - 1] + ...`, the first `m` terms.
spec fn convolution(a: Seq<nat>, b: Seq<nat>, k: int, m: int) -> int
    decreases m,
{
    if m <= 0 {
        0
    } else {
        convolution(a, b, k, m - 1) + a[m - 1] * b[k - (m - 1)]
    }
}

/// A column of `a * b + p * q` is the column of `a * b` plus that of `p * q`.
proof fn lemma_column_split(a: Seq<nat>, b: Seq<nat>, p: Seq<nat>, q: Seq<nat>, k: int, m: int)
    ensures
        column_sum(a, b, p, q, k, m) == convolution(a, b, k, m) + convolution(p, q, k, m),
    decreases m,
{
    if m > 0 {
        lemma_column_split(a, b, p, q, k, m - 1);
    }
}

/// The last `m` terms of column `k` of `a * b`, read from the other end, are
/// what the first `k + 1 - m` terms of `b * a` miss.
proof fn lemma_convolution_swap(a: Seq<nat>, b: Seq<nat>, k: int, m: int)
    requires
        0 <= m <= k + 1,
    ensures
        convolution(a, b, k, m) + convolution(b, a, k, k + 1 - m) == convolution(b, a, k, k + 1),
    decreases m,
{
    if m > 0 {
        lemma_convolution_swap(a, b, k, m - 1);
        let j = k - (m - 1);
        assert(convolution(b, a, k, k + 1 - (m - 1)) == convolution(b, a, k, k + 1 - m) + b[j] * a[k - j]);
        assert(k - j == m - 1);
        vstd::arithmetic::mul::lemma_mul_is_commutative(a[m - 1] as int, b[j] as int);
    }
}

/// Every column of `a * b + p * q` equals that of `b * a + p * q`.
proof fn lemma_column_commutes(a: Seq<nat>, b: Seq<nat>, p: Seq<nat>, q: Seq<nat>, k: int)
    requires
        k >= 0,
    ensures
        column_sum(a, b, p, q, k, k + 1) == column_sum(b, a, p, q, k, k + 1),
{
    lemma_column_split(a, b, p, q, k, k + 1);
    lemma_column_split(b, a, p, q, k, k + 1);
    lemma_convolution_swap(a, b, k, k + 1);
    assert(convolution(b, a, k, 0) == 0);
}

/// Multiplication commutes in everything it computes: `a * b` and `b * a`
/// have the same quotient, result and intermediate values, and one passes
/// the sanity check exactly when the other does.
pub proof fn lemma_mul_commutes<const NUMBER_OF_LIMBS: usize, const BIT_LEN_LIMB: usize>(
    a: &Integer<NUMBER_OF_LIMBS, BIT_LEN_LIMB>,
    b: &Integer<NUMBER_OF_LIMBS, BIT_LEN_LIMB>,
)
    requires
        a.wf(),
        b.context() == a.context(),
    ensures
        a.mul_parts(b) == b.mul_parts(a),
        a.mul_passes(b) == b.mul_passes(a),
{
    let ctx = a.context();
    let n = ctx.native_modulus@;
    let l = NUMBER_OF_LIMBS as nat;
    vstd::arithmetic::mul::lemma_mul_is_commutative(a.value_spec() as int, b.value_spec() as int);
    let q = a.mul_parts(b).0;
    assert(q == b.mul_parts(a).0);
    let p = crate::limbs::values(ctx.negative_wrong_modulus_decomposed@);
    let (al, bl) = (a.limb_values(), b.limb_values());
    assert forall|k: int| 0 <= k < l implies #[trigger] mul_intermediate(al, bl, p, q, n, l)[k]
        == mul_intermediate(bl, al, p, q, n, l)[k] by {
        lemma_column_commutes(al, bl, p, q, k);
        assert(mul_intermediate(al, bl, p, q, n, l)[k] == column_sum(al, bl, p, q, k, k + 1) % n);
        assert(mul_intermediate(bl, al, p, q, n, l)[k] == column_sum(bl, al, p, q, k, k + 1) % n);
    }
    assert(mul_intermediate(al, bl, p, q, n, l) =~= mul_intermediate(bl, al, p, q, n, l));
}

/// The witnesses of `a * b` and of `b * a` hold the same values.
pub proof fn lemma_mul_witnesses_commute<const NUMBER_OF_LIMBS: usize, const BIT_LEN_LIMB: usize>(
    a: &Integer<NUMBER_OF_LIMBS, BIT_LEN_LIMB>,
    b: &Integer<NUMBER_OF_LIMBS, BIT_LEN_LIMB>,
    x: ReductionWitness<NUMBER_OF_LIMBS, BIT_LEN_LIMB>,
    y: ReductionWitness<NUMBER_OF_LIMBS, BIT_LEN_LIMB>,
)
    requires
        a.wf(),
        b.context() == a.context(),
        a.is_mul_witness(b, x),
        b.is_mul_witness(a, y),
    ensures
        x.same_mul_values(&y),
{
    lemma_mul_commutes(a, b);
}

/// Squaring gives what multiplying by itself gives, value for value; and
/// the result puts back together to the square modulo the wrong modulus
/// whenever the quotient fits in the limbs and no limb is reduced by the
/// native field.
pub proof fn lemma_square_is_mul<const NUMBER_OF_LIMBS: usize, const BIT_LEN_LIMB: usize>(
    a: &Integer<NUMBER_OF_LIMBS, BIT_LEN_LIMB>,
    s: ReductionWitness<NUMBER_OF_LIMBS, BIT_LEN_LIMB>,
    m: ReductionWitness<NUMBER_OF_LIMBS, BIT_LEN_LIMB>,
)
    requires
        a.wf(),
        a.is_mul_witness(a, s),
        a.is_mul_witness(a, m),
    ensures
        s.same_mul_values(&m),
        pow2(BIT_LEN_LIMB as nat) <= a.context().native_modulus@ && a.context().wrong_modulus@ <= pow2(
            NUMBER_OF_LIMBS as nat * BIT_LEN_LIMB as nat,
        ) && (a.value_spec() * a.value_spec()) / a.context().wrong_modulus@ < pow2(
            NUMBER_OF_LIMBS as nat * BIT_LEN_LIMB as nat,
        ) ==> compose_value(s.result.limb_values(), BIT_LEN_LIMB as nat) == (a.value_spec()
            * a.value_spec()) % a.context().wrong_modulus@,
{
    if pow2(BIT_LEN_LIMB as nat) <= a.context().native_modulus@ && a.context().wrong_modulus@ <= pow2(
        NUMBER_OF_LIMBS as nat * BIT_LEN_LIMB as nat,
    ) && (a.value_spec() * a.value_spec()) / a.context().wrong_modulus@ < pow2(
        NUMBER_OF_LIMBS as nat * BIT_LEN_LIMB as nat,
    ) {
        crate::laws::lemma_mul_witness(a, a);
    }
}

} // verus!
