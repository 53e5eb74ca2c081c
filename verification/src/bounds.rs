//! What the bounds of a constructed system mean: bit lengths that cover
//! every value they are meant for, top limbs that hold their bound, base
//! auxiliary limbs of the right size, and the residue check of a reduction.
use crate::big::nbits;
use crate::construct::{accepts, expected_view, usize_of};
use crate::identities::{lemma_accepts_bounds, lemma_shifter_is_power};
use crate::limbs::{compose_value, lemma_and_low_mask, limb_of};
use crate::rns::{Common, Integer, Rns};
use vstd::arithmetic::div_mod::{lemma_fundamental_div_mod, lemma_small_mod};
use vstd::arithmetic::power2::{lemma_pow2_adds, lemma_pow2_pos, pow2};
use vstd::prelude::*;

verus! {

/// A number is below two to the power of its bit length.
pub proof fn lemma_below_nbits(x: nat)
    ensures
        x < pow2(nbits(x)),
    decreases x,
{
    if x == 0 {
        vstd::arithmetic::power2::lemma2_to64();
    } else {
        lemma_below_nbits(x / 2);
        vstd::arithmetic::power2::lemma_pow2_unfold(nbits(x));
    }
}

/// A number below `2^k` has at most `k` bits.
pub proof fn lemma_nbits_at_most(x: nat, k: nat)
    requires
        x < pow2(k),
    ensures
        nbits(x) <= k,
    decreases k,
{
    if x > 0 {
        if k == 0 {
            vstd::arithmetic::power2::lemma2_to64();
        } else {
            vstd::arithmetic::power2::lemma_pow2_unfold(k);
            lemma_nbits_at_most(x / 2, (k - 1) as nat);
        }
    }
}

/// `2^j <= 2^k` when `j <= k`.
proof fn lemma_pow2_le(j: nat, k: nat)
    requires
        j <= k,
    ensures
        pow2(j) <= pow2(k),
{
    if j < k {
        vstd::arithmetic::power2::lemma_pow2_strictly_increases(j, k);
    }
}

/// Fewer than `k` bits means below `2^k`... and back: `nbits(x) <= k` exactly
/// when `x < 2^k`.
pub proof fn lemma_nbits_iff(x: nat, k: nat)
    ensures
        nbits(x) <= k <==> x < pow2(k),
{
    if nbits(x) <= k {
        lemma_below_nbits(x);
        lemma_pow2_le(nbits(x), k);
    }
    if x < pow2(k) {
        lemma_nbits_at_most(x, k);
    }
}

/// `x` lies between `d` times its quotient by `d` and `d` times one more.
proof fn lemma_div_bracket(x: nat, d: nat)
    requires
        d > 0,
    ensures
        (x / d) * d <= x,
        x < (x / d + 1) * d,
{
    lemma_fundamental_div_mod(x as int, d as int);
    let q = (x / d) as int;
    let m = (x % d) as int;
    assert(q * (d as int) <= x < (q + 1) * (d as int)) by (nonlinear_arith)
        requires
            x as int == (d as int) * q + m,
            0 <= m < d as int,
    ;
}

/// The top limbs of a constructed system hold their bounds: each is the
/// bound divided by `2^(3b)`, so every number up to the bound has a top limb
/// no larger.
pub proof fn lemma_top_limbs<const NUMBER_OF_LIMBS: usize, const BIT_LEN_LIMB: usize>(
    r: &Rns<NUMBER_OF_LIMBS, BIT_LEN_LIMB>,
)
    requires
        NUMBER_OF_LIMBS == 4,
        r@ == expected_view(r.wrong_modulus@, r.native_modulus@, 4, BIT_LEN_LIMB as nat),
    ensures
        ({
            let v = r@;
            let d = pow2(3 * BIT_LEN_LIMB as nat);
            &&& v.max_most_significant_mul_quotient_limb * d <= v.max_mul_quotient
            &&& v.max_mul_quotient < (v.max_most_significant_mul_quotient_limb + 1) * d
            &&& v.max_most_significant_operand_limb * d <= v.max_operand
            &&& v.max_operand < (v.max_most_significant_operand_limb + 1) * d
            &&& v.max_most_significant_reduced_limb * d <= v.max_remainder
            &&& v.max_remainder < (v.max_most_significant_reduced_limb + 1) * d
        }),
{
    let v = r@;
    let b = BIT_LEN_LIMB as nat;
    let d = pow2(3 * b);
    assert(((4 - 1) * b) as nat == 3 * b);
    lemma_pow2_pos(3 * b);
    lemma_div_bracket(v.max_mul_quotient, d);
    lemma_div_bracket(v.max_operand, d);
    lemma_div_bracket(v.max_remainder, d);
}

/// The residue check of a reduction over a constructed system refuses
/// exactly the intermediate values whose residues are not both multiples of
/// `2^(2b)`: the lower residue `u_0`, and the upper residue with the lower
/// one carried into it, `u_0 2^(-2b) + u_1`; and the residues it returns are
/// those differences and their carries.
pub proof fn lemma_checked_residues<const NUMBER_OF_LIMBS: usize, const BIT_LEN_LIMB: usize>(
    x: &Integer<NUMBER_OF_LIMBS, BIT_LEN_LIMB>,
    t: Seq<nat>,
    res: Option<(crate::big::Big, crate::big::Big, crate::big::Big, crate::big::Big)>,
)
    requires
        x.wf(),
        NUMBER_OF_LIMBS >= 4,
        t.len() >= 4,
        x.context()@ == expected_view(
            x.context().wrong_modulus@,
            x.context().native_modulus@,
            NUMBER_OF_LIMBS as nat,
            BIT_LEN_LIMB as nat,
        ),
        res is Some <==> x.residues_pass_for(t),
        res matches Some(y) ==> (y.0@, y.1@, y.2@, y.3@) == x.residues_for(t),
    ensures
        ({
            let ctx = x.context();
            let n = ctx.native_modulus@;
            let s = ctx.left_shifter_r@;
            let rs2 = ctx.right_shifter_2r@;
            let r = x.limb_values();
            let k = pow2(2 * BIT_LEN_LIMB as nat);
            let u_0 = ((t[0] + s * t[1] - r[0] - s * r[1]) % (n as int)) as nat;
            let u_1 = ((t[2] + s * t[3] - r[2] - s * r[3]) % (n as int)) as nat;
            &&& res is Some <==> (u_0 % k == 0 && ((u_0 * rs2 + u_1) % n) % k == 0)
            &&& res matches Some(y) ==> {
                &&& y.0@ == u_0
                &&& y.1@ == u_1
                &&& y.2@ == (u_0 * rs2) % n
                &&& y.3@ == ((u_1 + y.2@) * rs2) % n
            }
        }),
{
    let ctx = x.context();
    let n = ctx.native_modulus@;
    let s = ctx.left_shifter_r@;
    let rs2 = ctx.right_shifter_2r@;
    let r = x.limb_values();
    let b = BIT_LEN_LIMB as nat;
    let u_0 = ((t[0] + s * t[1] - r[0] - s * r[1]) % (n as int)) as nat;
    let u_1 = ((t[2] + s * t[3] - r[2] - s * r[3]) % (n as int)) as nat;
    assert(ctx.two_limb_mask@ == (pow2(2 * b) - 1) as nat);
    lemma_and_low_mask(u_0, 2 * b);
    lemma_and_low_mask((u_0 * rs2 + u_1) % n, 2 * b);
}

/// The base auxiliary limbs that `calculate_base_aux` computes for `l`
/// limbs of `b` bits, when a limb is a native element, are twice the limbs
/// of the wrong modulus, where a lower limb is lent `2^b` only when twice its
/// limb is below `2^b`: so every limb below the top one lies in
/// `[2^b - 1, 2^(b+1))`, and when every doubled lower limb already reaches
/// `2^b` the limbs are exactly those of `2 w`.
pub proof fn lemma_base_aux_limbs_of(w: nat, n: nat, l: nat, b: nat)
    requires
        pow2(b) < n,
        b < usize::MAX,
    ensures
        ({
            let aux = crate::construct::base_aux_of(w, n, crate::construct::left_shifter_r_of(n, b), l, b);
            &&& aux.len() == l
            &&& forall|j: int| 0 <= j < l - 1 ==> pow2(b) <= #[trigger] aux[j] + 1 && aux[j] < pow2(b + 1)
            &&& (forall|j: nat| j + 1 < l ==> #[trigger] (2 * limb_of(w, b, j)) >= pow2(b)) ==> forall|j: int|
                0 <= j < l ==> #[trigger] aux[j] == 2 * limb_of(w, b, j as nat)
        }),
{
    let e = pow2(b);
    lemma_shifter_is_power(b, n);
    lemma_small_mod(e, n);
    let rv = crate::construct::left_shifter_r_of(n, b);
    assert(rv == e);
    lemma_pow2_adds(b, 1);
    vstd::arithmetic::power2::lemma2_to64();
    assert(pow2(b + 1) == 2 * e);
    lemma_pow2_pos(b);
    assert forall|j: nat| j < l implies #[trigger] crate::construct::doubled_limb(w, n, b, j) == 2 * limb_of(
        w,
        b,
        j,
    ) && limb_of(w, b, j) < e by {
        vstd::arithmetic::div_mod::lemma_mod_bound((w / pow2(j * b)) as int, e as int);
        lemma_small_mod(limb_of(w, b, j), n);
    }
    assert forall|j: nat| j < l implies #[trigger] crate::construct::aux_borrows(w, n, l, b, j) == (j + 1 < l
        && 2 * limb_of(w, b, j) < e) by {
        let d = crate::construct::doubled_limb(w, n, b, j);
        lemma_nbits_iff(d, b + 1);
        lemma_nbits_iff(d, b);
        assert(nbits(d) <= b + 1);
        assert(usize_of(nbits(d)) == nbits(d));
    }
    let aux = crate::construct::base_aux_of(w, n, rv, l, b);
    assert forall|j: int| 0 <= j < l - 1 implies pow2(b) <= #[trigger] aux[j] + 1 && aux[j] < pow2(b + 1) by {
        let jn = j as nat;
        assert(aux[j] == crate::construct::aux_limb(w, n, e, l, b, jn) as nat);
        assert(crate::construct::doubled_limb(w, n, b, jn) == 2 * limb_of(w, b, jn));
        assert(limb_of(w, b, jn) < e);
        if jn >= 1 {
            assert(crate::construct::aux_borrows(w, n, l, b, (jn - 1) as nat) == (jn < l && 2 * limb_of(
                w,
                b,
                (jn - 1) as nat,
            ) < e));
        }
    }
    if forall|j: nat| j + 1 < l ==> #[trigger] (2 * limb_of(w, b, j)) >= pow2(b) {
        assert forall|j: int| 0 <= j < l implies #[trigger] aux[j] == 2 * limb_of(w, b, j as nat) by {
            let jn = j as nat;
            assert(crate::construct::doubled_limb(w, n, b, jn) == 2 * limb_of(w, b, jn));
            if jn + 1 < l {
                assert(2 * limb_of(w, b, jn) >= pow2(b));
            }
            if jn >= 1 {
                let i = (jn - 1) as nat;
                assert(2 * limb_of(w, b, i) >= pow2(b));
                assert(!crate::construct::aux_borrows(w, n, l, b, i));
            }
        }
    }
}

/// The base auxiliary limbs of a constructed system, as
/// `lemma_base_aux_limbs_of` describes them: every limb below the top one in
/// `[2^b - 1, 2^(b+1))`, and exactly the limbs of `2 w` when every doubled
/// lower limb of `w` already reaches `2^b`.
pub proof fn lemma_base_aux_limbs<const NUMBER_OF_LIMBS: usize, const BIT_LEN_LIMB: usize>(
    r: &Rns<NUMBER_OF_LIMBS, BIT_LEN_LIMB>,
)
    requires
        NUMBER_OF_LIMBS == 4,
        BIT_LEN_LIMB <= usize::MAX / 4,
        accepts(r.wrong_modulus@, r.native_modulus@, 4, BIT_LEN_LIMB as nat),
        r@ == expected_view(r.wrong_modulus@, r.native_modulus@, 4, BIT_LEN_LIMB as nat),
    ensures
        ({
            let b = BIT_LEN_LIMB as nat;
            let w = r.wrong_modulus@;
            let aux = r@.base_aux;
            &&& aux.len() == 4
            &&& forall|j: int| 0 <= j < 3 ==> pow2(b) <= #[trigger] aux[j] + 1 && aux[j] < pow2(b + 1)
            &&& (forall|j: nat| j < 3 ==> #[trigger] (2 * limb_of(w, b, j)) >= pow2(b)) ==> forall|j: int|
                0 <= j < 4 ==> #[trigger] aux[j] == 2 * limb_of(w, b, j as nat)
        }),
{
    let b = BIT_LEN_LIMB as nat;
    let w = r.wrong_modulus@;
    let n = r.native_modulus@;
    lemma_accepts_bounds(w, n, b);
    lemma_base_aux_limbs_of(w, n, 4, b);
    if forall|j: nat| j < 3 ==> #[trigger] (2 * limb_of(w, b, j)) >= pow2(b) {
        assert(forall|j: nat| j + 1 < 4 ==> #[trigger] (2 * limb_of(w, b, j)) >= pow2(b));
    }
}

/// Products of numbers below two bounds are below the product of the bounds.
proof fn lemma_prod_lt(x: nat, y: nat, bx: nat, by: nat)
    requires
        x < bx,
        y < by,
    ensures
        x * y < bx * by,
{
    assert(x * y < bx * by) by (nonlinear_arith)
        requires
            x < bx,
            y < by,
    ;
}

/// The four lowest columns of `a * a + p * q` for four limbs.
proof fn lemma_emul4(a: Seq<nat>, p: Seq<nat>, q: Seq<nat>)
    requires
        a.len() == 4,
        p.len() == 4,
        q.len() == 4,
    ensures
        crate::construct::emul_column(a, a, p, q, 0, 4, 4) == a[0] * a[0] + p[0] * q[0],
        crate::construct::emul_column(a, a, p, q, 1, 4, 4) == a[0] * a[1] + p[0] * q[1] + (a[1] * a[0] + p[1]
            * q[0]),
        crate::construct::emul_column(a, a, p, q, 2, 4, 4) == a[0] * a[2] + p[0] * q[2] + (a[1] * a[1] + p[1]
            * q[1]) + (a[2] * a[0] + p[2] * q[0]),
        crate::construct::emul_column(a, a, p, q, 3, 4, 4) == a[0] * a[3] + p[0] * q[3] + (a[1] * a[2] + p[1]
            * q[2]) + (a[2] * a[1] + p[2] * q[1]) + (a[3] * a[0] + p[3] * q[0]),
{
    reveal_with_fuel(crate::construct::emul_column, 5);
}

/// The limbs of `2^(4b) - w` in a constructed system are below `2^b`.
proof fn lemma_negative_limbs<const NUMBER_OF_LIMBS: usize, const BIT_LEN_LIMB: usize>(
    r: &Rns<NUMBER_OF_LIMBS, BIT_LEN_LIMB>,
)
    requires
        NUMBER_OF_LIMBS == 4,
        accepts(r.wrong_modulus@, r.native_modulus@, 4, BIT_LEN_LIMB as nat),
        r@ == expected_view(r.wrong_modulus@, r.native_modulus@, 4, BIT_LEN_LIMB as nat),
    ensures
        r@.negative_wrong_modulus_decomposed.len() == 4,
        forall|i: int| 0 <= i < 4 ==> #[trigger] r@.negative_wrong_modulus_decomposed[i] < pow2(
            BIT_LEN_LIMB as nat,
        ),
{
    let b = BIT_LEN_LIMB as nat;
    let w = r.wrong_modulus@;
    let n = r.native_modulus@;
    lemma_accepts_bounds(w, n, b);
    lemma_pow2_pos(b);
    let x = (pow2(4 * b) - w) as nat;
    assert forall|i: int| 0 <= i < 4 implies #[trigger] r@.negative_wrong_modulus_decomposed[i] < pow2(b) by {
        assert(r@.negative_wrong_modulus_decomposed[i] == limb_of(x, b, i as nat) % n);
        vstd::arithmetic::div_mod::lemma_mod_bound((x / pow2((i as nat) * b)) as int, pow2(b) as int);
        lemma_small_mod(limb_of(x, b, i as nat), n);
    }
}

/// The carries of the largest multiplication are small: below `2^(b+3)`
/// and `2^(2b+5)`, for limbs below `2^b` and a top quotient limb below
/// `2^(2b)`.
proof fn lemma_mul_carries_small(e: nat, m: nat, p: Seq<nat>, a3: nat, q3: nat)
    requires
        e >= 1,
        m < e,
        p.len() == 4,
        p[0] < e,
        p[1] < e,
        p[2] < e,
        p[3] < e,
        a3 < e,
        q3 < e * e,
    ensures
        ({
            let e2 = e * e;
            let c0 = m * m + p[0] * m;
            let c1 = m * m + p[0] * m + (m * m + p[1] * m);
            let c2 = m * m + p[0] * m + (m * m + p[1] * m) + (m * m + p[2] * m);
            let c3 = m * a3 + p[0] * q3 + (m * m + p[1] * m) + (m * m + p[2] * m) + (a3 * m + p[3] * m);
            let v0 = (c0 + c1 * e) / e2;
            let v1 = (c2 + c3 * e + v0) / e2;
            v0 < 8 * e && v1 < 32 * e2
        }),
{
    let e2 = e * e;
    let e3 = e2 * e;
    let e4 = e2 * e2;
    let (p0, p1, p2, p3) = (p[0], p[1], p[2], p[3]);
    lemma_prod_lt(m, m, e, e);
    lemma_prod_lt(p0, m, e, e);
    lemma_prod_lt(p1, m, e, e);
    lemma_prod_lt(p2, m, e, e);
    lemma_prod_lt(p3, m, e, e);
    lemma_prod_lt(m, a3, e, e);
    lemma_prod_lt(a3, m, e, e);
    lemma_prod_lt(p0, q3, e, e2);
    assert(e4 == e3 * e) by (nonlinear_arith)
        requires
            e3 == e2 * e,
            e4 == e2 * e2,
            e2 == e * e,
    ;
    assert(e2 <= e3 && e3 <= e4 && e <= e2) by (nonlinear_arith)
        requires
            e3 == e2 * e,
            e4 == e2 * e2,
            e2 == e * e,
            e >= 1,
    ;
    let c0 = m * m + p0 * m;
    let c1 = m * m + p0 * m + (m * m + p1 * m);
    let c2 = m * m + p0 * m + (m * m + p1 * m) + (m * m + p2 * m);
    let c3 = m * a3 + p0 * q3 + (m * m + p1 * m) + (m * m + p2 * m) + (a3 * m + p3 * m);
    assert(c0 < 2 * e2 && c1 < 4 * e2 && c2 < 6 * e2 && c3 < 8 * e3);
    assert(c1 * e <= 4 * e3 && c3 * e <= 8 * e4) by (nonlinear_arith)
        requires
            c1 < 4 * e2,
            c3 < 8 * e3,
            e3 == e2 * e,
            e4 == e3 * e,
    ;
    let u0 = c0 + c1 * e;
    assert(u0 < 8 * e3);
    let v0 = u0 / e2;
    assert(v0 < 8 * e) by (nonlinear_arith)
        requires
            v0 == u0 / e2,
            u0 < 8 * e3,
            e3 == e2 * e,
            e2 >= 1,
    ;
    let u1 = c2 + c3 * e + v0;
    assert(u1 < 32 * e4);
    assert(u1 / e2 < 32 * e2) by (nonlinear_arith)
        requires
            u1 < 32 * e4,
            e4 == e2 * e2,
            e2 >= 1,
    ;
}

/// The bit lengths of the carries of a multiplication in a constructed
/// system are those of the carries of the largest multiplication, and at
/// least `b`: the carry `v_0` out of the number that the two lowest columns
/// of `a * a + p * q` represent, `c_0 + 2^b c_1`, and the carry `v_1` out of
/// `c_2 + 2^b c_3 + v_0`, where every limb of `a` and `q` is `2^b - 1` but
/// the top ones, which are the top limbs of the largest operand and the
/// largest quotient, and `p` are the limbs of `2^(4b) - w`.
pub proof fn lemma_mul_carry_bit_lens<const NUMBER_OF_LIMBS: usize, const BIT_LEN_LIMB: usize>(
    r: &Rns<NUMBER_OF_LIMBS, BIT_LEN_LIMB>,
)
    requires
        NUMBER_OF_LIMBS == 4,
        BIT_LEN_LIMB <= usize::MAX / 4,
        accepts(r.wrong_modulus@, r.native_modulus@, 4, BIT_LEN_LIMB as nat),
        r@ == expected_view(r.wrong_modulus@, r.native_modulus@, 4, BIT_LEN_LIMB as nat),
    ensures
        ({
            let b = BIT_LEN_LIMB as nat;
            let v = r@;
            let p = v.negative_wrong_modulus_decomposed;
            let e = pow2(b);
            let e2 = pow2(2 * b);
            let m = (e - 1) as nat;
            let a3 = v.max_operand / pow2(3 * b);
            let q3 = v.max_mul_quotient / pow2(3 * b);
            let c0 = m * m + p[0] * m;
            let c1 = m * m + p[0] * m + (m * m + p[1] * m);
            let c2 = m * m + p[0] * m + (m * m + p[1] * m) + (m * m + p[2] * m);
            let c3 = m * a3 + p[0] * q3 + (m * m + p[1] * m) + (m * m + p[2] * m) + (a3 * m + p[3] * m);
            let v0 = (c0 + c1 * e) / e2;
            let v1 = (c2 + c3 * e + v0) / e2;
            &&& v.mul_v0_bit_len == crate::construct::max_nat(nbits(v0), b)
            &&& v.mul_v1_bit_len == crate::construct::max_nat(nbits(v1), b)
        }),
{
    let b = BIT_LEN_LIMB as nat;
    let w = r.wrong_modulus@;
    let n = r.native_modulus@;
    let v = r@;
    let p = v.negative_wrong_modulus_decomposed;
    let e = pow2(b);
    let e2 = pow2(2 * b);
    let e3 = pow2(3 * b);
    let e4 = pow2(4 * b);
    let m = (e - 1) as nat;
    lemma_accepts_bounds(w, n, b);
    lemma_negative_limbs(r);
    lemma_pow2_pos(b);
    lemma_top_bounds(w, n, b);
    let a3 = v.max_operand / e3;
    let q3 = v.max_mul_quotient / e3;
    assert(((4 - 1) * b) as nat == 3 * b);
    // the columns of the largest multiplication
    let aa = seq![m, m, m, crate::construct::most_significant(v.max_operand, 4, b)];
    let qq = seq![m, m, m, crate::construct::most_significant(v.max_mul_quotient, 4, b)];
    assert(aa[3] == a3 && qq[3] == q3);
    lemma_emul4(aa, p, qq);
    let c0 = m * m + p[0] * m;
    let c1 = m * m + p[0] * m + (m * m + p[1] * m);
    let c2 = m * m + p[0] * m + (m * m + p[1] * m) + (m * m + p[2] * m);
    let c3 = m * a3 + p[0] * q3 + (m * m + p[1] * m) + (m * m + p[2] * m) + (a3 * m + p[3] * m);
    let cols = Seq::new(7, |k: int| crate::construct::emul_column(aa, aa, p, qq, k, 4, 4));
    assert(cols[0] == c0 && cols[1] == c1 && cols[2] == c2 && cols[3] == c3);
    let v0 = (c0 + c1 * e) / e2;
    let v1 = (c2 + c3 * e + v0) / e2;
    assert(crate::construct::mul_carries_of(w, n, 4, b) == (v0, v1));
    // both carries have few enough bits to be counted in a usize
    lemma_mul_carries_small(e, m, p, a3, q3);
    vstd::arithmetic::power2::lemma2_to64();
    lemma_bit_len_fits(v0, b, 3);
    lemma_bit_len_fits(v1, 2 * b, 5);
}

/// The top limbs of the largest operand and quotient of a constructed
/// system: below `2^b` and `2^(2b)`.
proof fn lemma_top_bounds(w: nat, n: nat, b: nat)
    requires
        accepts(w, n, 4, b),
    ensures
        ({
            let v = expected_view(w, n, 4, b);
            &&& v.max_operand / pow2(3 * b) < pow2(b)
            &&& v.max_mul_quotient / pow2(3 * b) < pow2(b) * pow2(b)
            &&& pow2(2 * b) == pow2(b) * pow2(b)
            &&& pow2(3 * b) == pow2(2 * b) * pow2(b)
        }),
{
    let v = expected_view(w, n, 4, b);
    let e = pow2(b);
    let e2 = pow2(2 * b);
    let e3 = pow2(3 * b);
    let e4 = pow2(4 * b);
    lemma_accepts_bounds(w, n, b);
    lemma_pow2_pos(b);
    lemma_pow2_adds(b, b);
    lemma_pow2_adds(2 * b, b);
    lemma_pow2_adds(3 * b, b);
    assert(b + b == 2 * b && 2 * b + b == 3 * b && 3 * b + b == 4 * b);
    let mo = v.max_operand;
    let mq = v.max_mul_quotient;
    assert(mo * mo < e4 * n);
    assert(mo < e4) by (nonlinear_arith)
        requires
            mo * mo < e4 * n,
            n < e4,
    ;
    assert(mq * w < e4 * n);
    assert(mq < e4 * e) by (nonlinear_arith)
        requires
            mq * w < e4 * n,
            n < e4,
            e3 < w,
            e4 == e3 * e,
            e >= 1,
    ;
    assert(mo / e3 < e) by (nonlinear_arith)
        requires
            mo < e4,
            e4 == e3 * e,
            e3 >= 1,
    ;
    assert(mq / e3 < e * e) by (nonlinear_arith)
        requires
            mq < e4 * e,
            e4 == e3 * e,
            e3 >= 1,
    ;
}

/// A number below `2^(k + c)`, with `k` at most half a `usize`, has a bit
/// length that a `usize` holds.
proof fn lemma_bit_len_fits(x: nat, k: nat, c: nat)
    requires
        k <= usize::MAX / 2,
        c <= 8,
        x < pow2(c) * pow2(k),
    ensures
        usize_of(nbits(x)) == nbits(x),
        nbits(x) <= k + c,
{
    lemma_pow2_adds(c, k);
    lemma_nbits_at_most(x, c + k);
}

/// Products of numbers within two bounds are within the product of the bounds.
proof fn lemma_prod_le(x: nat, y: nat, bx: nat, by: nat)
    requires
        x <= bx,
        y <= by,
    ensures
        x * y <= bx * by,
{
    assert(x * y <= bx * by) by (nonlinear_arith)
        requires
            x <= bx,
            y <= by,
    ;
}

/// A number no larger than `x_max` is below `2^k` when `k` is at least the
/// bit length of `x_max`.
proof fn lemma_covered(x: nat, x_max: nat, k: nat)
    requires
        x <= x_max,
        nbits(x_max) <= k,
    ensures
        x < pow2(k),
{
    lemma_below_nbits(x_max);
    lemma_pow2_le(nbits(x_max), k);
}

/// The bit length `mul_v0_bit_len` of a constructed system covers the carry
/// of every multiplication: for all limbs `a_0, a_1` of an operand and
/// `q_0, q_1` of a quotient below `2^b`, the carry out of the number that the
/// two lowest columns of `a * a + p * q` represent, `c_0 + 2^b c_1`, is below
/// `2^mul_v0_bit_len`.
pub proof fn lemma_mul_v0_covers<const NUMBER_OF_LIMBS: usize, const BIT_LEN_LIMB: usize>(
    r: &Rns<NUMBER_OF_LIMBS, BIT_LEN_LIMB>,
    a0: nat,
    a1: nat,
    q0: nat,
    q1: nat,
)
    requires
        NUMBER_OF_LIMBS == 4,
        BIT_LEN_LIMB <= usize::MAX / 4,
        accepts(r.wrong_modulus@, r.native_modulus@, 4, BIT_LEN_LIMB as nat),
        r@ == expected_view(r.wrong_modulus@, r.native_modulus@, 4, BIT_LEN_LIMB as nat),
        a0 < pow2(BIT_LEN_LIMB as nat),
        a1 < pow2(BIT_LEN_LIMB as nat),
        q0 < pow2(BIT_LEN_LIMB as nat),
        q1 < pow2(BIT_LEN_LIMB as nat),
    ensures
        ({
            let b = BIT_LEN_LIMB as nat;
            let p = r@.negative_wrong_modulus_decomposed;
            let c0 = a0 * a0 + p[0] * q0;
            let c1 = a0 * a1 + p[0] * q1 + (a1 * a0 + p[1] * q0);
            (c0 + c1 * pow2(b)) / pow2(2 * b) < pow2(r@.mul_v0_bit_len)
        }),
{
    let b = BIT_LEN_LIMB as nat;
    let p = r@.negative_wrong_modulus_decomposed;
    let e = pow2(b);
    let e2 = pow2(2 * b);
    let m = (e - 1) as nat;
    lemma_mul_carry_bit_lens(r);
    lemma_pow2_pos(b);
    lemma_pow2_pos(2 * b);
    lemma_prod_le(a0, a0, m, m);
    lemma_prod_le(a0, a1, m, m);
    lemma_prod_le(a1, a0, m, m);
    lemma_prod_le(p[0], q0, p[0], m);
    lemma_prod_le(p[0], q1, p[0], m);
    lemma_prod_le(p[1], q0, p[1], m);
    let c0 = a0 * a0 + p[0] * q0;
    let c1 = a0 * a1 + p[0] * q1 + (a1 * a0 + p[1] * q0);
    let mc0 = m * m + p[0] * m;
    let mc1 = m * m + p[0] * m + (m * m + p[1] * m);
    lemma_prod_le(c1, e, mc1, e);
    vstd::arithmetic::div_mod::lemma_div_is_ordered((c0 + c1 * e) as int, (mc0 + mc1 * e) as int, e2 as int);
    let v0 = (mc0 + mc1 * e) / e2;
    lemma_covered((c0 + c1 * e) / e2, v0, r@.mul_v0_bit_len);
}

/// The bit lengths of the carries of a reduction in a constructed system
/// are those of the carries of the largest reduction whose quotient fits one
/// limb, and at least `b`: every limb is the largest unreduced limb
/// `2^(b + b/2) - 1`, the quotient is `2^b - 1`, the intermediate values are
/// `t_i = a_i + q p_i` with `p` the limbs of `2^(4b) - w`, `v_0` is the carry
/// out of `t_0 + 2^b t_1` and `v_1` the carry out of `t_2 + 2^b t_3 + v_0`.
pub proof fn lemma_red_carry_bit_lens<const NUMBER_OF_LIMBS: usize, const BIT_LEN_LIMB: usize>(
    r: &Rns<NUMBER_OF_LIMBS, BIT_LEN_LIMB>,
)
    requires
        NUMBER_OF_LIMBS == 4,
        BIT_LEN_LIMB <= usize::MAX / 4,
        accepts(r.wrong_modulus@, r.native_modulus@, 4, BIT_LEN_LIMB as nat),
        r@ == expected_view(r.wrong_modulus@, r.native_modulus@, 4, BIT_LEN_LIMB as nat),
    ensures
        ({
            let b = BIT_LEN_LIMB as nat;
            let v = r@;
            let p = v.negative_wrong_modulus_decomposed;
            let e = pow2(b);
            let e2 = pow2(2 * b);
            let q = (e - 1) as nat;
            let a = (pow2(b + b / 2) - 1) as nat;
            let t0 = a + q * p[0];
            let t1 = a + q * p[1];
            let t2 = a + q * p[2];
            let t3 = a + q * p[3];
            let v0 = (t0 + t1 * e) / e2;
            let v1 = (t2 + t3 * e + v0) / e2;
            &&& v.red_v0_bit_len == crate::construct::max_nat(nbits(v0), b)
            &&& v.red_v1_bit_len == crate::construct::max_nat(nbits(v1), b)
        }),
{
    let b = BIT_LEN_LIMB as nat;
    let w = r.wrong_modulus@;
    let n = r.native_modulus@;
    let v = r@;
    let p = v.negative_wrong_modulus_decomposed;
    let e = pow2(b);
    let e2 = pow2(2 * b);
    let q = (e - 1) as nat;
    let a = (pow2(b + b / 2) - 1) as nat;
    lemma_accepts_bounds(w, n, b);
    lemma_negative_limbs(r);
    lemma_pow2_pos(b);
    lemma_pow2_pos(b + b / 2);
    lemma_top_bounds(w, n, b);
    let ts = Seq::new(4, |i: int| crate::construct::red_limbs_of(b)[i] + crate::construct::max_reduced_limb_of(b) * p[i]);
    let t0 = a + q * p[0];
    let t1 = a + q * p[1];
    let t2 = a + q * p[2];
    let t3 = a + q * p[3];
    assert(ts[0] == t0 && ts[1] == t1 && ts[2] == t2 && ts[3] == t3);
    let v0 = (t0 + t1 * e) / e2;
    let v1 = (t2 + t3 * e + v0) / e2;
    assert(crate::construct::red_carries_of(w, n, 4, b) == (v0, v1));
    lemma_pow2_le(b + b / 2, 2 * b);
    lemma_red_carries_small(e, q, a, p);
    vstd::arithmetic::power2::lemma2_to64();
    lemma_bit_len_fits(v0, b, 3);
    lemma_bit_len_fits(v1, b, 3);
}

/// The carries of the largest reduction are below `2^(b+3)`.
proof fn lemma_red_carries_small(e: nat, q: nat, a: nat, p: Seq<nat>)
    requires
        e >= 1,
        q < e,
        a < e * e,
        p.len() == 4,
        p[0] < e,
        p[1] < e,
        p[2] < e,
        p[3] < e,
    ensures
        ({
            let e2 = e * e;
            let t0 = a + q * p[0];
            let t1 = a + q * p[1];
            let t2 = a + q * p[2];
            let t3 = a + q * p[3];
            let v0 = (t0 + t1 * e) / e2;
            let v1 = (t2 + t3 * e + v0) / e2;
            v0 < 8 * e && v1 < 8 * e
        }),
{
    let e2 = e * e;
    let e3 = e2 * e;
    lemma_prod_lt(q, p[0], e, e);
    lemma_prod_lt(q, p[1], e, e);
    lemma_prod_lt(q, p[2], e, e);
    lemma_prod_lt(q, p[3], e, e);
    let t0 = a + q * p[0];
    let t1 = a + q * p[1];
    let t2 = a + q * p[2];
    let t3 = a + q * p[3];
    assert(t1 * e <= 2 * e3 && t3 * e <= 2 * e3) by (nonlinear_arith)
        requires
            t1 < 2 * e2,
            t3 < 2 * e2,
            e3 == e2 * e,
    ;
    assert(e <= e2 && e2 <= e3) by (nonlinear_arith)
        requires
            e2 == e * e,
            e3 == e2 * e,
            e >= 1,
    ;
    let u0 = t0 + t1 * e;
    assert(u0 < 4 * e3);
    let v0 = u0 / e2;
    assert(v0 < 4 * e) by (nonlinear_arith)
        requires
            v0 == u0 / e2,
            u0 < 4 * e3,
            e3 == e2 * e,
            e2 >= 1,
    ;
    let u1 = t2 + t3 * e + v0;
    assert(u1 < 8 * e3);
    assert(u1 / e2 < 8 * e) by (nonlinear_arith)
        requires
            u1 < 8 * e3,
            e3 == e2 * e,
            e2 >= 1,
    ;
}

/// The bit lengths `red_v0_bit_len` and `red_v1_bit_len` of a constructed
/// system cover the carries of every reduction whose quotient fits one limb:
/// for all limbs `a_i` up to the largest unreduced limb and every quotient
/// `q < 2^b`, with `t_i = a_i + q p_i`, the carry `v_0` out of
/// `t_0 + 2^b t_1` is below `2^red_v0_bit_len` and the carry out of
/// `t_2 + 2^b t_3 + v_0` below `2^red_v1_bit_len`.
pub proof fn lemma_red_carries_cover<const NUMBER_OF_LIMBS: usize, const BIT_LEN_LIMB: usize>(
    r: &Rns<NUMBER_OF_LIMBS, BIT_LEN_LIMB>,
    a: Seq<nat>,
    q: nat,
)
    requires
        NUMBER_OF_LIMBS == 4,
        BIT_LEN_LIMB <= usize::MAX / 4,
        accepts(r.wrong_modulus@, r.native_modulus@, 4, BIT_LEN_LIMB as nat),
        r@ == expected_view(r.wrong_modulus@, r.native_modulus@, 4, BIT_LEN_LIMB as nat),
        a.len() == 4,
        forall|i: int| 0 <= i < 4 ==> #[trigger] a[i] < pow2(BIT_LEN_LIMB as nat + BIT_LEN_LIMB as nat / 2),
        q < pow2(BIT_LEN_LIMB as nat),
    ensures
        ({
            let b = BIT_LEN_LIMB as nat;
            let p = r@.negative_wrong_modulus_decomposed;
            let e = pow2(b);
            let e2 = pow2(2 * b);
            let t0 = a[0] + q * p[0];
            let t1 = a[1] + q * p[1];
            let t2 = a[2] + q * p[2];
            let t3 = a[3] + q * p[3];
            let v0 = (t0 + t1 * e) / e2;
            &&& v0 < pow2(r@.red_v0_bit_len)
            &&& (t2 + t3 * e + v0) / e2 < pow2(r@.red_v1_bit_len)
        }),
{
    let b = BIT_LEN_LIMB as nat;
    let p = r@.negative_wrong_modulus_decomposed;
    let e = pow2(b);
    let e2 = pow2(2 * b);
    let mq = (e - 1) as nat;
    let ma = (pow2(b + b / 2) - 1) as nat;
    lemma_red_carry_bit_lens(r);
    lemma_pow2_pos(b);
    lemma_pow2_pos(2 * b);
    lemma_prod_le(q, p[0], mq, p[0]);
    lemma_prod_le(q, p[1], mq, p[1]);
    lemma_prod_le(q, p[2], mq, p[2]);
    lemma_prod_le(q, p[3], mq, p[3]);
    let t0 = a[0] + q * p[0];
    let t1 = a[1] + q * p[1];
    let t2 = a[2] + q * p[2];
    let t3 = a[3] + q * p[3];
    let mt0 = ma + mq * p[0];
    let mt1 = ma + mq * p[1];
    let mt2 = ma + mq * p[2];
    let mt3 = ma + mq * p[3];
    assert(t0 <= mt0 && t1 <= mt1 && t2 <= mt2 && t3 <= mt3);
    lemma_prod_le(t1, e, mt1, e);
    lemma_prod_le(t3, e, mt3, e);
    vstd::arithmetic::div_mod::lemma_div_is_ordered((t0 + t1 * e) as int, (mt0 + mt1 * e) as int, e2 as int);
    let v0 = (t0 + t1 * e) / e2;
    let mv0 = (mt0 + mt1 * e) / e2;
    lemma_covered(v0, mv0, r@.red_v0_bit_len);
    vstd::arithmetic::div_mod::lemma_div_is_ordered(
        (t2 + t3 * e + v0) as int,
        (mt2 + mt3 * e + mv0) as int,
        e2 as int,
    );
    lemma_covered((t2 + t3 * e + v0) / e2, (mt2 + mt3 * e + mv0) / e2, r@.red_v1_bit_len);
}

/// The bit length `mul_v1_bit_len` of a constructed system covers the upper
/// carry of every multiplication: for all limbs of an operand `a` and a
/// quotient `q`, below `2^b` but the top ones, which are at most the top
/// limbs of the largest operand and the largest quotient, the carry out of
/// `c_2 + 2^b c_3 + v_0` is below `2^mul_v1_bit_len`, where `c_k` are the
/// columns of `a * a + p * q` and `v_0` the carry out of `c_0 + 2^b c_1`.
pub proof fn lemma_mul_v1_covers<const NUMBER_OF_LIMBS: usize, const BIT_LEN_LIMB: usize>(
    r: &Rns<NUMBER_OF_LIMBS, BIT_LEN_LIMB>,
    a: Seq<nat>,
    q: Seq<nat>,
)
    requires
        NUMBER_OF_LIMBS == 4,
        BIT_LEN_LIMB <= usize::MAX / 4,
        accepts(r.wrong_modulus@, r.native_modulus@, 4, BIT_LEN_LIMB as nat),
        r@ == expected_view(r.wrong_modulus@, r.native_modulus@, 4, BIT_LEN_LIMB as nat),
        a.len() == 4,
        q.len() == 4,
        forall|i: int| 0 <= i < 3 ==> #[trigger] a[i] < pow2(BIT_LEN_LIMB as nat),
        forall|i: int| 0 <= i < 3 ==> #[trigger] q[i] < pow2(BIT_LEN_LIMB as nat),
        a[3] <= r@.max_operand / pow2(3 * BIT_LEN_LIMB as nat),
        q[3] <= r@.max_mul_quotient / pow2(3 * BIT_LEN_LIMB as nat),
    ensures
        ({
            let b = BIT_LEN_LIMB as nat;
            let p = r@.negative_wrong_modulus_decomposed;
            let e = pow2(b);
            let e2 = pow2(2 * b);
            let c0 = a[0] * a[0] + p[0] * q[0];
            let c1 = a[0] * a[1] + p[0] * q[1] + (a[1] * a[0] + p[1] * q[0]);
            let c2 = a[0] * a[2] + p[0] * q[2] + (a[1] * a[1] + p[1] * q[1]) + (a[2] * a[0] + p[2] * q[0]);
            let c3 = a[0] * a[3] + p[0] * q[3] + (a[1] * a[2] + p[1] * q[2]) + (a[2] * a[1] + p[2] * q[1]) + (a[3]
                * a[0] + p[3] * q[0]);
            let v0 = (c0 + c1 * e) / e2;
            (c2 + c3 * e + v0) / e2 < pow2(r@.mul_v1_bit_len)
        }),
{
    let b = BIT_LEN_LIMB as nat;
    let p = r@.negative_wrong_modulus_decomposed;
    let e = pow2(b);
    let e2 = pow2(2 * b);
    let m = (e - 1) as nat;
    let ma3 = r@.max_operand / pow2(3 * b);
    let mq3 = r@.max_mul_quotient / pow2(3 * b);
    lemma_mul_carry_bit_lens(r);
    lemma_pow2_pos(b);
    lemma_pow2_pos(2 * b);
    let (a0, a1, a2, a3) = (a[0], a[1], a[2], a[3]);
    let (q0, q1, q2, q3) = (q[0], q[1], q[2], q[3]);
    let (p0, p1, p2, p3) = (p[0], p[1], p[2], p[3]);
    assert(a0 <= m && a1 <= m && a2 <= m && q0 <= m && q1 <= m && q2 <= m);
    lemma_prod_le(a0, a0, m, m);
    lemma_prod_le(a0, a1, m, m);
    lemma_prod_le(a1, a0, m, m);
    lemma_prod_le(a0, a2, m, m);
    lemma_prod_le(a1, a1, m, m);
    lemma_prod_le(a2, a0, m, m);
    lemma_prod_le(a1, a2, m, m);
    lemma_prod_le(a2, a1, m, m);
    lemma_prod_le(a0, a3, m, ma3);
    lemma_prod_le(a3, a0, ma3, m);
    lemma_prod_le(p0, q0, p0, m);
    lemma_prod_le(p0, q1, p0, m);
    lemma_prod_le(p1, q0, p1, m);
    lemma_prod_le(p0, q2, p0, m);
    lemma_prod_le(p1, q1, p1, m);
    lemma_prod_le(p2, q0, p2, m);
    lemma_prod_le(p0, q3, p0, mq3);
    lemma_prod_le(p1, q2, p1, m);
    lemma_prod_le(p2, q1, p2, m);
    lemma_prod_le(p3, q0, p3, m);
    let c0 = a0 * a0 + p0 * q0;
    let c1 = a0 * a1 + p0 * q1 + (a1 * a0 + p1 * q0);
    let c2 = a0 * a2 + p0 * q2 + (a1 * a1 + p1 * q1) + (a2 * a0 + p2 * q0);
    let c3 = a0 * a3 + p0 * q3 + (a1 * a2 + p1 * q2) + (a2 * a1 + p2 * q1) + (a3 * a0 + p3 * q0);
    let mc0 = m * m + p0 * m;
    let mc1 = m * m + p0 * m + (m * m + p1 * m);
    let mc2 = m * m + p0 * m + (m * m + p1 * m) + (m * m + p2 * m);
    let mc3 = m * ma3 + p0 * mq3 + (m * m + p1 * m) + (m * m + p2 * m) + (ma3 * m + p3 * m);
    assert(c0 <= mc0 && c1 <= mc1 && c2 <= mc2 && c3 <= mc3);
    lemma_prod_le(c1, e, mc1, e);
    lemma_prod_le(c3, e, mc3, e);
    vstd::arithmetic::div_mod::lemma_div_is_ordered((c0 + c1 * e) as int, (mc0 + mc1 * e) as int, e2 as int);
    let v0 = (c0 + c1 * e) / e2;
    let mv0 = (mc0 + mc1 * e) / e2;
    vstd::arithmetic::div_mod::lemma_div_is_ordered(
        (c2 + c3 * e + v0) as int,
        (mc2 + mc3 * e + mv0) as int,
        e2 as int,
    );
    lemma_covered((c2 + c3 * e + v0) / e2, (mc2 + mc3 * e + mv0) / e2, r@.mul_v1_bit_len);
}

/// The values of a constructed system mean what their names say: the
/// binary and CRT moduli, the bit lengths, the shifters and their inverses
/// in the native field, the wrong modulus reduced into the native field, the
/// decompositions of `w`, `w - 1` and `2^(4b) - w`, the two-limb mask and the
/// largest reduced limb and dense value.
pub proof fn lemma_system_values<const NUMBER_OF_LIMBS: usize, const BIT_LEN_LIMB: usize>(
    r: &Rns<NUMBER_OF_LIMBS, BIT_LEN_LIMB>,
)
    requires
        NUMBER_OF_LIMBS == 4,
        BIT_LEN_LIMB <= usize::MAX / 4,
        accepts(r.wrong_modulus@, r.native_modulus@, 4, BIT_LEN_LIMB as nat),
        r@ == expected_view(r.wrong_modulus@, r.native_modulus@, 4, BIT_LEN_LIMB as nat),
    ensures
        ({
            let v = r@;
            let b = BIT_LEN_LIMB as nat;
            let w = r.wrong_modulus@;
            let n = r.native_modulus@;
            &&& v.binary_modulus == pow2(4 * b)
            &&& v.crt_modulus == pow2(4 * b) * n
            &&& v.bit_len_wrong_modulus == nbits(w)
            &&& v.bit_len_last_limb == nbits(w) % b
            &&& v.bit_len_lookup * 4 == b
            &&& v.left_shifter_r == pow2(b) % n
            &&& v.left_shifter_2r == pow2(2 * b) % n
            &&& v.left_shifter_3r == pow2(3 * b) % n
            &&& (v.right_shifter_r * pow2(b)) % n == 1
            &&& (v.right_shifter_2r * pow2(2 * b)) % n == 1
            &&& v.wrong_modulus_in_native_modulus == w % n
            &&& compose_value(v.wrong_modulus_decomposed, b) == w
            &&& compose_value(v.wrong_modulus_minus_one, b) == w - 1
            &&& compose_value(v.negative_wrong_modulus_decomposed, b) == pow2(4 * b) - w
            &&& v.two_limb_mask == pow2(2 * b) - 1
            &&& v.max_reduced_limb == pow2(b) - 1
            &&& v.max_dense_value == pow2(4 * b) - 1
        }),
{
    let v = r@;
    let b = BIT_LEN_LIMB as nat;
    let w = r.wrong_modulus@;
    let n = r.native_modulus@;
    lemma_accepts_bounds(w, n, b);
    crate::laws::lemma_constructed_system(w, n, b);
    lemma_pow2_pos(b);
    assert(4 * b == 4nat * b);
    assert(crate::construct::binary_modulus_of(4, b) == pow2(4 * b));
    // the bit length of w fits a usize
    lemma_nbits_at_most(w, 4 * b);
    assert(usize_of(nbits(w)) == nbits(w));
    // the shifters
    lemma_shifter_is_power(b, n);
    lemma_shifter_is_power(2 * b, n);
    lemma_shifter_is_power(3 * b, n);
    assert(crate::construct::moduli_ok(w, n, 4, b));
    assert(n > 2) by {
        vstd::arithmetic::power2::lemma2_to64();
        if b > 1 {
            vstd::arithmetic::power2::lemma_pow2_strictly_increases(1, b);
        }
    }
    lemma_small_mod(2, n);
    crate::laws::lemma_right_shifter(n, b);
    crate::laws::lemma_right_shifter(n, 2 * b);
    // the decompositions
    crate::laws::lemma_decompose_exact(w, n, 4, b);
    crate::laws::lemma_decompose_exact((w - 1) as nat, n, 4, b);
    lemma_mod_twice_small(w, n);
    // the largest dense value: four limbs of b bits all set
    let m = (pow2(b) - 1) as nat;
    let four = Seq::new(4, |i: int| m);
    crate::laws::lemma_compose4(four, b);
    lemma_pow2_adds(b, b);
    lemma_pow2_adds(2 * b, 2 * b);
    assert(b + b == 2 * b && 2 * b + 2 * b == 4 * b);
    let e = pow2(b);
    assert((m + e * m) + (e * e) * (m + e * m) == (e * e) * (e * e) - 1) by (nonlinear_arith)
        requires
            m == e - 1,
            e >= 1,
    ;
}

/// `(x % n) % n == x % n`.
proof fn lemma_mod_twice_small(x: nat, n: nat)
    requires
        n > 0,
    ensures
        (x % n) % n == x % n,
{
    vstd::arithmetic::div_mod::lemma_mod_twice(x as int, n as int);
}

/// A positive number is at least two to the power of its bit length less one.
pub proof fn lemma_nbits_top(x: nat)
    requires
        x > 0,
    ensures
        nbits(x) >= 1,
        pow2((nbits(x) - 1) as nat) <= x,
    decreases x,
{
    vstd::arithmetic::power2::lemma2_to64();
    assert(nbits(x) == 1 + nbits(x / 2));
    if x / 2 > 0 {
        lemma_nbits_top(x / 2);
        vstd::arithmetic::power2::lemma_pow2_unfold(nbits(x / 2));
        assert(pow2(nbits(x / 2)) == 2 * pow2((nbits(x / 2) - 1) as nat));
        assert(2 * (x / 2) <= x);
    } else {
        assert(x == 1);
        assert(nbits(0) == 0);
    }
}

/// The largest remainder of a constructed system bounds every remainder by
/// the wrong modulus, and is below twice the wrong modulus: it is the number
/// with all bits of `w` set.
pub proof fn lemma_max_remainder<const NUMBER_OF_LIMBS: usize, const BIT_LEN_LIMB: usize>(
    r: &Rns<NUMBER_OF_LIMBS, BIT_LEN_LIMB>,
    x: nat,
)
    requires
        NUMBER_OF_LIMBS == 4,
        BIT_LEN_LIMB <= usize::MAX / 4,
        accepts(r.wrong_modulus@, r.native_modulus@, 4, BIT_LEN_LIMB as nat),
        r@ == expected_view(r.wrong_modulus@, r.native_modulus@, 4, BIT_LEN_LIMB as nat),
        x < r.wrong_modulus@,
    ensures
        x <= r@.max_remainder,
        r@.max_remainder < 2 * r.wrong_modulus@,
        r@.max_remainder + 1 == pow2(nbits(r.wrong_modulus@)),
{
    let b = BIT_LEN_LIMB as nat;
    let w = r.wrong_modulus@;
    lemma_system_values(r);
    lemma_below_nbits(w);
    lemma_nbits_top(w);
    vstd::arithmetic::power2::lemma_pow2_unfold(nbits(w));
    lemma_pow2_pos(nbits(w));
}

/// Nothing that the bounds of a constructed system admit wraps around the
/// CRT modulus: the product of two operands up to the largest operand, and
/// a quotient up to the largest quotient times `w` plus a remainder up to the
/// largest remainder, are below `2^(4b) n`; and both bounds exceed `w`.
pub proof fn lemma_no_wrap<const NUMBER_OF_LIMBS: usize, const BIT_LEN_LIMB: usize>(
    r: &Rns<NUMBER_OF_LIMBS, BIT_LEN_LIMB>,
    a: nat,
    c: nat,
    q: nat,
    rem: nat,
)
    requires
        NUMBER_OF_LIMBS == 4,
        BIT_LEN_LIMB <= usize::MAX / 4,
        accepts(r.wrong_modulus@, r.native_modulus@, 4, BIT_LEN_LIMB as nat),
        r@ == expected_view(r.wrong_modulus@, r.native_modulus@, 4, BIT_LEN_LIMB as nat),
        a <= r@.max_operand,
        c <= r@.max_operand,
        q <= r@.max_mul_quotient,
        rem <= r@.max_remainder,
    ensures
        a * c < pow2(4 * BIT_LEN_LIMB as nat) * r.native_modulus@,
        q * r.wrong_modulus@ + rem < pow2(4 * BIT_LEN_LIMB as nat) * r.native_modulus@,
        r@.max_operand > r.wrong_modulus@,
        r@.max_mul_quotient > r.wrong_modulus@,
{
    let v = r@;
    let w = r.wrong_modulus@;
    lemma_system_values(r);
    lemma_prod_le(a, c, v.max_operand, v.max_operand);
    lemma_prod_le(q, w, v.max_mul_quotient, w);
}

/// Composition is monotone in every limb.
pub proof fn lemma_compose_monotone(a: Seq<nat>, c: Seq<nat>, b: nat)
    requires
        a.len() == c.len(),
        forall|i: int| 0 <= i < a.len() ==> #[trigger] a[i] <= c[i],
    ensures
        compose_value(a, b) <= compose_value(c, b),
    decreases a.len(),
{
    if a.len() > 0 {
        assert forall|i: int| 0 <= i < a.drop_first().len() implies #[trigger] a.drop_first()[i]
            <= c.drop_first()[i] by {
            assert(a[i + 1] <= c[i + 1]);
        }
        lemma_compose_monotone(a.drop_first(), c.drop_first(), b);
        lemma_prod_le(pow2(b), compose_value(a.drop_first(), b), pow2(b), compose_value(c.drop_first(), b));
    }
}

/// The native modulus of a constructed system exceeds `2^(2b)`: the wrong
/// modulus exceeds `2^(3b)`, and `2^(4b) n > w^2`.
proof fn lemma_native_above_two_limbs(w: nat, n: nat, b: nat)
    requires
        accepts(w, n, 4, b),
    ensures
        pow2(2 * b) < n,
{
    lemma_accepts_bounds(w, n, b);
    lemma_pow2_adds(2 * b, b);
    lemma_pow2_adds(b, b);
    lemma_pow2_adds(2 * b, 2 * b);
    assert(b + b == 2 * b && 2 * b + b == 3 * b && 2 * b + 2 * b == 4 * b);
    let e = pow2(b);
    let e2 = pow2(2 * b);
    let e3 = pow2(3 * b);
    let e4 = pow2(4 * b);
    lemma_pow2_pos(b);
    assert(crate::construct::moduli_ok(w, n, 4, b));
    assert(e4 == crate::construct::binary_modulus_of(4, b));
    assert(w * w < e4 * n);
    lemma_prod_lt(e3, e3, w, w);
    assert(e3 * e3 == e4 * e2) by (nonlinear_arith)
        requires
            e3 == e2 * e,
            e4 == e2 * e2,
            e2 == e * e,
    ;
    assert(e2 < n) by (nonlinear_arith)
        requires
            e4 * e2 < e4 * n,
            e4 > 0,
    ;
}

/// Every integer of four limbs up to the largest unreduced limb reduces by
/// the wrong modulus of a constructed system with a quotient below the
/// largest reduced limb `2^b - 1`, which one limb holds; and its value stays
/// below the largest reducible value.
pub proof fn lemma_unreduced_reduces<const NUMBER_OF_LIMBS: usize, const BIT_LEN_LIMB: usize>(
    r: &Rns<NUMBER_OF_LIMBS, BIT_LEN_LIMB>,
    a: Seq<nat>,
)
    requires
        NUMBER_OF_LIMBS == 4,
        BIT_LEN_LIMB <= usize::MAX / 4,
        accepts(r.wrong_modulus@, r.native_modulus@, 4, BIT_LEN_LIMB as nat),
        r@ == expected_view(r.wrong_modulus@, r.native_modulus@, 4, BIT_LEN_LIMB as nat),
        a.len() == 4,
        forall|i: int| 0 <= i < 4 ==> #[trigger] a[i] <= r@.max_unreduced_limb,
    ensures
        compose_value(a, BIT_LEN_LIMB as nat) / r.wrong_modulus@ < pow2(BIT_LEN_LIMB as nat) - 1,
        compose_value(a, BIT_LEN_LIMB as nat) < r@.max_reducible_value,
{
    let v = r@;
    let b = BIT_LEN_LIMB as nat;
    let w = r.wrong_modulus@;
    let n = r.native_modulus@;
    let mu = v.max_unreduced_limb;
    lemma_system_values(r);
    lemma_accepts_bounds(w, n, b);
    let top = Seq::new(4, |i: int| mu);
    lemma_compose_monotone(a, top, b);
    assert(top =~= crate::construct::red_limbs_of(b));
    // the largest of them, as the last check of the construction reduces it
    let checked = crate::construct::check_limbs_of(mu, n, 4);
    // its limbs are native elements
    lemma_native_above_two_limbs(w, n, b);
    lemma_pow2_le(b + b / 2, 2 * b);
    lemma_pow2_pos(b + b / 2);
    assert(mu == crate::construct::max_unreduced_limb_of(b));
    assert(mu < n);
    assert forall|i: int| 0 <= i < 4 implies #[trigger] checked[i] == top[i] by {
        lemma_small_mod(mu, n);
    }
    assert(checked =~= top);
    let value = compose_value(top, b);
    let quotient = value / w;
    assert(quotient < pow2(b));
    lemma_small_mod(quotient, n);
    assert(crate::rns::reduce_parts_of(checked, w, n, v.negative_wrong_modulus_decomposed, 4, b).0 == quotient);
    assert(quotient < pow2(b) - 1);
    vstd::arithmetic::div_mod::lemma_div_is_ordered(compose_value(a, b) as int, value as int, w as int);
    assert(compose_value(a, b) <= value);
}

/// The checked reduction over a constructed system succeeds exactly when
/// the quotient of the value by the wrong modulus fits one limb and the
/// residues of the reduction are multiples of `2^(2b)`: the residues of the
/// intermediate values `t_i = a_i + p_i q` (in the native field, with `p` the
/// limbs of `2^(4b) - w` and `q` the quotient) against the limbs of the
/// remainder.
pub proof fn lemma_checked_reduce<const NUMBER_OF_LIMBS: usize, const BIT_LEN_LIMB: usize>(
    x: &Integer<NUMBER_OF_LIMBS, BIT_LEN_LIMB>,
    res: Option<crate::rns::ReductionWitness<NUMBER_OF_LIMBS, BIT_LEN_LIMB>>,
)
    requires
        x.wf(),
        NUMBER_OF_LIMBS >= 4,
        x.context()@ == expected_view(
            x.context().wrong_modulus@,
            x.context().native_modulus@,
            NUMBER_OF_LIMBS as nat,
            BIT_LEN_LIMB as nat,
        ),
        res is Some <==> x.reduce_passes(),
    ensures
        ({
            let ctx = x.context();
            let w = ctx.wrong_modulus@;
            let n = ctx.native_modulus@;
            let s = ctx.left_shifter_r@;
            let rs2 = ctx.right_shifter_2r@;
            let b = BIT_LEN_LIMB as nat;
            let k = pow2(2 * b);
            let a = x.limb_values();
            let p = ctx@.negative_wrong_modulus_decomposed;
            let v = x.value_spec();
            let q = (v / w) % n;
            let r = crate::limbs::decompose_value(v % w, n, NUMBER_OF_LIMBS as nat, b);
            let t0 = (a[0] + p[0] * q) % n;
            let t1 = (a[1] + p[1] * q) % n;
            let t2 = (a[2] + p[2] * q) % n;
            let t3 = (a[3] + p[3] * q) % n;
            let u_0 = ((t0 + s * t1 - r[0] - s * r[1]) % (n as int)) as nat;
            let u_1 = ((t2 + s * t3 - r[2] - s * r[3]) % (n as int)) as nat;
            res is Some <==> (v / w < pow2(b) && u_0 % k == 0 && ((u_0 * rs2 + u_1) % n) % k == 0)
        }),
{
    let ctx = x.context();
    let n = ctx.native_modulus@;
    let b = BIT_LEN_LIMB as nat;
    let (q, r, t) = x.reduce_parts();
    let s = ctx.left_shifter_r@;
    let rs2 = ctx.right_shifter_2r@;
    let u_0 = ((t[0] + s * t[1] - r[0] - s * r[1]) % (n as int)) as nat;
    let u_1 = ((t[2] + s * t[3] - r[2] - s * r[3]) % (n as int)) as nat;
    assert(ctx.two_limb_mask@ == (pow2(2 * b) - 1) as nat);
    lemma_and_low_mask(u_0, 2 * b);
    lemma_and_low_mask((u_0 * rs2 + u_1) % n, 2 * b);
}

} // verus!
