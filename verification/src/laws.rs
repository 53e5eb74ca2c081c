//! What the library promises across its functions, proved.
use crate::limbs::{compose_value, decompose_value, lemma_compose_decompose};
use crate::limbs::values;
use crate::arith::{has_inverse, inverse_of};
use crate::construct::{
    accepts, aux_borrows, aux_defined, aux_limb, base_aux_of, doubled_limb, expected_view, left_shifter_r_of,
    moduli_ok, shifter, two_inv_of,
};
use crate::rns::{
    borrow_in, compare_borrow, compare_limb, doublings, max_doublings, reduce_parts_of, residues_pass,
    residues_value, Common, Integer,
};
use crate::big::bit_and;
use crate::limbs::lemma_and_low_mask;
use vstd::arithmetic::div_mod::{lemma_add_mod_noop, lemma_mul_mod_noop_left, lemma_mul_mod_noop_right};
use vstd::arithmetic::div_mod::{lemma_fundamental_div_mod, lemma_small_mod};
use vstd::arithmetic::power::pow;
use vstd::arithmetic::power2::{lemma_pow2_adds, lemma_pow2_pos, pow2};
use vstd::prelude::*;

verus! {

/// Appending a limb adds it at the next power of `2^b`.
pub proof fn lemma_compose_push(s: Seq<nat>, x: nat, b: nat)
    ensures
        compose_value(s.push(x), b) == compose_value(s, b) + x * pow2(s.len() * b),
    decreases s.len(),
{
    if s.len() == 0 {
        assert(s.push(x).drop_first() =~= Seq::<nat>::empty());
        assert(pow2(0) == 1) by {
            vstd::arithmetic::power2::lemma2_to64();
        }
        assert(compose_value(Seq::<nat>::empty(), b) == 0);
        assert(s.push(x)[0] == x);
        assert(compose_value(s.push(x), b) == x + pow2(b) * 0);
        assert(s.len() * b == 0) by (nonlinear_arith)
            requires
                s.len() == 0,
        ;
        assert(x * pow2(0) == x);
        assert(compose_value(s, b) == 0);
    } else {
        let t = s.drop_first();
        lemma_compose_push(t, x, b);
        assert(s.push(x).drop_first() =~= t.push(x));
        assert(s.len() * b == b + t.len() * b) by (nonlinear_arith)
            requires
                s.len() == t.len() + 1,
        ;
        lemma_pow2_adds(b, t.len() * b);
        assert(s.push(x)[0] == s[0]);
        assert(compose_value(s.push(x), b) == s[0] + pow2(b) * compose_value(t.push(x), b));
        assert(compose_value(s, b) == s[0] + pow2(b) * compose_value(t, b));
        assert(pow2(b) * (compose_value(t, b) + x * pow2(t.len() * b)) == pow2(b) * compose_value(t, b) + x
            * pow2(s.len() * b)) by (nonlinear_arith)
            requires
                pow2(s.len() * b) == pow2(b) * pow2(t.len() * b),
        ;
    }
}

/// A decomposition of a number below `2^(l b)`, with limbs that the native
/// field does not reduce, puts back together to the number.
pub proof fn lemma_decompose_exact(e: nat, n: nat, l: nat, b: nat)
    requires
        pow2(b) <= n,
        e < pow2(l * b),
    ensures
        compose_value(decompose_value(e, n, l, b), b) == e,
{
    lemma_compose_decompose(e, n, l, b);
    lemma_small_mod(e, pow2(l * b));
}

/// A multiplication witness is exact: the result and the quotient put back
/// together satisfy `result + quotient * w == a * b`, with the result below
/// `w`, whenever the quotient fits in the limbs and no limb is reduced by the
/// native field.
pub proof fn lemma_mul_witness<const NUMBER_OF_LIMBS: usize, const BIT_LEN_LIMB: usize>(
    a: &Integer<NUMBER_OF_LIMBS, BIT_LEN_LIMB>,
    b: &Integer<NUMBER_OF_LIMBS, BIT_LEN_LIMB>,
)
    requires
        a.wf(),
        pow2(BIT_LEN_LIMB as nat) <= a.context().native_modulus@,
        a.context().wrong_modulus@ <= pow2(NUMBER_OF_LIMBS as nat * BIT_LEN_LIMB as nat),
        (a.value_spec() * b.value_spec()) / a.context().wrong_modulus@ < pow2(
            NUMBER_OF_LIMBS as nat * BIT_LEN_LIMB as nat,
        ),
    ensures
        ({
            let w = a.context().wrong_modulus@;
            let (q, r, _) = a.mul_parts(b);
            let bits = BIT_LEN_LIMB as nat;
            &&& compose_value(r, bits) == (a.value_spec() * b.value_spec()) % w
            &&& compose_value(q, bits) == (a.value_spec() * b.value_spec()) / w
            &&& compose_value(r, bits) < w
            &&& compose_value(r, bits) + compose_value(q, bits) * w == a.value_spec() * b.value_spec()
        }),
{
    let ctx = a.context();
    let w = ctx.wrong_modulus@;
    let n = ctx.native_modulus@;
    let (l, bits) = (NUMBER_OF_LIMBS as nat, BIT_LEN_LIMB as nat);
    let prod = a.value_spec() * b.value_spec();
    lemma_decompose_exact(prod % w, n, l, bits);
    lemma_decompose_exact(prod / w, n, l, bits);
    lemma_fundamental_div_mod(prod as int, w as int);
    vstd::arithmetic::mul::lemma_mul_is_commutative((prod / w) as int, w as int);
}

/// A reduction witness is exact: the result put back together plus the
/// one-limb quotient times `w` is the value, with the result below `w`,
/// whenever no limb is reduced by the native field.
pub proof fn lemma_reduce_witness<const NUMBER_OF_LIMBS: usize, const BIT_LEN_LIMB: usize>(
    a: &Integer<NUMBER_OF_LIMBS, BIT_LEN_LIMB>,
)
    requires
        a.wf(),
        a.reduce_passes(),
        pow2(BIT_LEN_LIMB as nat) <= a.context().native_modulus@,
        a.context().wrong_modulus@ <= pow2(NUMBER_OF_LIMBS as nat * BIT_LEN_LIMB as nat),
    ensures
        ({
            let w = a.context().wrong_modulus@;
            let (q, r, _) = a.reduce_parts();
            let bits = BIT_LEN_LIMB as nat;
            &&& q == a.value_spec() / w
            &&& compose_value(r, bits) == a.value_spec() % w
            &&& compose_value(r, bits) < w
            &&& compose_value(r, bits) + q * w == a.value_spec()
        }),
{
    let ctx = a.context();
    let w = ctx.wrong_modulus@;
    let n = ctx.native_modulus@;
    let (l, bits) = (NUMBER_OF_LIMBS as nat, BIT_LEN_LIMB as nat);
    let v = a.value_spec();
    lemma_decompose_exact(v % w, n, l, bits);
    lemma_small_mod(v / w, n);
    lemma_fundamental_div_mod(v as int, w as int);
    vstd::arithmetic::mul::lemma_mul_is_commutative((v / w) as int, w as int);
}


/// The sum of the first `k + 1` limbs adds limb `k` at `2^(k b)`.
pub proof fn lemma_compose_take_step(s: Seq<nat>, k: nat, b: nat)
    requires
        k < s.len(),
    ensures
        compose_value(s.take(k as int + 1), b) == compose_value(s.take(k as int), b) + s[k as int] * pow2(k * b),
{
    assert(s.take(k as int + 1) =~= s.take(k as int).push(s[k as int]));
    lemma_compose_push(s.take(k as int), s[k as int], b);
}

/// Limbs below `2^b` put together stay below `2^(len b)`.
pub proof fn lemma_compose_bound(s: Seq<nat>, b: nat)
    requires
        forall|i: int| 0 <= i < s.len() ==> #[trigger] s[i] < pow2(b),
    ensures
        compose_value(s, b) < pow2(s.len() * b),
    decreases s.len(),
{
    if s.len() == 0 {
        assert(pow2(0) == 1) by {
            vstd::arithmetic::power2::lemma2_to64();
        }
        assert(s.len() * b == 0) by (nonlinear_arith)
            requires
                s.len() == 0,
        ;
    } else {
        let t = s.drop_first();
        assert forall|i: int| 0 <= i < t.len() implies #[trigger] t[i] < pow2(b) by {
            assert(t[i] == s[i + 1]);
        }
        lemma_compose_bound(t, b);
        assert(s.len() * b == b + t.len() * b) by (nonlinear_arith)
            requires
                s.len() == t.len() + 1,
        ;
        lemma_pow2_adds(b, t.len() * b);
        let c = compose_value(t, b);
        assert(s[0] + pow2(b) * c < pow2(b) * pow2(t.len() * b)) by (nonlinear_arith)
            requires
                s[0] < pow2(b),
                c < pow2(t.len() * b),
                c >= 0,
        ;
    }
}

/// Subtracting limb by limb with borrows: the first `k` limbs of `x` plus
/// the first `k` limbs of the difference are the first `k` limbs of `m`
/// plus the borrow out of them.
pub proof fn lemma_compare_prefix(x: Seq<nat>, m: Seq<nat>, b: nat, k: nat)
    requires
        k <= x.len(),
        x.len() == m.len(),
        forall|i: nat| i < k ==> #[trigger] compare_limb(x, m, b, i) >= 0,
    ensures
        compose_value(x.take(k as int), b) + compose_value(
            Seq::new(k, |i: int| compare_limb(x, m, b, i as nat) as nat),
            b,
        ) == compose_value(m.take(k as int), b) + borrow_in(x, m, k) * pow2(k * b),
    decreases k,
{
    let c = Seq::new(k, |i: int| compare_limb(x, m, b, i as nat) as nat);
    if k == 0 {
        assert(x.take(0) =~= Seq::<nat>::empty());
        assert(m.take(0) =~= Seq::<nat>::empty());
        assert(c =~= Seq::<nat>::empty());
    } else {
        let j = (k - 1) as nat;
        lemma_compare_prefix(x, m, b, j);
        let c0 = Seq::new(j, |i: int| compare_limb(x, m, b, i as nat) as nat);
        assert(c =~= c0.push(compare_limb(x, m, b, j) as nat));
        lemma_compose_push(c0, compare_limb(x, m, b, j) as nat, b);
        lemma_compose_take_step(x, j, b);
        lemma_compose_take_step(m, j, b);
        assert(compare_limb(x, m, b, j) >= 0);
        lemma_pow2_adds(j * b, b);
        assert(k * b == j * b + b) by (nonlinear_arith)
            requires
                k == j + 1,
        ;
        let p = pow2(j * b);
        let lend: nat = if compare_borrow(x, m, j) {
            1
        } else {
            0
        };
        assert(borrow_in(x, m, k) == lend);
        assert(x[j as int] + compare_limb(x, m, b, j) == m[j as int] + lend * pow2(b) - borrow_in(x, m, j));
        assert((x[j as int] + compare_limb(x, m, b, j)) * p == m[j as int] * p + lend * (pow2(b) * p)
            - borrow_in(x, m, j) * p) by (nonlinear_arith)
            requires
                x[j as int] + compare_limb(x, m, b, j) == m[j as int] + lend * pow2(b) - borrow_in(x, m, j),
        ;
        assert(x[j as int] * p + (compare_limb(x, m, b, j) as nat) * p == (x[j as int] + compare_limb(x, m, b, j)) * p)
            by (nonlinear_arith)
            requires
                compare_limb(x, m, b, j) >= 0,
        ;
    }
}

/// `compare_to_modulus` subtracts exactly: the integer plus the difference
/// is the wrong modulus minus one plus `2^(l b)` when the last limb borrows,
/// and the last limb borrows exactly when the integer exceeds the wrong
/// modulus minus one; as long as the limbs of the wrong modulus minus one
/// are below `2^BIT_LEN_LIMB` and no limb is reduced by the native field.
pub proof fn lemma_compare_to_modulus<const NUMBER_OF_LIMBS: usize, const BIT_LEN_LIMB: usize>(
    a: &Integer<NUMBER_OF_LIMBS, BIT_LEN_LIMB>,
)
    requires
        a.wf(),
        a.compare_defined(),
        NUMBER_OF_LIMBS >= 1,
        pow2(BIT_LEN_LIMB as nat) <= a.context().native_modulus@,
        forall|i: int|
            0 <= i < NUMBER_OF_LIMBS ==> #[trigger] a.context().wrong_modulus_minus_one@[i]@ < pow2(
                BIT_LEN_LIMB as nat,
            ),
    ensures
        ({
            let x = a.limb_values();
            let m = values(a.context().wrong_modulus_minus_one@);
            let (l, b) = (NUMBER_OF_LIMBS as nat, BIT_LEN_LIMB as nat);
            let n = a.context().native_modulus@;
            let c = Seq::new(l, |i: int| (compare_limb(x, m, b, i as nat) as nat) % n);
            let borrow = compare_borrow(x, m, (l - 1) as nat);
            &&& a.value_spec() + compose_value(c, b) == compose_value(m, b) + (if borrow {
                pow2(l * b)
            } else {
                0
            })
            &&& borrow <==> a.value_spec() > compose_value(m, b)
        }),
{
    let x = a.limb_values();
    let m = values(a.context().wrong_modulus_minus_one@);
    let (l, b) = (NUMBER_OF_LIMBS as nat, BIT_LEN_LIMB as nat);
    let n = a.context().native_modulus@;
    let c = Seq::new(l, |i: int| (compare_limb(x, m, b, i as nat) as nat) % n);
    let craw = Seq::new(l, |i: int| compare_limb(x, m, b, i as nat) as nat);
    lemma_pow2_pos(b);
    assert forall|i: int| 0 <= i < l implies #[trigger] craw[i] < pow2(b) && c[i] == craw[i] by {
        assert(m[i] == a.context().wrong_modulus_minus_one@[i]@);
        assert(compare_limb(x, m, b, i as nat) >= 0);
        assert(borrow_in(x, m, i as nat) <= 1);
        lemma_small_mod(craw[i], n);
    }
    assert(c =~= craw);
    lemma_compare_prefix(x, m, b, l);
    assert(x.take(l as int) =~= x);
    assert(m.take(l as int) =~= m);
    lemma_compose_bound(craw, b);
    assert(borrow_in(x, m, l) == (if compare_borrow(x, m, (l - 1) as nat) {
        1nat
    } else {
        0nat
    }));
}


/// The base auxiliary limbs put together, up to limb `k`: twice the wrong
/// modulus up to limb `k`, plus what limb `k` still owes the limb below.
proof fn lemma_base_aux_prefix(w: nat, n: nat, l: nat, b: nat, k: nat)
    requires
        pow2(b) <= n,
        left_shifter_r_of(n, b) == pow2(b),
        aux_defined(w, n, pow2(b), l, b),
        k <= l,
    ensures
        compose_value(base_aux_of(w, n, pow2(b), l, b).take(k as int), b) == 2 * compose_value(
            crate::limbs::decompose_value(w, n, l, b).take(k as int),
            b,
        ) + (if k >= 1 && aux_borrows(w, n, l, b, (k - 1) as nat) {
            pow2(k * b)
        } else {
            0
        }),
    decreases k,
{
    let aux = base_aux_of(w, n, pow2(b), l, b);
    let dec = crate::limbs::decompose_value(w, n, l, b);
    lemma_pow2_pos(b);
    assert(dec.len() == l && aux.len() == l);
    if k == 0 {
        assert(aux.take(0) =~= Seq::<nat>::empty());
        assert(dec.take(0) =~= Seq::<nat>::empty());
    } else {
        let j = (k - 1) as nat;
        lemma_base_aux_prefix(w, n, l, b, j);
        lemma_compose_take_step(aux, j, b);
        lemma_compose_take_step(dec, j, b);
        lemma_pow2_pos(b);
        crate::limbs::lemma_decompose_index(w, n, l, b, j);
        assert(doubled_limb(w, n, b, j) == 2 * dec[j as int]);
        let owed: int = if j >= 1 && aux_borrows(w, n, l, b, (j - 1) as nat) {
            1
        } else {
            0
        };
        let lent: int = if aux_borrows(w, n, l, b, j) {
            1
        } else {
            0
        };
        assert(aux_limb(w, n, pow2(b), l, b, j) == 2 * dec[j as int] + lent * pow2(b) - owed);
        if j >= 1 && aux_borrows(w, n, l, b, (j - 1) as nat) {
            assert(crate::construct::aux_lent(w, n, pow2(b), l, b, j) >= 1);
        }
        assert(aux[j as int] == aux_limb(w, n, pow2(b), l, b, j));
        lemma_pow2_adds(j * b, b);
        assert(k * b == j * b + b) by (nonlinear_arith)
            requires
                k == j + 1,
        ;
        let p = pow2(j * b);
        assert(aux[j as int] * p == 2 * (dec[j as int] * p) + lent * (pow2(b) * p) - owed * p) by (nonlinear_arith)
            requires
                aux[j as int] == 2 * dec[j as int] + lent * pow2(b) - owed,
        ;
        assert(owed * p == (if j >= 1 && aux_borrows(w, n, l, b, (j - 1) as nat) {
            pow2(j * b)
        } else {
            0
        }));
        assert(pow2(b) * p == pow2(k * b)) by (nonlinear_arith)
            requires
                pow2(j * b + b) == p * pow2(b),
                k * b == j * b + b,
        ;
        if aux_borrows(w, n, l, b, j) {
            assert(lent * (pow2(b) * p) == pow2(k * b));
        } else {
            assert(lent * (pow2(b) * p) == 0);
        }
    }
}

/// When `2^BIT_LEN_LIMB` is a native element below the native modulus, the
/// base auxiliary limbs put together are exactly twice the wrong modulus
/// (taken modulo `2^(l b)`): every borrow between limbs cancels.
pub proof fn lemma_base_aux_value(w: nat, n: nat, l: nat, b: nat)
    requires
        pow2(b) < n,
        b > 0,
        aux_defined(w, n, left_shifter_r_of(n, b), l, b),
    ensures
        compose_value(base_aux_of(w, n, left_shifter_r_of(n, b), l, b), b) == 2 * (w % pow2(l * b)),
{
    lemma_pow2_pos(b);
    assert(pow2(b) >= 2) by {
        vstd::arithmetic::power2::lemma2_to64();
        if b > 1 {
            vstd::arithmetic::power2::lemma_pow2_strictly_increases(1, b);
        }
    }
    vstd::arithmetic::div_mod::lemma_small_mod(2, n);
    vstd::arithmetic::div_mod::lemma_small_mod(pow2(b), n);
    vstd::arithmetic::power::lemma_pow_positive(2, b);
    assert(2nat % n == 2);
    assert(pow(2, b) == pow2(b) as int);
    assert(left_shifter_r_of(n, b) == pow2(b));
    lemma_base_aux_prefix(w, n, l, b, l);
    let aux = base_aux_of(w, n, pow2(b), l, b);
    let dec = crate::limbs::decompose_value(w, n, l, b);
    assert(aux.take(l as int) =~= aux);
    assert(dec.take(l as int) =~= dec);
    lemma_compose_decompose(w, n, l, b);
}

/// Two sums that agree term by term modulo `n` agree modulo `n`.
proof fn lemma_mod_linear(x: int, x2: int, y: int, y2: int, c: int, n: int)
    requires
        n > 0,
        x % n == x2 % n,
        y % n == y2 % n,
    ensures
        (x + c * y) % n == (x2 + c * y2) % n,
{
    lemma_add_mod_noop(x, c * y, n);
    lemma_add_mod_noop(x2, c * y2, n);
    lemma_mul_mod_noop_right(c, y, n);
    lemma_mul_mod_noop_right(c, y2, n);
}

/// Multiplying every limb by `k` in the native field multiplies the value by
/// `k` in the native field.
pub proof fn lemma_scale_native(s: Seq<nat>, k: nat, n: nat, b: nat)
    requires
        n > 0,
    ensures
        compose_value(Seq::new(s.len(), |i: int| (s[i] * k) % n), b) % n == (k * compose_value(s, b)) % n,
    decreases s.len(),
{
    let t = Seq::new(s.len(), |i: int| (s[i] * k) % n);
    if s.len() == 0 {
        assert(t =~= Seq::<nat>::empty());
        assert(compose_value(t, b) == 0);
        assert(compose_value(s, b) == 0);
        assert(k * 0 == 0);
        assert(0nat % n == 0);
    } else {
        let s1 = s.drop_first();
        lemma_scale_native(s1, k, n, b);
        assert(t.drop_first() =~= Seq::new(s1.len(), |i: int| (s1[i] * k) % n));
        let c1 = compose_value(s1, b);
        let ct1 = compose_value(t.drop_first(), b);
        assert(compose_value(t, b) == t[0] + pow2(b) * ct1);
        assert(compose_value(s, b) == s[0] + pow2(b) * c1);
        assert(t[0] == (s[0] * k) % n);
        assert(ct1 % n == (k * c1) % n);
        vstd::arithmetic::div_mod::lemma_mod_twice((s[0] * k) as int, n as int);
        lemma_mod_linear(t[0] as int, (s[0] * k) as int, ct1 as int, (k * c1) as int, pow2(b) as int, n as int);
        assert((s[0] * k) + pow2(b) * (k * c1) == k * (s[0] + pow2(b) * c1)) by (nonlinear_arith);
    }
}

/// `scale` multiplies the value of the integer by `k` in the native field.
pub proof fn lemma_scale<const NUMBER_OF_LIMBS: usize, const BIT_LEN_LIMB: usize>(
    before: &Integer<NUMBER_OF_LIMBS, BIT_LEN_LIMB>,
    after: &Integer<NUMBER_OF_LIMBS, BIT_LEN_LIMB>,
    k: nat,
)
    requires
        before.context().native_modulus@ > 0,
        after.limb_values().len() == before.limb_values().len(),
        forall|i: int|
            0 <= i < before.limb_values().len() ==> #[trigger] after.limb_values()[i] == (
            before.limb_values()[i] * k) % before.context().native_modulus@,
    ensures
        after.value_spec() % before.context().native_modulus@ == (k * before.value_spec())
            % before.context().native_modulus@,
{
    let s = before.limb_values();
    let n = before.context().native_modulus@;
    lemma_scale_native(s, k, n, BIT_LEN_LIMB as nat);
    assert(after.limb_values() =~= Seq::new(s.len(), |i: int| (s[i] * k) % n));
}

/// Doubling `a` the counted number of times reaches `t`.
pub proof fn lemma_doublings_cover(t: nat, a: nat)
    requires
        a > 0,
    ensures
        a * pow2(doublings(t, a)) >= t,
    decreases (if t > a {
        t - a
    } else {
        0
    }),
{
    vstd::arithmetic::power2::lemma2_to64();
    if t <= a {
        assert(doublings(t, a) == 0);
        assert(a * pow2(0) == a);
    } else {
        lemma_doublings_cover(t, 2 * a);
        let d = doublings(t, 2 * a);
        assert(doublings(t, a) == 1 + d);
        lemma_pow2_adds(1, d);
        assert(a * pow2(1 + d) == (2 * a) * pow2(d)) by (nonlinear_arith)
            requires
                pow2(1 + d) == 2 * pow2(d),
        ;
    }
}

/// One doubling fewer than counted does not reach `t`.
pub proof fn lemma_doublings_least(t: nat, a: nat)
    requires
        a > 0,
        doublings(t, a) > 0,
    ensures
        a * pow2((doublings(t, a) - 1) as nat) < t,
    decreases (if t > a {
        t - a
    } else {
        0
    }),
{
    vstd::arithmetic::power2::lemma2_to64();
    let d = doublings(t, 2 * a);
    if d > 0 {
        lemma_doublings_least(t, 2 * a);
        lemma_pow2_adds(1, (d - 1) as nat);
        assert(a * pow2(d as nat) == (2 * a) * pow2((d - 1) as nat)) by (nonlinear_arith)
            requires
                pow2(1 + (d - 1) as nat) == 2 * pow2((d - 1) as nat),
                d >= 1,
        ;
    }
}

/// The largest count of doublings is at least each count.
pub proof fn lemma_max_doublings_bound(targets: Seq<nat>, aux: Seq<nat>, k: nat, i: nat)
    requires
        i < k,
    ensures
        max_doublings(targets, aux, k) >= doublings(targets[i as int], aux[i as int]),
    decreases k,
{
    if i < k - 1 {
        lemma_max_doublings_bound(targets, aux, (k - 1) as nat, i);
    }
}

/// The largest count of doublings is one of the counts, or zero.
pub proof fn lemma_max_doublings_attained(targets: Seq<nat>, aux: Seq<nat>, k: nat)
    requires
        max_doublings(targets, aux, k) > 0,
    ensures
        exists|i: nat|
            i < k && #[trigger] doublings(targets[i as int], aux[i as int]) == max_doublings(targets, aux, k),
    decreases k,
{
    let prev = max_doublings(targets, aux, (k - 1) as nat);
    let d = doublings(targets[k - 1], aux[k - 1]);
    if d > prev {
        let i = (k - 1) as nat;
        assert(doublings(targets[i as int], aux[i as int]) == max_doublings(targets, aux, k));
    } else {
        lemma_max_doublings_attained(targets, aux, (k - 1) as nat);
    }
}

/// Whether `a` shifted left by `s` reaches `t`.
pub open spec fn covers(a: nat, t: nat, s: nat) -> bool {
    a * pow2(s) >= t
}

/// Whether every one of the first `k` limbs of `aux` shifted left by `s`
/// reaches its bound in `targets`.
pub open spec fn all_cover(aux: Seq<nat>, targets: Seq<nat>, k: nat, s: nat) -> bool {
    forall|i: int| 0 <= i < k ==> #[trigger] covers(aux[i], targets[i], s)
}

/// The shift `subtracion_aux` picks is the least that makes every shifted
/// auxiliary limb cover its bound: with it every positive limb reaches its
/// bound, and with any smaller shift one limb falls short.
pub proof fn lemma_subtraction_shift(targets: Seq<nat>, aux: Seq<nat>, k: nat)
    requires
        k <= targets.len(),
        k <= aux.len(),
        forall|i: int| 0 <= i < k ==> #[trigger] aux[i] > 0,
    ensures
        all_cover(aux, targets, k, max_doublings(targets, aux, k)),
        forall|s: nat| s < max_doublings(targets, aux, k) ==> !#[trigger] all_cover(aux, targets, k, s),
{
    let m = max_doublings(targets, aux, k);
    assert forall|i: int| 0 <= i < k implies #[trigger] covers(aux[i], targets[i], m) by {
        lemma_max_doublings_bound(targets, aux, k, i as nat);
        lemma_doublings_cover(targets[i], aux[i]);
        let d = doublings(targets[i], aux[i]);
        if d < m {
            vstd::arithmetic::power2::lemma_pow2_strictly_increases(d, m);
        }
        assert(aux[i] * pow2(d) <= aux[i] * pow2(m)) by (nonlinear_arith)
            requires
                pow2(d) <= pow2(m),
        ;
    }
    assert forall|s: nat| s < max_doublings(targets, aux, k) implies !#[trigger] all_cover(aux, targets, k, s) by {
        lemma_max_doublings_attained(targets, aux, k);
        let i = choose|i: nat| i < k && #[trigger] doublings(targets[i as int], aux[i as int]) == m;
        assert(i < k && doublings(targets[i as int], aux[i as int]) == m);
        assert(aux[i as int] > 0);
        lemma_doublings_least(targets[i as int], aux[i as int]);
        assert(aux[i as int] * pow2((m - 1) as nat) < targets[i as int]);
        if s < (m - 1) as nat {
            vstd::arithmetic::power2::lemma_pow2_strictly_increases(s, (m - 1) as nat);
        }
        assert(aux[i as int] * pow2(s) <= aux[i as int] * pow2((m - 1) as nat)) by (nonlinear_arith)
            requires
                pow2(s) <= pow2((m - 1) as nat),
        ;
        assert(!covers(aux[i as int], targets[i as int], s));
    }
}


/// Multiplying every limb by `c` multiplies the value by `c`.
pub proof fn lemma_compose_scale(s: Seq<nat>, c: nat, b: nat)
    ensures
        compose_value(Seq::new(s.len(), |i: int| s[i] * c), b) == c * compose_value(s, b),
    decreases s.len(),
{
    let t = Seq::new(s.len(), |i: int| s[i] * c);
    if s.len() == 0 {
        assert(t =~= Seq::<nat>::empty());
        assert(c * 0 == 0);
    } else {
        let s1 = s.drop_first();
        lemma_compose_scale(s1, c, b);
        assert(t.drop_first() =~= Seq::new(s1.len(), |i: int| s1[i] * c));
        let c1 = compose_value(s1, b);
        assert(compose_value(t, b) == s[0] * c + pow2(b) * (c * c1));
        assert(s[0] * c + pow2(b) * (c * c1) == c * (s[0] + pow2(b) * c1)) by (nonlinear_arith);
    }
}

/// The inverse below the modulus exists whenever an inverse does.
pub proof fn lemma_inverse_of(a: nat, m: nat)
    requires
        m > 0,
        has_inverse(a, m),
    ensures
        inverse_of(a, m) < m,
        (a * inverse_of(a, m)) % m == 1nat % m,
{
    let x = choose|x: nat| #[trigger] ((a * x) % m) == 1nat % m;
    lemma_mul_mod_noop_right(a as int, x as int, m as int);
    let y = x % m;
    assert(y < m && ((a * y) % m) == 1nat % m);
}

/// The integer that `invert` returns is an inverse: put back together and
/// multiplied by the value, it is one modulo the wrong modulus, whenever the
/// wrong modulus fits in the limbs and no limb is reduced by the native field.
pub proof fn lemma_invert<const NUMBER_OF_LIMBS: usize, const BIT_LEN_LIMB: usize>(
    a: &Integer<NUMBER_OF_LIMBS, BIT_LEN_LIMB>,
)
    requires
        a.wf(),
        has_inverse(a.value_spec() % a.context().wrong_modulus@, a.context().wrong_modulus@),
        pow2(BIT_LEN_LIMB as nat) <= a.context().native_modulus@,
        a.context().wrong_modulus@ <= pow2(NUMBER_OF_LIMBS as nat * BIT_LEN_LIMB as nat),
    ensures
        ({
            let w = a.context().wrong_modulus@;
            let inv = crate::limbs::decompose_value(
                inverse_of(a.value_spec() % w, w),
                a.context().native_modulus@,
                NUMBER_OF_LIMBS as nat,
                BIT_LEN_LIMB as nat,
            );
            (a.value_spec() * compose_value(inv, BIT_LEN_LIMB as nat)) % w == 1nat % w
        }),
{
    let w = a.context().wrong_modulus@;
    let v = a.value_spec();
    let x = inverse_of(v % w, w);
    lemma_inverse_of(v % w, w);
    lemma_decompose_exact(x, a.context().native_modulus@, NUMBER_OF_LIMBS as nat, BIT_LEN_LIMB as nat);
    lemma_mul_mod_noop_left(v as int, x as int, w as int);
}

/// The integer that `div` returns is the quotient: multiplied by the
/// denominator it is the numerator modulo the wrong modulus, whenever the
/// wrong modulus fits in the limbs and no limb is reduced by the native field.
pub proof fn lemma_div<const NUMBER_OF_LIMBS: usize, const BIT_LEN_LIMB: usize>(
    a: &Integer<NUMBER_OF_LIMBS, BIT_LEN_LIMB>,
    denom: &Integer<NUMBER_OF_LIMBS, BIT_LEN_LIMB>,
)
    requires
        a.wf(),
        denom.wf(),
        denom.context() == a.context(),
        has_inverse(denom.value_spec() % a.context().wrong_modulus@, a.context().wrong_modulus@),
        pow2(BIT_LEN_LIMB as nat) <= a.context().native_modulus@,
        a.context().wrong_modulus@ <= pow2(NUMBER_OF_LIMBS as nat * BIT_LEN_LIMB as nat),
    ensures
        ({
            let w = a.context().wrong_modulus@;
            let n = a.context().native_modulus@;
            let (l, bits) = (NUMBER_OF_LIMBS as nat, BIT_LEN_LIMB as nat);
            let b_inv = compose_value(
                crate::limbs::decompose_value(inverse_of(denom.value_spec() % w, w), n, l, bits),
                bits,
            );
            let q = (a.value_spec() * b_inv) % w;
            &&& compose_value(crate::limbs::decompose_value(q, n, l, bits), bits) == q
            &&& (q * denom.value_spec()) % w == a.value_spec() % w
        }),
{
    let w = a.context().wrong_modulus@;
    let n = a.context().native_modulus@;
    let (l, bits) = (NUMBER_OF_LIMBS as nat, BIT_LEN_LIMB as nat);
    let d = denom.value_spec();
    let x = inverse_of(d % w, w);
    lemma_inverse_of(d % w, w);
    lemma_decompose_exact(x, n, l, bits);
    let v = a.value_spec();
    let q = (v * x) % w;
    lemma_decompose_exact(q, n, l, bits);
    let (vi, xi, di, wi) = (v as int, x as int, d as int, w as int);
    // (q * d) % w == (v * x * d) % w == (v * ((x * d) % w)) % w == (v * 1) % w
    lemma_mul_mod_noop_left(vi * xi, di, wi);
    assert((vi * xi) * di == vi * (xi * di)) by (nonlinear_arith);
    lemma_mul_mod_noop_right(vi, xi * di, wi);
    lemma_mul_mod_noop_right(xi, di, wi);
    assert(xi * (di % wi) == (di % wi) * xi) by (nonlinear_arith);
    lemma_mul_mod_noop_right(vi, 1, wi);
}


/// `(a0 + c0 q) + m (a1 + c1 q) == (a0 + m a1) + q (c0 + m c1)`.
proof fn lemma_pair(a0: int, a1: int, c0: int, c1: int, q: int, m: int)
    ensures
        (a0 + c0 * q) + m * (a1 + c1 * q) == (a0 + m * a1) + q * (c0 + m * c1),
{
    assert((a0 + c0 * q) + m * (a1 + c1 * q) == (a0 + m * a1) + q * (c0 + m * c1)) by (nonlinear_arith);
}

/// Four limbs put together: `(x0 + P x1) + P^2 (x2 + P x3)` with `P = 2^b`.
pub proof fn lemma_compose4(x: Seq<nat>, b: nat)
    requires
        x.len() == 4,
    ensures
        compose_value(x, b) == (x[0] + pow2(b) * x[1]) + pow2(2 * b) * (x[2] + pow2(b) * x[3]),
{
    let p = pow2(b);
    let x1 = x.drop_first();
    let x2 = x1.drop_first();
    let x3 = x2.drop_first();
    let x4 = x3.drop_first();
    assert(x4 =~= Seq::<nat>::empty());
    assert(compose_value(x4, b) == 0);
    assert(compose_value(x3, b) == x[3] + p * 0);
    assert(compose_value(x2, b) == x[2] + p * x[3]);
    assert(compose_value(x1, b) == x[1] + p * (x[2] + p * x[3]));
    assert(compose_value(x, b) == x[0] + p * (x[1] + p * (x[2] + p * x[3])));
    lemma_pow2_adds(b, b);
    assert(b + b == 2 * b);
    assert(x[0] + p * (x[1] + p * (x[2] + p * x[3])) == (x[0] + p * x[1]) + (p * p) * (x[2] + p * x[3]))
        by (nonlinear_arith);
}

/// The sanity check of a reduction always passes when nothing wraps around
/// the native modulus: the residues are exact multiples of `2^(2b)` because
/// the intermediate values `a + p q` put together are the remainder plus
/// `q 2^(4b)`, where `p` are the limbs of `2^(4b) - w`.
pub proof fn lemma_reduce_residues<const NUMBER_OF_LIMBS: usize, const BIT_LEN_LIMB: usize>(
    a: &Integer<NUMBER_OF_LIMBS, BIT_LEN_LIMB>,
)
    requires
        a.wf(),
        NUMBER_OF_LIMBS == 4,
        ({
            let ctx = a.context();
            let w = ctx.wrong_modulus@;
            let n = ctx.native_modulus@;
            let b = BIT_LEN_LIMB as nat;
            let (pp, qq) = (pow2(b), pow2(2 * b));
            let x = a.limb_values();
            let p = values(ctx.negative_wrong_modulus_decomposed@);
            let q = a.value_spec() / w;
            &&& pp <= n
            &&& w <= pow2(4 * b)
            &&& ctx.left_shifter_r@ == pp
            &&& (ctx.right_shifter_2r@ * qq) % n == 1
            &&& ctx.two_limb_mask@ == qq - 1
            &&& compose_value(p, b) == pow2(4 * b) - w
            &&& q < pp
            &&& q * qq < n
            &&& forall|i: int| 0 <= i < 4 ==> #[trigger] x[i] + p[i] * q < n
            &&& (x[0] + p[0] * q) + pp * (x[1] + p[1] * q) < n
        }),
    ensures
        a.reduce_passes(),
{
    let ctx = a.context();
    let w = ctx.wrong_modulus@;
    let n = ctx.native_modulus@;
    let l = NUMBER_OF_LIMBS as nat;
    let b = BIT_LEN_LIMB as nat;
    let pp = pow2(b);
    let qq = pow2(2 * b);
    let x = a.limb_values();
    let p = values(ctx.negative_wrong_modulus_decomposed@);
    let v = a.value_spec();
    let q = v / w;
    let (qn, r, t) = reduce_parts_of(x, w, n, p, l, b);
    lemma_pow2_pos(b);
    lemma_pow2_pos(2 * b);
    assert(w > 0);
    // the quotient and the intermediate values do not wrap
    vstd::arithmetic::div_mod::lemma_small_mod(q, n);
    assert(qn == q);
    assert forall|i: int| 0 <= i < 4 implies #[trigger] t[i] == x[i] + p[i] * q by {
        vstd::arithmetic::div_mod::lemma_small_mod(x[i] + p[i] * q, n);
    }
    // the remainder's limbs are exact
    assert(4 * b == l * b);
    lemma_decompose_exact(v % w, n, l, b);
    assert forall|i: int| 0 <= i < 4 implies #[trigger] r[i] < pp by {
        crate::limbs::lemma_decompose_index(v % w, n, l, b, i as nat);
        vstd::arithmetic::div_mod::lemma_small_mod(crate::limbs::limb_of(v % w, b, i as nat), n);
    }
    // put together: t is the remainder plus q 2^(4b)
    lemma_compose4(x, b);
    lemma_compose4(p, b);
    lemma_compose4(r, b);
    lemma_compose4(t, b);
    lemma_pow2_adds(2 * b, 2 * b);
    assert(2 * b + 2 * b == 4 * b);
    lemma_fundamental_div_mod(v as int, w as int);
    let (t0, t1, t2, t3) = (t[0] as int, t[1] as int, t[2] as int, t[3] as int);
    let (r0, r1, r2, r3) = (r[0] as int, r[1] as int, r[2] as int, r[3] as int);
    let (x0, x1, x2, x3) = (x[0] as int, x[1] as int, x[2] as int, x[3] as int);
    let (p0, p1, p2, p3) = (p[0] as int, p[1] as int, p[2] as int, p[3] as int);
    let (ppi, qqi, qi) = (pp as int, qq as int, q as int);
    assert(qqi == ppi * ppi) by {
        lemma_pow2_adds(b, b);
        assert(b + b == 2 * b);
    }
    lemma_pair(x0, x1, p0, p1, qi, ppi);
    lemma_pair(x2, x3, p2, p3, qi, ppi);
    lemma_pair(x0 + ppi * x1, x2 + ppi * x3, p0 + ppi * p1, p2 + ppi * p3, qi, qqi);
    assert((t0 + ppi * t1) + qqi * (t2 + ppi * t3) == v + qi * (qqi * qqi - w));
    assert(v % w == v - qi * w) by {
        vstd::arithmetic::mul::lemma_mul_is_commutative(w as int, qi);
    }
    assert((r0 + ppi * r1) + qqi * (r2 + ppi * r3) == v - qi * w);
    let u0 = t0 + ppi * t1 - r0 - ppi * r1;
    let u1 = t2 + ppi * t3 - r2 - ppi * r3;
    assert(u0 + qqi * u1 == qi * qqi * qqi) by (nonlinear_arith)
        requires
            (t0 + ppi * t1) + qqi * (t2 + ppi * t3) == v + qi * (qqi * qqi - w),
            (r0 + ppi * r1) + qqi * (r2 + ppi * r3) == v - qi * w,
            u0 == t0 + ppi * t1 - r0 - ppi * r1,
            u1 == t2 + ppi * t3 - r2 - ppi * r3,
    ;
    let k = qi * qqi - u1;
    assert(u0 == qqi * k) by (nonlinear_arith)
        requires
            u0 + qqi * u1 == qi * qqi * qqi,
            k == qi * qqi - u1,
    ;
    assert(r0 + ppi * r1 < qqi) by (nonlinear_arith)
        requires
            0 <= r0 < ppi,
            0 <= r1 < ppi,
            qqi == ppi * ppi,
    ;
    assert(k >= 0) by (nonlinear_arith)
        requires
            u0 == qqi * k,
            u0 > -qqi,
            qqi > 0,
    ;
    assert(u0 >= 0 && u0 < n);
    let (u_0, u_1, _, _) = residues_value(t, r, ctx.left_shifter_r@, ctx.right_shifter_2r@, n);
    vstd::arithmetic::div_mod::lemma_small_mod(u0 as nat, n);
    assert(u_0 == u0);
    // the first residue is a multiple of 2^(2b)
    lemma_and_low_mask(u_0, 2 * b);
    vstd::arithmetic::div_mod::lemma_mod_multiples_basic(k, qqi);
    assert(k * qqi == qqi * k) by (nonlinear_arith);
    assert(bit_and(u_0, ctx.two_limb_mask@) == 0);
    // the second: (u_0 * rs2 + u_1) % n is q 2^(2b)
    let rs2 = ctx.right_shifter_2r@ as int;
    let ni = n as int;
    assert(u_1 as int == u1 % ni);
    assert((u_0 * rs2) % ni == k % ni) by {
        assert(u_0 * rs2 == k * (qqi * rs2)) by (nonlinear_arith)
            requires
                u_0 == qqi * k,
        ;
        lemma_mul_mod_noop_right(k, qqi * rs2, ni);
        assert(qqi * rs2 == rs2 * qqi) by (nonlinear_arith);
        vstd::arithmetic::div_mod::lemma_mul_mod_noop_right(k, 1, ni);
    }
    vstd::arithmetic::div_mod::lemma_mod_twice(u1, ni);
    lemma_mod_linear(u_0 * rs2, k, u1 % ni, u1, 1, ni);
    assert(k + u1 == qi * qqi);
    vstd::arithmetic::div_mod::lemma_small_mod((q * qq) as nat, n);
    let carried = ((u_0 * ctx.right_shifter_2r@ + u_1) % n) as nat;
    assert(carried == q * qq);
    lemma_and_low_mask(carried, 2 * b);
    vstd::arithmetic::div_mod::lemma_mod_multiples_basic(qi, qqi);
    assert(residues_pass(t, r, ctx.left_shifter_r@, ctx.right_shifter_2r@, ctx.two_limb_mask@, n));
}


/// In the field of an odd modulus above two, `2^-e * 2^e` is one.
pub proof fn lemma_right_shifter(n: nat, e: nat)
    requires
        n > 2,
        has_inverse(2, n),
    ensures
        (shifter(two_inv_of(n), e, n) * pow2(e)) % n == 1,
{
    let ni = n as int;
    vstd::arithmetic::div_mod::lemma_small_mod(2, n);
    let inv = two_inv_of(n);
    lemma_inverse_of(2, n);
    vstd::arithmetic::div_mod::lemma_small_mod(1, n);
    vstd::arithmetic::power::lemma_pow_positive(2, e);
    let pi = vstd::arithmetic::power::pow(inv as int, e);
    lemma_mul_mod_noop_left(pi, pow2(e) as int, ni);
    vstd::arithmetic::power::lemma_pow_distributes(inv as int, 2, e);
    vstd::arithmetic::power::lemma_pow_mod_noop((inv * 2) as int, e, ni);
    assert((inv * 2) % n == 1) by {
        assert(inv * 2 == 2 * inv) by (nonlinear_arith);
    }
    vstd::arithmetic::power::lemma1_pow(e);
}

/// A system that `construct` builds meets what the reduction needs of it:
/// `2^BIT_LEN_LIMB` is the left shifter, the right shifter undoes two
/// shifts, the mask is the two lowest limbs, and the negated wrong modulus
/// is exact; as long as a limb is below the native modulus.
pub proof fn lemma_constructed_system(w: nat, n: nat, b: nat)
    requires
        accepts(w, n, 4, b),
        pow2(b) < n,
    ensures
        ({
            let v = expected_view(w, n, 4, b);
            &&& v.left_shifter_r == pow2(b)
            &&& (v.right_shifter_2r * pow2(2 * b)) % n == 1
            &&& v.two_limb_mask == pow2(2 * b) - 1
            &&& compose_value(v.negative_wrong_modulus_decomposed, b) == pow2(4 * b) - w
            &&& w <= pow2(4 * b)
        }),
{
    let v = expected_view(w, n, 4, b);
    assert(moduli_ok(w, n, 4, b));
    lemma_pow2_pos(b);
    assert(b > 0);
    assert(pow2(b) >= 2) by {
        vstd::arithmetic::power2::lemma2_to64();
        if b > 1 {
            vstd::arithmetic::power2::lemma_pow2_strictly_increases(1, b);
        }
    }
    vstd::arithmetic::div_mod::lemma_small_mod(2, n);
    vstd::arithmetic::div_mod::lemma_small_mod(pow2(b), n);
    vstd::arithmetic::power::lemma_pow_positive(2, b);
    assert(pow(2, b) == pow2(b) as int);
    assert(v.left_shifter_r == pow2(b));
    assert(2nat % n == 2);
    assert(has_inverse(2, n));
    lemma_right_shifter(n, 2 * b);
    assert(v.right_shifter_2r == shifter(two_inv_of(n), 2 * b, n));
    lemma_pow2_pos(2 * b);
    assert(v.two_limb_mask == pow2(2 * b) - 1);
    assert(4 * b == 4nat * b);
    lemma_pow2_pos(4 * b);
    assert(crate::construct::binary_modulus_of(4, b) == pow2(4 * b));
    assert(w < pow2(4 * b));
    lemma_decompose_exact((pow2(4 * b) - w) as nat, n, 4, b);
    assert(v.negative_wrong_modulus_decomposed == crate::limbs::decompose_value((pow2(4 * b) - w) as nat, n, 4, b));
}


/// Two limbs times two limbs.
proof fn lemma_two_limb_product(x0: int, x1: int, y0: int, y1: int, p: int)
    ensures
        (x0 + p * x1) * (y0 + p * y1) == x0 * y0 + p * (x0 * y1 + x1 * y0) + (p * p) * (x1 * y1),
{
    let y = y0 + p * y1;
    assert((x0 + p * x1) * y == x0 * y + (p * x1) * y) by (nonlinear_arith);
    assert(x0 * y == x0 * y0 + p * (x0 * y1)) by (nonlinear_arith)
        requires
            y == y0 + p * y1,
    ;
    assert((p * x1) * y == p * (x1 * y0) + (p * p) * (x1 * y1)) by (nonlinear_arith)
        requires
            y == y0 + p * y1,
    ;
    assert(p * (x0 * y1) + p * (x1 * y0) == p * (x0 * y1 + x1 * y0)) by (nonlinear_arith);
}


/// The part of column `k` of `a * b` for four limbs.
pub open spec fn product_column(a: Seq<nat>, b: Seq<nat>, k: int) -> nat {
    if k == 0 {
        a[0] * b[0]
    } else if k == 1 {
        a[0] * b[1] + a[1] * b[0]
    } else if k == 2 {
        a[0] * b[2] + a[1] * b[1] + a[2] * b[0]
    } else {
        a[0] * b[3] + a[1] * b[2] + a[2] * b[1] + a[3] * b[0]
    }
}

/// What of `a * b` lies beyond the four lower columns, divided by `2^(4b)`.
pub open spec fn product_carry(a: Seq<nat>, b: Seq<nat>, p: int) -> int {
    (a[1] * b[3] + a[3] * b[1] + a[2] * b[2]) + p * (a[2] * b[3] + a[3] * b[2]) + (p * p) * (a[3] * b[3])
}

/// Four limbs times four limbs: the four lower columns, and the rest as a
/// multiple of `2^(4b)`.
proof fn lemma_four_limb_product(a: Seq<nat>, b: Seq<nat>, p: int)
    requires
        a.len() == 4,
        b.len() == 4,
    ensures
        ((a[0] + p * a[1]) + (p * p) * (a[2] + p * a[3])) * ((b[0] + p * b[1]) + (p * p) * (b[2] + p * b[3]))
            == (product_column(a, b, 0) + p * product_column(a, b, 1)) + (p * p) * (product_column(a, b, 2)
            + p * product_column(a, b, 3)) + ((p * p) * (p * p)) * product_carry(a, b, p),
{
    let q = p * p;
    let (a0, a1, a2, a3) = (a[0] as int, a[1] as int, a[2] as int, a[3] as int);
    let (b0, b1, b2, b3) = (b[0] as int, b[1] as int, b[2] as int, b[3] as int);
    lemma_two_limb_product(a0 + p * a1, a2 + p * a3, b0 + p * b1, b2 + p * b3, q);
    lemma_two_limb_product(a0, a1, b0, b1, p);
    lemma_two_limb_product(a0, a1, b2, b3, p);
    lemma_two_limb_product(a2, a3, b0, b1, p);
    lemma_two_limb_product(a2, a3, b2, b3, p);
    let (c00, c01, c02, c03) = (a0 * b0, a0 * b1, a0 * b2, a0 * b3);
    let (c10, c11, c12, c13) = (a1 * b0, a1 * b1, a1 * b2, a1 * b3);
    let (c20, c21, c22, c23) = (a2 * b0, a2 * b1, a2 * b2, a2 * b3);
    let (c30, c31, c32, c33) = (a3 * b0, a3 * b1, a3 * b2, a3 * b3);
    assert((c00 + p * (c01 + c10) + q * c11) + q * ((c02 + p * (c03 + c12) + q * c13) + (c20 + p * (c21 + c30)
        + q * c31)) + (q * q) * (c22 + p * (c23 + c32) + q * c33) == (c00 + p * (c01 + c10)) + q * ((c02
        + c11 + c20) + p * (c03 + c12 + c21 + c30)) + (q * q) * ((c13 + c31 + c22) + p * (c23 + c32) + q
        * c33)) by (nonlinear_arith);
}

/// Column `k` of `a * b + p * q` is the two products' columns.
proof fn lemma_column_sum4(a: Seq<nat>, b: Seq<nat>, p: Seq<nat>, q: Seq<nat>, k: int)
    requires
        0 <= k < 4,
    ensures
        crate::rns::column_sum(a, b, p, q, k, k + 1) == product_column(a, b, k) + product_column(p, q, k),
{
    reveal_with_fuel(crate::rns::column_sum, 5);
}

/// The sanity check of a multiplication always passes when nothing wraps
/// around the native modulus: the four lower columns of `a * b + p * q` put
/// together are the remainder plus a multiple of `2^(4b)`, where `q` is the
/// quotient and `p` the limbs of `2^(4b) - w`, so both residues are exact
/// multiples of `2^(2b)`.
pub proof fn lemma_mul_residues<const NUMBER_OF_LIMBS: usize, const BIT_LEN_LIMB: usize>(
    a: &Integer<NUMBER_OF_LIMBS, BIT_LEN_LIMB>,
    other: &Integer<NUMBER_OF_LIMBS, BIT_LEN_LIMB>,
)
    requires
        a.wf(),
        other.limb_values().len() == NUMBER_OF_LIMBS,
        NUMBER_OF_LIMBS == 4,
        ({
            let ctx = a.context();
            let w = ctx.wrong_modulus@;
            let n = ctx.native_modulus@;
            let b = BIT_LEN_LIMB as nat;
            let (pp, qq) = (pow2(b), pow2(2 * b));
            let (q, r, _) = a.mul_parts(other);
            let p = values(ctx.negative_wrong_modulus_decomposed@);
            let x = a.limb_values();
            let y = other.limb_values();
            let col = |k: int| product_column(x, y, k) + product_column(p, q, k);
            &&& pp <= n
            &&& w <= pow2(4 * b)
            &&& ctx.left_shifter_r@ == pp
            &&& (ctx.right_shifter_2r@ * qq) % n == 1
            &&& ctx.two_limb_mask@ == qq - 1
            &&& compose_value(p, b) == pow2(4 * b) - w
            &&& (a.value_spec() * other.value_spec()) / w < pow2(4 * b)
            &&& forall|k: int| 0 <= k < 4 ==> #[trigger] col(k) < n
            &&& col(0) + pp * col(1) < n
            &&& (col(0) + pp * col(1)) + qq * (col(2) + pp * col(3)) < n * qq
        }),
    ensures
        a.mul_passes(other),
{
    let ctx = a.context();
    let w = ctx.wrong_modulus@;
    let n = ctx.native_modulus@;
    let l = NUMBER_OF_LIMBS as nat;
    let b = BIT_LEN_LIMB as nat;
    let pp = pow2(b);
    let qq = pow2(2 * b);
    let x = a.limb_values();
    let y = other.limb_values();
    let p = values(ctx.negative_wrong_modulus_decomposed@);
    let (q, r, t) = a.mul_parts(other);
    let prod = a.value_spec() * other.value_spec();
    lemma_pow2_pos(b);
    lemma_pow2_pos(2 * b);
    assert(w > 0);
    assert(4 * b == l * b);
    // the quotient and the remainder are exact
    lemma_decompose_exact(prod % w, n, l, b);
    lemma_decompose_exact(prod / w, n, l, b);
    assert forall|i: int| 0 <= i < 4 implies #[trigger] r[i] < pp by {
        crate::limbs::lemma_decompose_index(prod % w, n, l, b, i as nat);
        vstd::arithmetic::div_mod::lemma_small_mod(crate::limbs::limb_of(prod % w, b, i as nat), n);
    }
    // the intermediate values do not wrap
    let col = |k: int| product_column(x, y, k) + product_column(p, q, k);
    assert forall|k: int| 0 <= k < 4 implies #[trigger] t[k] == col(k) by {
        lemma_column_sum4(x, y, p, q, k);
        vstd::arithmetic::div_mod::lemma_small_mod(col(k) as nat, n);
    }
    let (ppi, qqi) = (pp as int, qq as int);
    assert(qqi == ppi * ppi) by {
        lemma_pow2_adds(b, b);
        assert(b + b == 2 * b);
    }
    lemma_pow2_adds(2 * b, 2 * b);
    assert(2 * b + 2 * b == 4 * b);
    let rr = qqi * qqi;
    // the columns put together
    lemma_compose4(x, b);
    lemma_compose4(y, b);
    lemma_compose4(p, b);
    lemma_compose4(q, b);
    lemma_compose4(r, b);
    lemma_four_limb_product(x, y, ppi);
    lemma_four_limb_product(p, q, ppi);
    let (t0, t1, t2, t3) = (t[0] as int, t[1] as int, t[2] as int, t[3] as int);
    let (r0, r1, r2, r3) = (r[0] as int, r[1] as int, r[2] as int, r[3] as int);
    let big_t = (t0 + ppi * t1) + qqi * (t2 + ppi * t3);
    let cxy = product_carry(x, y, ppi);
    let cpq = product_carry(p, q, ppi);
    let carry = cxy + cpq;
    let qv = (prod / w) as int;
    let (cx0, cx1, cx2, cx3) = (
        product_column(x, y, 0) as int,
        product_column(x, y, 1) as int,
        product_column(x, y, 2) as int,
        product_column(x, y, 3) as int,
    );
    let (cp0, cp1, cp2, cp3) = (
        product_column(p, q, 0) as int,
        product_column(p, q, 1) as int,
        product_column(p, q, 2) as int,
        product_column(p, q, 3) as int,
    );
    let low_xy = (cx0 + ppi * cx1) + qqi * (cx2 + ppi * cx3);
    let low_pq = (cp0 + ppi * cp1) + qqi * (cp2 + ppi * cp3);
    assert(big_t == low_xy + low_pq) by (nonlinear_arith)
        requires
            t0 == cx0 + cp0,
            t1 == cx1 + cp1,
            t2 == cx2 + cp2,
            t3 == cx3 + cp3,
            big_t == (t0 + ppi * t1) + qqi * (t2 + ppi * t3),
            low_xy == (cx0 + ppi * cx1) + qqi * (cx2 + ppi * cx3),
            low_pq == (cp0 + ppi * cp1) + qqi * (cp2 + ppi * cp3),
    ;
    let xv = compose_value(x, b) as int;
    let yv = compose_value(y, b) as int;
    let pv = compose_value(p, b) as int;
    let qc = compose_value(q, b) as int;
    assert(xv * yv == low_xy + rr * cxy);
    assert(pv * qc == low_pq + rr * cpq);
    assert(qc == qv);
    assert(pv == rr - w);
    assert(prod == xv * yv);
    vstd::arithmetic::mul::lemma_mul_is_distributive_add(rr, cxy, cpq);
    assert(big_t + rr * carry == prod + qv * (rr - w));
    lemma_fundamental_div_mod(prod as int, w as int);
    assert(prod % w == prod - qv * w) by {
        vstd::arithmetic::mul::lemma_mul_is_commutative(w as int, qv);
    }
    let m = qv - carry;
    assert(big_t == (r0 + ppi * r1) + qqi * (r2 + ppi * r3) + rr * m) by (nonlinear_arith)
        requires
            big_t + rr * carry == prod + qv * (rr - w),
            (r0 + ppi * r1) + qqi * (r2 + ppi * r3) == prod - qv * w,
            m == qv - carry,
    ;
    let u0 = t0 + ppi * t1 - r0 - ppi * r1;
    let u1 = t2 + ppi * t3 - r2 - ppi * r3;
    assert(u0 + qqi * u1 == m * qqi * qqi) by (nonlinear_arith)
        requires
            big_t == (t0 + ppi * t1) + qqi * (t2 + ppi * t3),
            big_t == (r0 + ppi * r1) + qqi * (r2 + ppi * r3) + rr * m,
            rr == qqi * qqi,
            u0 == t0 + ppi * t1 - r0 - ppi * r1,
            u1 == t2 + ppi * t3 - r2 - ppi * r3,
    ;
    let k = m * qqi - u1;
    assert(u0 == qqi * k) by (nonlinear_arith)
        requires
            u0 + qqi * u1 == m * qqi * qqi,
            k == m * qqi - u1,
    ;
    assert(r0 + ppi * r1 < qqi) by (nonlinear_arith)
        requires
            0 <= r0 < ppi,
            0 <= r1 < ppi,
            qqi == ppi * ppi,
    ;
    assert(k >= 0) by (nonlinear_arith)
        requires
            u0 == qqi * k,
            u0 > -qqi,
            qqi > 0,
    ;
    // the multiple of 2^(2b) that the second check sees stays below n
    assert(m * qqi < n) by (nonlinear_arith)
        requires
            big_t == (r0 + ppi * r1) + qqi * (r2 + ppi * r3) + rr * m,
            big_t < n * qqi,
            rr == qqi * qqi,
            r0 >= 0,
            r1 >= 0,
            r2 >= 0,
            r3 >= 0,
            ppi > 0,
            qqi > 0,
    ;
    assert(m >= 0) by (nonlinear_arith)
        requires
            k == m * qqi - u1,
            k >= 0,
            u1 == t2 + ppi * t3 - r2 - ppi * r3,
            t2 >= 0,
            t3 >= 0,
            ppi > 0,
            u0 == qqi * k,
            u0 + qqi * u1 == m * qqi * qqi,
            u0 < n,
            qqi > 0,
            big_t == (r0 + ppi * r1) + qqi * (r2 + ppi * r3) + rr * m,
            big_t >= 0,
            (r0 + ppi * r1) + qqi * (r2 + ppi * r3) < rr,
            rr == qqi * qqi,
    ;
    assert(u0 >= 0 && u0 < n);
    let (u_0, u_1, _, _) = residues_value(t, r, ctx.left_shifter_r@, ctx.right_shifter_2r@, n);
    vstd::arithmetic::div_mod::lemma_small_mod(u0 as nat, n);
    assert(u_0 == u0);
    lemma_and_low_mask(u_0, 2 * b);
    vstd::arithmetic::div_mod::lemma_mod_multiples_basic(k, qqi);
    assert(k * qqi == qqi * k) by (nonlinear_arith);
    assert(bit_and(u_0, ctx.two_limb_mask@) == 0);
    let rs2 = ctx.right_shifter_2r@ as int;
    let ni = n as int;
    assert(u_1 as int == u1 % ni);
    assert((u_0 * rs2) % ni == k % ni) by {
        assert(u_0 * rs2 == k * (qqi * rs2)) by (nonlinear_arith)
            requires
                u_0 == qqi * k,
        ;
        lemma_mul_mod_noop_right(k, qqi * rs2, ni);
        assert(qqi * rs2 == rs2 * qqi) by (nonlinear_arith);
        vstd::arithmetic::div_mod::lemma_mul_mod_noop_right(k, 1, ni);
    }
    vstd::arithmetic::div_mod::lemma_mod_twice(u1, ni);
    lemma_mod_linear(u_0 * rs2, k, u1 % ni, u1, 1, ni);
    assert(k + u1 == m * qqi);
    vstd::arithmetic::div_mod::lemma_small_mod((m * qqi) as nat, n);
    let carried = ((u_0 * ctx.right_shifter_2r@ + u_1) % n) as nat;
    assert(carried == m * qqi);
    lemma_and_low_mask(carried, 2 * b);
    vstd::arithmetic::div_mod::lemma_mod_multiples_basic(m, qqi);
    assert(residues_pass(t, r, ctx.left_shifter_r@, ctx.right_shifter_2r@, ctx.two_limb_mask@, n));
}

} // verus!
