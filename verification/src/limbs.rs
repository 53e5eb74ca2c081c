//! Splitting a number into limbs of a fixed bit length and putting limbs
//! back together.
use crate::big::{big_add, big_and, big_shl, big_shr, big_sub, bit_and, Big};
use crate::field::big_to_fe;
use vstd::arithmetic::div_mod::{lemma_div_denominator, lemma_mod_breakdown, lemma_small_mod};
use vstd::arithmetic::mul::lemma_mul_is_distributive_add;
use vstd::arithmetic::power2::{lemma_pow2_adds, lemma_pow2_pos, pow2};
use vstd::prelude::*;

verus! {

/// The values of a sequence of numbers.
pub open spec fn values(s: Seq<Big>) -> Seq<nat> {
    s.map_values(|x: Big| x@)
}

/// `s[0] + s[1] * 2^b + s[2] * 2^(2b) + ...`
pub open spec fn compose_value(s: Seq<nat>, b: nat) -> nat
    decreases s.len(),
{
    if s.len() == 0 {
        0
    } else {
        s[0] + pow2(b) * compose_value(s.drop_first(), b)
    }
}

/// The `i`-th limb of `e` in base `2^b`, without reduction.
pub open spec fn limb_of(e: nat, b: nat, i: nat) -> nat {
    (e / pow2(i * b)) % pow2(b)
}

/// The first `l` limbs of `e` in base `2^b`, each reduced modulo `n`.
pub open spec fn decompose_value(e: nat, n: nat, l: nat, b: nat) -> Seq<nat> {
    Seq::new(l, |i: int| limb_of(e, b, i as nat) % n)
}

/// Limb `i` of a decomposition.
pub proof fn lemma_decompose_index(e: nat, n: nat, l: nat, b: nat, i: nat)
    requires
        n > 0,
        i < l,
    ensures
        decompose_value(e, n, l, b)[i as int] == limb_of(e, b, i) % n,
{
}

/// Masking with `2^k - 1` keeps the remainder modulo `2^k`.
pub proof fn lemma_and_low_mask(x: nat, k: nat)
    ensures
        pow2(k) >= 1,
        bit_and(x, (pow2(k) - 1) as nat) == x % pow2(k),
    decreases k,
{
    lemma_pow2_pos(k);
    if k == 0 {
        assert(pow2(0) == 1) by {
            vstd::arithmetic::power2::lemma2_to64();
        }
        assert(bit_and(x, 0) == 0);
    } else {
        lemma_and_low_mask(x / 2, (k - 1) as nat);
        let h = pow2((k - 1) as nat);
        assert(pow2(k) == 2 * h) by {
            lemma_pow2_adds(1, (k - 1) as nat);
            vstd::arithmetic::power2::lemma2_to64();
        }
        let m = (pow2(k) - 1) as nat;
        assert(m % 2 == 1 && m / 2 == h - 1);
        if x == 0 {
            assert(bit_and(x, m) == 0);
        } else {
            assert(bit_and(x, m) == (x % 2) * (m % 2) + 2 * bit_and(x / 2, m / 2));
            lemma_mod_breakdown(x as int, 2, h as int);
        }
    }
}

/// Putting the limbs of a number back together gives the number modulo
/// `2^(l * b)`, as long as a limb is never reduced by `n`.
pub proof fn lemma_compose_decompose(e: nat, n: nat, l: nat, b: nat)
    requires
        pow2(b) <= n,
    ensures
        compose_value(decompose_value(e, n, l, b), b) == e % pow2(l * b),
    decreases l,
{
    lemma_pow2_pos(b);
    if l == 0 {
        assert(pow2(0) == 1) by {
            vstd::arithmetic::power2::lemma2_to64();
        }
        assert(decompose_value(e, n, l, b) =~= Seq::<nat>::empty());
    } else {
        let d = decompose_value(e, n, l, b);
        let e1 = e / pow2(b);
        lemma_compose_decompose(e1, n, (l - 1) as nat, b);
        assert forall|i: int| 0 <= i < l - 1 implies #[trigger] d.drop_first()[i]
            == decompose_value(e1, n, (l - 1) as nat, b)[i] by {
            assert((i + 1) * b == i * b + b) by (nonlinear_arith);
            lemma_pow2_adds(b, (i * b) as nat);
            lemma_pow2_pos((i * b) as nat);
            lemma_div_denominator(e as int, pow2(b) as int, pow2((i * b) as nat) as int);
        }
        assert(d.drop_first() =~= decompose_value(e1, n, (l - 1) as nat, b));
        assert(0 * b == 0);
        assert(pow2(0) == 1) by {
            vstd::arithmetic::power2::lemma2_to64();
        }
        assert(e / pow2(0) == e);
        lemma_small_mod(e % pow2(b), n);
        assert(d[0] == e % pow2(b));
        assert(l * b == b + (l - 1) * b) by (nonlinear_arith)
            requires l >= 1;
        lemma_pow2_adds(b, ((l - 1) * b) as nat);
        lemma_pow2_pos(((l - 1) * b) as nat);
        lemma_mod_breakdown(e as int, pow2(b) as int, pow2(((l - 1) * b) as nat) as int);
    }
}

/// `input[0] + input[1] * 2^bit_len + input[2] * 2^(2 bit_len) + ...`
pub fn compose(input: &Vec<Big>, bit_len: usize) -> (r: Big)
    ensures
        r@ == compose_value(values(input@), bit_len as nat),
{
    let ghost s = values(input@);
    let mut acc = Big::zero();
    let mut i = input.len();
    assert(s.subrange(i as int, i as int) =~= Seq::<nat>::empty());
    while i > 0
        invariant
            i <= input@.len(),
            s == values(input@),
            acc@ == compose_value(s.subrange(i as int, input@.len() as int), bit_len as nat),
        decreases i,
    {
        i = i - 1;
        let shifted = big_shl(&acc, bit_len);
        acc = big_add(&shifted, &input[i]);
        proof {
            let t = s.subrange(i as int, input@.len() as int);
            assert(t.drop_first() =~= s.subrange(i + 1, input@.len() as int));
            assert(t[0] == input@[i as int]@);
            assert(compose_value(t, bit_len as nat) == t[0] + pow2(bit_len as nat) * compose_value(
                t.drop_first(),
                bit_len as nat,
            ));
            vstd::arithmetic::mul::lemma_mul_is_commutative(
                pow2(bit_len as nat) as int,
                compose_value(t.drop_first(), bit_len as nat) as int,
            );
        }
    }
    assert(s.subrange(0, input@.len() as int) =~= s);
    acc
}

/// The first `number_of_limbs` limbs of `e` in base `2^bit_len`, each taken
/// as an element of the field of modulus `native_modulus`.
pub fn decompose_big(e: &Big, native_modulus: &Big, number_of_limbs: usize, bit_len: usize) -> (r:
    Vec<Big>)
    requires
        native_modulus@ > 0,
    ensures
        values(r@) == decompose_value(e@, native_modulus@, number_of_limbs as nat, bit_len as nat),
        r@.len() == number_of_limbs,
{
    let ghost b = bit_len as nat;
    let ghost n = native_modulus@;
    let one = Big::one();
    let top = big_shl(&one, bit_len);
    proof {
        lemma_pow2_pos(b);
    }
    let mask = big_sub(&top, &one);
    let mut e = e.clone();
    let ghost e0 = e@;
    let mut limbs: Vec<Big> = Vec::new();
    let mut i: usize = 0;
    proof {
        assert(pow2(0) == 1) by {
            vstd::arithmetic::power2::lemma2_to64();
        }
        assert((0 * b) as nat == 0);
    }
    while i < number_of_limbs
        invariant
            i <= number_of_limbs,
            n == native_modulus@,
            n > 0,
            b == bit_len as nat,
            mask@ == pow2(b) - 1,
            e@ == e0 / pow2((i * b) as nat),
            limbs@.len() == i,
            forall|j: int| 0 <= j < i ==> #[trigger] limbs@[j]@ == limb_of(e0, b, j as nat) % n,
        decreases number_of_limbs - i,
    {
        let limb = big_and(&mask, &e);
        proof {
            lemma_and_low_mask(e@, b);
            assert(bit_and(mask@, e@) == bit_and(e@, mask@)) by {
                lemma_and_commutes(mask@, e@);
            }
        }
        e = big_shr(&e, bit_len);
        proof {
            assert((i + 1) * b == i * b + b) by (nonlinear_arith);
            lemma_pow2_adds((i * b) as nat, b);
            lemma_pow2_pos((i * b) as nat);
            lemma_div_denominator(e0 as int, pow2((i * b) as nat) as int, pow2(b) as int);
        }
        limbs.push(big_to_fe(&limb, native_modulus));
        i = i + 1;
    }
    assert(values(limbs@) =~= decompose_value(e0, n, number_of_limbs as nat, b));
    limbs
}

/// Bitwise and does not depend on the order of its arguments.
pub proof fn lemma_and_commutes(a: nat, b: nat)
    ensures
        bit_and(a, b) == bit_and(b, a),
    decreases a + b,
{
    if a != 0 && b != 0 {
        lemma_and_commutes(a / 2, b / 2);
        assert((a % 2) * (b % 2) == (b % 2) * (a % 2)) by (nonlinear_arith);
    }
}


/// A copy of a sequence of numbers.
pub fn copy_all(v: &Vec<Big>) -> (r: Vec<Big>)
    ensures
        values(r@) == values(v@),
        r@.len() == v@.len(),
{
    let mut r: Vec<Big> = Vec::new();
    let mut i: usize = 0;
    while i < v.len()
        invariant
            i <= v@.len(),
            r@.len() == i,
            forall|j: int| 0 <= j < i ==> #[trigger] r@[j]@ == v@[j]@,
        decreases v@.len() - i,
    {
        r.push(v[i].clone());
        i = i + 1;
    }
    assert(values(r@) =~= values(v@));
    r
}

/// `len` zeros.
pub fn zeros(len: usize) -> (r: Vec<Big>)
    ensures
        r@.len() == len,
        forall|j: int| 0 <= j < len ==> #[trigger] r@[j]@ == 0,
{
    let mut r: Vec<Big> = Vec::new();
    let mut i: usize = 0;
    while i < len
        invariant
            i <= len,
            r@.len() == i,
            forall|j: int| 0 <= j < i ==> #[trigger] r@[j]@ == 0,
        decreases len - i,
    {
        r.push(Big::zero());
        i = i + 1;
    }
    r
}

} // verus!
