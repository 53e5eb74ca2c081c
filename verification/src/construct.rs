//! Building the residue number system of a wrong modulus and a native
//! modulus: all the bounds that the circuits rely on, checked as they are
//! derived.
use crate::arith::{has_inverse, inverse_of};
use crate::big::nbits;
use crate::big::{
    big_add, big_bits, big_div_rem, big_lt, big_modinv, big_modpow, big_mul, big_shl, big_shl_u64,
    big_shr, big_sub, Big,
};
use crate::field::big_to_fe;
use crate::limbs::{compose, compose_value, copy_all, decompose_big, decompose_value, limb_of, values, zeros};
use crate::rns::{Integer, Quotient, Rns};
use std::rc::Rc;
use crate::rns::{reduce_parts_of, reduce_passes_of, RnsView};
use vstd::arithmetic::power::pow;
use vstd::arithmetic::power2::pow2;
use vstd::pervasive::unreached;
use vstd::prelude::*;

verus! {

/// The number of lookup limbs a limb is split into for range checks.
pub const NUMBER_OF_LOOKUP_LIMBS: usize = 4;

/// `x` cast to `usize`.
pub open spec fn usize_of(x: nat) -> nat {
    (x as usize) as nat
}

/// The larger of two naturals.
pub open spec fn max_nat(a: nat, b: nat) -> nat {
    if a >= b {
        a
    } else {
        b
    }
}

/// The sum of the first `i` rows of column `k` of `a * b + p * q`, for limbs
/// of length `l`.
pub open spec fn emul_column(
    a: Seq<nat>,
    b: Seq<nat>,
    p: Seq<nat>,
    q: Seq<nat>,
    k: int,
    i: int,
    l: int,
) -> nat
    decreases i,
{
    if i <= 0 {
        0
    } else {
        emul_column(a, b, p, q, k, i - 1, l) + (if 0 <= k - (i - 1) < l {
            a[i - 1] * b[k - (i - 1)] + p[i - 1] * q[k - (i - 1)]
        } else {
            0
        })
    }
}

/// The carries `v_0`, `v_1` out of the two lower and the two upper limbs of
/// intermediate values `t`, limbs of `b` bits.
pub open spec fn carries(t: Seq<nat>, b: nat) -> (nat, nat) {
    let u_0 = t[0] + t[1] * pow2(b);
    let u_1 = t[2] + t[3] * pow2(b) + u_0 / pow2(2 * b);
    (u_0 / pow2(2 * b), u_1 / pow2(2 * b))
}

/// Limb `j` of twice the wrong modulus, before any borrow.
pub open spec fn doubled_limb(w: nat, n: nat, b: nat, j: nat) -> nat {
    2 * (limb_of(w, b, j) % n)
}

/// Whether limb `j` of the base auxiliary value is too short and borrows
/// from the limb above it.
pub open spec fn aux_borrows(w: nat, n: nat, l: nat, b: nat, j: nat) -> bool {
    j + 1 < l && usize_of(nbits(doubled_limb(w, n, b, j))) < b + 1
}

/// Limb `j` of the base auxiliary value with the limb `r` lent to it, before
/// it lends to the limb below.
pub open spec fn aux_lent(w: nat, n: nat, r: nat, l: nat, b: nat, j: nat) -> nat {
    doubled_limb(w, n, b, j) + (if aux_borrows(w, n, l, b, j) {
        r
    } else {
        0
    })
}

/// Limb `j` of the base auxiliary value: twice the wrong modulus, with every
/// limb shorter than `b + 1` bits lent `r` by the limb above it.
pub open spec fn aux_limb(w: nat, n: nat, r: nat, l: nat, b: nat, j: nat) -> int {
    aux_lent(w, n, r, l, b, j) - (if j >= 1 && aux_borrows(w, n, l, b, (j - 1) as nat) {
        1int
    } else {
        0
    })
}

/// Whether no limb that lends is zero.
pub open spec fn aux_defined(w: nat, n: nat, r: nat, l: nat, b: nat) -> bool {
    forall|j: nat| 1 <= j < l && #[trigger] aux_borrows(w, n, l, b, (j - 1) as nat) ==> aux_lent(w, n, r, l, b, j) >= 1
}

/// The base auxiliary limbs.
pub open spec fn base_aux_of(w: nat, n: nat, r: nat, l: nat, b: nat) -> Seq<nat> {
    Seq::new(l, |j: int| aux_limb(w, n, r, l, b, j as nat) as nat)
}

/// `2^(l b)`.
pub open spec fn binary_modulus_of(l: nat, b: nat) -> nat {
    pow2(l * b)
}

/// The modulus of the Chinese remainder theorem: `2^(l b) * n`.
pub open spec fn crt_modulus_of(n: nat, l: nat, b: nat) -> nat {
    binary_modulus_of(l, b) * n
}

/// `base^e` in the field of modulus `n`.
pub open spec fn shifter(base: nat, e: nat, n: nat) -> nat {
    (pow(base as int, e) % (n as int)) as nat
}

/// The inverse of two in the field of modulus `n`.
pub open spec fn two_inv_of(n: nat) -> nat {
    inverse_of(2nat % n, n)
}

/// `2^b` in the field of modulus `n`.
pub open spec fn left_shifter_r_of(n: nat, b: nat) -> nat {
    shifter(2nat % n, b, n)
}

/// The bit length that a product of two operands must stay under.
pub open spec fn pre_max_operand_bit_len_of(n: nat, l: nat, b: nat) -> int {
    nbits(crt_modulus_of(n, l, b)) / 2 - 1
}

/// The largest operand whose square stays under the CRT modulus.
pub open spec fn pre_max_operand_of(n: nat, l: nat, b: nat) -> nat {
    (pow2(pre_max_operand_bit_len_of(n, l, b) as nat) - 1) as nat
}

/// The bit length of the wrong modulus.
pub open spec fn bit_len_wrong_modulus_of(w: nat) -> nat {
    usize_of(nbits(w))
}

/// The largest remainder: all bits of the wrong modulus set.
pub open spec fn max_remainder_of(w: nat) -> nat {
    (pow2(bit_len_wrong_modulus_of(w)) - 1) as nat
}

/// The largest quotient for which `q w + r` stays under the CRT modulus.
pub open spec fn pre_max_mul_quotient_of(w: nat, n: nat, l: nat, b: nat) -> nat {
    ((crt_modulus_of(n, l, b) - max_remainder_of(w)) as nat) / w
}

/// The largest quotient of a multiplication: all bits set, one bit shorter
/// than the pre-maximum.
pub open spec fn max_mul_quotient_of(w: nat, n: nat, l: nat, b: nat) -> nat {
    (pow2((nbits(pre_max_mul_quotient_of(w, n, l, b)) - 1) as nat) - 1) as nat
}

/// `max_mul_quotient * w + max_remainder`.
pub open spec fn max_mul_value_of(w: nat, n: nat, l: nat, b: nat) -> nat {
    max_mul_quotient_of(w, n, l, b) * w + max_remainder_of(w)
}

/// The largest operand of a multiplication.
pub open spec fn max_operand_of(w: nat, n: nat, l: nat, b: nat) -> nat {
    (pow2((nbits(max_mul_value_of(w, n, l, b)) / 2 - 1) as nat) - 1) as nat
}

/// The largest reduced limb: `b` bits set.
pub open spec fn max_reduced_limb_of(b: nat) -> nat {
    (pow2(b) - 1) as nat
}

/// The largest unreduced limb: `b + b / 2` bits set.
pub open spec fn max_unreduced_limb_of(b: nat) -> nat {
    (pow2(b + b / 2) - 1) as nat
}

/// The most significant limb of `x` in `l` limbs of `b` bits.
pub open spec fn most_significant(x: nat, l: nat, b: nat) -> nat {
    x / pow2(((l - 1) * b) as nat)
}

/// The limbs of `2^(l b) - w`.
pub open spec fn negative_wrong_modulus_of(w: nat, n: nat, l: nat, b: nat) -> Seq<nat> {
    decompose_value((binary_modulus_of(l, b) - w) as nat, n, l, b)
}

/// The carries of the largest multiplication.
pub open spec fn mul_carries_of(w: nat, n: nat, l: nat, b: nat) -> (nat, nat) {
    let mrl = max_reduced_limb_of(b);
    let a = seq![mrl, mrl, mrl, most_significant(max_operand_of(w, n, l, b), l, b)];
    let q = seq![mrl, mrl, mrl, most_significant(max_mul_quotient_of(w, n, l, b), l, b)];
    let p = negative_wrong_modulus_of(w, n, l, b);
    carries(Seq::new((2 * l - 1) as nat, |k: int| emul_column(a, a, p, q, k, l as int, l as int)), b)
}

/// Four largest unreduced limbs.
pub open spec fn red_limbs_of(b: nat) -> Seq<nat> {
    Seq::new(4, |i: int| max_unreduced_limb_of(b))
}

/// The carries of the largest reduction.
pub open spec fn red_carries_of(w: nat, n: nat, l: nat, b: nat) -> (nat, nat) {
    let a = red_limbs_of(b);
    let p = negative_wrong_modulus_of(w, n, l, b);
    carries(Seq::new(4, |i: int| a[i] + max_reduced_limb_of(b) * p[i]), b)
}

/// The limbs of the integer that the last check reduces: `l` largest
/// unreduced limbs `m` in the native field of modulus `n`.
pub open spec fn check_limbs_of(m: nat, n: nat, l: nat) -> Seq<nat> {
    Seq::new(l, |i: int| m % n)
}

/// The system of wrong modulus `w`, native modulus `n`, `l` limbs of `b` bits.
pub open spec fn expected_view(w: nat, n: nat, l: nat, b: nat) -> RnsView {
    let two = 2nat % n;
    let two_inv = two_inv_of(n);
    let max_remainder = max_remainder_of(w);
    let max_operand = max_operand_of(w, n, l, b);
    let max_mul_quotient = max_mul_quotient_of(w, n, l, b);
    let max_reduced_limb = max_reduced_limb_of(b);
    let max_unreduced_limb = max_unreduced_limb_of(b);
    let (mul_v0, mul_v1) = mul_carries_of(w, n, l, b);
    let (red_v0, red_v1) = red_carries_of(w, n, l, b);
    RnsView {
        bit_len_last_limb: bit_len_wrong_modulus_of(w) % b,
        bit_len_lookup: b / (NUMBER_OF_LOOKUP_LIMBS as nat),
        bit_len_wrong_modulus: bit_len_wrong_modulus_of(w),
        wrong_modulus: w,
        native_modulus: n,
        binary_modulus: binary_modulus_of(l, b),
        crt_modulus: crt_modulus_of(n, l, b),
        right_shifter_r: shifter(two_inv, b, n),
        right_shifter_2r: shifter(two_inv, 2 * b, n),
        left_shifter_r: shifter(two, b, n),
        left_shifter_2r: shifter(two, 2 * b, n),
        left_shifter_3r: shifter(two, 3 * b, n),
        base_aux: base_aux_of(w, n, left_shifter_r_of(n, b), l, b),
        negative_wrong_modulus_decomposed: negative_wrong_modulus_of(w, n, l, b),
        wrong_modulus_decomposed: decompose_value(w, n, l, b),
        wrong_modulus_minus_one: decompose_value((w - 1) as nat, n, l, b),
        wrong_modulus_in_native_modulus: (w % n) % n,
        max_reduced_limb,
        max_unreduced_limb,
        max_remainder,
        max_operand,
        max_mul_quotient,
        max_reducible_value: max_reduced_limb * w + max_remainder,
        max_with_max_unreduced_limbs: compose_value(Seq::new(4, |i: int| max_unreduced_limb), b),
        max_dense_value: compose_value(Seq::new(4, |i: int| max_reduced_limb), b),
        max_most_significant_reduced_limb: most_significant(max_remainder, l, b),
        max_most_significant_operand_limb: most_significant(max_operand, l, b),
        max_most_significant_unreduced_limb: max_unreduced_limb,
        max_most_significant_mul_quotient_limb: most_significant(max_mul_quotient, l, b),
        mul_v0_bit_len: max_nat(usize_of(nbits(mul_v0)), b),
        mul_v1_bit_len: max_nat(usize_of(nbits(mul_v1)), b),
        red_v0_bit_len: max_nat(usize_of(nbits(red_v0)), b),
        red_v1_bit_len: max_nat(usize_of(nbits(red_v1)), b),
        two_limb_mask: (pow2(2 * b) - 1) as nat,
    }
}

/// The checks on the moduli themselves: the binary modulus exceeds both,
/// the CRT modulus exceeds the square of the wrong modulus, two is
/// invertible in the native field, and the wrong modulus is not zero.
pub open spec fn moduli_ok(w: nat, n: nat, l: nat, b: nat) -> bool {
    let bm = binary_modulus_of(l, b);
    &&& bm > w
    &&& bm > n
    &&& bm * n > w * w
    &&& has_inverse(2nat % n, n)
    &&& w > 0
}

/// The checks on the operand and quotient bounds.
pub open spec fn operand_bounds_ok(w: nat, n: nat, l: nat, b: nat) -> bool {
    let crt = crt_modulus_of(n, l, b);
    let pre_max_operand = pre_max_operand_of(n, l, b);
    let max_mul_quotient = max_mul_quotient_of(w, n, l, b);
    let max_mul_value = max_mul_value_of(w, n, l, b);
    let max_operand = max_operand_of(w, n, l, b);
    &&& nbits(crt) / 2 >= 1
    &&& crt >= max_remainder_of(w)
    &&& nbits(pre_max_mul_quotient_of(w, n, l, b)) >= 1
    &&& nbits(max_mul_value) / 2 >= 1
    &&& crt > pre_max_operand * pre_max_operand
    &&& pre_max_operand > w
    &&& crt > max_mul_value
    &&& max_mul_quotient > w
    &&& max_operand <= pre_max_operand
    &&& max_operand > w
    &&& crt > max_operand * max_operand
    &&& max_mul_value > max_operand * max_operand
}

/// The checks on the limb bounds.
pub open spec fn limb_bounds_ok(w: nat, n: nat, l: nat, b: nat) -> bool {
    let max_reduced_limb = max_reduced_limb_of(b);
    let max_unreduced_limb = max_unreduced_limb_of(b);
    &&& usize_of(nbits(most_significant(max_remainder_of(w), l, b))) < b
    &&& usize_of(nbits(most_significant(max_operand_of(w, n, l, b), l, b))) < b
    &&& usize_of(nbits(most_significant(max_mul_quotient_of(w, n, l, b), l, b))) <= b
    &&& max_reduced_limb * w + max_remainder_of(w) > compose_value(
        Seq::new(4, |i: int| max_unreduced_limb),
        b,
    )
    &&& compose_value(red_limbs_of(b), b) / w < pow2(b)
    &&& (b / (NUMBER_OF_LOOKUP_LIMBS as nat)) * (NUMBER_OF_LOOKUP_LIMBS as nat) == b
}

/// The checks on the base auxiliary limbs.
pub open spec fn base_aux_ok(w: nat, n: nat, l: nat, b: nat) -> bool {
    let base_aux = base_aux_of(w, n, left_shifter_r_of(n, b), l, b);
    &&& aux_defined(w, n, left_shifter_r_of(n, b), l, b)
    &&& compose_value(base_aux, b) % w == 0
    &&& compose_value(base_aux, b) > max_remainder_of(w)
    &&& forall|i: int|
        0 <= i < l ==> #[trigger] base_aux[i] >= (if i == l - 1 {
            most_significant(max_remainder_of(w), l, b)
        } else {
            max_reduced_limb_of(b)
        })
    &&& b > 0
}

/// The last check: the integer of largest unreduced limbs reduces, with a
/// quotient below the largest reduced limb.
pub open spec fn reduction_ok(w: nat, n: nat, l: nat, b: nat) -> bool {
    let v = expected_view(w, n, l, b);
    let a = check_limbs_of(v.max_unreduced_limb, n, l);
    let p = v.negative_wrong_modulus_decomposed;
    &&& reduce_passes_of(a, w, n, p, v.left_shifter_r, v.right_shifter_2r, v.two_limb_mask, l, b)
    &&& reduce_parts_of(a, w, n, p, l, b).0 < v.max_reduced_limb
}

/// Whether the system of wrong modulus `w`, native modulus `n`, `l` limbs of
/// `b` bits can be built: every check made while deriving it holds.
pub open spec fn accepts(w: nat, n: nat, l: nat, b: nat) -> bool {
    &&& moduli_ok(w, n, l, b)
    &&& operand_bounds_ok(w, n, l, b)
    &&& limb_bounds_ok(w, n, l, b)
    &&& base_aux_ok(w, n, l, b)
    &&& reduction_ok(w, n, l, b)
}

impl<const NUMBER_OF_LIMBS: usize, const BIT_LEN_LIMB: usize> Rns<NUMBER_OF_LIMBS, BIT_LEN_LIMB> {
    /// The base auxiliary limbs: twice the wrong modulus, with every limb
    /// shorter than `BIT_LEN_LIMB + 1` bits lent `2^BIT_LEN_LIMB` (as a native
    /// element) by the limb above it.
    pub fn calculate_base_aux(wrong_modulus: &Big, native_modulus: &Big) -> (r: Vec<Big>)
        requires
            native_modulus@ > 0,
            NUMBER_OF_LIMBS >= 1,
            BIT_LEN_LIMB < usize::MAX,
            aux_defined(
                wrong_modulus@,
                native_modulus@,
                (pow((2nat % native_modulus@) as int, BIT_LEN_LIMB as nat) % (native_modulus@ as int)) as nat,
                NUMBER_OF_LIMBS as nat,
                BIT_LEN_LIMB as nat,
            ),
        ensures
            values(r@) == base_aux_of(
                wrong_modulus@,
                native_modulus@,
                (pow((2nat % native_modulus@) as int, BIT_LEN_LIMB as nat) % (native_modulus@ as int)) as nat,
                NUMBER_OF_LIMBS as nat,
                BIT_LEN_LIMB as nat,
            ),
    {
        match Self::checked_base_aux(wrong_modulus, native_modulus) {
            Some(r) => r,
            None => unreached(),
        }
    }

    /// The base auxiliary limbs as `calculate_base_aux` computes them, or
    /// `None` where a limb that lends is zero.
    pub fn checked_base_aux(wrong_modulus: &Big, native_modulus: &Big) -> (r: Option<Vec<Big>>)
        requires
            native_modulus@ > 0,
            NUMBER_OF_LIMBS >= 1,
            BIT_LEN_LIMB < usize::MAX,
        ensures
            ({
                let rv = (pow((2nat % native_modulus@) as int, BIT_LEN_LIMB as nat) % (
                native_modulus@ as int)) as nat;
                &&& r is Some <==> aux_defined(
                    wrong_modulus@,
                    native_modulus@,
                    rv,
                    NUMBER_OF_LIMBS as nat,
                    BIT_LEN_LIMB as nat,
                )
                &&& r matches Some(v) ==> values(v@) == base_aux_of(
                    wrong_modulus@,
                    native_modulus@,
                    rv,
                    NUMBER_OF_LIMBS as nat,
                    BIT_LEN_LIMB as nat,
                )
            }),
    {
        let ghost w = wrong_modulus@;
        let ghost n = native_modulus@;
        let ghost l = NUMBER_OF_LIMBS as nat;
        let ghost b = BIT_LEN_LIMB as nat;
        let two = big_to_fe(&Big::from_u64(2), native_modulus);
        let r = big_modpow(&two, &Big::from_u64(BIT_LEN_LIMB as u64), native_modulus);
        let ghost rv = r@;
        assert(rv == (pow((2nat % n) as int, b) % (n as int)) as nat);
        let decomposed = decompose_big(wrong_modulus, native_modulus, NUMBER_OF_LIMBS, BIT_LEN_LIMB);
        let mut base_aux: Vec<Big> = Vec::new();
        let mut k: usize = 0;
        while k < NUMBER_OF_LIMBS
            invariant
                k <= NUMBER_OF_LIMBS,
                l == NUMBER_OF_LIMBS as nat,
                b == BIT_LEN_LIMB as nat,
                n > 0,
                decomposed@.len() == NUMBER_OF_LIMBS,
                values(decomposed@) == decompose_value(w, n, l, b),
                base_aux@.len() == k,
                forall|j: int| 0 <= j < k ==> #[trigger] base_aux@[j]@ == doubled_limb(w, n, b, j as nat),
            decreases NUMBER_OF_LIMBS - k,
        {
            let doubled = big_shl(&decomposed[k], 1);
            proof {
                vstd::arithmetic::power2::lemma2_to64();
                assert(values(decomposed@)[k as int] == decomposed@[k as int]@);
                crate::limbs::lemma_decompose_index(w, n, l, b, k as nat);
                assert(doubled@ == decomposed@[k as int]@ * 2);
            }
            base_aux.push(doubled);
            k = k + 1;
        }
        let one = Big::one();
        let mut i: usize = 0;
        while i < NUMBER_OF_LIMBS - 1
            invariant
                NUMBER_OF_LIMBS >= 1,
                i <= NUMBER_OF_LIMBS - 1,
                BIT_LEN_LIMB < usize::MAX,
                l == NUMBER_OF_LIMBS as nat,
                b == BIT_LEN_LIMB as nat,
                one@ == 1,
                w == wrong_modulus@,
                n == native_modulus@,
                rv == (pow((2nat % n) as int, b) % (n as int)) as nat,
                forall|j: nat|
                    NUMBER_OF_LIMBS - 1 - i < j < NUMBER_OF_LIMBS && #[trigger] aux_borrows(w, n, l, b, (j - 1) as nat)
                        ==> aux_lent(w, n, rv, l, b, j) >= 1,
                r@ == rv,
                base_aux@.len() == NUMBER_OF_LIMBS,
                forall|j: int|
                    NUMBER_OF_LIMBS - 1 - i < j < NUMBER_OF_LIMBS ==> #[trigger] base_aux@[j]@
                        == aux_limb(w, n, rv, l, b, j as nat),
                base_aux@[NUMBER_OF_LIMBS - 1 - i]@ == aux_lent(w, n, rv, l, b, (NUMBER_OF_LIMBS - 1 - i) as nat),
                forall|j: int|
                    0 <= j < NUMBER_OF_LIMBS - 1 - i ==> #[trigger] base_aux@[j]@ == doubled_limb(w, n, b, j as nat),
            decreases NUMBER_OF_LIMBS - 1 - i,
        {
            let hidx = NUMBER_OF_LIMBS - i - 1;
            let lidx = hidx - 1;
            let ghost h = hidx as nat;
            let ghost lo = lidx as nat;
            proof {
                assert(lo + 1 < l);
                assert(aux_borrows(w, n, l, b, lo) == (usize_of(nbits(doubled_limb(w, n, b, lo))) < b + 1));
            }
            if (#[verifier::truncate] (big_bits(&base_aux[lidx]) as usize)) < BIT_LEN_LIMB + 1 {
                proof {
                    assert(aux_borrows(w, n, l, b, ((h - 1) as nat)));
                }
                if !big_lt(&Big::zero(), &base_aux[hidx]) {
                    proof {
                        assert(aux_lent(w, n, rv, l, b, h) == 0);
                        assert(!aux_defined(w, n, rv, l, b));
                    }
                    return None;
                }
                let high = big_sub(&base_aux[hidx], &one);
                base_aux.set(hidx, high);
                let low = big_add(&base_aux[lidx], &r);
                base_aux.set(lidx, low);
            }
            i = i + 1;
        }
        proof {
            assert(values(base_aux@) =~= base_aux_of(w, n, rv, l, b));
            assert(aux_defined(w, n, rv, l, b));
        }
        Some(base_aux)
    }
}


/// The carries out of the two lower and the two upper limbs of `t`.
fn carries_of<const BIT_LEN_LIMB: usize>(t: &Vec<Big>) -> (r: (Big, Big))
    requires
        t@.len() >= 4,
        BIT_LEN_LIMB <= usize::MAX / 4,
    ensures
        (r.0@, r.1@) == carries(values(t@), BIT_LEN_LIMB as nat),
{
    let u0 = big_add(&t[0], &big_shl(&t[1], BIT_LEN_LIMB));
    let u1 = big_add(&t[2], &big_shl(&t[3], BIT_LEN_LIMB));
    let u1 = big_add(&u1, &big_shr(&u0, 2 * BIT_LEN_LIMB));
    let v0 = big_shr(&u0, 2 * BIT_LEN_LIMB);
    let v1 = big_shr(&u1, 2 * BIT_LEN_LIMB);
    proof {
        let tv = values(t@);
        assert(tv[0] == t@[0]@ && tv[1] == t@[1]@ && tv[2] == t@[2]@ && tv[3] == t@[3]@);
    }
    (v0, v1)
}

/// The carries of the largest multiplication: operand limbs `a`, quotient
/// limbs `q`, and `p` the limbs of the negated wrong modulus.
fn mul_overflow<const NUMBER_OF_LIMBS: usize, const BIT_LEN_LIMB: usize>(
    a: &Vec<Big>,
    p: &Vec<Big>,
    q: &Vec<Big>,
) -> (r: (Big, Big))
    requires
        NUMBER_OF_LIMBS == 4,
        BIT_LEN_LIMB <= usize::MAX / 4,
        a@.len() == NUMBER_OF_LIMBS,
        p@.len() == NUMBER_OF_LIMBS,
        q@.len() == NUMBER_OF_LIMBS,
    ensures
        (r.0@, r.1@) == carries(
            Seq::new(
                (2 * NUMBER_OF_LIMBS - 1) as nat,
                |k: int|
                    emul_column(
                        values(a@),
                        values(a@),
                        values(p@),
                        values(q@),
                        k,
                        NUMBER_OF_LIMBS as int,
                        NUMBER_OF_LIMBS as int,
                    ),
            ),
            BIT_LEN_LIMB as nat,
        ),
{
    let ghost av = values(a@);
    let ghost pv = values(p@);
    let ghost qv = values(q@);
    let ghost l = NUMBER_OF_LIMBS as int;
    let len = 2 * NUMBER_OF_LIMBS - 1;
    let mut t = zeros(len);
    let mut i: usize = 0;
    while i < NUMBER_OF_LIMBS
        invariant
            NUMBER_OF_LIMBS == 4,
            l == NUMBER_OF_LIMBS as int,
            i <= NUMBER_OF_LIMBS,
            len == 2 * NUMBER_OF_LIMBS - 1,
            a@.len() == NUMBER_OF_LIMBS,
            p@.len() == NUMBER_OF_LIMBS,
            q@.len() == NUMBER_OF_LIMBS,
            av == values(a@),
            pv == values(p@),
            qv == values(q@),
            t@.len() == len,
            forall|k: int| 0 <= k < len ==> #[trigger] t@[k]@ == emul_column(av, av, pv, qv, k, i as int, l),
        decreases NUMBER_OF_LIMBS - i,
    {
        let mut j: usize = 0;
        while j < NUMBER_OF_LIMBS
            invariant
                NUMBER_OF_LIMBS == 4,
                l == NUMBER_OF_LIMBS as int,
                i < NUMBER_OF_LIMBS,
                j <= NUMBER_OF_LIMBS,
                len == 2 * NUMBER_OF_LIMBS - 1,
                a@.len() == NUMBER_OF_LIMBS,
                p@.len() == NUMBER_OF_LIMBS,
                q@.len() == NUMBER_OF_LIMBS,
                av == values(a@),
                pv == values(p@),
                qv == values(q@),
                t@.len() == len,
                forall|k: int|
                    0 <= k < len ==> #[trigger] t@[k]@ == emul_column(av, av, pv, qv, k, i as int, l) + (if i
                        <= k < i + j {
                        av[i as int] * av[k - i] + pv[i as int] * qv[k - i]
                    } else {
                        0
                    }),
            decreases NUMBER_OF_LIMBS - j,
        {
            let term = big_add(&big_mul(&a[i], &a[j]), &big_mul(&p[i], &q[j]));
            let sum = big_add(&t[i + j], &term);
            proof {
                assert(av[i as int] == a@[i as int]@ && av[j as int] == a@[j as int]@);
                assert(pv[i as int] == p@[i as int]@ && qv[j as int] == q@[j as int]@);
            }
            t.set(i + j, sum);
            j = j + 1;
        }
        proof {
            assert forall|k: int| 0 <= k < len implies #[trigger] t@[k]@ == emul_column(
                av,
                av,
                pv,
                qv,
                k,
                i + 1,
                l,
            ) by {
                assert(emul_column(av, av, pv, qv, k, i + 1, l) == emul_column(av, av, pv, qv, k, i as int, l)
                    + (if 0 <= k - i < l {
                    av[i as int] * av[k - i] + pv[i as int] * qv[k - i]
                } else {
                    0
                }));
            }
        }
        i = i + 1;
    }
    proof {
        assert(values(t@) =~= Seq::new(
            (2 * NUMBER_OF_LIMBS - 1) as nat,
            |k: int| emul_column(av, av, pv, qv, k, l, l),
        ));
    }
    carries_of::<BIT_LEN_LIMB>(&t)
}

/// The carries of the largest reduction: limbs `a`, one-limb quotient `q`,
/// and `p` the limbs of the negated wrong modulus.
fn red_overflow<const BIT_LEN_LIMB: usize>(a: &Vec<Big>, q: &Big, p: &Vec<Big>) -> (r: (Big, Big))
    requires
        BIT_LEN_LIMB <= usize::MAX / 4,
        a@.len() == 4,
        p@.len() >= 4,
    ensures
        (r.0@, r.1@) == carries(
            Seq::new(4, |i: int| values(a@)[i] + q@ * values(p@)[i]),
            BIT_LEN_LIMB as nat,
        ),
{
    let mut t: Vec<Big> = Vec::new();
    let mut i: usize = 0;
    while i < 4
        invariant
            i <= 4,
            a@.len() == 4,
            p@.len() >= 4,
            t@.len() == i,
            forall|k: int| 0 <= k < i ==> #[trigger] t@[k]@ == values(a@)[k] + q@ * values(p@)[k],
        decreases 4 - i,
    {
        t.push(big_add(&a[i], &big_mul(q, &p[i])));
        i = i + 1;
    }
    proof {
        assert(values(t@) =~= Seq::new(4, |i: int| values(a@)[i] + q@ * values(p@)[i]));
    }
    carries_of::<BIT_LEN_LIMB>(&t)
}

impl<const NUMBER_OF_LIMBS: usize, const BIT_LEN_LIMB: usize> Rns<NUMBER_OF_LIMBS, BIT_LEN_LIMB> {
    /// The bit lengths of the overflows over a whole number of lookup limbs:
    /// of the multiplication and reduction carries and of the most
    /// significant limbs.
    pub fn overflow_lengths(&self) -> (r: Vec<usize>)
        requires
            self.bit_len_lookup > 0,
        ensures
            r@ == seq![
                self.mul_v0_bit_len % self.bit_len_lookup,
                self.mul_v1_bit_len % self.bit_len_lookup,
                self.red_v0_bit_len % self.bit_len_lookup,
                self.red_v1_bit_len % self.bit_len_lookup,
                (usize_of(nbits(self.max_most_significant_mul_quotient_limb@)) as usize) % self.bit_len_lookup,
                (usize_of(nbits(self.max_most_significant_operand_limb@)) as usize) % self.bit_len_lookup,
                (usize_of(nbits(self.max_most_significant_reduced_limb@)) as usize) % self.bit_len_lookup,
            ],
    {
        let max_most_significant_mul_quotient_limb_size = (#[verifier::truncate] (big_bits(
            &self.max_most_significant_mul_quotient_limb,
        ) as usize)) % self.bit_len_lookup;
        let max_most_significant_operand_limb_size = (#[verifier::truncate] (big_bits(
            &self.max_most_significant_operand_limb,
        ) as usize)) % self.bit_len_lookup;
        let max_most_significant_reduced_limb_size = (#[verifier::truncate] (big_bits(
            &self.max_most_significant_reduced_limb,
        ) as usize)) % self.bit_len_lookup;
        let mut r: Vec<usize> = Vec::new();
        r.push(self.mul_v0_bit_len % self.bit_len_lookup);
        r.push(self.mul_v1_bit_len % self.bit_len_lookup);
        r.push(self.red_v0_bit_len % self.bit_len_lookup);
        r.push(self.red_v1_bit_len % self.bit_len_lookup);
        r.push(max_most_significant_mul_quotient_limb_size);
        r.push(max_most_significant_operand_limb_size);
        r.push(max_most_significant_reduced_limb_size);
        proof {
            assert(r@ =~= seq![
                self.mul_v0_bit_len % self.bit_len_lookup,
                self.mul_v1_bit_len % self.bit_len_lookup,
                self.red_v0_bit_len % self.bit_len_lookup,
                self.red_v1_bit_len % self.bit_len_lookup,
                (usize_of(nbits(self.max_most_significant_mul_quotient_limb@)) as usize) % self.bit_len_lookup,
                (usize_of(nbits(self.max_most_significant_operand_limb@)) as usize) % self.bit_len_lookup,
                (usize_of(nbits(self.max_most_significant_reduced_limb@)) as usize) % self.bit_len_lookup,
            ]);
        }
        r
    }
}


/// Four copies of `x`.
fn four(x: &Big) -> (r: Vec<Big>)
    ensures
        values(r@) == Seq::new(4, |i: int| x@),
        r@.len() == 4,
{
    let mut r: Vec<Big> = Vec::new();
    r.push(x.clone());
    r.push(x.clone());
    r.push(x.clone());
    r.push(x.clone());
    proof {
        assert(values(r@) =~= Seq::new(4, |i: int| x@));
    }
    r
}

/// `NUMBER_OF_LIMBS` copies of `x`.
fn repeat_limb<const NUMBER_OF_LIMBS: usize>(x: &Big) -> (r: Vec<Big>)
    ensures
        values(r@) == Seq::new(NUMBER_OF_LIMBS as nat, |i: int| x@),
        r@.len() == NUMBER_OF_LIMBS,
{
    let mut r: Vec<Big> = Vec::new();
    let mut i: usize = 0;
    while i < NUMBER_OF_LIMBS
        invariant
            i <= NUMBER_OF_LIMBS,
            r@.len() == i,
            forall|j: int| 0 <= j < i ==> #[trigger] r@[j]@ == x@,
        decreases NUMBER_OF_LIMBS - i,
    {
        r.push(x.clone());
        i = i + 1;
    }
    proof {
        assert(values(r@) =~= Seq::new(NUMBER_OF_LIMBS as nat, |i: int| x@));
    }
    r
}

/// `x`, `x`, `x`, `last`.
fn three_and(x: &Big, last: &Big) -> (r: Vec<Big>)
    ensures
        values(r@) == seq![x@, x@, x@, last@],
        r@.len() == 4,
{
    let mut r: Vec<Big> = Vec::new();
    r.push(x.clone());
    r.push(x.clone());
    r.push(x.clone());
    r.push(last.clone());
    proof {
        assert(values(r@) =~= seq![x@, x@, x@, last@]);
    }
    r
}

/// The larger of a bit length and `BIT_LEN_LIMB`.
fn bit_len_at_least<const BIT_LEN_LIMB: usize>(x: &Big) -> (r: usize)
    ensures
        r as nat == max_nat(usize_of(nbits(x@)), BIT_LEN_LIMB as nat),
{
    let bits = #[verifier::truncate] (big_bits(x) as usize);
    if bits >= BIT_LEN_LIMB {
        bits
    } else {
        BIT_LEN_LIMB
    }
}


/// The operand and quotient bounds of a system.
struct OperandBounds {
    crt_modulus: Big,
    max_remainder: Big,
    max_mul_quotient: Big,
    max_operand: Big,
    bit_len_wrong_modulus: usize,
}

/// The limb bounds of a system.
struct LimbBounds {
    max_reduced_limb: Big,
    max_unreduced_limb: Big,
    max_most_significant_reduced_limb: Big,
    max_most_significant_operand_limb: Big,
    max_most_significant_mul_quotient_limb: Big,
    max_reducible_value: Big,
    max_with_max_unreduced_limbs: Big,
    max_dense_value: Big,
    mul_v0_bit_len: usize,
    mul_v1_bit_len: usize,
    red_v0_bit_len: usize,
    red_v1_bit_len: usize,
    bit_len_lookup: usize,
}

/// `2^k - 1`.
fn all_ones(k: usize) -> (r: Big)
    ensures
        r@ == pow2(k as nat) - 1,
{
    let one = Big::one();
    proof {
        vstd::arithmetic::power2::lemma_pow2_pos(k as nat);
    }
    big_sub(&big_shl(&one, k), &one)
}

/// `2^k - 1`, for a `u64` bit count.
fn all_ones_u64(k: u64) -> (r: Big)
    ensures
        r@ == pow2(k as nat) - 1,
{
    let one = Big::one();
    proof {
        vstd::arithmetic::power2::lemma_pow2_pos(k as nat);
    }
    big_sub(&big_shl_u64(&one, k), &one)
}

impl<const NUMBER_OF_LIMBS: usize, const BIT_LEN_LIMB: usize> Rns<NUMBER_OF_LIMBS, BIT_LEN_LIMB> {
    /// The operand and quotient bounds, or `None` where one of their checks
    /// fails.
    fn operand_bounds(w: &Big, n: &Big, binary_modulus: &Big) -> (r: Option<OperandBounds>)
        requires
            NUMBER_OF_LIMBS == 4,
            BIT_LEN_LIMB <= usize::MAX / 4,
            moduli_ok(w@, n@, NUMBER_OF_LIMBS as nat, BIT_LEN_LIMB as nat),
            binary_modulus@ == binary_modulus_of(NUMBER_OF_LIMBS as nat, BIT_LEN_LIMB as nat),
        ensures
            r is Some <==> operand_bounds_ok(w@, n@, NUMBER_OF_LIMBS as nat, BIT_LEN_LIMB as nat),
            r matches Some(x) ==> {
                let (l, b) = (NUMBER_OF_LIMBS as nat, BIT_LEN_LIMB as nat);
                &&& x.crt_modulus@ == crt_modulus_of(n@, l, b)
                &&& x.max_remainder@ == max_remainder_of(w@)
                &&& x.max_mul_quotient@ == max_mul_quotient_of(w@, n@, l, b)
                &&& x.max_operand@ == max_operand_of(w@, n@, l, b)
                &&& x.bit_len_wrong_modulus as nat == bit_len_wrong_modulus_of(w@)
            },
    {
        let ghost l = NUMBER_OF_LIMBS as nat;
        let ghost b = BIT_LEN_LIMB as nat;
        let crt_modulus = big_mul(binary_modulus, n);
        let crt_modulus_bit_len = big_bits(&crt_modulus);
        if crt_modulus_bit_len / 2 < 1 {
            return None;
        }
        let pre_max_operand = all_ones_u64((crt_modulus_bit_len / 2) - 1);
        assert(pre_max_operand@ == pre_max_operand_of(n@, l, b));
        let bit_len_wrong_modulus = #[verifier::truncate] (big_bits(w) as usize);
        let max_remainder = all_ones(bit_len_wrong_modulus);
        assert(max_remainder@ == max_remainder_of(w@));
        if big_lt(&crt_modulus, &max_remainder) {
            return None;
        }
        let (pre_max_mul_quotient, _) = big_div_rem(&big_sub(&crt_modulus, &max_remainder), w);
        let pre_max_mul_quotient_bits = big_bits(&pre_max_mul_quotient);
        if pre_max_mul_quotient_bits < 1 {
            return None;
        }
        let max_mul_quotient = all_ones_u64(pre_max_mul_quotient_bits - 1);
        assert(max_mul_quotient@ == max_mul_quotient_of(w@, n@, l, b));
        let max_mul_value = big_add(&big_mul(&max_mul_quotient, w), &max_remainder);
        let max_mul_value_bits = big_bits(&max_mul_value);
        if max_mul_value_bits / 2 < 1 {
            return None;
        }
        let max_operand = all_ones_u64(max_mul_value_bits / 2 - 1);
        assert(max_operand@ == max_operand_of(w@, n@, l, b));
        if !big_lt(&big_mul(&pre_max_operand, &pre_max_operand), &crt_modulus) {
            return None;
        }
        if !big_lt(w, &pre_max_operand) {
            return None;
        }
        if !big_lt(&max_mul_value, &crt_modulus) {
            return None;
        }
        if !big_lt(w, &max_mul_quotient) {
            return None;
        }
        if big_lt(&pre_max_operand, &max_operand) {
            return None;
        }
        if !big_lt(w, &max_operand) {
            return None;
        }
        let max_operand_squared = big_mul(&max_operand, &max_operand);
        if !big_lt(&max_operand_squared, &crt_modulus) {
            return None;
        }
        if !big_lt(&max_operand_squared, &max_mul_value) {
            return None;
        }
        Some(OperandBounds { crt_modulus, max_remainder, max_mul_quotient, max_operand, bit_len_wrong_modulus })
    }

    /// The limb bounds, or `None` where one of their checks fails.
    fn limb_bounds(w: &Big, n: &Big, bounds: &OperandBounds, negative_wrong_modulus_decomposed: &Vec<Big>) -> (r:
        Option<LimbBounds>)
        requires
            NUMBER_OF_LIMBS == 4,
            BIT_LEN_LIMB <= usize::MAX / 4,
            moduli_ok(w@, n@, NUMBER_OF_LIMBS as nat, BIT_LEN_LIMB as nat),
            operand_bounds_ok(w@, n@, NUMBER_OF_LIMBS as nat, BIT_LEN_LIMB as nat),
            bounds.max_remainder@ == max_remainder_of(w@),
            bounds.max_mul_quotient@ == max_mul_quotient_of(w@, n@, NUMBER_OF_LIMBS as nat, BIT_LEN_LIMB as nat),
            bounds.max_operand@ == max_operand_of(w@, n@, NUMBER_OF_LIMBS as nat, BIT_LEN_LIMB as nat),
            negative_wrong_modulus_decomposed@.len() == NUMBER_OF_LIMBS,
            values(negative_wrong_modulus_decomposed@) == negative_wrong_modulus_of(
                w@,
                n@,
                NUMBER_OF_LIMBS as nat,
                BIT_LEN_LIMB as nat,
            ),
        ensures
            r is Some <==> limb_bounds_ok(w@, n@, NUMBER_OF_LIMBS as nat, BIT_LEN_LIMB as nat),
            r matches Some(x) ==> {
                let v = expected_view(w@, n@, NUMBER_OF_LIMBS as nat, BIT_LEN_LIMB as nat);
                &&& x.max_reduced_limb@ == v.max_reduced_limb
                &&& x.max_unreduced_limb@ == v.max_unreduced_limb
                &&& x.max_most_significant_reduced_limb@ == v.max_most_significant_reduced_limb
                &&& x.max_most_significant_operand_limb@ == v.max_most_significant_operand_limb
                &&& x.max_most_significant_mul_quotient_limb@ == v.max_most_significant_mul_quotient_limb
                &&& x.max_reducible_value@ == v.max_reducible_value
                &&& x.max_with_max_unreduced_limbs@ == v.max_with_max_unreduced_limbs
                &&& x.max_dense_value@ == v.max_dense_value
                &&& x.mul_v0_bit_len as nat == v.mul_v0_bit_len
                &&& x.mul_v1_bit_len as nat == v.mul_v1_bit_len
                &&& x.red_v0_bit_len as nat == v.red_v0_bit_len
                &&& x.red_v1_bit_len as nat == v.red_v1_bit_len
                &&& x.bit_len_lookup as nat == v.bit_len_lookup
            },
    {
        let ghost l = NUMBER_OF_LIMBS as nat;
        let ghost b = BIT_LEN_LIMB as nat;
        let max_reduced_limb = all_ones(BIT_LEN_LIMB);
        let max_unreduced_limb = all_ones(BIT_LEN_LIMB + BIT_LEN_LIMB / 2);
        assert((NUMBER_OF_LIMBS - 1) * BIT_LEN_LIMB == 3 * BIT_LEN_LIMB);
        let top = (NUMBER_OF_LIMBS - 1) * BIT_LEN_LIMB;
        let max_most_significant_reduced_limb = big_shr(&bounds.max_remainder, top);
        let max_most_significant_operand_limb = big_shr(&bounds.max_operand, top);
        let max_most_significant_mul_quotient_limb = big_shr(&bounds.max_mul_quotient, top);
        if !((#[verifier::truncate] (big_bits(&max_most_significant_reduced_limb) as usize)) < BIT_LEN_LIMB) {
            return None;
        }
        if !((#[verifier::truncate] (big_bits(&max_most_significant_operand_limb) as usize)) < BIT_LEN_LIMB) {
            return None;
        }
        if !((#[verifier::truncate] (big_bits(&max_most_significant_mul_quotient_limb) as usize))
            <= BIT_LEN_LIMB) {
            return None;
        }
        let max_reducible_value = big_add(&big_mul(&max_reduced_limb, w), &bounds.max_remainder);
        let max_with_max_unreduced_limbs = compose(&four(&max_unreduced_limb), BIT_LEN_LIMB);
        if !big_lt(&max_with_max_unreduced_limbs, &max_reducible_value) {
            return None;
        }
        let max_dense_value = compose(&four(&max_reduced_limb), BIT_LEN_LIMB);
        let (mul_v0_max, mul_v1_max) = mul_overflow::<NUMBER_OF_LIMBS, BIT_LEN_LIMB>(
            &three_and(&max_reduced_limb, &max_most_significant_operand_limb),
            negative_wrong_modulus_decomposed,
            &three_and(&max_reduced_limb, &max_most_significant_mul_quotient_limb),
        );
        assert((mul_v0_max@, mul_v1_max@) == mul_carries_of(w@, n@, l, b));
        let mul_v0_bit_len = bit_len_at_least::<BIT_LEN_LIMB>(&mul_v0_max);
        let mul_v1_bit_len = bit_len_at_least::<BIT_LEN_LIMB>(&mul_v1_max);
        let red_a = four(&max_unreduced_limb);
        let a_value = compose(&red_a, BIT_LEN_LIMB);
        let (q_max, _) = big_div_rem(&a_value, w);
        if !big_lt(&q_max, &big_shl(&Big::one(), BIT_LEN_LIMB)) {
            return None;
        }
        let (red_v0_max, red_v1_max) = red_overflow::<BIT_LEN_LIMB>(
            &red_a,
            &max_reduced_limb,
            negative_wrong_modulus_decomposed,
        );
        proof {
            let p = negative_wrong_modulus_of(w@, n@, l, b);
            assert(Seq::new(4, |i: int| values(red_a@)[i] + max_reduced_limb@ * values(
                negative_wrong_modulus_decomposed@,
            )[i]) =~= Seq::new(4, |i: int| red_limbs_of(b)[i] + max_reduced_limb_of(b) * p[i]));
        }
        assert((red_v0_max@, red_v1_max@) == red_carries_of(w@, n@, l, b));
        let red_v0_bit_len = bit_len_at_least::<BIT_LEN_LIMB>(&red_v0_max);
        let red_v1_bit_len = bit_len_at_least::<BIT_LEN_LIMB>(&red_v1_max);
        let bit_len_lookup = BIT_LEN_LIMB / NUMBER_OF_LOOKUP_LIMBS;
        if bit_len_lookup * NUMBER_OF_LOOKUP_LIMBS != BIT_LEN_LIMB {
            return None;
        }
        Some(
            LimbBounds {
                max_reduced_limb,
                max_unreduced_limb,
                max_most_significant_reduced_limb,
                max_most_significant_operand_limb,
                max_most_significant_mul_quotient_limb,
                max_reducible_value,
                max_with_max_unreduced_limbs,
                max_dense_value,
                mul_v0_bit_len,
                mul_v1_bit_len,
                red_v0_bit_len,
                red_v1_bit_len,
                bit_len_lookup,
            },
        )
    }
}


impl<const NUMBER_OF_LIMBS: usize, const BIT_LEN_LIMB: usize> Rns<NUMBER_OF_LIMBS, BIT_LEN_LIMB> {
    /// The base auxiliary limbs, or `None` where they cannot be formed, do not
    /// make a multiple of the wrong modulus above the largest remainder, or a
    /// limb is below the largest limb it must cover.
    fn checked_aux_bounds(
        w: &Big,
        n: &Big,
        max_remainder: &Big,
        max_most_significant_reduced_limb: &Big,
        max_reduced_limb: &Big,
    ) -> (r: Option<Vec<Big>>)
        requires
            NUMBER_OF_LIMBS == 4,
            BIT_LEN_LIMB <= usize::MAX / 4,
            moduli_ok(w@, n@, NUMBER_OF_LIMBS as nat, BIT_LEN_LIMB as nat),
            max_remainder@ == max_remainder_of(w@),
            max_most_significant_reduced_limb@ == most_significant(
                max_remainder_of(w@),
                NUMBER_OF_LIMBS as nat,
                BIT_LEN_LIMB as nat,
            ),
            max_reduced_limb@ == max_reduced_limb_of(BIT_LEN_LIMB as nat),
        ensures
            r is Some <==> base_aux_ok(w@, n@, NUMBER_OF_LIMBS as nat, BIT_LEN_LIMB as nat),
            r matches Some(x) ==> values(x@) == base_aux_of(
                w@,
                n@,
                left_shifter_r_of(n@, BIT_LEN_LIMB as nat),
                NUMBER_OF_LIMBS as nat,
                BIT_LEN_LIMB as nat,
            ) && x@.len() == NUMBER_OF_LIMBS,
    {
        let ghost l = NUMBER_OF_LIMBS as nat;
        let ghost b = BIT_LEN_LIMB as nat;
        let ghost expected = base_aux_of(w@, n@, left_shifter_r_of(n@, b), l, b);
        proof {
            assert(n@ > 0) by (nonlinear_arith)
                requires
                    binary_modulus_of(l, b) * n@ > w@ * w@,
            ;
        }
        let base_aux = match Self::checked_base_aux(w, n) {
            Some(x) => x,
            None => {
                return None;
            },
        };
        assert(values(base_aux@) == expected);
        let base_aux_value = compose(&base_aux, BIT_LEN_LIMB);
        let (_, base_aux_rem) = big_div_rem(&base_aux_value, w);
        if big_lt(&Big::zero(), &base_aux_rem) {
            return None;
        }
        if !big_lt(max_remainder, &base_aux_value) {
            return None;
        }
        let mut i: usize = 0;
        while i < NUMBER_OF_LIMBS
            invariant
                i <= NUMBER_OF_LIMBS,
                l == NUMBER_OF_LIMBS as nat,
                b == BIT_LEN_LIMB as nat,
                expected == base_aux_of(w@, n@, left_shifter_r_of(n@, b), l, b),
                max_most_significant_reduced_limb@ == most_significant(max_remainder_of(w@), l, b),
                max_reduced_limb@ == max_reduced_limb_of(b),
                values(base_aux@) == expected,
                expected.len() == l,
                base_aux@.len() == NUMBER_OF_LIMBS,
                forall|j: int|
                    0 <= j < i ==> #[trigger] expected[j] >= (if j == l - 1 {
                        max_most_significant_reduced_limb@
                    } else {
                        max_reduced_limb@
                    }),
            decreases NUMBER_OF_LIMBS - i,
        {
            let is_last_limb = i == NUMBER_OF_LIMBS - 1;
            let target = if is_last_limb {
                max_most_significant_reduced_limb
            } else {
                max_reduced_limb
            };
            proof {
                assert(values(base_aux@)[i as int] == base_aux@[i as int]@);
            }
            if big_lt(&base_aux[i], target) {
                proof {
                    assert(!(expected[i as int] >= (if i == l - 1 {
                        most_significant(max_remainder_of(w@), l, b)
                    } else {
                        max_reduced_limb_of(b)
                    })));
                }
                return None;
            }
            i = i + 1;
        }
        if BIT_LEN_LIMB == 0 {
            return None;
        }
        Some(base_aux)
    }

    /// The system of a wrong modulus and a native modulus, with all its
    /// bounds.
    pub fn construct(wrong_modulus: Big, native_modulus: Big) -> (r: Self)
        requires
            NUMBER_OF_LIMBS == 4,
            BIT_LEN_LIMB <= usize::MAX / 4,
            accepts(wrong_modulus@, native_modulus@, NUMBER_OF_LIMBS as nat, BIT_LEN_LIMB as nat),
        ensures
            r@ == expected_view(wrong_modulus@, native_modulus@, NUMBER_OF_LIMBS as nat, BIT_LEN_LIMB as nat),
            r.well_formed(),
    {
        match Self::try_construct(wrong_modulus, native_modulus) {
            Some(r) => r,
            None => unreached(),
        }
    }

    /// The system as `construct` builds it, or `None` where one of its checks
    /// fails.
    pub fn try_construct(wrong_modulus: Big, native_modulus: Big) -> (r: Option<Self>)
        requires
            NUMBER_OF_LIMBS == 4,
            BIT_LEN_LIMB <= usize::MAX / 4,
        ensures
            r is Some <==> accepts(wrong_modulus@, native_modulus@, NUMBER_OF_LIMBS as nat, BIT_LEN_LIMB as nat),
            r matches Some(x) ==> x@ == expected_view(
                wrong_modulus@,
                native_modulus@,
                NUMBER_OF_LIMBS as nat,
                BIT_LEN_LIMB as nat,
            ) && x.well_formed(),
    {
        let ghost l = NUMBER_OF_LIMBS as nat;
        let ghost b = BIT_LEN_LIMB as nat;
        let ghost v = expected_view(wrong_modulus@, native_modulus@, l, b);
        let w = &wrong_modulus;
        let n = &native_modulus;
        let one = Big::one();
        let zero = Big::zero();
        let binary_modulus = big_shl(&one, BIT_LEN_LIMB * NUMBER_OF_LIMBS);
        proof {
            assert(b * l == l * b) by (nonlinear_arith);
        }
        if !big_lt(w, &binary_modulus) || !big_lt(n, &binary_modulus) {
            return None;
        }
        if !big_lt(&big_mul(w, w), &big_mul(&binary_modulus, n)) {
            return None;
        }
        proof {
            assert(n@ > 0) by (nonlinear_arith)
                requires
                    binary_modulus@ * n@ > w@ * w@,
            ;
        }
        let two = crate::field::big_to_fe(&Big::from_u64(2), n);
        let two_inv = match big_modinv(&two, n) {
            Some(x) => x,
            None => {
                proof {
                    if has_inverse(2nat % n@, n@) {
                        let x = choose|x: nat| #[trigger] ((two@ * x) % n@) == 1nat % n@;
                        assert(((two@ * x) % n@) != 1nat % n@);
                    }
                }
                return None;
            },
        };
        proof {
            crate::arith::lemma_is_inverse_of(two@, two_inv@, n@);
        }
        let right_shifter_r = big_modpow(&two_inv, &Big::from_u64(BIT_LEN_LIMB as u64), n);
        let right_shifter_2r = big_modpow(&two_inv, &Big::from_u64((2 * BIT_LEN_LIMB) as u64), n);
        let left_shifter_r = big_modpow(&two, &Big::from_u64(BIT_LEN_LIMB as u64), n);
        let left_shifter_2r = big_modpow(&two, &Big::from_u64((2 * BIT_LEN_LIMB) as u64), n);
        let left_shifter_3r = big_modpow(&two, &Big::from_u64((3 * BIT_LEN_LIMB) as u64), n);
        let wrong_modulus_in_native_modulus = crate::field::big_to_fe(
            &crate::field::big_to_fe(w, n),
            n,
        );
        let negative_wrong_modulus_decomposed = decompose_big(
            &big_sub(&binary_modulus, w),
            n,
            NUMBER_OF_LIMBS,
            BIT_LEN_LIMB,
        );
        let wrong_modulus_decomposed = decompose_big(w, n, NUMBER_OF_LIMBS, BIT_LEN_LIMB);
        if !big_lt(&zero, w) {
            return None;
        }
        let wrong_modulus_minus_one = decompose_big(&big_sub(w, &one), n, NUMBER_OF_LIMBS, BIT_LEN_LIMB);
        let two_limb_mask = all_ones(BIT_LEN_LIMB * 2);
        proof {
            assert(b * 2 == 2 * b);
            assert(moduli_ok(w@, n@, l, b));
        }
        let bounds = match Self::operand_bounds(w, n, &binary_modulus) {
            Some(x) => x,
            None => {
                return None;
            },
        };
        let limb_bounds = match Self::limb_bounds(w, n, &bounds, &negative_wrong_modulus_decomposed) {
            Some(x) => x,
            None => {
                return None;
            },
        };
        let base_aux = match Self::checked_aux_bounds(
            w,
            n,
            &bounds.max_remainder,
            &limb_bounds.max_most_significant_reduced_limb,
            &limb_bounds.max_reduced_limb,
        ) {
            Some(x) => x,
            None => {
                return None;
            },
        };
        let bit_len_last_limb = bounds.bit_len_wrong_modulus % BIT_LEN_LIMB;
        let rns = Rns {
            bit_len_last_limb,
            bit_len_lookup: limb_bounds.bit_len_lookup,
            bit_len_wrong_modulus: bounds.bit_len_wrong_modulus,
            wrong_modulus: wrong_modulus.clone(),
            native_modulus: native_modulus.clone(),
            binary_modulus,
            crt_modulus: bounds.crt_modulus,
            right_shifter_r,
            right_shifter_2r,
            left_shifter_r,
            left_shifter_2r,
            left_shifter_3r,
            base_aux,
            negative_wrong_modulus_decomposed,
            wrong_modulus_decomposed,
            wrong_modulus_minus_one,
            wrong_modulus_in_native_modulus,
            max_reduced_limb: limb_bounds.max_reduced_limb,
            max_unreduced_limb: limb_bounds.max_unreduced_limb.clone(),
            max_remainder: bounds.max_remainder,
            max_operand: bounds.max_operand,
            max_mul_quotient: bounds.max_mul_quotient,
            max_reducible_value: limb_bounds.max_reducible_value,
            max_with_max_unreduced_limbs: limb_bounds.max_with_max_unreduced_limbs,
            max_dense_value: limb_bounds.max_dense_value,
            max_most_significant_reduced_limb: limb_bounds.max_most_significant_reduced_limb,
            max_most_significant_operand_limb: limb_bounds.max_most_significant_operand_limb,
            max_most_significant_unreduced_limb: limb_bounds.max_unreduced_limb,
            max_most_significant_mul_quotient_limb: limb_bounds.max_most_significant_mul_quotient_limb,
            mul_v0_bit_len: limb_bounds.mul_v0_bit_len,
            mul_v1_bit_len: limb_bounds.mul_v1_bit_len,
            red_v0_bit_len: limb_bounds.red_v0_bit_len,
            red_v1_bit_len: limb_bounds.red_v1_bit_len,
            two_limb_mask,
        };
        assert(rns@ == v);
        proof {
            assert forall|i: int| 0 <= i < NUMBER_OF_LIMBS implies #[trigger] rns.negative_wrong_modulus_decomposed@[i]@
                < n@ by {
                crate::limbs::lemma_decompose_index((v.binary_modulus - w@) as nat, n@, l, b, i as nat);
                assert(values(rns.negative_wrong_modulus_decomposed@)[i] == rns.negative_wrong_modulus_decomposed@[i]@);
            }
            assert forall|i: int| 0 <= i < NUMBER_OF_LIMBS implies #[trigger] rns.wrong_modulus_minus_one@[i]@
                < n@ by {
                crate::limbs::lemma_decompose_index((w@ - 1) as nat, n@, l, b, i as nat);
                assert(values(rns.wrong_modulus_minus_one@)[i] == rns.wrong_modulus_minus_one@[i]@);
            }
        }
        if Self::reduction_check(&rns) {
            Some(rns)
        } else {
            None
        }
    }

    /// The last check of `construct`: the integer of largest unreduced limbs
    /// reduces, with a quotient below the largest reduced limb.
    fn reduction_check(rns: &Self) -> (r: bool)
        requires
            NUMBER_OF_LIMBS == 4,
            rns.well_formed(),
        ensures
            r == {
                let v = rns@;
                let a = check_limbs_of(v.max_unreduced_limb, v.native_modulus, NUMBER_OF_LIMBS as nat);
                let p = v.negative_wrong_modulus_decomposed;
                let (l, b) = (NUMBER_OF_LIMBS as nat, BIT_LEN_LIMB as nat);
                &&& reduce_passes_of(
                    a,
                    v.wrong_modulus,
                    v.native_modulus,
                    p,
                    v.left_shifter_r,
                    v.right_shifter_2r,
                    v.two_limb_mask,
                    l,
                    b,
                )
                &&& reduce_parts_of(a, v.wrong_modulus, v.native_modulus, p, l, b).0 < v.max_reduced_limb
            },
    {
        let check_limb = crate::field::big_to_fe(&rns.max_unreduced_limb, &rns.native_modulus);
        let limbs = repeat_limb::<NUMBER_OF_LIMBS>(&check_limb);
        let copy = rns.clone();
        proof {
            Self::lemma_well_formed_view(rns, &copy);
        }
        let check = Integer::from_limbs(&limbs, Rc::new(copy));
        proof {
            assert(values(limbs@) =~= check_limbs_of(
                rns.max_unreduced_limb@,
                rns.native_modulus@,
                NUMBER_OF_LIMBS as nat,
            ));
            assert forall|i: int| 0 <= i < NUMBER_OF_LIMBS implies #[trigger] check.limb_values()[i]
                < check.context().native_modulus@ by {
                assert(values(limbs@)[i] == check_limb@);
            }
        }
        match check.checked_reduce() {
            Some(reduction_result) => {
                match &reduction_result.quotient {
                    Quotient::Short(q) => big_lt(q, &rns.max_reduced_limb),
                    Quotient::Long(_) => false,
                }
            },
            None => false,
        }
    }
}

} // verus!
