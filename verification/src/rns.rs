//! The residue number system: an integer of the wrong field is held as limbs
//! that are elements of the native field.
use crate::arith::{has_inverse, inverse_of, lemma_is_inverse_of};
use crate::big::{big_and, big_div_rem, big_lt, big_modinv, big_mul, bit_and, Big};
use crate::field::{big_to_fe, fe_add, fe_mul, fe_sub};
use crate::limbs::{compose, compose_value, copy_all, decompose_big, decompose_value, values, zeros};
use std::rc::Rc;
use vstd::arithmetic::power2::pow2;
use vstd::pervasive::unreached;
use vstd::prelude::*;

verus! {

/// Another handle to the same shared value; `Rc::clone`.
#[verifier::external_body]
pub(crate) fn share<T>(r: &Rc<T>) -> (s: Rc<T>)
    ensures
        s == *r,
{
    Rc::clone(r)
}

/// Values shared by all integers of one wrong field emulated in one native
/// field with `NUMBER_OF_LIMBS` limbs of `BIT_LEN_LIMB` bits.
#[derive(Debug)]
pub struct Rns<const NUMBER_OF_LIMBS: usize, const BIT_LEN_LIMB: usize> {
    pub bit_len_last_limb: usize,
    pub bit_len_lookup: usize,
    pub bit_len_wrong_modulus: usize,
    pub wrong_modulus: Big,
    pub native_modulus: Big,
    pub binary_modulus: Big,
    pub crt_modulus: Big,
    pub right_shifter_r: Big,
    pub right_shifter_2r: Big,
    pub left_shifter_r: Big,
    pub left_shifter_2r: Big,
    pub left_shifter_3r: Big,
    pub base_aux: Vec<Big>,
    pub negative_wrong_modulus_decomposed: Vec<Big>,
    pub wrong_modulus_decomposed: Vec<Big>,
    pub wrong_modulus_minus_one: Vec<Big>,
    pub wrong_modulus_in_native_modulus: Big,
    pub max_reduced_limb: Big,
    pub max_unreduced_limb: Big,
    pub max_remainder: Big,
    pub max_operand: Big,
    pub max_mul_quotient: Big,
    pub max_reducible_value: Big,
    pub max_with_max_unreduced_limbs: Big,
    pub max_dense_value: Big,
    pub max_most_significant_reduced_limb: Big,
    pub max_most_significant_operand_limb: Big,
    pub max_most_significant_unreduced_limb: Big,
    pub max_most_significant_mul_quotient_limb: Big,
    pub mul_v0_bit_len: usize,
    pub mul_v1_bit_len: usize,
    pub red_v0_bit_len: usize,
    pub red_v1_bit_len: usize,
    pub two_limb_mask: Big,
}

impl<const NUMBER_OF_LIMBS: usize, const BIT_LEN_LIMB: usize> Rns<NUMBER_OF_LIMBS, BIT_LEN_LIMB> {
    /// Well-formedness depends on the values alone.
    pub proof fn lemma_well_formed_view(a: &Self, b: &Self)
        requires
            a.well_formed(),
            a@ == b@,
        ensures
            b.well_formed(),
    {
        let (an, bn) = (values(a.negative_wrong_modulus_decomposed@), values(b.negative_wrong_modulus_decomposed@));
        let (am, bm) = (values(a.wrong_modulus_minus_one@), values(b.wrong_modulus_minus_one@));
        assert(an == bn && am == bm);
        assert(an.len() == a.negative_wrong_modulus_decomposed@.len());
        assert(bn.len() == b.negative_wrong_modulus_decomposed@.len());
        assert(am.len() == a.wrong_modulus_minus_one@.len());
        assert(bm.len() == b.wrong_modulus_minus_one@.len());
        assert(values(a.base_aux@).len() == values(b.base_aux@).len());
        assert forall|i: int| 0 <= i < NUMBER_OF_LIMBS implies #[trigger] b.negative_wrong_modulus_decomposed@[i]@
            < b.native_modulus@ by {
            assert(an[i] == a.negative_wrong_modulus_decomposed@[i]@);
            assert(bn[i] == b.negative_wrong_modulus_decomposed@[i]@);
        }
        assert forall|i: int| 0 <= i < NUMBER_OF_LIMBS implies #[trigger] b.wrong_modulus_minus_one@[i]@
            < b.native_modulus@ by {
            assert(am[i] == a.wrong_modulus_minus_one@[i]@);
            assert(bm[i] == b.wrong_modulus_minus_one@[i]@);
        }
    }

    /// What the integers of this system need of it: positive moduli, and
    /// decompositions of the right length whose limbs are native elements.
    pub open spec fn well_formed(&self) -> bool {
        let n = self.native_modulus@;
        &&& n > 0
        &&& self.wrong_modulus@ > 0
        &&& self.negative_wrong_modulus_decomposed@.len() == NUMBER_OF_LIMBS
        &&& self.wrong_modulus_minus_one@.len() == NUMBER_OF_LIMBS
        &&& self.base_aux@.len() == NUMBER_OF_LIMBS
        &&& forall|i: int|
            0 <= i < NUMBER_OF_LIMBS ==> #[trigger] self.negative_wrong_modulus_decomposed@[i]@ < n
        &&& forall|i: int| 0 <= i < NUMBER_OF_LIMBS ==> #[trigger] self.wrong_modulus_minus_one@[i]@ < n
    }
}

/// The values an `Rns` holds.
pub struct RnsView {
    pub bit_len_last_limb: nat,
    pub bit_len_lookup: nat,
    pub bit_len_wrong_modulus: nat,
    pub wrong_modulus: nat,
    pub native_modulus: nat,
    pub binary_modulus: nat,
    pub crt_modulus: nat,
    pub right_shifter_r: nat,
    pub right_shifter_2r: nat,
    pub left_shifter_r: nat,
    pub left_shifter_2r: nat,
    pub left_shifter_3r: nat,
    pub base_aux: Seq<nat>,
    pub negative_wrong_modulus_decomposed: Seq<nat>,
    pub wrong_modulus_decomposed: Seq<nat>,
    pub wrong_modulus_minus_one: Seq<nat>,
    pub wrong_modulus_in_native_modulus: nat,
    pub max_reduced_limb: nat,
    pub max_unreduced_limb: nat,
    pub max_remainder: nat,
    pub max_operand: nat,
    pub max_mul_quotient: nat,
    pub max_reducible_value: nat,
    pub max_with_max_unreduced_limbs: nat,
    pub max_dense_value: nat,
    pub max_most_significant_reduced_limb: nat,
    pub max_most_significant_operand_limb: nat,
    pub max_most_significant_unreduced_limb: nat,
    pub max_most_significant_mul_quotient_limb: nat,
    pub mul_v0_bit_len: nat,
    pub mul_v1_bit_len: nat,
    pub red_v0_bit_len: nat,
    pub red_v1_bit_len: nat,
    pub two_limb_mask: nat,
}

impl<const NUMBER_OF_LIMBS: usize, const BIT_LEN_LIMB: usize> View for Rns<NUMBER_OF_LIMBS, BIT_LEN_LIMB> {
    type V = RnsView;

    open spec fn view(&self) -> RnsView {
        RnsView {
            bit_len_last_limb: self.bit_len_last_limb as nat,
            bit_len_lookup: self.bit_len_lookup as nat,
            bit_len_wrong_modulus: self.bit_len_wrong_modulus as nat,
            wrong_modulus: self.wrong_modulus@,
            native_modulus: self.native_modulus@,
            binary_modulus: self.binary_modulus@,
            crt_modulus: self.crt_modulus@,
            right_shifter_r: self.right_shifter_r@,
            right_shifter_2r: self.right_shifter_2r@,
            left_shifter_r: self.left_shifter_r@,
            left_shifter_2r: self.left_shifter_2r@,
            left_shifter_3r: self.left_shifter_3r@,
            base_aux: values(self.base_aux@),
            negative_wrong_modulus_decomposed: values(self.negative_wrong_modulus_decomposed@),
            wrong_modulus_decomposed: values(self.wrong_modulus_decomposed@),
            wrong_modulus_minus_one: values(self.wrong_modulus_minus_one@),
            wrong_modulus_in_native_modulus: self.wrong_modulus_in_native_modulus@,
            max_reduced_limb: self.max_reduced_limb@,
            max_unreduced_limb: self.max_unreduced_limb@,
            max_remainder: self.max_remainder@,
            max_operand: self.max_operand@,
            max_mul_quotient: self.max_mul_quotient@,
            max_reducible_value: self.max_reducible_value@,
            max_with_max_unreduced_limbs: self.max_with_max_unreduced_limbs@,
            max_dense_value: self.max_dense_value@,
            max_most_significant_reduced_limb: self.max_most_significant_reduced_limb@,
            max_most_significant_operand_limb: self.max_most_significant_operand_limb@,
            max_most_significant_unreduced_limb: self.max_most_significant_unreduced_limb@,
            max_most_significant_mul_quotient_limb: self.max_most_significant_mul_quotient_limb@,
            mul_v0_bit_len: self.mul_v0_bit_len as nat,
            mul_v1_bit_len: self.mul_v1_bit_len as nat,
            red_v0_bit_len: self.red_v0_bit_len as nat,
            red_v1_bit_len: self.red_v1_bit_len as nat,
            two_limb_mask: self.two_limb_mask@,
        }
    }
}

impl<const NUMBER_OF_LIMBS: usize, const BIT_LEN_LIMB: usize> Clone for Rns<NUMBER_OF_LIMBS, BIT_LEN_LIMB> {
    fn clone(&self) -> (r: Self)
        ensures
            r@ == self@,
    {
        Rns {
            bit_len_last_limb: self.bit_len_last_limb,
            bit_len_lookup: self.bit_len_lookup,
            bit_len_wrong_modulus: self.bit_len_wrong_modulus,
            wrong_modulus: self.wrong_modulus.clone(),
            native_modulus: self.native_modulus.clone(),
            binary_modulus: self.binary_modulus.clone(),
            crt_modulus: self.crt_modulus.clone(),
            right_shifter_r: self.right_shifter_r.clone(),
            right_shifter_2r: self.right_shifter_2r.clone(),
            left_shifter_r: self.left_shifter_r.clone(),
            left_shifter_2r: self.left_shifter_2r.clone(),
            left_shifter_3r: self.left_shifter_3r.clone(),
            base_aux: copy_all(&self.base_aux),
            negative_wrong_modulus_decomposed: copy_all(&self.negative_wrong_modulus_decomposed),
            wrong_modulus_decomposed: copy_all(&self.wrong_modulus_decomposed),
            wrong_modulus_minus_one: copy_all(&self.wrong_modulus_minus_one),
            wrong_modulus_in_native_modulus: self.wrong_modulus_in_native_modulus.clone(),
            max_reduced_limb: self.max_reduced_limb.clone(),
            max_unreduced_limb: self.max_unreduced_limb.clone(),
            max_remainder: self.max_remainder.clone(),
            max_operand: self.max_operand.clone(),
            max_mul_quotient: self.max_mul_quotient.clone(),
            max_reducible_value: self.max_reducible_value.clone(),
            max_with_max_unreduced_limbs: self.max_with_max_unreduced_limbs.clone(),
            max_dense_value: self.max_dense_value.clone(),
            max_most_significant_reduced_limb: self.max_most_significant_reduced_limb.clone(),
            max_most_significant_operand_limb: self.max_most_significant_operand_limb.clone(),
            max_most_significant_unreduced_limb: self.max_most_significant_unreduced_limb.clone(),
            max_most_significant_mul_quotient_limb: self.max_most_significant_mul_quotient_limb.clone(),
            mul_v0_bit_len: self.mul_v0_bit_len,
            mul_v1_bit_len: self.mul_v1_bit_len,
            red_v0_bit_len: self.red_v0_bit_len,
            red_v1_bit_len: self.red_v1_bit_len,
            two_limb_mask: self.two_limb_mask.clone(),
        }
    }
}

/// The value of an integer. Two numbers of the same value may differ in
/// their digits, so the conversion promises the value, not one spec value.
impl<const NUMBER_OF_LIMBS: usize, const BIT_LEN_LIMB: usize> From<Integer<NUMBER_OF_LIMBS, BIT_LEN_LIMB>> for Big {
    fn from(el: Integer<NUMBER_OF_LIMBS, BIT_LEN_LIMB>) -> (r: Big)
        ensures
            r@ == el.value_spec(),
    {
        el.value()
    }
}

impl<const NUMBER_OF_LIMBS: usize, const BIT_LEN_LIMB: usize> vstd::std_specs::convert::FromSpecImpl<Integer<NUMBER_OF_LIMBS, BIT_LEN_LIMB>> for Big {
    open spec fn obeys_from_spec() -> bool {
        false
    }

    open spec fn from_spec(v: Integer<NUMBER_OF_LIMBS, BIT_LEN_LIMB>) -> Big {
        vstd::pervasive::arbitrary()
    }
}

/// A limb: an element of the native field.
#[derive(Debug)]
pub struct Limb(Big);

impl View for Limb {
    type V = nat;

    closed spec fn view(&self) -> nat {
        self.0@
    }
}

impl Clone for Limb {
    fn clone(&self) -> (r: Self)
        ensures
            r@ == self@,
    {
        Limb(self.0.clone())
    }
}

impl Default for Limb {
    fn default() -> (r: Self)
        ensures
            r@ == 0,
    {
        Limb(Big::zero())
    }
}

impl Limb {
    /// The limb holding `value`.
    pub fn new(value: Big) -> (r: Limb)
        ensures
            r@ == value@,
    {
        Limb(value)
    }

    /// The limb holding `e` as an element of the field of modulus `native_modulus`.
    pub fn from_big(e: Big, native_modulus: &Big) -> (r: Limb)
        requires
            native_modulus@ > 0,
        ensures
            r@ == e@ % native_modulus@,
    {
        Limb::new(big_to_fe(&e, native_modulus))
    }

    /// The limb holding the number that the hexadecimal numeral `s` writes,
    /// as an element of the field of modulus `native_modulus`; `None` where
    /// `s` is not a numeral.
    pub fn from_hex(s: &str, native_modulus: &Big) -> (r: Option<Limb>)
        requires
            native_modulus@ > 0,
        ensures
            r is Some <==> crate::big::hex_accepts(s@),
            r matches Some(x) ==> x@ == crate::big::hex_value(crate::big::hex_body(s@)) % native_modulus@,
    {
        match crate::big::big_from_hex(s) {
            Some(e) => Some(Limb::from_big(e, native_modulus)),
            None => None,
        }
    }

    /// The field element of the limb.
    pub fn fe(&self) -> (r: Big)
        ensures
            r@ == self@,
    {
        self.0.clone()
    }
}

/// What limbs and integers share: a value, and what follows from it.
pub trait Common {
    /// The value, as a natural number.
    spec fn value_spec(&self) -> nat;

    /// The value.
    fn value(&self) -> (r: Big)
        ensures
            r@ == self.value_spec(),
    ;

    /// The value as an element of the field of modulus `native_modulus`.
    fn native(&self, native_modulus: &Big) -> (r: Big)
        requires
            native_modulus@ > 0,
        ensures
            r@ == self.value_spec() % native_modulus@,
    {
        let value = self.value();
        let native_value = big_to_fe(&value, native_modulus);
        proof {
            vstd::arithmetic::div_mod::lemma_mod_twice(value@ as int, native_modulus@ as int);
        }
        big_to_fe(&native_value, native_modulus)
    }

    /// Whether the two values are equal.
    fn eq(&self, other: &Self) -> (r: bool)
        ensures
            r == (self.value_spec() == other.value_spec()),
    {
        let a = self.value();
        let b = other.value();
        !big_lt(&a, &b) && !big_lt(&b, &a)
    }
}

impl Common for Limb {
    open spec fn value_spec(&self) -> nat {
        self@
    }

    fn value(&self) -> (r: Big) {
        self.0.clone()
    }
}

/// The number a limb holds. Two numbers of the same value may differ in
/// their digits, so the conversion promises the value, not one spec value.
impl From<Limb> for Big {
    fn from(limb: Limb) -> (r: Big)
        ensures
            r@ == limb@,
    {
        limb.value()
    }
}

impl vstd::std_specs::convert::FromSpecImpl<Limb> for Big {
    open spec fn obeys_from_spec() -> bool {
        false
    }

    open spec fn from_spec(v: Limb) -> Big {
        vstd::pervasive::arbitrary()
    }
}

/// An integer of the wrong field, held as limbs in the native field.
pub struct Integer<const NUMBER_OF_LIMBS: usize, const BIT_LEN_LIMB: usize> {
    limbs: Vec<Limb>,
    rns: Rc<Rns<NUMBER_OF_LIMBS, BIT_LEN_LIMB>>,
}

/// The values of a sequence of limbs.
pub open spec fn values_of_limbs(s: Seq<Limb>) -> Seq<nat> {
    s.map_values(|l: Limb| l@)
}

impl<const NUMBER_OF_LIMBS: usize, const BIT_LEN_LIMB: usize> Common for Integer<
    NUMBER_OF_LIMBS,
    BIT_LEN_LIMB,
> {
    open spec fn value_spec(&self) -> nat {
        compose_value(self.limb_values(), BIT_LEN_LIMB as nat)
    }

    fn value(&self) -> (r: Big) {
        let mut collected: Vec<Big> = Vec::new();
        let mut i: usize = 0;
        while i < self.limbs.len()
            invariant
                i <= self.limbs@.len(),
                collected@.len() == i,
                forall|j: int| 0 <= j < i ==> #[trigger] collected@[j]@ == self.limbs@[j]@,
            decreases self.limbs@.len() - i,
        {
            collected.push(self.limbs[i].value());
            i = i + 1;
        }
        assert(values(collected@) =~= self.limb_values());
        compose(&collected, BIT_LEN_LIMB)
    }
}

impl<const NUMBER_OF_LIMBS: usize, const BIT_LEN_LIMB: usize> Integer<
    NUMBER_OF_LIMBS,
    BIT_LEN_LIMB,
> {
    /// The values of the limbs.
    pub closed spec fn limb_values(&self) -> Seq<nat> {
        values_of_limbs(self.limbs@)
    }

    /// The system the integer belongs to.
    pub closed spec fn context(&self) -> Rns<NUMBER_OF_LIMBS, BIT_LEN_LIMB> {
        *self.rns
    }

    /// The right number of limbs, each an element of the native field of a
    /// well-formed system.
    pub open spec fn wf(&self) -> bool {
        &&& self.context().well_formed()
        &&& self.limb_values().len() == NUMBER_OF_LIMBS
        &&& forall|i: int|
            0 <= i < NUMBER_OF_LIMBS ==> #[trigger] self.limb_values()[i]
                < self.context().native_modulus@
    }

    /// The integer with the given limbs.
    pub fn new(limbs: Vec<Limb>, rns: Rc<Rns<NUMBER_OF_LIMBS, BIT_LEN_LIMB>>) -> (r: Self)
        requires
            limbs@.len() == NUMBER_OF_LIMBS,
        ensures
            r.limb_values() == values_of_limbs(limbs@),
            r.context() == *rns,
    {
        Integer { limbs, rns }
    }

    /// The integer of an element `e` of the wrong field.
    pub fn from_fe(e: Big, rns: Rc<Rns<NUMBER_OF_LIMBS, BIT_LEN_LIMB>>) -> (r: Self)
        requires
            rns.native_modulus@ > 0,
        ensures
            r.limb_values() == decompose_value(
                e@,
                rns.native_modulus@,
                NUMBER_OF_LIMBS as nat,
                BIT_LEN_LIMB as nat,
            ),
            r.context() == *rns,
    {
        Integer::from_big(e, rns)
    }

    /// The integer whose limbs are those of `e` in base `2^BIT_LEN_LIMB`.
    pub fn from_big(e: Big, rns: Rc<Rns<NUMBER_OF_LIMBS, BIT_LEN_LIMB>>) -> (r: Self)
        requires
            rns.native_modulus@ > 0,
        ensures
            r.limb_values() == decompose_value(
                e@,
                rns.native_modulus@,
                NUMBER_OF_LIMBS as nat,
                BIT_LEN_LIMB as nat,
            ),
            r.context() == *rns,
    {
        let limbs = decompose_big(&e, &rns.native_modulus, NUMBER_OF_LIMBS, BIT_LEN_LIMB);
        let limbs = Self::to_limbs(&limbs);
        Integer { limbs, rns }
    }

    /// Limbs holding the given field elements.
    fn to_limbs(fes: &Vec<Big>) -> (r: Vec<Limb>)
        ensures
            values_of_limbs(r@) == values(fes@),
    {
        let mut limbs: Vec<Limb> = Vec::new();
        let mut i: usize = 0;
        while i < fes.len()
            invariant
                i <= fes@.len(),
                limbs@.len() == i,
                forall|j: int| 0 <= j < i ==> #[trigger] limbs@[j]@ == fes@[j]@,
            decreases fes@.len() - i,
        {
            limbs.push(Limb::new(fes[i].clone()));
            i = i + 1;
        }
        assert(values_of_limbs(limbs@) =~= values(fes@));
        limbs
    }

    /// The integer with limbs holding the given field elements.
    pub fn from_limbs(limbs: &Vec<Big>, rns: Rc<Rns<NUMBER_OF_LIMBS, BIT_LEN_LIMB>>) -> (r: Self)
        requires
            limbs@.len() == NUMBER_OF_LIMBS,
        ensures
            r.limb_values() == values(limbs@),
            r.context() == *rns,
    {
        let limbs = Self::to_limbs(limbs);
        Integer { limbs, rns }
    }

    /// The integer whose value has the little-endian bytes `e`, cut into limbs.
    pub fn from_bytes_le(e: &[u8], rns: Rc<Rns<NUMBER_OF_LIMBS, BIT_LEN_LIMB>>) -> (r: Self)
        requires
            rns.native_modulus@ > 0,
        ensures
            r.limb_values() == decompose_value(
                crate::big::bytes_le_value(e@),
                rns.native_modulus@,
                NUMBER_OF_LIMBS as nat,
                BIT_LEN_LIMB as nat,
            ),
            r.context() == *rns,
    {
        let x = Big::from_bytes_le(e);
        Self::from_big(x, rns)
    }

    /// The field elements of the limbs.
    pub fn limbs(&self) -> (r: Vec<Big>)
        ensures
            values(r@) == self.limb_values(),
    {
        let mut fes: Vec<Big> = Vec::new();
        let mut i: usize = 0;
        while i < self.limbs.len()
            invariant
                i <= self.limbs@.len(),
                fes@.len() == i,
                forall|j: int| 0 <= j < i ==> #[trigger] fes@[j]@ == self.limbs@[j]@,
            decreases self.limbs@.len() - i,
        {
            fes.push(self.limbs[i].fe());
            i = i + 1;
        }
        assert(values(fes@) =~= self.limb_values());
        fes
    }

    /// The limb at `idx`.
    pub fn limb(&self, idx: usize) -> (r: Limb)
        requires
            idx < self.limb_values().len(),
        ensures
            r@ == self.limb_values()[idx as int],
    {
        self.limbs[idx].clone()
    }

    /// Multiplies every limb by the native element `k`.
    pub fn scale(&mut self, k: &Big)
        requires
            old(self).context().native_modulus@ > 0,
        ensures
            final(self).context() == old(self).context(),
            final(self).limb_values().len() == old(self).limb_values().len(),
            forall|i: int|
                0 <= i < old(self).limb_values().len() ==> #[trigger] final(self).limb_values()[i]
                    == (old(self).limb_values()[i] * k@) % old(self).context().native_modulus@,
    {
        let ghost old_values = self.limb_values();
        let mut i: usize = 0;
        while i < self.limbs.len()
            invariant
                i <= self.limbs@.len(),
                self.limbs@.len() == old_values.len(),
                self.context() == old(self).context(),
                self.rns.native_modulus@ > 0,
                forall|j: int|
                    0 <= j < i ==> #[trigger] self.limbs@[j]@ == (old_values[j] * k@)
                        % self.rns.native_modulus@,
                forall|j: int| i <= j < old_values.len() ==> #[trigger] self.limbs@[j]@ == old_values[j],
            decreases self.limbs@.len() - i,
        {
            let scaled = fe_mul(&self.limbs[i].0, k, &self.rns.native_modulus);
            assert(self.limbs@[i as int]@ == old_values[i as int]);
            let ghost before = self.limbs@;
            self.limbs.set(i, Limb(scaled));
            assert(self.limbs@ == before.update(i as int, Limb(scaled)));
            assert(self.limbs@[i as int]@ == (old_values[i as int] * k@) % self.rns.native_modulus@);
            i = i + 1;
        }
    }
}


/// The residues of a reduction with intermediate values `t` and result limbs
/// `r`: `u_0` and `u_1` are what the two lower and the two upper limbs of `t`
/// exceed those of `r` by, and `v_0`, `v_1` are the carries they pass on.
/// `s` is `2^BIT_LEN_LIMB` and `rs2` is the inverse of `2^(2 BIT_LEN_LIMB)`,
/// both in the native field of modulus `n`.
pub open spec fn residues_value(t: Seq<nat>, r: Seq<nat>, s: nat, rs2: nat, n: nat) -> (
    nat,
    nat,
    nat,
    nat,
) {
    let u_0 = ((t[0] + s * t[1] - r[0] - s * r[1]) % (n as int)) as nat;
    let u_1 = ((t[2] + s * t[3] - r[2] - s * r[3]) % (n as int)) as nat;
    let v_0 = (u_0 * rs2) % n;
    let v_1 = ((u_1 + v_0) * rs2) % n;
    (u_0, u_1, v_0, v_1)
}

/// Whether the residues are exact multiples of `2^(2 BIT_LEN_LIMB)`, checked
/// by masking with `mask`.
pub open spec fn residues_pass(t: Seq<nat>, r: Seq<nat>, s: nat, rs2: nat, mask: nat, n: nat) -> bool {
    let (u_0, u_1, _, _) = residues_value(t, r, s, rs2, n);
    &&& bit_and(u_0, mask) == 0
    &&& bit_and((u_0 * rs2 + u_1) % n, mask) == 0
}

impl<const NUMBER_OF_LIMBS: usize, const BIT_LEN_LIMB: usize> Integer<
    NUMBER_OF_LIMBS,
    BIT_LEN_LIMB,
> {
    /// Whether the residues of intermediate values `t` against the limbs of
    /// this integer pass the check.
    pub open spec fn residues_pass_for(&self, t: Seq<nat>) -> bool {
        let ctx = self.context();
        residues_pass(
            t,
            self.limb_values(),
            ctx.left_shifter_r@,
            ctx.right_shifter_2r@,
            ctx.two_limb_mask@,
            ctx.native_modulus@,
        )
    }

    /// The residues of intermediate values `t` against the limbs of this
    /// integer.
    pub open spec fn residues_for(&self, t: Seq<nat>) -> (nat, nat, nat, nat) {
        let ctx = self.context();
        residues_value(
            t,
            self.limb_values(),
            ctx.left_shifter_r@,
            ctx.right_shifter_2r@,
            ctx.native_modulus@,
        )
    }

    /// The residues of the intermediate values `t` of a reduction whose result
    /// is this integer. Its sanity check demands that both be multiples of
    /// `2^(2 BIT_LEN_LIMB)`; `checked_residues` is the form that reports it.
    pub fn residues(&self, t: Vec<Big>) -> (r: (Big, Big, Big, Big))
        requires
            self.wf(),
            NUMBER_OF_LIMBS >= 4,
            t@.len() >= 4,
            self.residues_pass_for(values(t@)),
        ensures
            (r.0@, r.1@, r.2@, r.3@) == self.residues_for(values(t@)),
    {
        match self.checked_residues(t) {
            Some(r) => r,
            None => unreached(),
        }
    }

    /// The residues as `residues` computes them, or `None` where its sanity
    /// check fails.
    pub fn checked_residues(&self, t: Vec<Big>) -> (r: Option<(Big, Big, Big, Big)>)
        requires
            self.wf(),
            NUMBER_OF_LIMBS >= 4,
            t@.len() >= 4,
        ensures
            r is Some <==> self.residues_pass_for(values(t@)),
            r matches Some(x) ==> (x.0@, x.1@, x.2@, x.3@) == self.residues_for(values(t@)),
    {
        let ghost tv = values(t@);
        let ghost rv = self.limb_values();
        let n = &self.rns.native_modulus;
        let s = &self.rns.left_shifter_r;
        let ghost nn = n@ as int;
        let r0 = self.limb(0).0;
        let r1 = self.limb(1).0;
        let r2 = self.limb(2).0;
        let r3 = self.limb(3).0;
        let u_0 = fe_sub(&fe_sub(&fe_add(&t[0], &fe_mul(s, &t[1], n), n), &r0, n), &fe_mul(s, &r1, n), n);
        proof {
            crate::arith::lemma_linear_combination(tv[0] as int, tv[1] as int, rv[0] as int, rv[1] as int, s@ as int, nn);
        }
        let u_1 = fe_sub(&fe_sub(&fe_add(&t[2], &fe_mul(s, &t[3], n), n), &r2, n), &fe_mul(s, &r3, n), n);
        proof {
            crate::arith::lemma_linear_combination(tv[2] as int, tv[3] as int, rv[2] as int, rv[3] as int, s@ as int, nn);
        }
        // the check that both residues are multiples of 2^(2 BIT_LEN_LIMB)
        let mask = &self.rns.two_limb_mask;
        let u_1_carried = fe_add(&fe_mul(&u_0, &self.rns.right_shifter_2r, n), &u_1, n);
        proof {
            crate::arith::lemma_mod_ops((u_0@ * self.rns.right_shifter_2r@) as int, u_1@ as int, nn);
        }
        let zero = Big::zero();
        let low_0 = big_and(&u_0, mask);
        let low_1 = big_and(&u_1_carried, mask);
        if big_lt(&zero, &low_0) || big_lt(&zero, &low_1) {
            return None;
        }
        let v_0 = fe_mul(&u_0, &self.rns.right_shifter_2r, n);
        let v_1 = fe_mul(&fe_add(&u_1, &v_0, n), &self.rns.right_shifter_2r, n);
        proof {
            crate::arith::lemma_mod_ops((u_1@ + v_0@) as int, self.rns.right_shifter_2r@ as int, nn);
        }
        Some((u_0, u_1, v_0, v_1))
    }
}


/// The quotient of a reduction: a single native element when the value to
/// reduce was short, a whole integer after a multiplication.
pub enum Quotient<const NUMBER_OF_LIMBS: usize, const BIT_LEN_LIMB: usize> {
    Short(Big),
    Long(Integer<NUMBER_OF_LIMBS, BIT_LEN_LIMB>),
}

/// What a reduction computes: the result, the quotient, the intermediate
/// values and the residues.
pub struct ReductionWitness<const NUMBER_OF_LIMBS: usize, const BIT_LEN_LIMB: usize> {
    pub result: Integer<NUMBER_OF_LIMBS, BIT_LEN_LIMB>,
    pub quotient: Quotient<NUMBER_OF_LIMBS, BIT_LEN_LIMB>,
    pub t: Vec<Big>,
    pub u_0: Big,
    pub u_1: Big,
    pub v_0: Big,
    pub v_1: Big,
}

impl<const NUMBER_OF_LIMBS: usize, const BIT_LEN_LIMB: usize> ReductionWitness<
    NUMBER_OF_LIMBS,
    BIT_LEN_LIMB,
> {
    /// Whether two witnesses hold the same values: result, long quotient,
    /// intermediate values and residues.
    pub open spec fn same_mul_values(&self, other: &Self) -> bool {
        &&& self.result.limb_values() == other.result.limb_values()
        &&& self.result.context() == other.result.context()
        &&& (self.quotient matches Quotient::Long(x) && other.quotient matches Quotient::Long(y)
            && x.limb_values() == y.limb_values() && x.context() == y.context())
        &&& values(self.t@) == values(other.t@)
        &&& (self.u_0@, self.u_1@, self.v_0@, self.v_1@) == (other.u_0@, other.u_1@, other.v_0@, other.v_1@)
    }
}

/// `a[0] * b[k] + p[0] * q[k] + a[1] * b[k - 1] + p[1] * q[k - 1] + ...`,
/// the first `m` terms of column `k`.
pub open spec fn column_sum(a: Seq<nat>, b: Seq<nat>, p: Seq<nat>, q: Seq<nat>, k: int, m: int) -> nat
    decreases m,
{
    if m <= 0 {
        0
    } else {
        column_sum(a, b, p, q, k, m - 1) + a[m - 1] * b[k - (m - 1)] + p[m - 1] * q[k - (m - 1)]
    }
}

/// The intermediate values of a multiplication: the first `l` columns of
/// `a * b + p * q`, in the native field of modulus `n`.
pub open spec fn mul_intermediate(
    a: Seq<nat>,
    b: Seq<nat>,
    p: Seq<nat>,
    q: Seq<nat>,
    n: nat,
    l: nat,
) -> Seq<nat> {
    Seq::new(l, |k: int| column_sum(a, b, p, q, k, k + 1) % n)
}

impl<const NUMBER_OF_LIMBS: usize, const BIT_LEN_LIMB: usize> Integer<
    NUMBER_OF_LIMBS,
    BIT_LEN_LIMB,
> {
    /// The limbs of the quotient and of the result of `self * other` modulo
    /// the wrong modulus, and the intermediate values of the multiplication.
    pub open spec fn mul_parts(&self, other: &Self) -> (Seq<nat>, Seq<nat>, Seq<nat>) {
        let ctx = self.context();
        let w = ctx.wrong_modulus@;
        let n = ctx.native_modulus@;
        let prod = self.value_spec() * other.value_spec();
        let q = decompose_value(prod / w, n, NUMBER_OF_LIMBS as nat, BIT_LEN_LIMB as nat);
        let r = decompose_value(prod % w, n, NUMBER_OF_LIMBS as nat, BIT_LEN_LIMB as nat);
        let t = mul_intermediate(
            self.limb_values(),
            other.limb_values(),
            values(ctx.negative_wrong_modulus_decomposed@),
            q,
            n,
            NUMBER_OF_LIMBS as nat,
        );
        (q, r, t)
    }

    /// Whether the residues of `self * other` pass the sanity check.
    pub open spec fn mul_passes(&self, other: &Self) -> bool {
        let ctx = self.context();
        let (q, r, t) = self.mul_parts(other);
        residues_pass(
            t,
            r,
            ctx.left_shifter_r@,
            ctx.right_shifter_2r@,
            ctx.two_limb_mask@,
            ctx.native_modulus@,
        )
    }

    /// Whether `r` is what multiplying `self` by `other` gives: the limbs of
    /// the result and of the long quotient, the intermediate values of
    /// `mul_parts`, and the residues of those values against the result.
    pub open spec fn is_mul_witness(&self, other: &Self, r: ReductionWitness<NUMBER_OF_LIMBS, BIT_LEN_LIMB>) -> bool {
        &&& r.result.limb_values() == self.mul_parts(other).1
        &&& r.result.context() == self.context()
        &&& r.quotient matches Quotient::Long(x) && x.limb_values() == self.mul_parts(other).0
            && x.context() == self.context()
        &&& values(r.t@) == self.mul_parts(other).2
        &&& (r.u_0@, r.u_1@, r.v_0@, r.v_1@) == r.result.residues_for(values(r.t@))
    }

    /// `self * self`: what `self.mul(self)` gives.
    pub fn square(&self) -> (r: ReductionWitness<NUMBER_OF_LIMBS, BIT_LEN_LIMB>)
        requires
            self.wf(),
            NUMBER_OF_LIMBS >= 4,
            self.mul_passes(self),
        ensures
            self.is_mul_witness(self, r),
    {
        self.mul(self)
    }

    /// `self * other` reduced by the wrong modulus, with all that the
    /// multiplication constraints need: the quotient, the intermediate values
    /// and the residues.
    pub fn mul(&self, other: &Self) -> (r: ReductionWitness<NUMBER_OF_LIMBS, BIT_LEN_LIMB>)
        requires
            self.wf(),
            other.limb_values().len() == NUMBER_OF_LIMBS,
            NUMBER_OF_LIMBS >= 4,
            self.mul_passes(other),
        ensures
            self.is_mul_witness(other, r),
    {
        let ghost ctx = self.context();
        let ghost parts = self.mul_parts(other);
        let modulus = &self.rns.wrong_modulus;
        let n = &self.rns.native_modulus;
        let a_value = self.value();
        let b_value = other.value();
        let prod = big_mul(&a_value, &b_value);
        let (quotient, result) = big_div_rem(&prod, modulus);
        let quotient = Self::from_big(quotient, share(&self.rns));
        let result = Self::from_big(result, share(&self.rns));
        let ghost a = self.limb_values();
        let ghost b = other.limb_values();
        let ghost p = values(ctx.negative_wrong_modulus_decomposed@);
        let ghost q = quotient.limb_values();
        let l = NUMBER_OF_LIMBS;
        let mut t = zeros(l);
        let mut k: usize = 0;
        while k < l
            invariant
                k <= l,
                l == NUMBER_OF_LIMBS,
                self.wf(),
                ctx == self.context(),
                n@ == ctx.native_modulus@,
                other.limb_values().len() == NUMBER_OF_LIMBS,
                quotient.limb_values().len() == NUMBER_OF_LIMBS,
                a == self.limb_values(),
                b == other.limb_values(),
                q == quotient.limb_values(),
                p == values(ctx.negative_wrong_modulus_decomposed@),
                t@.len() == l,
                forall|j: int| 0 <= j < k ==> #[trigger] t@[j]@ == column_sum(a, b, p, q, j, j + 1) % n@,
                forall|j: int| k <= j < l ==> #[trigger] t@[j]@ == 0,
            decreases l - k,
        {
            let mut i: usize = 0;
            proof {
                assert(column_sum(a, b, p, q, k as int, 0) == 0);
                assert(0nat % n@ == 0);
            }
            while i <= k
                invariant
                    k < l,
                    i <= k + 1,
                    l == NUMBER_OF_LIMBS,
                    self.wf(),
                    ctx == self.context(),
                    n@ == ctx.native_modulus@,
                    other.limb_values().len() == NUMBER_OF_LIMBS,
                    quotient.limb_values().len() == NUMBER_OF_LIMBS,
                    a == self.limb_values(),
                    b == other.limb_values(),
                    q == quotient.limb_values(),
                    p == values(ctx.negative_wrong_modulus_decomposed@),
                    t@.len() == l,
                    forall|j: int| 0 <= j < k ==> #[trigger] t@[j]@ == column_sum(a, b, p, q, j, j + 1) % n@,
                    t@[k as int]@ == column_sum(a, b, p, q, k as int, i as int) % n@,
                    forall|j: int| k < j < l ==> #[trigger] t@[j]@ == 0,
                decreases k + 1 - i,
            {
                let j = k - i;
                let ab = fe_mul(&self.limbs[i].0, &other.limbs[j].0, n);
                let pq = fe_mul(&self.rns.negative_wrong_modulus_decomposed[i], &quotient.limbs[j].0, n);
                let acc = fe_add(&fe_add(&t[i + j], &ab, n), &pq, n);
                proof {
                    assert(ab@ == (a[i as int] * b[j as int]) % n@);
                    assert(pq@ == (p[i as int] * q[j as int]) % n@);
                    assert(t@[(i + j) as int]@ == column_sum(a, b, p, q, k as int, i as int) % n@);
                    let cs = column_sum(a, b, p, q, k as int, i as int) as int;
                    let x = (a[i as int] * b[j as int]) as int;
                    let y = (p[i as int] * q[j as int]) as int;
                    let nn = n@ as int;
                    vstd::arithmetic::div_mod::lemma_add_mod_noop(cs, x, nn);
                    vstd::arithmetic::div_mod::lemma_add_mod_noop(cs + x, y, nn);
                    vstd::arithmetic::div_mod::lemma_mod_twice(cs + x, nn);
                    assert(acc@ == (cs + x + y) % nn);
                }
                proof {
                    assert(i + j == k);
                    assert(column_sum(a, b, p, q, k as int, i + 1) == column_sum(a, b, p, q, k as int, i as int)
                        + a[i as int] * b[j as int] + p[i as int] * q[j as int]);
                }
                t.set(i + j, acc);
                i = i + 1;
            }
            k = k + 1;
        }
        proof {
            assert(values(t@) =~= parts.2);
            assert(q == parts.0);
        }
        let (u_0, u_1, v_0, v_1) = result.residues(copy_all(&t));
        let quotient = Quotient::Long(quotient);
        ReductionWitness { result, quotient, t, u_0, u_1, v_0, v_1 }
    }
}


/// The quotient by the wrong modulus `w` of the integer with limbs `a`, as an
/// element of the native field of modulus `n`; the limbs of the remainder; and
/// the intermediate values `a[i] + p[i] * quotient` of the reduction, where
/// `p` are the limbs of `2^(l b) - w`.
pub open spec fn reduce_parts_of(a: Seq<nat>, w: nat, n: nat, p: Seq<nat>, l: nat, b: nat) -> (
    nat,
    Seq<nat>,
    Seq<nat>,
) {
    let value = compose_value(a, b);
    let q = (value / w) % n;
    let r = decompose_value(value % w, n, l, b);
    let t = Seq::new(l, |i: int| (a[i] + p[i] * q) % n);
    (q, r, t)
}

/// Whether the integer with limbs `a` reduces with a quotient of one limb and
/// the residues of the reduction pass the sanity check.
pub open spec fn reduce_passes_of(
    a: Seq<nat>,
    w: nat,
    n: nat,
    p: Seq<nat>,
    s: nat,
    rs2: nat,
    mask: nat,
    l: nat,
    b: nat,
) -> bool {
    let (q, r, t) = reduce_parts_of(a, w, n, p, l, b);
    &&& compose_value(a, b) / w < pow2(b)
    &&& residues_pass(t, r, s, rs2, mask, n)
}

impl<const NUMBER_OF_LIMBS: usize, const BIT_LEN_LIMB: usize> Integer<
    NUMBER_OF_LIMBS,
    BIT_LEN_LIMB,
> {
    /// The quotient of the value by the wrong modulus as a native element, the
    /// limbs of the remainder, and the intermediate values of the reduction.
    pub open spec fn reduce_parts(&self) -> (nat, Seq<nat>, Seq<nat>) {
        let ctx = self.context();
        reduce_parts_of(
            self.limb_values(),
            ctx.wrong_modulus@,
            ctx.native_modulus@,
            values(ctx.negative_wrong_modulus_decomposed@),
            NUMBER_OF_LIMBS as nat,
            BIT_LEN_LIMB as nat,
        )
    }

    /// Whether the value can be reduced with a quotient of one limb and the
    /// residues of the reduction pass the sanity check.
    pub open spec fn reduce_passes(&self) -> bool {
        let ctx = self.context();
        reduce_passes_of(
            self.limb_values(),
            ctx.wrong_modulus@,
            ctx.native_modulus@,
            values(ctx.negative_wrong_modulus_decomposed@),
            ctx.left_shifter_r@,
            ctx.right_shifter_2r@,
            ctx.two_limb_mask@,
            NUMBER_OF_LIMBS as nat,
            BIT_LEN_LIMB as nat,
        )
    }

    /// The value reduced by the wrong modulus, with all that the reduction
    /// constraints need: the one-limb quotient, the intermediate values and
    /// the residues.
    pub fn reduce(&self) -> (r: ReductionWitness<NUMBER_OF_LIMBS, BIT_LEN_LIMB>)
        requires
            self.wf(),
            NUMBER_OF_LIMBS >= 4,
            self.reduce_passes(),
        ensures
            r.result.limb_values() == self.reduce_parts().1,
            r.result.context() == self.context(),
            r.quotient matches Quotient::Short(x) && x@ == self.reduce_parts().0,
            values(r.t@) == self.reduce_parts().2,
            (r.u_0@, r.u_1@, r.v_0@, r.v_1@) == r.result.residues_for(values(r.t@)),
    {
        match self.checked_reduce() {
            Some(r) => r,
            None => unreached(),
        }
    }

    /// The reduction as `reduce` computes it, or `None` where the quotient
    /// takes more than one limb or the residues fail the sanity check.
    pub fn checked_reduce(&self) -> (r: Option<ReductionWitness<NUMBER_OF_LIMBS, BIT_LEN_LIMB>>)
        requires
            self.wf(),
            NUMBER_OF_LIMBS >= 4,
        ensures
            r is Some <==> self.reduce_passes(),
            r matches Some(r) ==> {
                &&& r.result.limb_values() == self.reduce_parts().1
                &&& r.result.context() == self.context()
                &&& r.quotient matches Quotient::Short(x) && x@ == self.reduce_parts().0
                &&& values(r.t@) == self.reduce_parts().2
                &&& (r.u_0@, r.u_1@, r.v_0@, r.v_1@) == r.result.residues_for(values(r.t@))
            },
    {
        let ghost ctx = self.context();
        let ghost parts = self.reduce_parts();
        let modulus = &self.rns.wrong_modulus;
        let n = &self.rns.native_modulus;
        let value = self.value();
        let (quotient, result) = big_div_rem(&value, modulus);
        let one = Big::one();
        let bound = crate::big::big_shl(&one, BIT_LEN_LIMB);
        if !big_lt(&quotient, &bound) {
            return None;
        }
        let quotient = big_to_fe(&quotient, n);
        let limbs = self.limbs();
        let mut t: Vec<Big> = Vec::new();
        let mut i: usize = 0;
        while i < NUMBER_OF_LIMBS
            invariant
                i <= NUMBER_OF_LIMBS,
                self.wf(),
                ctx == self.context(),
                n@ == ctx.native_modulus@,
                parts == self.reduce_parts(),
                quotient@ == parts.0,
                values(limbs@) == self.limb_values(),
                t@.len() == i,
                forall|j: int| 0 <= j < i ==> #[trigger] t@[j]@ == parts.2[j],
            decreases NUMBER_OF_LIMBS - i,
        {
            let pq = fe_mul(&self.rns.negative_wrong_modulus_decomposed[i], &quotient, n);
            let ti = fe_add(&limbs[i], &pq, n);
            proof {
                let nn = n@ as int;
                let x = self.limb_values()[i as int] as int;
                let y = ctx.negative_wrong_modulus_decomposed@[i as int]@ * quotient@;
                crate::arith::lemma_mod_ops(x, y as int, nn);
                assert(values(limbs@)[i as int] == limbs@[i as int]@);
                let pv = values(ctx.negative_wrong_modulus_decomposed@);
                assert(pv[i as int] == ctx.negative_wrong_modulus_decomposed@[i as int]@);
                assert(parts.2[i as int] == (self.limb_values()[i as int] + pv[i as int] * parts.0) % n@);
                assert(ti@ == parts.2[i as int]);
            }
            t.push(ti);
            i = i + 1;
        }
        proof {
            assert(values(t@) =~= parts.2);
        }
        let result = Self::from_big(result, share(&self.rns));
        match result.checked_residues(copy_all(&t)) {
            Some((u_0, u_1, v_0, v_1)) => {
                let quotient = Quotient::Short(quotient);
                Some(ReductionWitness { result, quotient, t, u_0, u_1, v_0, v_1 })
            },
            None => None,
        }
    }
}


/// Whether subtracting limb `i` of `x`, and the borrow coming in, from limb
/// `i` of `m` borrows.
pub open spec fn compare_borrow(x: Seq<nat>, m: Seq<nat>, i: nat) -> bool
    decreases i,
{
    let prev: nat = if i == 0 {
        0
    } else if compare_borrow(x, m, (i - 1) as nat) {
        1
    } else {
        0
    };
    m[i as int] < x[i as int] + prev
}

/// The borrow coming into limb `i`.
pub open spec fn borrow_in(x: Seq<nat>, m: Seq<nat>, i: nat) -> nat {
    if i == 0 {
        0
    } else if compare_borrow(x, m, (i - 1) as nat) {
        1
    } else {
        0
    }
}

/// Limb `i` of `m - x`, subtracted limb by limb with borrows, limbs of `b` bits.
pub open spec fn compare_limb(x: Seq<nat>, m: Seq<nat>, b: nat, i: nat) -> int {
    let lend: nat = if compare_borrow(x, m, i) {
        pow2(b)
    } else {
        0
    };
    m[i as int] + lend - borrow_in(x, m, i) - x[i as int]
}

/// The difference of the wrong modulus minus one and an integer, limb by
/// limb, and the borrow of each limb.
pub struct ComparisionResult<const NUMBER_OF_LIMBS: usize, const BIT_LEN_LIMB: usize> {
    pub result: Integer<NUMBER_OF_LIMBS, BIT_LEN_LIMB>,
    pub borrow: Vec<bool>,
}

impl<const NUMBER_OF_LIMBS: usize, const BIT_LEN_LIMB: usize> Integer<
    NUMBER_OF_LIMBS,
    BIT_LEN_LIMB,
> {
    /// Whether no limb of the difference with the wrong modulus minus one is
    /// negative.
    pub open spec fn compare_defined(&self) -> bool {
        let x = self.limb_values();
        let m = values(self.context().wrong_modulus_minus_one@);
        forall|i: nat| i < NUMBER_OF_LIMBS ==> #[trigger] compare_limb(x, m, BIT_LEN_LIMB as nat, i) >= 0
    }

    /// Subtracts the integer from the wrong modulus minus one, limb by limb,
    /// and records where a limb borrows.
    pub fn compare_to_modulus(&self) -> (r: ComparisionResult<NUMBER_OF_LIMBS, BIT_LEN_LIMB>)
        requires
            self.wf(),
            self.compare_defined(),
        ensures
            ({
                let x = self.limb_values();
                let m = values(self.context().wrong_modulus_minus_one@);
                let b = BIT_LEN_LIMB as nat;
                &&& r.borrow@ == Seq::new(NUMBER_OF_LIMBS as nat, |i: int| compare_borrow(x, m, i as nat))
                &&& r.result.limb_values() == Seq::new(
                    NUMBER_OF_LIMBS as nat,
                    |i: int| (compare_limb(x, m, b, i as nat) as nat) % self.context().native_modulus@,
                )
                &&& r.result.context() == self.context()
            }),
    {
        let ghost x = self.limb_values();
        let ghost m = values(self.context().wrong_modulus_minus_one@);
        let ghost b = BIT_LEN_LIMB as nat;
        let n = &self.rns.native_modulus;
        let modulus_minus_one = &self.rns.wrong_modulus_minus_one;
        let mut borrow: Vec<bool> = Vec::new();
        let mut limbs: Vec<Big> = Vec::new();
        let mut prev_borrow = Big::zero();
        let mut i: usize = 0;
        while i < NUMBER_OF_LIMBS
            invariant
                i <= NUMBER_OF_LIMBS,
                self.wf(),
                self.compare_defined(),
                x == self.limb_values(),
                m == values(self.context().wrong_modulus_minus_one@),
                b == BIT_LEN_LIMB as nat,
                n@ == self.context().native_modulus@,
                modulus_minus_one@ == self.context().wrong_modulus_minus_one@,
                prev_borrow@ == borrow_in(x, m, i as nat),
                borrow@.len() == i,
                limbs@.len() == i,
                forall|j: int| 0 <= j < i ==> #[trigger] borrow@[j] == compare_borrow(x, m, j as nat),
                forall|j: int|
                    0 <= j < i ==> #[trigger] limbs@[j]@ == (compare_limb(x, m, b, j as nat) as nat) % n@,
            decreases NUMBER_OF_LIMBS - i,
        {
            let limb = self.limbs[i].value();
            let modulus_limb = modulus_minus_one[i].clone();
            proof {
                assert(limb@ == x[i as int]);
                assert(modulus_limb@ == m[i as int]);
            }
            let cur_borrow = big_lt(&modulus_limb, &crate::big::big_add(&limb, &prev_borrow));
            borrow.push(cur_borrow);
            let lend = crate::big::big_shl(&Big::from_bool(cur_borrow), BIT_LEN_LIMB);
            proof {
                vstd::arithmetic::power2::lemma_pow2_pos(b);
                assert(compare_limb(x, m, b, i as nat) >= 0);
            }
            let res_limb = crate::big::big_sub(
                &crate::big::big_sub(&crate::big::big_add(&modulus_limb, &lend), &prev_borrow),
                &limb,
            );
            prev_borrow = Big::from_bool(cur_borrow);
            limbs.push(big_to_fe(&res_limb, n));
            i = i + 1;
        }
        let result = Integer::from_limbs(&limbs, share(&self.rns));
        proof {
            assert(borrow@ =~= Seq::new(NUMBER_OF_LIMBS as nat, |i: int| compare_borrow(x, m, i as nat)));
            assert(values(limbs@) =~= Seq::new(
                NUMBER_OF_LIMBS as nat,
                |i: int| (compare_limb(x, m, b, i as nat) as nat) % n@,
            ));
        }
        ComparisionResult { result, borrow }
    }
}


/// How many times `aux` is doubled before it reaches `target`.
pub open spec fn doublings(target: nat, aux: nat) -> nat
    decreases (if target > aux {
        target - aux
    } else {
        0
    }),
{
    if aux == 0 || target <= aux {
        0
    } else {
        1 + doublings(target, 2 * aux)
    }
}

/// The most doublings that any of the first `k` pairs of `targets` and `aux` need.
pub open spec fn max_doublings(targets: Seq<nat>, aux: Seq<nat>, k: nat) -> nat
    decreases k,
{
    if k == 0 {
        0
    } else {
        let prev = max_doublings(targets, aux, (k - 1) as nat);
        let d = doublings(targets[k - 1], aux[k - 1]);
        if d > prev {
            d
        } else {
            prev
        }
    }
}

/// Doubling once more is one doubling fewer to go.
proof fn lemma_doublings_step(target: nat, aux: nat)
    requires
        aux > 0,
        target > aux,
    ensures
        doublings(target, aux) == 1 + doublings(target, 2 * aux),
{
}

impl<const NUMBER_OF_LIMBS: usize, const BIT_LEN_LIMB: usize> Clone for Integer<
    NUMBER_OF_LIMBS,
    BIT_LEN_LIMB,
> {
    fn clone(&self) -> (r: Self)
        ensures
            r.limb_values() == self.limb_values(),
            r.context() == self.context(),
    {
        let mut limbs: Vec<Limb> = Vec::new();
        let mut i: usize = 0;
        while i < self.limbs.len()
            invariant
                i <= self.limbs@.len(),
                limbs@.len() == i,
                forall|j: int| 0 <= j < i ==> #[trigger] limbs@[j]@ == self.limbs@[j]@,
            decreases self.limbs@.len() - i,
        {
            limbs.push(self.limbs[i].clone());
            i = i + 1;
        }
        assert(values_of_limbs(limbs@) =~= self.limb_values());
        Integer { limbs, rns: share(&self.rns) }
    }
}

impl<const NUMBER_OF_LIMBS: usize, const BIT_LEN_LIMB: usize> Integer<
    NUMBER_OF_LIMBS,
    BIT_LEN_LIMB,
> {
    /// The inverse in the wrong field, when there is one.
    pub fn invert(&self) -> (r: Option<Self>)
        requires
            self.wf(),
        ensures
            ({
                let ctx = self.context();
                let w = ctx.wrong_modulus@;
                let a = self.value_spec() % w;
                &&& r is Some <==> has_inverse(a, w)
                &&& r matches Some(x) ==> {
                    &&& x.limb_values() == decompose_value(
                        inverse_of(a, w),
                        ctx.native_modulus@,
                        NUMBER_OF_LIMBS as nat,
                        BIT_LEN_LIMB as nat,
                    )
                    &&& x.context() == ctx
                }
            }),
    {
        let value = self.value();
        let a_w = big_to_fe(&value, &self.rns.wrong_modulus);
        let inv_w = big_modinv(&a_w, &self.rns.wrong_modulus);
        match inv_w {
            Some(inv) => {
                proof {
                    lemma_is_inverse_of(a_w@, inv@, self.rns.wrong_modulus@);
                }
                Some(Self::from_big(inv, share(&self.rns)))
            },
            None => {
                proof {
                    if has_inverse(a_w@, self.rns.wrong_modulus@) {
                        let x = choose|x: nat| #[trigger] ((a_w@ * x) % self.rns.wrong_modulus@) == 1nat
                            % self.rns.wrong_modulus@;
                        assert(((a_w@ * x) % self.rns.wrong_modulus@) != 1nat % self.rns.wrong_modulus@);
                    }
                }
                None
            },
        }
    }

    /// `self / denom` in the wrong field, when `denom` has an inverse.
    pub fn div(&self, denom: &Self) -> (r: Option<Self>)
        requires
            self.wf(),
            denom.wf(),
            denom.context() == self.context(),
        ensures
            ({
                let ctx = self.context();
                let w = ctx.wrong_modulus@;
                let n = ctx.native_modulus@;
                let b = denom.value_spec() % w;
                let l = NUMBER_OF_LIMBS as nat;
                let bits = BIT_LEN_LIMB as nat;
                let b_inv = compose_value(decompose_value(inverse_of(b, w), n, l, bits), bits);
                &&& r is Some <==> has_inverse(b, w)
                &&& r matches Some(x) ==> {
                    &&& x.limb_values() == decompose_value((self.value_spec() * b_inv) % w, n, l, bits)
                    &&& x.context() == ctx
                }
            }),
    {
        match denom.invert() {
            Some(b_inv) => {
                let a_value = self.value();
                let b_value = b_inv.value();
                let a_mul_b = big_mul(&a_value, &b_value);
                let (_, a_mul_b) = big_div_rem(&a_mul_b, &self.rns.wrong_modulus);
                Some(Self::from_big(a_mul_b, share(&self.rns)))
            },
            None => None,
        }
    }

    /// The auxiliary integer added before a subtraction so that no limb of
    /// the difference is negative: the base auxiliary limbs shifted left
    /// until each is at least the matching bound in `max_vals`.
    pub fn subtracion_aux(max_vals: Vec<Big>, rns: Rc<Rns<NUMBER_OF_LIMBS, BIT_LEN_LIMB>>) -> (r:
        Self)
        requires
            rns.well_formed(),
            forall|i: int|
                0 <= i < max_vals@.len() && i < NUMBER_OF_LIMBS ==> {
                    &&& (#[trigger] rns.base_aux@[i])@ > 0 || max_vals@[i]@ == 0
                    &&& doublings(max_vals@[i]@, rns.base_aux@[i]@) < usize::MAX
                },
        ensures
            ({
                let count = if max_vals@.len() < NUMBER_OF_LIMBS {
                    max_vals@.len()
                } else {
                    NUMBER_OF_LIMBS as nat
                };
                let shift = max_doublings(values(max_vals@), values(rns.base_aux@), count);
                &&& r.limb_values() == Seq::new(
                    NUMBER_OF_LIMBS as nat,
                    |i: int| (rns.base_aux@[i]@ * pow2(shift)) % rns.native_modulus@,
                )
                &&& r.context() == *rns
            }),
    {
        let ghost targets = values(max_vals@);
        let ghost auxs = values(rns.base_aux@);
        let count = if max_vals.len() < NUMBER_OF_LIMBS {
            max_vals.len()
        } else {
            NUMBER_OF_LIMBS
        };
        let mut max_shift: usize = 0;
        let mut i: usize = 0;
        while i < count
            invariant
                i <= count,
                count <= max_vals@.len(),
                count <= NUMBER_OF_LIMBS,
                rns.well_formed(),
                targets == values(max_vals@),
                auxs == values(rns.base_aux@),
                forall|i: int|
                    0 <= i < max_vals@.len() && i < NUMBER_OF_LIMBS ==> {
                        &&& (#[trigger] rns.base_aux@[i])@ > 0 || max_vals@[i]@ == 0
                        &&& doublings(max_vals@[i]@, rns.base_aux@[i]@) < usize::MAX
                    },
                max_shift == max_doublings(targets, auxs, i as nat),
            decreases count - i,
        {
            let max_val = &max_vals[i];
            let ghost a0 = rns.base_aux@[i as int]@;
            let ghost prev = max_shift;
            let mut shift: usize = 1;
            let mut aux = rns.base_aux[i].clone();
            proof {
                vstd::arithmetic::power2::lemma2_to64();
                assert(a0 * pow2(0) == a0);
            }
            while big_lt(&aux, max_val)
                invariant
                    a0 > 0 || max_val@ == 0,
                    doublings(max_val@, a0) < usize::MAX,
                    shift >= 1,
                    aux@ == a0 * pow2((shift - 1) as nat),
                    doublings(max_val@, a0) == (shift - 1) + doublings(max_val@, aux@),
                    max_shift == (if shift - 1 > prev {
                        (shift - 1) as nat
                    } else {
                        prev as nat
                    }),
                decreases (if max_val@ > aux@ {
                    max_val@ - aux@
                } else {
                    0
                }),
            {
                proof {
                    vstd::arithmetic::power2::lemma_pow2_pos((shift - 1) as nat);
                    assert(a0 > 0);
                    assert(aux@ > 0) by (nonlinear_arith)
                        requires
                            aux@ == a0 * pow2((shift - 1) as nat),
                            a0 > 0,
                            pow2((shift - 1) as nat) > 0,
                    ;
                    lemma_doublings_step(max_val@, aux@);
                }
                aux = crate::big::big_shl(&aux, 1);
                proof {
                    vstd::arithmetic::power2::lemma_pow2_adds((shift - 1) as nat, 1);
                    vstd::arithmetic::power2::lemma2_to64();
                    assert(a0 * pow2((shift - 1) as nat) * 2 == a0 * pow2(shift as nat)) by (nonlinear_arith)
                        requires
                            pow2(shift as nat) == pow2((shift - 1) as nat) * 2,
                    ;
                }
                if shift > max_shift {
                    max_shift = shift;
                }
                shift = shift + 1;
            }
            proof {
                assert(doublings(max_val@, aux@) == 0);
                assert(targets[i as int] == max_val@);
                assert(auxs[i as int] == a0);
            }
            i = i + 1;
        }
        let mut limbs: Vec<Big> = Vec::new();
        let mut j: usize = 0;
        while j < NUMBER_OF_LIMBS
            invariant
                j <= NUMBER_OF_LIMBS,
                rns.well_formed(),
                limbs@.len() == j,
                forall|k: int|
                    0 <= k < j ==> #[trigger] limbs@[k]@ == (rns.base_aux@[k]@ * pow2(max_shift as nat))
                        % rns.native_modulus@,
            decreases NUMBER_OF_LIMBS - j,
        {
            let shifted = crate::big::big_shl(&rns.base_aux[j], max_shift);
            limbs.push(big_to_fe(&shifted, &rns.native_modulus));
            j = j + 1;
        }
        proof {
            assert(values(limbs@) =~= Seq::new(
                NUMBER_OF_LIMBS as nat,
                |i: int| (rns.base_aux@[i]@ * pow2(max_shift as nat)) % rns.native_modulus@,
            ));
        }
        Self::from_limbs(&limbs, rns)
    }
}

/// A reduction that may not have been computed.
pub struct MaybeReduced<const NUMBER_OF_LIMBS: usize, const BIT_LEN_LIMB: usize>(
    pub Option<ReductionWitness<NUMBER_OF_LIMBS, BIT_LEN_LIMB>>,
);

impl<const NUMBER_OF_LIMBS: usize, const BIT_LEN_LIMB: usize> From<
    Option<ReductionWitness<NUMBER_OF_LIMBS, BIT_LEN_LIMB>>,
> for MaybeReduced<NUMBER_OF_LIMBS, BIT_LEN_LIMB> {
    fn from(integer: Option<ReductionWitness<NUMBER_OF_LIMBS, BIT_LEN_LIMB>>) -> (r: Self) {
        MaybeReduced(integer)
    }
}

impl<const NUMBER_OF_LIMBS: usize, const BIT_LEN_LIMB: usize> vstd::std_specs::convert::FromSpecImpl<
    Option<ReductionWitness<NUMBER_OF_LIMBS, BIT_LEN_LIMB>>,
> for MaybeReduced<NUMBER_OF_LIMBS, BIT_LEN_LIMB> {
    open spec fn obeys_from_spec() -> bool {
        true
    }

    open spec fn from_spec(v: Option<ReductionWitness<NUMBER_OF_LIMBS, BIT_LEN_LIMB>>) -> Self {
        MaybeReduced(v)
    }
}

impl<const NUMBER_OF_LIMBS: usize, const BIT_LEN_LIMB: usize> MaybeReduced<
    NUMBER_OF_LIMBS,
    BIT_LEN_LIMB,
> {
    /// The long quotient of the reduction; defined only where it is long.
    pub fn long(&self) -> (r: Option<Integer<NUMBER_OF_LIMBS, BIT_LEN_LIMB>>)
        requires
            self.0 matches Some(w) ==> w.quotient is Long,
        ensures
            r is Some <==> self.0 is Some,
            r matches Some(q) ==> self.0 matches Some(w) && w.quotient matches Quotient::Long(x)
                && q.limb_values() == x.limb_values() && q.context() == x.context(),
    {
        match &self.0 {
            Some(reduction_result) => match &reduction_result.quotient {
                Quotient::Long(quotient) => Some(quotient.clone()),
                Quotient::Short(_) => unreached(),
            },
            None => None,
        }
    }

    /// The short quotient of the reduction; defined only where it is short.
    pub fn short(&self) -> (r: Option<Big>)
        requires
            self.0 matches Some(w) ==> w.quotient is Short,
        ensures
            r is Some <==> self.0 is Some,
            r matches Some(q) ==> self.0 matches Some(w) && w.quotient matches Quotient::Short(x)
                && q@ == x@,
    {
        match &self.0 {
            Some(reduction_result) => match &reduction_result.quotient {
                Quotient::Short(quotient) => Some(quotient.clone()),
                Quotient::Long(_) => unreached(),
            },
            None => None,
        }
    }

    /// The result of the reduction.
    pub fn result(&self) -> (r: Option<Integer<NUMBER_OF_LIMBS, BIT_LEN_LIMB>>)
        ensures
            r is Some <==> self.0 is Some,
            r matches Some(x) ==> self.0 matches Some(w) && x.limb_values()
                == w.result.limb_values() && x.context() == w.result.context(),
    {
        match &self.0 {
            Some(u) => Some(u.result.clone()),
            None => None,
        }
    }

    /// The four residues of the reduction.
    pub fn residues(&self) -> (r: (Option<Big>, Option<Big>, Option<Big>, Option<Big>))
        ensures
            r.0 is Some <==> self.0 is Some,
            r.1 is Some <==> self.0 is Some,
            r.2 is Some <==> self.0 is Some,
            r.3 is Some <==> self.0 is Some,
            self.0 matches Some(w) ==> r.0.unwrap()@ == w.u_0@ && r.1.unwrap()@ == w.u_1@
                && r.2.unwrap()@ == w.v_0@ && r.3.unwrap()@ == w.v_1@,
    {
        (self.u_0(), self.u_1(), self.v_0(), self.v_1())
    }

    fn u_0(&self) -> (r: Option<Big>)
        ensures
            r is Some <==> self.0 is Some,
            self.0 matches Some(w) ==> r.unwrap()@ == w.u_0@,
    {
        match &self.0 {
            Some(u) => Some(u.u_0.clone()),
            None => None,
        }
    }

    fn u_1(&self) -> (r: Option<Big>)
        ensures
            r is Some <==> self.0 is Some,
            self.0 matches Some(w) ==> r.unwrap()@ == w.u_1@,
    {
        match &self.0 {
            Some(u) => Some(u.u_1.clone()),
            None => None,
        }
    }

    fn v_0(&self) -> (r: Option<Big>)
        ensures
            r is Some <==> self.0 is Some,
            self.0 matches Some(w) ==> r.unwrap()@ == w.v_0@,
    {
        match &self.0 {
            Some(u) => Some(u.v_0.clone()),
            None => None,
        }
    }

    fn v_1(&self) -> (r: Option<Big>)
        ensures
            r is Some <==> self.0 is Some,
            self.0 matches Some(w) ==> r.unwrap()@ == w.v_1@,
    {
        match &self.0 {
            Some(u) => Some(u.v_1.clone()),
            None => None,
        }
    }

    /// The first four intermediate values of the reduction.
    pub fn intermediate_values(&self) -> (r: (Option<Big>, Option<Big>, Option<Big>, Option<Big>))
        requires
            self.0 matches Some(w) ==> w.t@.len() >= 4,
        ensures
            r.0 is Some <==> self.0 is Some,
            r.1 is Some <==> self.0 is Some,
            r.2 is Some <==> self.0 is Some,
            r.3 is Some <==> self.0 is Some,
            self.0 matches Some(w) ==> r.0.unwrap()@ == w.t@[0]@ && r.1.unwrap()@ == w.t@[1]@
                && r.2.unwrap()@ == w.t@[2]@ && r.3.unwrap()@ == w.t@[3]@,
    {
        match &self.0 {
            Some(u) => {
                let t = copy_all(&u.t);
                proof {
                    assert(values(t@)[0] == t@[0]@ && values(u.t@)[0] == u.t@[0]@);
                    assert(values(t@)[1] == t@[1]@ && values(u.t@)[1] == u.t@[1]@);
                    assert(values(t@)[2] == t@[2]@ && values(u.t@)[2] == u.t@[2]@);
                    assert(values(t@)[3] == t@[3]@ && values(u.t@)[3] == u.t@[3]@);
                }
                (Some(t[0].clone()), Some(t[1].clone()), Some(t[2].clone()), Some(t[3].clone()))
            },
            None => (None, None, None, None),
        }
    }
}

} // verus!
