use integer::big::Big;
use integer::construct::NUMBER_OF_LOOKUP_LIMBS;
use integer::field::{big_to_fe, fe_add, fe_mul, fe_sub};
use integer::limbs::{compose, decompose_big};
use integer::rns::{Common, Integer, Limb, MaybeReduced, Quotient, Rns};
use num_bigint::BigUint;
use num_integer::Integer as _;
use num_traits::{Num, One, Zero};
use std::rc::Rc;

const SECP256K1_P: &str = "fffffffffffffffffffffffffffffffffffffffffffffffffffffffefffffc2f";
const BN256_R: &str = "30644e72e131a029b85045b68181585d2833e84879b9709143e1f593f0000001";
const PALLAS_P: &str = "40000000000000000000000000000000224698fc094cf91b992d30ed00000001";
const BIT_LEN: usize = 68;

type Int = Integer<4, 68>;

fn hex(s: &str) -> BigUint {
    BigUint::from_str_radix(s, 16).unwrap()
}

fn big(x: &BigUint) -> Big {
    Big::from_bytes_le(&x.to_bytes_le())
}

fn num(x: &Big) -> BigUint {
    BigUint::from_bytes_le(&x.to_bytes_le())
}

fn wrong() -> BigUint {
    hex(SECP256K1_P)
}

fn native() -> BigUint {
    hex(BN256_R)
}

fn rns() -> Rc<Rns<4, 68>> {
    Rc::new(Rns::<4, 68>::construct(big(&wrong()), big(&native())))
}

fn compose_num(limbs: &[Big]) -> BigUint {
    limbs.iter().rev().fold(BigUint::zero(), |acc, l| (acc << BIT_LEN) + num(l))
}

fn integer(x: &BigUint) -> Int {
    Integer::from_big(big(x), rns())
}

fn pow2(k: usize) -> BigUint {
    BigUint::one() << k
}

#[test]
fn big_round_trips_through_bytes() {
    let x = hex("123456789abcdef0fedcba9876543210");
    assert_eq!(num(&big(&x)), x);
    assert_eq!(num(&Big::from_u64(77)), BigUint::from(77u32));
    assert_eq!(num(&Big::zero()), BigUint::zero());
    assert_eq!(num(&Big::one()), BigUint::one());
    assert_eq!(num(&Big::from_bool(true)), BigUint::one());
    assert_eq!(num(&Big::from_bool(false)), BigUint::zero());
}

#[test]
fn big_bytes_are_minimal() {
    assert_eq!(Big::zero().to_bytes_le(), vec![0u8]);
    assert_eq!(Big::from_u64(0x0102).to_bytes_le(), vec![2u8, 1u8]);
    assert_eq!(Big::from_bytes_le(&[5u8, 0, 0, 0, 0, 0]).to_bytes_le(), vec![5u8]);
}

#[test]
fn field_operations_reduce_by_the_modulus() {
    let n = Big::from_u64(97);
    let a = Big::from_u64(90);
    let b = Big::from_u64(20);
    assert_eq!(num(&fe_add(&a, &b, &n)), BigUint::from(13u32));
    assert_eq!(num(&fe_mul(&a, &b, &n)), BigUint::from(1800u32 % 97));
    assert_eq!(num(&fe_sub(&b, &a, &n)), BigUint::from(27u32));
    assert_eq!(num(&big_to_fe(&Big::from_u64(1000), &n)), BigUint::from(1000u32 % 97));
}

#[test]
fn compose_and_decompose_are_inverse() {
    let x = hex("0123456789abcdef0123456789abcdef0123456789abcdef");
    let n = big(&native());
    let limbs = decompose_big(&big(&x), &n, 4, BIT_LEN);
    assert_eq!(limbs.len(), 4);
    let mask = pow2(BIT_LEN) - 1u32;
    for (i, l) in limbs.iter().enumerate() {
        assert_eq!(num(l), (&x >> (i * BIT_LEN)) & &mask);
    }
    assert_eq!(num(&compose(&limbs, BIT_LEN)), x);
    // bits above the four limbs are dropped
    let y = &x + (BigUint::one() << 300);
    assert_eq!(num(&compose(&decompose_big(&big(&y), &n, 4, BIT_LEN), BIT_LEN)), x);
}

#[test]
fn construct_secp256k1_over_bn256() {
    let rns = rns();
    let w = wrong();
    let n = native();
    assert_eq!(num(&rns.wrong_modulus), w);
    assert_eq!(num(&rns.native_modulus), n);
    assert_eq!(num(&rns.binary_modulus), pow2(272));
    assert_eq!(num(&rns.crt_modulus), pow2(272) * &n);
    assert_eq!(rns.bit_len_lookup, 68 / NUMBER_OF_LOOKUP_LIMBS);
    assert_eq!(rns.bit_len_wrong_modulus, 256);
    assert_eq!(rns.bit_len_last_limb, 256 % 68);
    assert_eq!(num(&rns.max_remainder), pow2(256) - 1u32);
    assert_eq!(num(&rns.max_reduced_limb), pow2(68) - 1u32);
    assert_eq!(num(&rns.max_unreduced_limb), pow2(102) - 1u32);
    assert_eq!(num(&rns.max_most_significant_unreduced_limb), pow2(102) - 1u32);
    assert_eq!(num(&rns.max_most_significant_reduced_limb), (pow2(256) - 1u32) >> 204);
    assert_eq!(num(&rns.two_limb_mask), pow2(136) - 1u32);
    assert_eq!(num(&rns.wrong_modulus_in_native_modulus), &w % &n);
    assert_eq!(compose_num(&rns.wrong_modulus_decomposed), w);
    assert_eq!(compose_num(&rns.wrong_modulus_minus_one), &w - 1u32);
    assert_eq!(compose_num(&rns.negative_wrong_modulus_decomposed), pow2(272) - &w);
    assert_eq!(num(&rns.left_shifter_r), pow2(68));
    assert_eq!(num(&rns.left_shifter_2r), pow2(136));
    assert_eq!(num(&rns.left_shifter_3r), pow2(204));
    assert_eq!((num(&rns.right_shifter_r) * pow2(68)) % &n, BigUint::one());
    assert_eq!((num(&rns.right_shifter_2r) * pow2(136)) % &n, BigUint::one());
    assert_eq!(
        num(&rns.max_with_max_unreduced_limbs),
        (0..4).fold(BigUint::zero(), |acc, _| (acc << 68) + (pow2(102) - 1u32))
    );
    assert_eq!(
        num(&rns.max_dense_value),
        (0..4).fold(BigUint::zero(), |acc, _| (acc << 68) + (pow2(68) - 1u32))
    );
    assert_eq!(num(&rns.max_reducible_value), (pow2(68) - 1u32) * &w + (pow2(256) - 1u32));
    let mmq = num(&rns.max_mul_quotient);
    let mo = num(&rns.max_operand);
    assert!(mmq > w && mo > w);
    assert!(num(&rns.crt_modulus) > &mo * &mo);
    assert!(&mmq * &w + (pow2(256) - 1u32) > &mo * &mo);
    assert!(rns.mul_v0_bit_len >= 68 && rns.mul_v1_bit_len >= 68);
    assert!(rns.red_v0_bit_len >= 68 && rns.red_v1_bit_len >= 68);
}

#[test]
fn base_aux_is_twice_the_wrong_modulus() {
    let rns = rns();
    let value = compose_num(&rns.base_aux);
    assert_eq!(value, wrong() * 2u32);
    for (i, aux) in rns.base_aux.iter().enumerate() {
        let target = if i == 3 {
            num(&rns.max_most_significant_reduced_limb)
        } else {
            num(&rns.max_reduced_limb)
        };
        assert!(num(aux) >= target);
    }
    let direct = Rns::<4, 68>::calculate_base_aux(&big(&wrong()), &big(&native()));
    assert_eq!(compose_num(&direct), wrong() * 2u32);
}

#[test]
fn construct_pallas_over_bn256() {
    let rns = Rns::<4, 68>::construct(big(&hex(PALLAS_P)), big(&native()));
    assert_eq!(compose_num(&rns.base_aux), hex(PALLAS_P) * 2u32);
    assert_eq!(rns.bit_len_wrong_modulus, 255);
}

#[test]
fn try_construct_refuses_bad_moduli() {
    // the wrong modulus must stay below the binary modulus
    assert!(Rns::<4, 68>::try_construct(big(&pow2(272)), big(&native())).is_none());
    // two has no inverse in a field of even modulus
    assert!(Rns::<4, 68>::try_construct(big(&wrong()), big(&(native() + 1u32))).is_none());
    // a zero wrong modulus
    assert!(Rns::<4, 68>::try_construct(Big::zero(), big(&native())).is_none());
    // limbs that do not split into lookup limbs
    assert!(Rns::<4, 66>::try_construct(big(&wrong()), big(&native())).is_none());
    assert!(Rns::<4, 68>::try_construct(big(&wrong()), big(&native())).is_some());
}

#[test]
fn overflow_lengths_are_remainders_by_the_lookup_length() {
    let rns = rns();
    let lengths = rns.overflow_lengths();
    let k = rns.bit_len_lookup;
    assert_eq!(lengths.len(), 7);
    assert_eq!(lengths[0], rns.mul_v0_bit_len % k);
    assert_eq!(lengths[1], rns.mul_v1_bit_len % k);
    assert_eq!(lengths[2], rns.red_v0_bit_len % k);
    assert_eq!(lengths[3], rns.red_v1_bit_len % k);
    assert_eq!(lengths[4], num(&rns.max_most_significant_mul_quotient_limb).bits() as usize % k);
    assert_eq!(lengths[5], num(&rns.max_most_significant_operand_limb).bits() as usize % k);
    assert_eq!(lengths[6], num(&rns.max_most_significant_reduced_limb).bits() as usize % k);
}

#[test]
fn integer_value_of_from_big() {
    let x = hex("fedcba98765432100123456789abcdeffedcba98765432100123456789abcdef");
    let a = integer(&x);
    assert_eq!(num(&a.value()), x);
    assert_eq!(a.limbs().len(), 4);
    assert_eq!(num(&a.limb(0).fe()), &x & (pow2(68) - 1u32));
    assert_eq!(num(&a.native(&big(&native()))), &x % native());
    let b = Integer::from_fe(big(&x), rns());
    assert!(a.eq(&b));
    let c = Integer::from_bytes_le(&x.to_bytes_le(), rns());
    assert_eq!(num(&c.value()), x);
    let d = Integer::<4, 68>::from_limbs(&a.limbs(), rns());
    assert_eq!(num(&d.value()), x);
    let e = Integer::<4, 68>::new(vec![Limb::new(Big::one()), Limb::default(), Limb::default(), Limb::default()], rns());
    assert_eq!(num(&e.value()), BigUint::one());
    assert!(!e.eq(&a));
}

#[test]
fn limb_operations() {
    let n = big(&native());
    let l = Limb::from_big(big(&(native() + 5u32)), &n);
    assert_eq!(num(&l.fe()), BigUint::from(5u32));
    assert_eq!(num(&l.value()), BigUint::from(5u32));
    assert_eq!(num(&Limb::default().fe()), BigUint::zero());
    assert!(Limb::new(Big::from_u64(5)).eq(&l));
}

#[test]
fn scale_multiplies_every_limb() {
    let x = hex("0123456789abcdef0123456789abcdef");
    let mut a = integer(&x);
    let before = a.limbs();
    a.scale(&Big::from_u64(3));
    let after = a.limbs();
    for i in 0..4 {
        assert_eq!(num(&after[i]), (num(&before[i]) * 3u32) % native());
    }
    assert_eq!(num(&a.value()) % native(), (&x * 3u32) % native());
}

#[test]
fn mul_witness_is_exact() {
    let w = wrong();
    let x = &w - 12345u32;
    let y = hex("deadbeef0000000000000000000000000000000000000000000000000badc0de");
    let a = integer(&x);
    let b = integer(&y);
    let witness = a.mul(&b);
    let result = num(&witness.result.value());
    let quotient = match &witness.quotient {
        Quotient::Long(q) => num(&q.value()),
        Quotient::Short(_) => panic!("a long quotient is expected"),
    };
    assert_eq!(result, (&x * &y) % &w);
    assert_eq!(quotient, (&x * &y) / &w);
    assert_eq!(&result + &quotient * &w, &x * &y);
    assert_eq!(witness.t.len(), 4);
    let mask = pow2(136) - 1u32;
    assert_eq!(num(&witness.u_0) & &mask, BigUint::zero());
    let squared = a.square();
    assert_eq!(num(&squared.result.value()), (&x * &x) % &w);
}

#[test]
fn reduce_witness_is_exact() {
    let w = wrong();
    let limb = pow2(90) + 7u32;
    let limbs = vec![big(&limb), big(&limb), big(&limb), big(&limb)];
    let a = Integer::<4, 68>::from_limbs(&limbs, rns());
    let value = num(&a.value());
    let witness = a.reduce();
    let quotient = match &witness.quotient {
        Quotient::Short(q) => num(q),
        Quotient::Long(_) => panic!("a short quotient is expected"),
    };
    assert_eq!(num(&witness.result.value()), &value % &w);
    assert_eq!(quotient, &value / &w);
    assert!(quotient < pow2(68));
    let rns = rns();
    for i in 0..4 {
        let expected = (num(&limbs[i]) + num(&rns.negative_wrong_modulus_decomposed[i]) * &quotient) % native();
        assert_eq!(num(&witness.t[i]), expected);
    }
    let checked = a.checked_reduce();
    assert!(checked.is_some());
}

#[test]
fn checked_reduce_refuses_a_long_quotient() {
    let big_limb = pow2(200);
    let limbs = vec![big(&big_limb), big(&big_limb), big(&big_limb), big(&big_limb)];
    let a = Integer::<4, 68>::from_limbs(&limbs, rns());
    assert!(a.checked_reduce().is_none());
}

#[test]
fn compare_to_modulus_borrows_above_the_modulus() {
    let w = wrong();
    let below = integer(&(&w - 5u32));
    let result = below.compare_to_modulus();
    assert!(!result.borrow[3]);
    assert_eq!(num(&result.result.value()), BigUint::from(4u32));

    let at = integer(&w);
    let result = at.compare_to_modulus();
    assert!(result.borrow[3]);
    assert_eq!(num(&result.result.value()) + &w, &w - 1u32 + pow2(272));
}

#[test]
fn invert_and_div_in_the_wrong_field() {
    let w = wrong();
    let x = hex("1234567890abcdef");
    let a = integer(&x);
    let inv = a.invert().unwrap();
    assert_eq!((num(&inv.value()) * &x) % &w, BigUint::one());
    assert!(integer(&BigUint::zero()).invert().is_none());
    assert!(integer(&w).invert().is_none());

    let y = hex("fedcba0987654321fedcba0987654321");
    let b = integer(&y);
    let q = b.div(&a).unwrap();
    assert_eq!((num(&q.value()) * &x) % &w, &y % &w);
    assert!(b.div(&integer(&BigUint::zero())).is_none());
}

#[test]
fn subtraction_aux_covers_the_bounds() {
    let rns = rns();
    let max_vals = vec![big(&pow2(80)), big(&pow2(10)), big(&pow2(70)), big(&pow2(3))];
    let aux = Int::subtracion_aux(max_vals.clone(), rns.clone());
    let limbs = aux.limbs();
    let mut shift = 0;
    for i in 0..4 {
        let mut a = num(&rns.base_aux[i]);
        let mut s = 0;
        while num(&max_vals[i]) > a {
            a <<= 1;
            s += 1;
        }
        shift = shift.max(s);
    }
    for i in 0..4 {
        let expected = (num(&rns.base_aux[i]) << shift) % native();
        assert_eq!(num(&limbs[i]), expected);
        assert!(num(&limbs[i]) >= num(&max_vals[i]));
    }
    assert_eq!(num(&aux.value()) % wrong(), BigUint::zero());
}

#[test]
fn maybe_reduced_gives_back_the_witness() {
    let a = integer(&hex("abcdef"));
    let b = integer(&hex("123456"));
    let product = MaybeReduced(Some(a.mul(&b)));
    let long = product.long().unwrap();
    assert_eq!(num(&long.value()), BigUint::zero());
    assert_eq!(num(&product.result().unwrap().value()), hex("abcdef") * hex("123456"));
    let (u_0, u_1, v_0, v_1) = product.residues();
    assert!(u_0.is_some() && u_1.is_some() && v_0.is_some() && v_1.is_some());
    let (t_0, t_1, t_2, t_3) = product.intermediate_values();
    assert!(t_0.is_some() && t_1.is_some() && t_2.is_some() && t_3.is_some());

    let limb = pow2(90);
    let c = Integer::<4, 68>::from_limbs(&vec![big(&limb), big(&limb), big(&limb), big(&limb)], rns());
    let reduced = MaybeReduced(Some(c.reduce()));
    let short = reduced.short().unwrap();
    assert_eq!(num(&short), num(&c.value()) / wrong());

    let nothing: MaybeReduced<4, 68> = MaybeReduced(None);
    assert!(nothing.result().is_none());
    assert!(nothing.long().is_none());
    assert!(nothing.short().is_none());
    let (u_0, _, _, _) = nothing.residues();
    assert!(u_0.is_none());
}

#[test]
fn quotient_of_a_large_product() {
    let w = wrong();
    let x = &w - 1u32;
    let a = integer(&x);
    let witness = a.mul(&a);
    let (q, r) = (&x * &x).div_rem(&w);
    assert_eq!(num(&witness.result.value()), r);
    match &witness.quotient {
        Quotient::Long(quotient) => assert_eq!(num(&quotient.value()), q),
        Quotient::Short(_) => panic!("a long quotient is expected"),
    }
}

#[test]
fn subtraction_shift_is_the_least_that_covers() {
    let rns = rns();
    let max_vals = vec![big(&pow2(75)), big(&pow2(2)), big(&pow2(1)), big(&pow2(1))];
    let aux = Int::subtracion_aux(max_vals.clone(), rns.clone());
    let limbs = aux.limbs();
    let shift = (0..200)
        .find(|s| (num(&rns.base_aux[0]) << s) % native() == num(&limbs[0]))
        .unwrap();
    assert!(shift > 0);
    let covered_with_one_less = (0..4).all(|i| (num(&rns.base_aux[i]) << (shift - 1)) >= num(&max_vals[i]));
    assert!(!covered_with_one_less);
}

#[test]
fn compare_identity_holds_for_any_reduced_integer() {
    let w = wrong();
    for x in [BigUint::zero(), BigUint::one(), &w - 1u32, &w + 1u32, pow2(271) + 12345u32, pow2(256) - 1u32] {
        let a = integer(&x);
        let result = a.compare_to_modulus();
        let borrow = result.borrow[3];
        let lhs = &x + num(&result.result.value());
        let rhs = &w - 1u32 + if borrow { pow2(272) } else { BigUint::zero() };
        assert_eq!(lhs, rhs);
        assert_eq!(borrow, x > &w - 1u32);
    }
}

#[test]
fn residues_of_a_multiplication_are_multiples_of_two_limbs() {
    let rns = rns();
    let n = native();
    let mask = pow2(136) - 1u32;
    let a = integer(&(wrong() - 3u32));
    let b = integer(&hex("c0ffee0123456789c0ffee0123456789c0ffee0123456789"));
    let witness = a.mul(&b);
    let u_0 = num(&witness.u_0);
    let u_1 = num(&witness.u_1);
    assert_eq!(&u_0 & &mask, BigUint::zero());
    let carried = (&u_0 * num(&rns.right_shifter_2r) + &u_1) % &n;
    assert_eq!(&carried & &mask, BigUint::zero());
    assert_eq!(num(&witness.v_0), (&u_0 * num(&rns.right_shifter_2r)) % &n);
    assert_eq!(num(&witness.v_1), ((&u_1 + num(&witness.v_0)) * num(&rns.right_shifter_2r)) % &n);
    let (r_0, r_1, _, _) = witness.result.checked_residues(witness.t.clone()).unwrap();
    assert_eq!(num(&r_0), u_0);
    assert_eq!(num(&r_1), u_1);
    let wrong_t = vec![Big::one(), Big::zero(), Big::zero(), Big::zero()];
    assert!(witness.result.checked_residues(wrong_t).is_none());
}

#[test]
fn maybe_reduced_from_an_option() {
    let a = integer(&hex("1234"));
    let reduced: MaybeReduced<4, 68> = MaybeReduced::from(Some(a.reduce()));
    assert_eq!(num(&reduced.short().unwrap()), BigUint::zero());
    assert_eq!(num(&reduced.result().unwrap().value()), hex("1234"));
}

fn long_quotient(q: &Quotient<4, 68>) -> BigUint {
    match q {
        Quotient::Long(q) => num(&q.value()),
        Quotient::Short(_) => panic!("a long quotient is expected"),
    }
}

fn nums(v: &[Big]) -> Vec<BigUint> {
    v.iter().map(num).collect()
}

#[test]
fn multiplication_commutes() {
    let a = integer(&(wrong() - 77u32));
    let b = integer(&hex("0badc0ffee0badc0ffee0badc0ffee0badc0ffee0badc0ffee"));
    let x = a.mul(&b);
    let y = b.mul(&a);
    assert_eq!(nums(&x.result.limbs()), nums(&y.result.limbs()));
    assert_eq!(long_quotient(&x.quotient), long_quotient(&y.quotient));
    assert_eq!(nums(&x.t), nums(&y.t));
    assert_eq!(
        (num(&x.u_0), num(&x.u_1), num(&x.v_0), num(&x.v_1)),
        (num(&y.u_0), num(&y.u_1), num(&y.v_0), num(&y.v_1))
    );
}

#[test]
fn square_is_multiplication_by_itself() {
    let x = wrong() - 1234567u32;
    let a = integer(&x);
    let s = a.square();
    let m = a.mul(&a);
    assert_eq!(nums(&s.result.limbs()), nums(&m.result.limbs()));
    assert_eq!(long_quotient(&s.quotient), long_quotient(&m.quotient));
    assert_eq!(nums(&s.t), nums(&m.t));
    assert_eq!(num(&s.u_1), num(&m.u_1));
    assert_eq!(num(&s.v_1), num(&m.v_1));
    assert_eq!(num(&s.result.value()), (&x * &x) % wrong());
}

#[test]
fn reducing_a_reduced_result_changes_nothing() {
    let limb = pow2(95) + 3u32;
    let a = Integer::<4, 68>::from_limbs(&vec![big(&limb), big(&limb), big(&limb), big(&limb)], rns());
    let r = a.reduce();
    let s = r.result.reduce();
    assert_eq!(num(&s.result.value()), num(&r.result.value()));
    match &s.quotient {
        Quotient::Short(q) => assert_eq!(num(q), BigUint::zero()),
        Quotient::Long(_) => panic!("a short quotient is expected"),
    }
    assert_eq!(nums(&s.t), nums(&r.result.limbs()));
    assert_eq!(num(&s.u_0), BigUint::zero());
    assert_eq!(num(&s.u_1), BigUint::zero());
    assert_eq!(num(&s.v_0), BigUint::zero());
    assert_eq!(num(&s.v_1), BigUint::zero());
}

#[test]
fn inverting_twice_gives_back_the_value() {
    let w = wrong();
    let x = &w + hex("abcdef0123456789");
    let a = integer(&(&x % &w));
    let y = a.invert().unwrap();
    let z = y.invert().unwrap();
    assert_eq!(num(&z.value()), &x % &w);
}

#[test]
fn from_fe_keeps_an_element_of_the_wrong_field() {
    let w = wrong();
    for e in [BigUint::zero(), BigUint::one(), &w - 1u32, hex("123456789abcdef0123456789abcdef")] {
        let a = Int::from_fe(big(&e), rns());
        assert_eq!(num(&a.value()), e);
        assert!(num(&a.value()) < w);
    }
}

#[test]
fn native_value_is_the_limbs_weighted_by_the_shifters() {
    let rns = rns();
    let n = native();
    let x = hex("fedcba98765432100123456789abcdeffedcba98765432100123456789abcdef");
    let a = integer(&x);
    let l = nums(&a.limbs());
    let combined = (&l[0]
        + &l[1] * num(&rns.left_shifter_r)
        + &l[2] * num(&rns.left_shifter_2r)
        + &l[3] * num(&rns.left_shifter_3r))
        % &n;
    assert_eq!(num(&a.native(&rns.native_modulus)), combined);
    let limb = a.limb(2);
    assert_eq!(num(&limb.native(&rns.native_modulus)), num(&limb.fe()));
}

#[test]
fn values_convert_to_numbers() {
    let x = hex("fedcba98765432100123456789abcdef");
    let a = integer(&x);
    assert_eq!(num(&Big::from(a.limb(0))), &x & (pow2(68) - 1u32));
    assert_eq!(num(&Big::from(a)), x);
}

#[test]
fn limbs_from_hexadecimal_numerals() {
    let n = big(&native());
    assert_eq!(num(&Limb::from_hex("ff", &n).unwrap().fe()), BigUint::from(255u32));
    assert_eq!(num(&Limb::from_hex("+1_0", &n).unwrap().fe()), BigUint::from(16u32));
    assert_eq!(num(&Limb::from_hex("ABCdef", &n).unwrap().fe()), BigUint::from(0xabcdefu32));
    let wrapped = Limb::from_hex(&format!("{:x}", native() + 9u32), &n).unwrap();
    assert_eq!(num(&wrapped.fe()), BigUint::from(9u32));
    assert!(Limb::from_hex("", &n).is_none());
    assert!(Limb::from_hex("+", &n).is_none());
    assert!(Limb::from_hex("++1", &n).is_none());
    assert!(Limb::from_hex("_1", &n).is_none());
    assert!(Limb::from_hex("1g", &n).is_none());
}
