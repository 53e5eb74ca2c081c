//! Elements of a prime field, held as their canonical representatives.
use crate::big::{big_add, big_div_rem, big_mul, big_sub, Big};
use vstd::arithmetic::div_mod::lemma_mod_add_multiples_vanish;
use vstd::prelude::*;

verus! {

/// The field element of `e` in the field of modulus `modulus`.
pub fn big_to_fe(e: &Big, modulus: &Big) -> (r: Big)
    requires
        modulus@ > 0,
    ensures
        r@ == e@ % modulus@,
{
    let (_, r) = big_div_rem(e, modulus);
    r
}

/// Field addition.
pub fn fe_add(a: &Big, b: &Big, modulus: &Big) -> (r: Big)
    requires
        modulus@ > 0,
    ensures
        r@ == (a@ + b@) % modulus@,
{
    let s = big_add(a, b);
    big_to_fe(&s, modulus)
}

/// Field multiplication.
pub fn fe_mul(a: &Big, b: &Big, modulus: &Big) -> (r: Big)
    requires
        modulus@ > 0,
    ensures
        r@ == (a@ * b@) % modulus@,
{
    let p = big_mul(a, b);
    big_to_fe(&p, modulus)
}

/// Field subtraction.
pub fn fe_sub(a: &Big, b: &Big, modulus: &Big) -> (r: Big)
    requires
        modulus@ > 0,
        b@ <= modulus@,
    ensures
        r@ == ((a@ - b@) % (modulus@ as int)) as nat,
{
    let neg = big_sub(modulus, b);
    let s = big_add(a, &neg);
    proof {
        lemma_mod_add_multiples_vanish(a@ - b@, modulus@ as int);
    }
    big_to_fe(&s, modulus)
}

} // verus!
