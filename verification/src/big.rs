//! Arbitrary-precision natural numbers.
//!
//! A `Big` holds its value as little-endian base-2^32 digits; every
//! arithmetic operation is carried out by `num_bigint::BigUint`.
use num_bigint::BigUint;
use num_integer::Integer;
use num_traits::Num;
use vstd::arithmetic::power::pow;
use vstd::arithmetic::power2::pow2;
use vstd::prelude::*;

verus! {

/// A natural number of any size.
#[derive(Debug)]
pub struct Big {
    digits: Vec<u32>,
}

/// The value of little-endian base-2^32 digits.
pub open spec fn digits_value(d: Seq<u32>) -> nat
    decreases d.len(),
{
    if d.len() == 0 {
        0
    } else {
        (d[0] as nat) + pow2(32) * digits_value(d.drop_first())
    }
}

/// The value of little-endian bytes.
pub open spec fn bytes_le_value(b: Seq<u8>) -> nat
    decreases b.len(),
{
    if b.len() == 0 {
        0
    } else {
        (b[0] as nat) + 256 * bytes_le_value(b.drop_first())
    }
}

/// The fewest bits that express `v` (zero for zero).
pub open spec fn nbits(v: nat) -> nat
    decreases v,
{
    if v == 0 {
        0
    } else {
        1 + nbits(v / 2)
    }
}

/// Bitwise and of two naturals.
pub open spec fn bit_and(a: nat, b: nat) -> nat
    decreases a,
{
    if a == 0 || b == 0 {
        0
    } else {
        (a % 2) * (b % 2) + 2 * bit_and(a / 2, b / 2)
    }
}

/// The value of a hexadecimal digit, or `-1` for any other character.
pub open spec fn hex_digit_value(c: char) -> int {
    if '0' <= c && c <= '9' {
        (c as int) - ('0' as int)
    } else if 'a' <= c && c <= 'f' {
        (c as int) - ('a' as int) + 10
    } else if 'A' <= c && c <= 'F' {
        (c as int) - ('A' as int) + 10
    } else {
        -1
    }
}

/// The digits of a hexadecimal numeral: without one leading `+`, unless a
/// second `+` follows it.
pub open spec fn hex_body(s: Seq<char>) -> Seq<char> {
    if s.len() > 0 && s[0] == '+' && !(s.len() > 1 && s[1] == '+') {
        s.drop_first()
    } else {
        s
    }
}

/// Whether `s` is a hexadecimal numeral: after an optional `+`, at least one
/// character, the first not `_`, and every one a hexadecimal digit or `_`.
pub open spec fn hex_accepts(s: Seq<char>) -> bool {
    let t = hex_body(s);
    &&& t.len() > 0
    &&& t[0] != '_'
    &&& forall|i: int| 0 <= i < t.len() ==> #[trigger] t[i] == '_' || hex_digit_value(t[i]) >= 0
}

/// The value of hexadecimal digits, most significant first, skipping `_`.
pub open spec fn hex_value(t: Seq<char>) -> nat
    decreases t.len(),
{
    if t.len() == 0 {
        0
    } else if t.last() == '_' {
        hex_value(t.drop_last())
    } else {
        (16 * hex_value(t.drop_last()) + hex_digit_value(t.last())) as nat
    }
}

impl View for Big {
    type V = nat;

    closed spec fn view(&self) -> nat {
        digits_value(self.digits@)
    }
}

impl Clone for Big {
    fn clone(&self) -> (r: Self)
        ensures
            r@ == self@,
    {
        let mut digits: Vec<u32> = Vec::new();
        let mut i: usize = 0;
        while i < self.digits.len()
            invariant
                i <= self.digits@.len(),
                digits@ == self.digits@.subrange(0, i as int),
            decreases self.digits@.len() - i,
        {
            digits.push(self.digits[i]);
            i = i + 1;
        }
        assert(digits@ == self.digits@);
        Big { digits }
    }
}

impl Big {
    /// Zero.
    pub fn zero() -> (r: Big)
        ensures
            r@ == 0,
    {
        Big { digits: Vec::new() }
    }

    /// One.
    pub fn one() -> (r: Big)
        ensures
            r@ == 1,
    {
        let mut digits: Vec<u32> = Vec::new();
        digits.push(1);
        proof {
            assert(digits@.drop_first() =~= Seq::<u32>::empty());
            assert(digits@[0] == 1);
            assert(digits_value(digits@.drop_first()) == 0);
            assert(pow2(32) * digits_value(digits@.drop_first()) == 0);
            assert(digits_value(digits@) == 1);
        }
        Big { digits }
    }

    /// One for `true`, zero for `false`.
    pub fn from_bool(truth: bool) -> (r: Big)
        ensures
            r@ == (if truth { 1nat } else { 0nat }),
    {
        if truth {
            Big::one()
        } else {
            Big::zero()
        }
    }

    /// The number `x`.
    pub fn from_u64(x: u64) -> (r: Big)
        ensures
            r@ == x,
    {
        big_from_u64(x)
    }

    /// The number whose little-endian bytes are `bytes`.
    pub fn from_bytes_le(bytes: &[u8]) -> (r: Big)
        ensures
            r@ == bytes_le_value(bytes@),
    {
        big_from_bytes_le(bytes)
    }

    /// The little-endian bytes of the number, with no trailing zero byte; zero
    /// gives the single byte `0`.
    pub fn to_bytes_le(&self) -> (r: Vec<u8>)
        ensures
            bytes_le_value(r@) == self@,
            self@ == 0 ==> r@ == seq![0u8],
            self@ > 0 ==> r@.len() > 0 && r@.last() != 0,
    {
        big_to_bytes_le(self)
    }
}

/// The number a hexadecimal numeral writes, or `None` when `s` is not one;
/// `BigUint::from_str_radix` with radix 16, which accepts an optional `+`
/// and `_` between digits.
#[verifier::external_body]
pub(crate) fn big_from_hex(s: &str) -> (r: Option<Big>)
    ensures
        r is Some <==> hex_accepts(s@),
        r matches Some(x) ==> x@ == hex_value(hex_body(s@)),
{
    match BigUint::from_str_radix(s, 16) {
        Ok(x) => Some(Big { digits: x.to_u32_digits() }),
        Err(_) => None,
    }
}

/// The number `x`; `BigUint::from(u64)`.
#[verifier::external_body]
pub(crate) fn big_from_u64(x: u64) -> (r: Big)
    ensures
        r@ == x,
{
    Big { digits: BigUint::from(x).to_u32_digits() }
}

/// The number whose little-endian bytes are `bytes`; `BigUint::from_bytes_le`.
#[verifier::external_body]
pub(crate) fn big_from_bytes_le(bytes: &[u8]) -> (r: Big)
    ensures
        r@ == bytes_le_value(bytes@),
{
    Big { digits: BigUint::from_bytes_le(bytes).to_u32_digits() }
}

/// The little-endian bytes of `a`, without trailing zero bytes, and `[0]` for
/// zero; `BigUint::to_bytes_le`.
#[verifier::external_body]
pub(crate) fn big_to_bytes_le(a: &Big) -> (r: Vec<u8>)
    ensures
        bytes_le_value(r@) == a@,
        a@ == 0 ==> r@ == seq![0u8],
        a@ > 0 ==> r@.len() > 0 && r@.last() != 0,
{
    BigUint::from_slice(&a.digits).to_bytes_le()
}

/// `a + b`; `Add` of `BigUint`.
#[verifier::external_body]
pub(crate) fn big_add(a: &Big, b: &Big) -> (r: Big)
    ensures
        r@ == a@ + b@,
{
    Big { digits: (BigUint::from_slice(&a.digits) + BigUint::from_slice(&b.digits)).to_u32_digits() }
}

/// `a - b`; `Sub` of `BigUint`, which panics when `b > a`.
#[verifier::external_body]
pub(crate) fn big_sub(a: &Big, b: &Big) -> (r: Big)
    requires
        a@ >= b@,
    ensures
        r@ == a@ - b@,
{
    Big { digits: (BigUint::from_slice(&a.digits) - BigUint::from_slice(&b.digits)).to_u32_digits() }
}

/// `a * b`; `Mul` of `BigUint`.
#[verifier::external_body]
pub(crate) fn big_mul(a: &Big, b: &Big) -> (r: Big)
    ensures
        r@ == a@ * b@,
{
    Big { digits: (BigUint::from_slice(&a.digits) * BigUint::from_slice(&b.digits)).to_u32_digits() }
}

/// Quotient and remainder; `num_integer::Integer::div_rem` of `BigUint`, which
/// panics on a zero divisor.
#[verifier::external_body]
pub(crate) fn big_div_rem(a: &Big, b: &Big) -> (r: (Big, Big))
    requires
        b@ > 0,
    ensures
        r.0@ == a@ / b@,
        r.1@ == a@ % b@,
{
    let (q, m) = BigUint::from_slice(&a.digits).div_rem(&BigUint::from_slice(&b.digits));
    (Big { digits: q.to_u32_digits() }, Big { digits: m.to_u32_digits() })
}

/// `a << k`, that is `a * 2^k`; `Shl<usize>` of `BigUint`.
#[verifier::external_body]
pub(crate) fn big_shl(a: &Big, k: usize) -> (r: Big)
    ensures
        r@ == a@ * pow2(k as nat),
{
    Big { digits: (BigUint::from_slice(&a.digits) << k).to_u32_digits() }
}

/// `a << k`, that is `a * 2^k`; `Shl<u64>` of `BigUint`.
#[verifier::external_body]
pub(crate) fn big_shl_u64(a: &Big, k: u64) -> (r: Big)
    ensures
        r@ == a@ * pow2(k as nat),
{
    Big { digits: (BigUint::from_slice(&a.digits) << k).to_u32_digits() }
}

/// `a >> k`, that is `a / 2^k`; `Shr<usize>` of `BigUint`.
#[verifier::external_body]
pub(crate) fn big_shr(a: &Big, k: usize) -> (r: Big)
    ensures
        r@ == a@ / pow2(k as nat),
{
    Big { digits: (BigUint::from_slice(&a.digits) >> k).to_u32_digits() }
}

/// `a & b`; `BitAnd` of `BigUint`.
#[verifier::external_body]
pub(crate) fn big_and(a: &Big, b: &Big) -> (r: Big)
    ensures
        r@ == bit_and(a@, b@),
{
    Big { digits: (BigUint::from_slice(&a.digits) & BigUint::from_slice(&b.digits)).to_u32_digits() }
}

/// The fewest bits that express `a`; `BigUint::bits`.
#[verifier::external_body]
pub(crate) fn big_bits(a: &Big) -> (r: u64)
    ensures
        r == nbits(a@),
{
    BigUint::from_slice(&a.digits).bits()
}

/// `a < b`; `PartialOrd::lt` of `BigUint`.
#[verifier::external_body]
pub(crate) fn big_lt(a: &Big, b: &Big) -> (r: bool)
    ensures
        r == (a@ < b@),
{
    BigUint::from_slice(&a.digits) < BigUint::from_slice(&b.digits)
}

/// `a^e mod m`; `BigUint::modpow`, which panics on a zero modulus.
#[verifier::external_body]
pub(crate) fn big_modpow(a: &Big, e: &Big, m: &Big) -> (r: Big)
    requires
        m@ > 0,
    ensures
        r@ == pow(a@ as int, e@) % (m@ as int),
{
    let x = BigUint::from_slice(&a.digits).modpow(&BigUint::from_slice(&e.digits), &BigUint::from_slice(&m.digits));
    Big { digits: x.to_u32_digits() }
}

/// The inverse of `a` modulo `m` when there is one; `BigUint::modinv`, which
/// panics on a zero modulus.
#[verifier::external_body]
pub(crate) fn big_modinv(a: &Big, m: &Big) -> (r: Option<Big>)
    requires
        m@ > 0,
    ensures
        r matches Some(x) ==> x@ < m@ && (a@ * x@) % m@ == 1nat % m@,
        r is None ==> forall|x: nat| #[trigger] ((a@ * x) % m@) != 1nat % m@,
{
    match BigUint::from_slice(&a.digits).modinv(&BigUint::from_slice(&m.digits)) {
        Some(x) => Some(Big { digits: x.to_u32_digits() }),
        None => None,
    }
}

} // verus!
