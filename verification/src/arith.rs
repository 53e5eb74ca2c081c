//! Facts of modular arithmetic that the field operations rest on.
use vstd::arithmetic::div_mod::{
    lemma_add_mod_noop_right, lemma_fundamental_div_mod, lemma_mod_multiples_vanish,
    lemma_mul_mod_noop_left, lemma_mul_mod_noop_right, lemma_sub_mod_noop_right,
};
use vstd::prelude::*;

verus! {

/// Reducing the left operand of a difference first changes nothing modulo `m`.
pub proof fn lemma_mod_sub_left(x: int, y: int, m: int)
    requires
        0 < m,
    ensures
        ((x % m) - y) % m == (x - y) % m,
{
    lemma_fundamental_div_mod(x, m);
    lemma_mod_multiples_vanish(x / m, (x % m) - y, m);
    assert(m * (x / m) + ((x % m) - y) == x - y);
}

/// Reducing the left operand of a sum first changes nothing modulo `m`.
pub proof fn lemma_mod_add_left(x: int, y: int, m: int)
    requires
        0 < m,
    ensures
        ((x % m) + y) % m == (x + y) % m,
{
    lemma_fundamental_div_mod(x, m);
    lemma_mod_multiples_vanish(x / m, (x % m) + y, m);
    assert(m * (x / m) + ((x % m) + y) == x + y);
}

/// The field expression `a + s * b - c - s * d`, evaluated one operation at a
/// time, is the integer expression reduced once.
pub proof fn lemma_linear_combination(a: int, b: int, c: int, d: int, s: int, m: int)
    requires
        0 < m,
    ensures
        (((((a + (s * b) % m) % m) - c) % m) - (s * d) % m) % m == (a + s * b - c - s * d) % m,
{
    lemma_add_mod_noop_right(a, s * b, m);
    lemma_mod_sub_left(a + s * b, c, m);
    lemma_mod_sub_left(a + s * b - c, (s * d) % m, m);
    lemma_sub_mod_noop_right(a + s * b - c, s * d, m);
}

/// `((x % m) + y % m) % m` is `(x + y) % m`, and the same for products.
pub proof fn lemma_mod_ops(x: int, y: int, m: int)
    requires
        0 < m,
    ensures
        ((x % m) + y) % m == (x + y) % m,
        (x + (y % m)) % m == (x + y) % m,
        ((x % m) * y) % m == (x * y) % m,
        (x * (y % m)) % m == (x * y) % m,
{
    lemma_mod_add_left(x, y, m);
    lemma_add_mod_noop_right(x, y, m);
    lemma_mul_mod_noop_left(x, y, m);
    lemma_mul_mod_noop_right(x, y, m);
}


/// Whether `a` has an inverse modulo `m`.
pub open spec fn has_inverse(a: nat, m: nat) -> bool {
    exists|x: nat| #[trigger] ((a * x) % m) == 1nat % m
}

/// The inverse of `a` modulo `m`: the one below `m`.
pub open spec fn inverse_of(a: nat, m: nat) -> nat {
    choose|x: nat| x < m && #[trigger] ((a * x) % m) == 1nat % m
}

/// There is at most one inverse below the modulus.
pub proof fn lemma_inverse_unique(a: nat, x: nat, y: nat, m: nat)
    requires
        m > 0,
        x < m,
        y < m,
        (a * x) % m == 1nat % m,
        (a * y) % m == 1nat % m,
    ensures
        x == y,
{
    let (ai, xi, yi, mi) = (a as int, x as int, y as int, m as int);
    lemma_mul_mod_noop_right(xi, ai * yi, mi);
    lemma_mul_mod_noop_right(xi, 1, mi);
    lemma_mul_mod_noop_left(ai * xi, yi, mi);
    lemma_mul_mod_noop_left(1, yi, mi);
    assert(xi * (ai * yi) == (ai * xi) * yi) by (nonlinear_arith);
    vstd::arithmetic::div_mod::lemma_small_mod(x, m);
    vstd::arithmetic::div_mod::lemma_small_mod(y, m);
}

/// An inverse found below the modulus is the inverse.
pub proof fn lemma_is_inverse_of(a: nat, x: nat, m: nat)
    requires
        m > 0,
        x < m,
        (a * x) % m == 1nat % m,
    ensures
        has_inverse(a, m),
        inverse_of(a, m) == x,
{
    assert(x < m && ((a * x) % m) == 1nat % m);
    let y = inverse_of(a, m);
    lemma_inverse_unique(a, x, y, m);
}

} // verus!
