//! Arithmetic in the ring of integers modulo `p`, as mathematics: the
//! meaning of the field operations, congruence, greatest common divisors
//! and the existence of inverses.

use vstd::arithmetic::div_mod::{
    lemma_add_mod_noop, lemma_fundamental_div_mod, lemma_mod_multiples_basic,
    lemma_mod_multiples_vanish, lemma_mul_mod_noop, lemma_small_mod, lemma_sub_mod_noop,
};
use vstd::prelude::*;

verus! {

/// `(a + b) mod p`.
pub open spec fn mod_add(p: int, a: int, b: int) -> int {
    (a + b) % p
}

/// `(a - b) mod p`, never negative.
pub open spec fn mod_sub(p: int, a: int, b: int) -> int {
    (a - b) % p
}

/// `(a * b) mod p`.
pub open spec fn mod_mul(p: int, a: int, b: int) -> int {
    (a * b) % p
}

/// `r` is the inverse of `a` modulo `p`, in reduced form.
pub open spec fn is_inverse(p: int, a: int, r: int) -> bool {
    0 <= r < p && (a * r) % p == 1
}

/// `a` has an inverse modulo `p`.
pub open spec fn invertible(p: int, a: int) -> bool {
    exists|r: int| is_inverse(p, a, r)
}

/// The inverse of `a` modulo `p`, where there is one.
pub open spec fn mod_inverse(p: int, a: int) -> int {
    choose|r: int| is_inverse(p, a, r)
}

/// `(a / b) mod p`: `a` times the inverse of `b`.
pub open spec fn mod_div(p: int, a: int, b: int) -> int {
    mod_mul(p, a, mod_inverse(p, b))
}

/// `p` is a prime number.
pub open spec fn is_prime(p: int) -> bool {
    p >= 2 && forall|d: int| 1 < d < p ==> #[trigger] (p % d) != 0
}

/// The greatest common divisor, by Euclid's recursion.
pub open spec fn gcd(a: nat, b: nat) -> nat
    decreases b,
{
    if b == 0 {
        a
    } else {
        gcd(b, a % b)
    }
}

/// Sums of congruent numbers are congruent.
pub proof fn lemma_congruent_add(p: int, a: int, a2: int, b: int, b2: int)
    requires
        p > 0,
        a % p == a2 % p,
        b % p == b2 % p,
    ensures
        (a + b) % p == (a2 + b2) % p,
{
    lemma_add_mod_noop(a, b, p);
    lemma_add_mod_noop(a2, b2, p);
}

/// Differences of congruent numbers are congruent.
pub proof fn lemma_congruent_sub(p: int, a: int, a2: int, b: int, b2: int)
    requires
        p > 0,
        a % p == a2 % p,
        b % p == b2 % p,
    ensures
        (a - b) % p == (a2 - b2) % p,
{
    lemma_sub_mod_noop(a, b, p);
    lemma_sub_mod_noop(a2, b2, p);
}

/// Products of congruent numbers are congruent.
pub proof fn lemma_congruent_mul(p: int, a: int, a2: int, b: int, b2: int)
    requires
        p > 0,
        a % p == a2 % p,
        b % p == b2 % p,
    ensures
        (a * b) % p == (a2 * b2) % p,
{
    lemma_mul_mod_noop(a, b, p);
    lemma_mul_mod_noop(a2, b2, p);
}

/// A number and its residue are congruent.
pub proof fn lemma_congruent_residue(p: int, a: int)
    requires
        p > 0,
    ensures
        (a % p) % p == a % p,
        0 <= a % p < p,
{
    lemma_fundamental_div_mod(a, p);
    lemma_small_mod((a % p) as nat, p as nat);
}

/// The modular sum of numbers congruent to `a2` and `b2` is the residue of
/// `a2 + b2`.
pub proof fn lemma_mod_add_tracks(p: int, a: int, a2: int, b: int, b2: int)
    requires
        p > 0,
        a % p == a2 % p,
        b % p == b2 % p,
    ensures
        mod_add(p, a, b) == (a2 + b2) % p,
        mod_add(p, a, b) % p == (a2 + b2) % p,
{
    lemma_congruent_add(p, a, a2, b, b2);
    lemma_congruent_residue(p, a2 + b2);
}

/// The modular difference of numbers congruent to `a2` and `b2` is the
/// residue of `a2 - b2`.
pub proof fn lemma_mod_sub_tracks(p: int, a: int, a2: int, b: int, b2: int)
    requires
        p > 0,
        a % p == a2 % p,
        b % p == b2 % p,
    ensures
        mod_sub(p, a, b) == (a2 - b2) % p,
        mod_sub(p, a, b) % p == (a2 - b2) % p,
{
    lemma_congruent_sub(p, a, a2, b, b2);
    lemma_congruent_residue(p, a2 - b2);
}

/// The modular product of numbers congruent to `a2` and `b2` is the residue
/// of `a2 * b2`.
pub proof fn lemma_mod_mul_tracks(p: int, a: int, a2: int, b: int, b2: int)
    requires
        p > 0,
        a % p == a2 % p,
        b % p == b2 % p,
    ensures
        mod_mul(p, a, b) == (a2 * b2) % p,
        mod_mul(p, a, b) % p == (a2 * b2) % p,
{
    lemma_congruent_mul(p, a, a2, b, b2);
    lemma_congruent_residue(p, a2 * b2);
}

/// An inverse modulo `p` is unique.
pub proof fn lemma_inverse_unique(p: int, a: int, r1: int, r2: int)
    requires
        is_inverse(p, a, r1),
        is_inverse(p, a, r2),
    ensures
        r1 == r2,
{
    lemma_small_mod(r1 as nat, p as nat);
    lemma_small_mod(r2 as nat, p as nat);
    lemma_small_mod(1, p as nat);
    lemma_congruent_mul(p, r1, r1, a * r2, 1);
    lemma_congruent_mul(p, r2, r2, a * r1, 1);
    assert(r1 * (a * r2) == r2 * (a * r1)) by (nonlinear_arith);
}

/// Where `a` is invertible, `mod_inverse` is its inverse.
pub proof fn lemma_mod_inverse_is_inverse(p: int, a: int)
    requires
        invertible(p, a),
    ensures
        is_inverse(p, a, mod_inverse(p, a)),
{
}

/// A multiple of `p` has no inverse modulo `p`.
pub proof fn lemma_zero_not_invertible(p: int, a: int)
    requires
        p >= 2,
        a % p == 0,
    ensures
        !invertible(p, a),
{
    assert forall|r: int| !is_inverse(p, a, r) by {
        lemma_small_mod(0, p as nat);
        lemma_congruent_mul(p, a, 0, r, r);
        assert(0 * r == 0);
    }
}

/// A sum of multiples of `g` is a multiple of `g`.
pub proof fn lemma_multiples_combine(g: int, x: int, k: int, y: int)
    requires
        g > 0,
        x % g == 0,
        y % g == 0,
    ensures
        (x * k + y) % g == 0,
{
    lemma_fundamental_div_mod(x, g);
    lemma_fundamental_div_mod(y, g);
    let m = (x / g) * k + y / g;
    assert(x * k + y == m * g) by (nonlinear_arith)
        requires
            x == g * (x / g),
            y == g * (y / g),
            m == (x / g) * k + y / g,
    ;
    lemma_mod_multiples_basic(m, g);
}

/// The greatest common divisor of two numbers that are not both zero is
/// positive.
pub proof fn lemma_gcd_positive(a: nat, b: nat)
    requires
        a > 0 || b > 0,
    ensures
        gcd(a, b) > 0,
    decreases b,
{
    if b != 0 {
        lemma_gcd_positive(b, a % b);
    }
}

/// The greatest common divisor divides both numbers.
pub proof fn lemma_gcd_divides(a: nat, b: nat)
    requires
        a > 0 || b > 0,
    ensures
        gcd(a, b) > 0,
        a % gcd(a, b) == 0,
        b % gcd(a, b) == 0,
    decreases b,
{
    lemma_gcd_positive(a, b);
    let g = gcd(a, b) as int;
    if b == 0 {
        lemma_mod_multiples_basic(1, g);
        lemma_small_mod(0, g as nat);
    } else {
        lemma_gcd_divides(b, a % b);
        lemma_fundamental_div_mod(a as int, b as int);
        lemma_multiples_combine(g, b as int, a as int / b as int, a as int % b as int);
        assert(b as int * (a as int / b as int) + a as int % b as int == a as int);
    }
}

/// Bezout's identity: the greatest common divisor is an integer
/// combination of the two numbers.
pub proof fn lemma_bezout(a: nat, b: nat) -> (c: (int, int))
    ensures
        c.0 * a + c.1 * b == gcd(a, b),
    decreases b,
{
    if b == 0 {
        assert(1 * a + 0 * b == a);
        (1, 0)
    } else {
        let (x, y) = lemma_bezout(b, a % b);
        let q = a as int / b as int;
        let r = a as int % b as int;
        lemma_fundamental_div_mod(a as int, b as int);
        assert(y * a + (x - y * q) * b == x * b + y * r) by (nonlinear_arith)
            requires
                a as int == b as int * q + r,
        ;
        (y, x - y * q)
    }
}

/// A number coprime to `p` is invertible modulo `p`.
pub proof fn lemma_coprime_invertible(p: int, a: int)
    requires
        p >= 2,
        gcd(p as nat, (a % p) as nat) == 1,
    ensures
        invertible(p, a),
{
    lemma_congruent_residue(p, a);
    let ar = a % p;
    let (x, y) = lemma_bezout(p as nat, ar as nat);
    assert(x * p + y * ar == 1);
    let r = y % p;
    lemma_congruent_residue(p, y);
    // a * r is congruent to ar * y, which is 1 - x * p
    lemma_congruent_mul(p, a, ar, r, y);
    assert(ar * y == (-x) * p + 1) by (nonlinear_arith)
        requires
            x * p + y * ar == 1,
    ;
    lemma_mod_multiples_vanish(-x, 1, p);
    lemma_small_mod(1, p as nat);
    assert(is_inverse(p, a, r));
}

/// A number that is invertible modulo `p` is coprime to `p`.
pub proof fn lemma_invertible_coprime(p: int, a: int)
    requires
        p >= 2,
        invertible(p, a),
    ensures
        gcd(p as nat, (a % p) as nat) == 1,
{
    let r = mod_inverse(p, a);
    lemma_congruent_residue(p, a);
    let ar = a % p;
    let g = gcd(p as nat, ar as nat) as int;
    lemma_gcd_divides(p as nat, ar as nat);
    // (ar * r) % p == 1, so ar * r == p * k + 1
    lemma_congruent_mul(p, a, ar, r, r);
    let k = (ar * r) / p;
    lemma_fundamental_div_mod(ar * r, p);
    assert(ar * r == p * k + 1);
    // g divides ar * r and p * k, hence 1
    lemma_multiples_combine(g, ar, r, 0);
    lemma_small_mod(0, g as nat);
    lemma_multiples_combine(g, p, k, 0);
    assert((ar * r) % g == 0);
    assert((p * k) % g == 0);
    lemma_congruent_sub(g, ar * r, 0, p * k, 0);
    assert(1int % g == 0);
    if g > 1 {
        lemma_small_mod(1, g as nat);
    }
}

/// A number that a prime `p` does not divide is coprime to `p`.
pub proof fn lemma_prime_coprime(p: int, a: int)
    requires
        is_prime(p),
        a % p != 0,
    ensures
        gcd(p as nat, (a % p) as nat) == 1,
{
    lemma_congruent_residue(p, a);
    let ar = a % p;
    let g = gcd(p as nat, ar as nat) as int;
    lemma_gcd_divides(p as nat, ar as nat);
    if g > ar {
        lemma_small_mod(ar as nat, g as nat);
    }
    if g > 1 {
        assert(1 < g < p);
        assert(p % g != 0);
    }
}

/// Modulo a prime, exactly the multiples of the prime have no inverse.
pub proof fn lemma_prime_invertible(p: int, a: int)
    requires
        is_prime(p),
    ensures
        invertible(p, a) <==> a % p != 0,
{
    if a % p == 0 {
        lemma_zero_not_invertible(p, a);
    } else {
        lemma_prime_coprime(p, a);
        lemma_coprime_invertible(p, a);
    }
}

} // verus!
