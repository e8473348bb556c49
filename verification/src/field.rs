//! Arithmetic modulo a configured modulus.
//!
//! A [`Field`] is made from any modulus of at least two. Its operations are
//! those of the ring of integers modulo that number; where the modulus is
//! prime, as a curve's is, every number it does not divide has an inverse.

use crate::error::CurveError;
use crate::modular::{
    gcd, invertible, is_inverse, is_prime, lemma_congruent_mul, lemma_congruent_residue,
    lemma_congruent_sub, lemma_invertible_coprime, lemma_inverse_unique,
    lemma_mod_inverse_is_inverse, lemma_prime_invertible, mod_add, mod_div, mod_inverse, mod_mul,
    mod_sub,
};
use crate::natural::Natural;
use vstd::arithmetic::div_mod::{
    lemma_fundamental_div_mod, lemma_mod_multiples_vanish, lemma_mod_self_0, lemma_small_mod,
    lemma_sub_mod_noop,
};
use vstd::prelude::*;

verus! {

/// The integers modulo a fixed modulus.
#[derive(Debug)]
pub struct Field {
    modulus: Natural,
}

impl View for Field {
    type V = int;

    /// The modulus.
    closed spec fn view(&self) -> int {
        self.modulus@ as int
    }
}

impl Clone for Field {
    /// A copy of the field.
    fn clone(&self) -> (r: Field)
        ensures
            r@ == self@,
            r.wf() == self.wf(),
    {
        Field { modulus: self.modulus.clone() }
    }
}

/// One step of Euclid's algorithm keeps each remainder congruent to its
/// coefficient times `a`.
proof fn lemma_euclid_step(p: int, a: int, q: int, r0: int, r1: int, t0: int, t1: int, t2: int)
    requires
        p > 0,
        (t0 * a) % p == r0 % p,
        (t1 * a) % p == r1 % p,
        t2 == mod_sub(p, t0, mod_mul(p, q, t1)),
    ensures
        (t2 * a) % p == (r0 - q * r1) % p,
{
    let m = (q * t1) % p;
    lemma_congruent_residue(p, q * t1);
    lemma_congruent_sub(p, t0, t0, m, q * t1);
    lemma_congruent_residue(p, t0 - m);
    lemma_congruent_mul(p, t2, t0 - q * t1, a, a);
    assert((t0 - q * t1) * a == t0 * a - q * (t1 * a)) by (nonlinear_arith);
    lemma_congruent_mul(p, q, q, t1 * a, r1);
    lemma_congruent_sub(p, t0 * a, r0, q * (t1 * a), q * r1);
}

impl Field {
    /// The modulus is in canonical form and at least two.
    pub closed spec fn wf(&self) -> bool {
        self.modulus.wf() && self.modulus@ >= 2
    }

    /// The modulus of a well-formed field is at least two.
    pub proof fn lemma_modulus_bound(&self)
        requires
            self.wf(),
        ensures
            self@ >= 2,
    {
    }

    /// The field of integers modulo `modulus`, for a modulus of at least
    /// two; none for zero and one.
    pub fn new(modulus: Natural) -> (r: Option<Field>)
        requires
            modulus.wf(),
        ensures
            r is Some <==> modulus@ >= 2,
            r is Some ==> r.unwrap().wf() && r.unwrap()@ == modulus@,
    {
        if modulus.is_zero() || modulus.is_one() {
            None
        } else {
            Some(Field { modulus })
        }
    }

    /// The modulus.
    pub fn modulus(&self) -> (r: &Natural)
        requires
            self.wf(),
        ensures
            r.wf(),
            r@ == self@,
    {
        &self.modulus
    }

    /// `a mod p`.
    pub fn reduce(&self, a: &Natural) -> (r: Natural)
        requires
            self.wf(),
        ensures
            r.wf(),
            r@ == a@ as int % self@,
            r@ < self@,
    {
        proof {
            lemma_congruent_residue(self@, a@ as int);
        }
        a.remainder(&self.modulus)
    }

    /// `(a + b) mod p`.
    pub fn add(&self, a: &Natural, b: &Natural) -> (r: Natural)
        requires
            self.wf(),
        ensures
            r.wf(),
            r@ == mod_add(self@, a@ as int, b@ as int),
            r@ < self@,
    {
        proof {
            lemma_congruent_residue(self@, (a@ + b@) as int);
        }
        a.plus(b).remainder(&self.modulus)
    }

    /// `(a - b) mod p`, never negative.
    pub fn sub(&self, a: &Natural, b: &Natural) -> (r: Natural)
        requires
            self.wf(),
        ensures
            r.wf(),
            r@ == mod_sub(self@, a@ as int, b@ as int),
            r@ < self@,
    {
        let ar = a.remainder(&self.modulus);
        let br = b.remainder(&self.modulus);
        proof {
            let p = self@;
            lemma_congruent_residue(p, a@ as int);
            lemma_congruent_residue(p, b@ as int);
            lemma_congruent_residue(p, a@ - b@);
            lemma_sub_mod_noop(a@ as int, b@ as int, p);
            lemma_mod_multiples_vanish(1, ar@ - br@, p);
        }
        ar.plus(&self.modulus).minus(&br).remainder(&self.modulus)
    }

    /// `(a * b) mod p`.
    pub fn mul(&self, a: &Natural, b: &Natural) -> (r: Natural)
        requires
            self.wf(),
        ensures
            r.wf(),
            r@ == mod_mul(self@, a@ as int, b@ as int),
            r@ < self@,
    {
        proof {
            lemma_congruent_residue(self@, (a@ * b@) as int);
        }
        a.times(b).remainder(&self.modulus)
    }

    /// The inverse of `a` modulo `p`, by the extended Euclidean algorithm.
    ///
    /// Fails with `DivisionByZero` exactly when `a` has no inverse. Modulo a
    /// prime that is exactly when `p` divides `a`.
    pub fn inverse(&self, a: &Natural) -> (r: Result<Natural, CurveError>)
        requires
            self.wf(),
        ensures
            match r {
                Ok(v) => v.wf() && is_inverse(self@, a@ as int, v@ as int) && v@ == mod_inverse(
                    self@,
                    a@ as int,
                ),
                Err(e) => e == CurveError::DivisionByZero && !invertible(self@, a@ as int),
            },
            is_prime(self@) ==> (r is Err <==> a@ as int % self@ == 0),
    {
        let ghost p = self@;
        let ghost av = a@ as int;
        let mut r0 = self.modulus.clone();
        let mut r1 = self.reduce(a);
        let mut t0 = Natural::from_u64(0);
        let mut t1 = Natural::from_u64(1);
        proof {
            lemma_mod_self_0(p);
            lemma_small_mod(0, p as nat);
            lemma_congruent_residue(p, av);
            assert(0 * av == 0);
            assert(1 * av == av);
        }
        while !r1.is_zero()
            invariant
                self.wf(),
                p == self@,
                av == a@ as int,
                r0.wf(),
                r1.wf(),
                t0.wf(),
                t1.wf(),
                t0@ < p,
                t1@ < p,
                gcd(r0@, r1@) == gcd(p as nat, (av % p) as nat),
                (t0@ * av) % p == r0@ as int % p,
                (t1@ * av) % p == r1@ as int % p,
            decreases r1@,
        {
            let q = r0.quotient(&r1);
            let r2 = r0.remainder(&r1);
            let qt = self.mul(&q, &t1);
            let t2 = self.sub(&t0, &qt);
            proof {
                lemma_fundamental_div_mod(r0@ as int, r1@ as int);
                assert(r2@ == r0@ - q@ * r1@) by (nonlinear_arith)
                    requires
                        r0@ as int == r1@ as int * (r0@ as int / r1@ as int) + r0@ as int
                            % r1@ as int,
                        q@ == r0@ as int / r1@ as int,
                        r2@ == r0@ as int % r1@ as int,
                ;
                lemma_euclid_step(
                    p,
                    av,
                    q@ as int,
                    r0@ as int,
                    r1@ as int,
                    t0@ as int,
                    t1@ as int,
                    t2@ as int,
                );
            }
            r0 = r1;
            r1 = r2;
            t0 = t1;
            t1 = t2;
        }
        proof {
            assert(gcd(r0@, 0) == r0@);
            if r0@ == 1 {
                lemma_small_mod(1, p as nat);
                assert(av * t0@ == t0@ * av) by (nonlinear_arith);
                assert(is_inverse(p, av, t0@ as int));
                lemma_mod_inverse_is_inverse(p, av);
                lemma_inverse_unique(p, av, t0@ as int, mod_inverse(p, av));
            } else {
                if invertible(p, av) {
                    lemma_invertible_coprime(p, av);
                }
            }
            if is_prime(p) {
                lemma_prime_invertible(p, av);
            }
        }
        if r0.is_one() {
            Ok(t0)
        } else {
            Err(CurveError::DivisionByZero)
        }
    }

    /// `(a / b) mod p`: `a` times the inverse of `b`.
    ///
    /// Fails with `DivisionByZero` exactly when `b` has no inverse.
    pub fn div(&self, a: &Natural, b: &Natural) -> (r: Result<Natural, CurveError>)
        requires
            self.wf(),
        ensures
            match r {
                Ok(v) => v.wf() && invertible(self@, b@ as int) && v@ == mod_div(
                    self@,
                    a@ as int,
                    b@ as int,
                ) && v@ < self@,
                Err(e) => e == CurveError::DivisionByZero && !invertible(self@, b@ as int),
            },
            is_prime(self@) ==> (r is Err <==> b@ as int % self@ == 0),
    {
        match self.inverse(b) {
            Ok(inv) => Ok(self.mul(a, &inv)),
            Err(e) => Err(e),
        }
    }
}

} // verus!
