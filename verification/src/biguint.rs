//! The arithmetic that `num_bigint::BigUint` performs for this crate.
//!
//! Numbers cross this boundary as base 2^32 limbs, least significant first.
//! Every function here is trusted: its body calls `BigUint`, and its contract
//! is taken from that type's documentation rather than proved.

use crate::limbs::limbs_value;
use num_bigint::BigUint;
use vstd::prelude::*;

verus! {

/// `BigUint`'s `+`, between `BigUint::from_slice` on the way in and
/// `BigUint::to_u32_digits` on the way out. Trusted: the limbs returned
/// denote the sum of the two numbers given.
#[verifier::external_body]
pub(crate) fn limbs_sum(a: &Vec<u32>, b: &Vec<u32>) -> (r: Vec<u32>)
    ensures
        limbs_value(r@) == limbs_value(a@) + limbs_value(b@),
{
    (BigUint::from_slice(a) + BigUint::from_slice(b)).to_u32_digits()
}

/// `BigUint`'s `-`, which panics when the result would be negative; the
/// precondition keeps such arguments out. Trusted: the limbs returned denote
/// the difference of the two numbers given.
#[verifier::external_body]
pub(crate) fn limbs_difference(a: &Vec<u32>, b: &Vec<u32>) -> (r: Vec<u32>)
    requires
        limbs_value(a@) >= limbs_value(b@),
    ensures
        limbs_value(r@) == limbs_value(a@) - limbs_value(b@),
{
    (BigUint::from_slice(a) - BigUint::from_slice(b)).to_u32_digits()
}

/// `BigUint`'s `*`. Trusted: the limbs returned denote the product of the
/// two numbers given.
#[verifier::external_body]
pub(crate) fn limbs_product(a: &Vec<u32>, b: &Vec<u32>) -> (r: Vec<u32>)
    ensures
        limbs_value(r@) == limbs_value(a@) * limbs_value(b@),
{
    (BigUint::from_slice(a) * BigUint::from_slice(b)).to_u32_digits()
}

/// `BigUint`'s `/`, which panics on a zero divisor; the precondition keeps
/// it out. Trusted: the limbs returned denote the quotient of the two
/// numbers given, rounded down.
#[verifier::external_body]
pub(crate) fn limbs_quotient(a: &Vec<u32>, b: &Vec<u32>) -> (r: Vec<u32>)
    requires
        limbs_value(b@) > 0,
    ensures
        limbs_value(r@) == limbs_value(a@) / limbs_value(b@),
{
    (BigUint::from_slice(a) / BigUint::from_slice(b)).to_u32_digits()
}

/// `BigUint`'s `%`, which panics on a zero divisor; the precondition keeps
/// it out. Trusted: the limbs returned denote the remainder that the
/// division of the first number by the second leaves.
#[verifier::external_body]
pub(crate) fn limbs_remainder(a: &Vec<u32>, b: &Vec<u32>) -> (r: Vec<u32>)
    requires
        limbs_value(b@) > 0,
    ensures
        limbs_value(r@) == limbs_value(a@) % limbs_value(b@),
{
    (BigUint::from_slice(a) % BigUint::from_slice(b)).to_u32_digits()
}

} // verus!
