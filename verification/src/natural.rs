//! Arbitrary-precision natural numbers.
//!
//! A [`Natural`] keeps its base 2^32 limbs in canonical form, so that two
//! values are the same number exactly when their limbs are the same.

use crate::biguint::{limbs_difference, limbs_product, limbs_quotient, limbs_remainder, limbs_sum};
use crate::limbs::{
    is_canonical, lemma_canonical_positive, lemma_canonical_unique, lemma_drop_zero_last,
    limb_base, limbs_value,
};
use vstd::prelude::*;

verus! {

/// A natural number of any size.
#[derive(Debug)]
pub struct Natural {
    limbs: Vec<u32>,
}

impl View for Natural {
    type V = nat;

    /// The number itself.
    closed spec fn view(&self) -> nat {
        limbs_value(self.limbs@)
    }
}

impl Clone for Natural {
    /// A copy of the number.
    fn clone(&self) -> (r: Natural)
        ensures
            r@ == self@,
            r.wf() == self.wf(),
            r.limbs() == self.limbs(),
    {
        let limbs = self.limbs.clone();
        assert(limbs@ =~= self.limbs@);
        Natural { limbs }
    }
}

impl Natural {
    /// The limbs are canonical: the most significant one is not zero.
    pub closed spec fn wf(&self) -> bool {
        is_canonical(self.limbs@)
    }

    /// The limbs held, least significant first.
    pub closed spec fn limbs(&self) -> Seq<u32> {
        self.limbs@
    }

    /// The number that `limbs` denote, least significant limb first. Zero
    /// limbs at the most significant end are accepted and dropped.
    pub fn from_limbs(limbs: Vec<u32>) -> (r: Natural)
        ensures
            r.wf(),
            r@ == limbs_value(limbs@),
    {
        let mut limbs = limbs;
        let ghost given = limbs@;
        while limbs.len() > 0 && limbs[limbs.len() - 1] == 0
            invariant
                limbs_value(limbs@) == limbs_value(given),
            decreases limbs.len(),
        {
            proof {
                lemma_drop_zero_last(limbs@);
            }
            limbs.pop();
        }
        Natural { limbs }
    }

    /// The number `v`.
    pub fn from_u64(v: u64) -> (r: Natural)
        ensures
            r.wf(),
            r@ == v,
    {
        let low: u32 = (v % 0x1_0000_0000) as u32;
        let high: u32 = (v / 0x1_0000_0000) as u32;
        let mut limbs: Vec<u32> = Vec::new();
        limbs.push(low);
        limbs.push(high);
        proof {
            let s = limbs@;
            assert(s.drop_first() =~= seq![high]);
            assert(s.drop_first().drop_first() =~= Seq::<u32>::empty());
            assert(limbs_value(s.drop_first().drop_first()) == 0);
            assert(limbs_value(s.drop_first()) == high as nat + limb_base() * 0);
            assert(limbs_value(s) == low as nat + limb_base() * limbs_value(s.drop_first()));
        }
        Natural::from_limbs(limbs)
    }

    /// The canonical limbs of the number, least significant first; none for
    /// zero.
    pub fn to_limbs(&self) -> (r: Vec<u32>)
        requires
            self.wf(),
        ensures
            r@ == self.limbs(),
            limbs_value(r@) == self@,
            is_canonical(r@),
    {
        let r = self.limbs.clone();
        assert(r@ =~= self.limbs@);
        r
    }

    /// Whether the number is zero.
    pub fn is_zero(&self) -> (r: bool)
        requires
            self.wf(),
        ensures
            r == (self@ == 0),
    {
        proof {
            if self.limbs@.len() > 0 {
                lemma_canonical_positive(self.limbs@);
            }
        }
        self.limbs.len() == 0
    }

    /// Whether the number is one.
    pub fn is_one(&self) -> (r: bool)
        requires
            self.wf(),
        ensures
            r == (self@ == 1),
    {
        proof {
            let s = self.limbs@;
            if s.len() == 1 {
                assert(s.drop_first() =~= Seq::<u32>::empty());
                assert(limbs_value(s.drop_first()) == 0);
                assert(limbs_value(s) == s[0] as nat + limb_base() * 0);
            } else if s.len() > 1 {
                let t = s.drop_first();
                assert(t.last() == s.last());
                lemma_canonical_positive(t);
                assert(limb_base() * limbs_value(t) >= limb_base()) by (nonlinear_arith)
                    requires
                        limbs_value(t) > 0,
                ;
            }
        }
        self.limbs.len() == 1 && self.limbs[0] == 1
    }

    /// Whether `self` and `other` are the same number.
    pub fn same(&self, other: &Natural) -> (r: bool)
        requires
            self.wf(),
            other.wf(),
        ensures
            r == (self@ == other@),
    {
        proof {
            if self@ == other@ {
                lemma_canonical_unique(self.limbs@, other.limbs@);
            }
        }
        if self.limbs.len() != other.limbs.len() {
            return false;
        }
        let n = self.limbs.len();
        let mut i: usize = 0;
        while i < n
            invariant
                n == self.limbs.len(),
                n == other.limbs.len(),
                i <= n,
                self@ == other@ ==> self.limbs@ == other.limbs@,
                forall|j: int| 0 <= j < i ==> self.limbs@[j] == other.limbs@[j],
            decreases n - i,
        {
            if self.limbs[i] != other.limbs[i] {
                return false;
            }
            i = i + 1;
        }
        assert(self.limbs@ =~= other.limbs@);
        true
    }

    /// `self + other`.
    pub(crate) fn plus(&self, other: &Natural) -> (r: Natural)
        ensures
            r.wf(),
            r@ == self@ + other@,
    {
        Natural::from_limbs(limbs_sum(&self.limbs, &other.limbs))
    }

    /// `self - other`, for `other` not above `self`.
    pub(crate) fn minus(&self, other: &Natural) -> (r: Natural)
        requires
            self@ >= other@,
        ensures
            r.wf(),
            r@ == self@ - other@,
    {
        Natural::from_limbs(limbs_difference(&self.limbs, &other.limbs))
    }

    /// `self * other`.
    pub(crate) fn times(&self, other: &Natural) -> (r: Natural)
        ensures
            r.wf(),
            r@ == self@ * other@,
    {
        Natural::from_limbs(limbs_product(&self.limbs, &other.limbs))
    }

    /// The quotient of `self` by a positive `other`, rounded down.
    pub(crate) fn quotient(&self, other: &Natural) -> (r: Natural)
        requires
            other@ > 0,
        ensures
            r.wf(),
            r@ == self@ / other@,
    {
        Natural::from_limbs(limbs_quotient(&self.limbs, &other.limbs))
    }

    /// The remainder that division of `self` by a positive `other` leaves.
    pub(crate) fn remainder(&self, other: &Natural) -> (r: Natural)
        requires
            other@ > 0,
        ensures
            r.wf(),
            r@ == self@ % other@,
    {
        Natural::from_limbs(limbs_remainder(&self.limbs, &other.limbs))
    }
}

} // verus!
