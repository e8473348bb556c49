//! The number that a sequence of base 2^32 limbs denotes, least significant
//! limb first, and the facts about that denotation the rest of the crate uses.

use vstd::prelude::*;

verus! {

/// The base of the limb representation, 2^32.
pub open spec fn limb_base() -> nat {
    0x1_0000_0000
}

/// The natural number written by `s`, least significant limb first.
pub open spec fn limbs_value(s: Seq<u32>) -> nat
    decreases s.len(),
{
    if s.len() == 0 {
        0
    } else {
        s[0] as nat + limb_base() * limbs_value(s.drop_first())
    }
}

/// A limb sequence is canonical when its most significant limb is not zero.
/// The empty sequence is the canonical form of zero.
pub open spec fn is_canonical(s: Seq<u32>) -> bool {
    s.len() > 0 ==> s.last() != 0
}

/// Appending a zero limb leaves the value unchanged.
pub proof fn lemma_push_zero(s: Seq<u32>)
    ensures
        limbs_value(s.push(0u32)) == limbs_value(s),
    decreases s.len(),
{
    if s.len() == 0 {
        assert(s.push(0u32).drop_first() =~= Seq::<u32>::empty());
        assert(limbs_value(s.push(0u32)) == 0 + limb_base() * limbs_value(Seq::<u32>::empty()));
    } else {
        assert(s.push(0u32).drop_first() =~= s.drop_first().push(0u32));
        lemma_push_zero(s.drop_first());
    }
}

/// Dropping a zero most significant limb leaves the value unchanged.
pub proof fn lemma_drop_zero_last(s: Seq<u32>)
    requires
        s.len() > 0,
        s.last() == 0,
    ensures
        limbs_value(s.drop_last()) == limbs_value(s),
{
    assert(s.drop_last().push(0u32) =~= s);
    lemma_push_zero(s.drop_last());
}

/// A canonical sequence with at least one limb denotes a positive number.
pub proof fn lemma_canonical_positive(s: Seq<u32>)
    requires
        is_canonical(s),
        s.len() > 0,
    ensures
        limbs_value(s) > 0,
    decreases s.len(),
{
    if s.len() == 1 {
        assert(s[0] == s.last());
    } else {
        let t = s.drop_first();
        assert(t.last() == s.last());
        lemma_canonical_positive(t);
        assert(limb_base() * limbs_value(t) > 0) by (nonlinear_arith)
            requires
                limb_base() > 0,
                limbs_value(t) > 0,
        ;
    }
}

/// Two canonical sequences that denote the same number are the same
/// sequence.
pub proof fn lemma_canonical_unique(a: Seq<u32>, b: Seq<u32>)
    requires
        is_canonical(a),
        is_canonical(b),
        limbs_value(a) == limbs_value(b),
    ensures
        a =~= b,
    decreases a.len(),
{
    if a.len() == 0 {
        if b.len() > 0 {
            lemma_canonical_positive(b);
        }
    } else if b.len() == 0 {
        lemma_canonical_positive(a);
    } else {
        let ta = a.drop_first();
        let tb = b.drop_first();
        let va = limbs_value(ta) as int;
        let vb = limbs_value(tb) as int;
        let base = limb_base() as int;
        assert(a[0] as int + base * va == b[0] as int + base * vb);
        assert(a[0] == b[0] && va == vb) by (nonlinear_arith)
            requires
                a[0] as int + base * va == b[0] as int + base * vb,
                0 <= a[0] as int,
                (a[0] as int) < base,
                0 <= b[0] as int,
                (b[0] as int) < base,
                va >= 0,
                vb >= 0,
        ;
        if ta.len() > 0 {
            assert(ta.last() == a.last());
        }
        if tb.len() > 0 {
            assert(tb.last() == b.last());
        }
        lemma_canonical_unique(ta, tb);
        assert(a =~= seq![a[0]] + ta);
        assert(b =~= seq![b[0]] + tb);
    }
}

} // verus!
