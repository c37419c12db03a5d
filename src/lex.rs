use vstd::prelude::*;

verus! {

/// Byte-wise lexicographic order, as used for the keys of an ordered byte store:
/// a proper prefix sorts before every extension of it.
pub open spec fn lex_lt(a: Seq<u8>, b: Seq<u8>) -> bool
    decreases a.len(),
{
    if b.len() == 0 {
        false
    } else if a.len() == 0 {
        true
    } else if a[0] != b[0] {
        a[0] < b[0]
    } else {
        lex_lt(a.drop_first(), b.drop_first())
    }
}

/// A key lies in the half-open range `[lo, hi)`.
pub open spec fn in_range(k: Seq<u8>, lo: Seq<u8>, hi: Seq<u8>) -> bool {
    !lex_lt(k, lo) && lex_lt(k, hi)
}

/// A common prefix does not change the order.
pub proof fn lemma_lex_common_prefix(p: Seq<u8>, a: Seq<u8>, b: Seq<u8>)
    ensures
        lex_lt(p + a, p + b) == lex_lt(a, b),
    decreases p.len(),
{
    if p.len() == 0 {
        assert(p + a =~= a);
        assert(p + b =~= b);
    } else {
        assert((p + a).drop_first() =~= p.drop_first() + a);
        assert((p + b).drop_first() =~= p.drop_first() + b);
        lemma_lex_common_prefix(p.drop_first(), a, b);
    }
}

/// Between sequences of equal length the order survives any suffixes.
pub proof fn lemma_lex_extend(a: Seq<u8>, b: Seq<u8>, c: Seq<u8>, d: Seq<u8>)
    requires
        a.len() == b.len(),
        lex_lt(a, b),
    ensures
        lex_lt(a + c, b + d),
    decreases a.len(),
{
    if a[0] == b[0] {
        assert((a + c).drop_first() =~= a.drop_first() + c);
        assert((b + d).drop_first() =~= b.drop_first() + d);
        lemma_lex_extend(a.drop_first(), b.drop_first(), c, d);
    }
}

/// A proper extension sorts after the sequence it extends.
pub proof fn lemma_lex_proper_prefix(a: Seq<u8>, c: Seq<u8>)
    requires
        c.len() > 0,
    ensures
        lex_lt(a, a + c),
{
    lemma_lex_common_prefix(a, Seq::empty(), c);
    assert(a + Seq::<u8>::empty() =~= a);
}

pub proof fn lemma_lex_asymmetric(a: Seq<u8>, b: Seq<u8>)
    requires
        lex_lt(a, b),
    ensures
        !lex_lt(b, a),
    decreases a.len(),
{
    if a.len() > 0 && a[0] == b[0] {
        lemma_lex_asymmetric(a.drop_first(), b.drop_first());
    }
}

/// Distinct sequences of equal length are ordered one way or the other.
pub proof fn lemma_lex_total(a: Seq<u8>, b: Seq<u8>)
    requires
        a.len() == b.len(),
        a != b,
    ensures
        lex_lt(a, b) || lex_lt(b, a),
    decreases a.len(),
{
    if a.len() == 0 {
        assert(a =~= b);
    } else if a[0] == b[0] {
        if a.drop_first() == b.drop_first() {
            assert(a =~= seq![a[0]] + a.drop_first());
            assert(b =~= seq![b[0]] + b.drop_first());
        }
        lemma_lex_total(a.drop_first(), b.drop_first());
    }
}

} // verus!
