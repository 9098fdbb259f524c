//! Splicing byte sequences: opening a gap in the arena for an insertion and
//! closing it again for a removal, with the facts the span proofs need.

use vstd::prelude::*;

verus! {

/// `a` with the bytes `ins` spliced in at offset `at`: the bytes before `at`
/// keep their place, those at or after `at` move right by `ins.len()`.
pub open spec fn splice(a: Seq<u8>, at: int, ins: Seq<u8>) -> Seq<u8>
    recommends
        0 <= at <= a.len(),
{
    a.subrange(0, at) + ins + a.subrange(at, a.len() as int)
}

/// Where each byte of a splice comes from.
pub proof fn lemma_splice_index(a: Seq<u8>, at: int, ins: Seq<u8>)
    requires
        0 <= at <= a.len(),
    ensures
        splice(a, at, ins).len() == a.len() + ins.len(),
        forall|j: int| 0 <= j < at ==> splice(a, at, ins)[j] == a[j],
        forall|j: int| 0 <= j < ins.len() ==> splice(a, at, ins)[at + j] == ins[j],
        forall|j: int| at <= j < a.len() ==> splice(a, at, ins)[j + ins.len()] == a[j],
{
}

/// A span that lies entirely before the splice point is unchanged.
pub proof fn lemma_splice_subrange_before(a: Seq<u8>, at: int, ins: Seq<u8>, x: int, y: int)
    requires
        0 <= at <= a.len(),
        0 <= x <= y <= at,
    ensures
        splice(a, at, ins).subrange(x, y) == a.subrange(x, y),
{
    lemma_splice_index(a, at, ins);
    assert(splice(a, at, ins).subrange(x, y) =~= a.subrange(x, y));
}

/// The spliced-in span holds exactly the inserted bytes.
pub proof fn lemma_splice_subrange_at(a: Seq<u8>, at: int, ins: Seq<u8>)
    requires
        0 <= at <= a.len(),
    ensures
        splice(a, at, ins).subrange(at, at + ins.len()) == ins,
{
    lemma_splice_index(a, at, ins);
    assert(splice(a, at, ins).subrange(at, at + ins.len()) =~= ins);
}

/// A span that lay entirely at or after the splice point is unchanged, at a
/// place shifted right by the length of the inserted bytes.
pub proof fn lemma_splice_subrange_after(a: Seq<u8>, at: int, ins: Seq<u8>, x: int, y: int)
    requires
        0 <= at <= a.len(),
        at <= x <= y <= a.len(),
    ensures
        splice(a, at, ins).subrange(x + ins.len(), y + ins.len()) == a.subrange(x, y),
{
    lemma_splice_index(a, at, ins);
    assert(splice(a, at, ins).subrange(x + ins.len(), y + ins.len()) =~= a.subrange(x, y));
}

} // verus!
