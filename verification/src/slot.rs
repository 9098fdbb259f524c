//! The slot table: one metadata record per logical element, and the
//! prefix-sum reasoning that ties slot offsets to the byte arena.

use vstd::prelude::*;

use crate::tag::TypeTag;

verus! {

/// One slot record: where in the arena an element's bytes start, which type
/// it holds, and how many bytes its representation occupies.
#[derive(Clone, Copy, Debug)]
pub struct AnyMeta {
    /// Start offset of this element's representation within the byte arena.
    pub data_index: usize,
    /// Type identity of the stored element.
    pub type_id: TypeTag,
    /// Number of bytes the element's representation occupies.
    pub type_size: usize,
}

/// The sum of `type_size` over the first `i` slots of `s`: the byte offset
/// at which slot `i`'s span must start under tight packing.
pub open spec fn prefix_size(s: Seq<AnyMeta>, i: int) -> int
    decreases i,
{
    if i <= 0 {
        0
    } else {
        prefix_size(s, i - 1) + s[i - 1].type_size
    }
}

/// The total number of arena bytes the slots of `s` account for.
pub open spec fn total_size(s: Seq<AnyMeta>) -> int {
    prefix_size(s, s.len() as int)
}

/// Tight packing: every slot's recorded offset is the sum of the sizes of
/// the slots before it (no gaps, no padding, no overlap).
pub open spec fn slots_wf(s: Seq<AnyMeta>) -> bool {
    forall|i: int| 0 <= i < s.len() ==> (#[trigger] s[i]).data_index == prefix_size(s, i)
}

/// `prefix_size` reads only the sizes of the first `i` slots, so any two
/// slot sequences that agree on those sizes agree on the sum.
pub proof fn lemma_prefix_size_agree(s: Seq<AnyMeta>, t: Seq<AnyMeta>, i: int)
    requires
        i <= s.len(),
        i <= t.len(),
        forall|j: int| 0 <= j < i ==> (#[trigger] s[j]).type_size == t[j].type_size,
    ensures
        prefix_size(s, i) == prefix_size(t, i),
    decreases i,
{
    if i > 0 {
        lemma_prefix_size_agree(s, t, i - 1);
    }
}

/// Prefix sums of sizes grow monotonically: the bytes of the first `i`
/// slots are a prefix of the bytes of the first `j`.
pub proof fn lemma_prefix_size_mono(s: Seq<AnyMeta>, i: int, j: int)
    requires
        0 <= i <= j <= s.len(),
    ensures
        prefix_size(s, i) <= prefix_size(s, j),
    decreases j,
{
    if i < j {
        lemma_prefix_size_mono(s, i, j - 1);
    }
}

/// Prefix sums are never negative.
pub proof fn lemma_prefix_size_nonneg(s: Seq<AnyMeta>, i: int)
    requires
        0 <= i <= s.len(),
    ensures
        0 <= prefix_size(s, i),
    decreases i,
{
    if i > 0 {
        lemma_prefix_size_nonneg(s, i - 1);
    }
}

/// In a well-formed slot table, every slot's span lies inside the first
/// `total_size` arena bytes.
pub proof fn lemma_span_in_bounds(s: Seq<AnyMeta>, i: int)
    requires
        slots_wf(s),
        0 <= i < s.len(),
    ensures
        0 <= s[i].data_index,
        s[i].data_index + s[i].type_size == prefix_size(s, i + 1),
        s[i].data_index + s[i].type_size <= total_size(s),
{
    lemma_prefix_size_nonneg(s, i);
    lemma_prefix_size_mono(s, i + 1, s.len() as int);
}

/// How inserting one slot at position `k` moves the prefix sums: sums up to
/// `k` are unchanged, and sums past `k` grow by the new slot's size.
pub proof fn lemma_prefix_size_insert(s: Seq<AnyMeta>, k: int, m: AnyMeta, i: int)
    requires
        0 <= k <= s.len(),
        0 <= i <= s.len() + 1,
    ensures
        i <= k ==> prefix_size(s.insert(k, m), i) == prefix_size(s, i),
        i > k ==> prefix_size(s.insert(k, m), i) == prefix_size(s, i - 1) + m.type_size,
    decreases i,
{
    if i > 0 {
        lemma_prefix_size_insert(s, k, m, i - 1);
    }
}

/// How removing the slot at position `k` moves the prefix sums: sums up to
/// `k` are unchanged, and sums past `k` shrink by the removed slot's size.
pub proof fn lemma_prefix_size_remove(s: Seq<AnyMeta>, k: int, i: int)
    requires
        0 <= k < s.len(),
        0 <= i <= s.len() - 1,
    ensures
        i <= k ==> prefix_size(s.remove(k), i) == prefix_size(s, i),
        i > k ==> prefix_size(s.remove(k), i) == prefix_size(s, i + 1) - s[k].type_size,
    decreases i,
{
    if i > 0 {
        lemma_prefix_size_remove(s, k, i - 1);
        if i - 1 < k {
            assert(s.remove(k)[i - 1] == s[i - 1]);
        } else {
            assert(s.remove(k)[i - 1] == s[i]);
            assert(prefix_size(s, i + 1) == prefix_size(s, i) + s[i].type_size);
            if i - 1 == k {
                assert(prefix_size(s, i) == prefix_size(s, i - 1) + s[i - 1].type_size);
            }
        }
    }
}

/// Prefix sums of a concatenation: within `s` they are those of `s`, and
/// past it they are `s`'s total plus a prefix sum of `t`.
pub proof fn lemma_prefix_size_add(s: Seq<AnyMeta>, t: Seq<AnyMeta>, i: int)
    requires
        0 <= i <= s.len() + t.len(),
    ensures
        i <= s.len() ==> prefix_size(s + t, i) == prefix_size(s, i),
        i > s.len() ==> prefix_size(s + t, i) == total_size(s) + prefix_size(t, i - s.len()),
    decreases i,
{
    if i > 0 {
        lemma_prefix_size_add(s, t, i - 1);
        if i - 1 < s.len() {
            assert((s + t)[i - 1] == s[i - 1]);
        } else {
            assert((s + t)[i - 1] == t[i - 1 - s.len()]);
            assert(prefix_size(t, i - s.len()) == prefix_size(t, i - 1 - s.len()) + t[i - 1
                - s.len()].type_size);
        }
    }
}

/// Prefix sums of a tail `s[at..]`: each is the corresponding prefix sum of
/// `s`, re-based by the sum of the sizes before `at`.
pub proof fn lemma_prefix_size_tail(s: Seq<AnyMeta>, at: int, i: int)
    requires
        0 <= at <= s.len(),
        0 <= i <= s.len() - at,
    ensures
        prefix_size(s.subrange(at, s.len() as int), i) == prefix_size(s, at + i) - prefix_size(
            s,
            at,
        ),
    decreases i,
{
    if i > 0 {
        lemma_prefix_size_tail(s, at, i - 1);
    }
}

} // verus!
