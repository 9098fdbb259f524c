//! Laws relating the container's operations, stated over the same views
//! that the operations' contracts use.

use vstd::prelude::*;

use crate::container::AnyVec;
use crate::tag::Elem;

verus! {

/// Round trip of insertion and typed access: when `v1` is `v0` after
/// inserting the element `e` at position `i` (which is what
/// [`AnyVec::insert`] ensures), then position `i` of `v1` holds exactly
/// `e`, and every other element keeps its value. By [`AnyVec::get`]'s
/// contract, a typed read of position `i` with `e.tag` therefore returns
/// precisely `e.bytes`, while a read with any other tag returns a
/// `TypeMismatch` carrying both identities and, taking only `&self`,
/// leaves the slot untouched.
pub proof fn lemma_insert_get_round_trip(v0: AnyVec, v1: AnyVec, i: int, e: Elem)
    requires
        0 <= i <= v0@.len(),
        v1@ == v0@.insert(i, e),
    ensures
        v1@.len() == v0@.len() + 1,
        v1@[i] == e,
        forall|j: int| 0 <= j < i ==> v1@[j] == v0@[j],
        forall|j: int| i < j < v1@.len() ==> v1@[j] == v0@[j - 1],
{
}

/// Capacity law, first half: for any positive element size, the element
/// capacity the container reports never promises more bytes than the arena
/// has reserved, and never more records than the slot table has reserved.
pub proof fn lemma_capacity_bytes_bounded(v: AnyVec, type_size: int)
    requires
        v.wf(),
        type_size > 0,
    ensures
        v.spec_capacity(type_size) * type_size <= v.arena_capacity(),
        v.spec_capacity(type_size) <= v.slot_capacity(),
{
    let cap = v.arena_capacity();
    let q = cap / type_size;
    let c = v.spec_capacity(type_size);
    assert(q * type_size <= cap) by (nonlinear_arith)
        requires
            type_size > 0,
            cap >= 0,
            q == cap / type_size,
    ;
    assert(c * type_size <= q * type_size) by (nonlinear_arith)
        requires
            c <= q,
            type_size > 0,
    ;
}

/// Capacity law, second half: a container whose reservations are those of
/// `with_capacity(count, type_size)` (which is what
/// [`AnyVec::with_capacity`] ensures) reports an element capacity of at
/// least `count` for that element size.
pub proof fn lemma_with_capacity_holds_count(v: AnyVec, count: int, type_size: int)
    requires
        type_size > 0,
        count >= 0,
        v.slot_capacity() == count,
        v.arena_capacity() == count * type_size,
    ensures
        v.spec_capacity(type_size) >= count,
{
    assert((count * type_size) / type_size == count) by (nonlinear_arith)
        requires
            type_size > 0,
            count >= 0,
    ;
}

} // verus!
