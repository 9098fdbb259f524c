//! The container itself: a byte arena plus a parallel slot table, kept
//! pointwise consistent by every operation.

use vstd::prelude::*;
use vstd::slice::slice_subrange;

use crate::bytes::lemma_splice_subrange_after;
use crate::bytes::lemma_splice_subrange_at;
use crate::bytes::lemma_splice_subrange_before;
use crate::bytes::splice;
use crate::slot::AnyMeta;
use crate::slot::lemma_prefix_size_add;
use crate::slot::lemma_prefix_size_agree;
use crate::slot::lemma_prefix_size_insert;
use crate::slot::lemma_prefix_size_mono;
use crate::slot::lemma_prefix_size_nonneg;
use crate::slot::lemma_prefix_size_remove;
use crate::slot::lemma_prefix_size_tail;
use crate::slot::lemma_span_in_bounds;
use crate::slot::prefix_size;
use crate::slot::slots_wf;
use crate::slot::total_size;
use crate::tag::Elem;
use crate::tag::TypeMismatch;
use crate::tag::TypeTag;

verus! {

/// Relies on `Vec::reserve_exact`: it only grows the backing allocation;
/// the vector's contents are unchanged.
#[verifier::external_body]
fn vec_reserve_exact<T>(v: &mut Vec<T>, additional: usize)
    ensures
        final(v)@ == old(v)@,
{
    v.reserve_exact(additional);
}

/// Relies on `Vec::shrink_to_fit`: it only shrinks the backing allocation;
/// the vector's contents are unchanged.
#[verifier::external_body]
fn vec_shrink_to_fit<T>(v: &mut Vec<T>)
    ensures
        final(v)@ == old(v)@,
{
    v.shrink_to_fit();
}

/// A growable list type with dynamic typing.
///
/// Values of distinct concrete types live back-to-back in one byte arena;
/// a parallel slot table records, per logical element, its byte offset, its
/// type identity, and its byte size. The logical content is the sequence of
/// [`Elem`] records returned by the view `self@`; every operation keeps the
/// two buffers consistent, which [`AnyVec::wf`] states.
pub struct AnyVec {
    data: Vec<u8>,
    meta: Vec<AnyMeta>,
    data_cap: usize,
    meta_cap: usize,
}

impl View for AnyVec {
    type V = Seq<Elem>;

    /// The logical content: one [`Elem`] per slot, in logical order.
    open spec fn view(&self) -> Seq<Elem> {
        Seq::new(self.slots().len(), |i: int| self.elem_at(i))
    }
}

impl AnyVec {
    /// The slot table, in logical order.
    pub closed spec fn slots(self) -> Seq<AnyMeta> {
        self.meta@
    }

    /// The byte arena: every element's representation, concatenated in
    /// logical order.
    pub closed spec fn arena(self) -> Seq<u8> {
        self.data@
    }

    /// The number of arena bytes this container has reserved room for.
    pub closed spec fn arena_capacity(self) -> int {
        self.data_cap as int
    }

    /// The number of slot records this container has reserved room for.
    pub closed spec fn slot_capacity(self) -> int {
        self.meta_cap as int
    }

    /// Well-formedness: the slot offsets are the prefix sums of the slot
    /// sizes (tight packing), the arena holds exactly the bytes the slots
    /// account for, and the reserved capacities cover the current contents.
    pub open spec fn wf(self) -> bool {
        &&& slots_wf(self.slots())
        &&& self.arena().len() == total_size(self.slots())
        &&& self.arena().len() <= self.arena_capacity()
        &&& self.slots().len() <= self.slot_capacity()
    }

    /// The logical element stored at position `i`: the slot's tag, and the
    /// arena bytes of the slot's span.
    pub open spec fn elem_at(self, i: int) -> Elem
        recommends
            0 <= i < self.slots().len(),
    {
        Elem {
            tag: self.slots()[i].type_id,
            bytes: self.arena().subrange(
                self.slots()[i].data_index as int,
                self.slots()[i].data_index + self.slots()[i].type_size,
            ),
        }
    }

    /// The number of elements storable without growing either buffer:
    /// the reserved slot count, capped by how many spans of `type_size`
    /// bytes fit in the reserved arena space.
    pub open spec fn spec_capacity(self, type_size: int) -> int
        recommends
            type_size > 0,
    {
        let by_arena = self.arena_capacity() / type_size;
        if self.slot_capacity() <= by_arena {
            self.slot_capacity()
        } else {
            by_arena
        }
    }

    /// Constructs a new, empty `AnyVec` with zero reserved capacity.
    pub fn new() -> (r: AnyVec)
        ensures
            r.wf(),
            r@ == Seq::<Elem>::empty(),
            r.arena_capacity() == 0,
            r.slot_capacity() == 0,
    {
        let r = AnyVec { data: Vec::new(), meta: Vec::new(), data_cap: 0, meta_cap: 0 };
        proof {
            assert(r@ =~= Seq::<Elem>::empty());
        }
        r
    }

    /// Constructs a new, empty `AnyVec` with room reserved for `capacity`
    /// elements of an average byte size `avg_type_size`.
    ///
    /// Element sizes vary, so the reservation is a hint; the exact element
    /// capacity for a given size is what [`AnyVec::capacity`] reports.
    pub fn with_capacity(capacity: usize, avg_type_size: usize) -> (r: AnyVec)
        requires
            capacity * avg_type_size <= usize::MAX,
        ensures
            r.wf(),
            r@ == Seq::<Elem>::empty(),
            r.arena_capacity() == capacity * avg_type_size,
            r.slot_capacity() == capacity,
    {
        let bytes: usize = capacity * avg_type_size;
        let r = AnyVec {
            data: Vec::with_capacity(bytes),
            meta: Vec::with_capacity(capacity),
            data_cap: bytes,
            meta_cap: capacity,
        };
        proof {
            assert(r@ =~= Seq::<Elem>::empty());
        }
        r
    }

    /// Returns the number of elements of byte size `type_size` the vector
    /// can hold without growing either buffer.
    pub fn capacity(&self, type_size: usize) -> (r: usize)
        requires
            type_size > 0,
        ensures
            r == self.spec_capacity(type_size as int),
    {
        let by_arena: usize = self.data_cap / type_size;
        if self.meta_cap <= by_arena {
            self.meta_cap
        } else {
            by_arena
        }
    }

    /// Returns the number of bytes the arena currently holds: the sum of
    /// the byte sizes of all stored elements.
    pub fn arena_len(&self) -> (r: usize)
        ensures
            r == self.arena().len(),
    {
        self.data.len()
    }

    /// Returns the number of elements in the vector.
    pub fn len(&self) -> (r: usize)
        ensures
            r == self@.len(),
    {
        self.meta.len()
    }

    /// Returns whether the vector holds no elements.
    pub fn is_empty(&self) -> (r: bool)
        ensures
            r <==> self@.len() == 0,
    {
        self.meta.is_empty()
    }

    /// Empties the vector. The reserved capacity of both buffers is kept.
    pub fn clear(&mut self)
        ensures
            final(self).wf(),
            final(self)@ == Seq::<Elem>::empty(),
            final(self).arena_capacity() == old(self).arena_capacity(),
            final(self).slot_capacity() == old(self).slot_capacity(),
    {
        self.data.clear();
        self.meta.clear();
        proof {
            assert(self@ =~= Seq::<Elem>::empty());
        }
    }

    /// Inserts an element at position `index` in the vector, shifting the
    /// elements after it (their slot records and their arena bytes) to the
    /// right by the new element's byte size.
    ///
    /// The element arrives as its type identity `tag` together with the
    /// bytes of its fixed-size representation.
    #[verifier::rlimit(50)]
    pub fn insert(&mut self, index: usize, tag: TypeTag, bytes: &[u8])
        requires
            old(self).wf(),
            index <= old(self)@.len(),
            old(self).arena().len() + bytes@.len() <= usize::MAX,
        ensures
            final(self).wf(),
            final(self)@ == old(self)@.insert(index as int, (Elem { tag, bytes: bytes@ })),
            final(self).arena_capacity() == vstd::math::max(
                old(self).arena_capacity(),
                (old(self).arena().len() + bytes@.len()) as int,
            ),
            final(self).slot_capacity() == vstd::math::max(
                old(self).slot_capacity(),
                (old(self)@.len() + 1) as int,
            ),
    {
        let ghost s0 = self.meta@;
        let ghost a0 = self.data@;
        let ghost dc0 = self.data_cap;
        let ghost mc0 = self.meta_cap;
        let ts: usize = bytes.len();
        let old_data_len: usize = self.data.len();
        proof {
            lemma_prefix_size_nonneg(s0, index as int);
            lemma_prefix_size_mono(s0, index as int, s0.len() as int);
        }
        let di: usize = if index < self.meta.len() {
            self.meta[index].data_index
        } else {
            old_data_len
        };
        assert(di == prefix_size(s0, index as int));
        assert(di <= old_data_len);

        // Shift the offsets of the slots at or after `index` right by `ts`.
        let n: usize = self.meta.len();
        let mut i: usize = index;
        while i < n
            invariant
                index <= i <= n,
                self.meta@.len() == n,
                s0.len() == n,
                slots_wf(s0),
                total_size(s0) == old_data_len as int,
                old_data_len + ts <= usize::MAX,
                forall|j: int| 0 <= j < index ==> self.meta@[j] == s0[j],
                forall|j: int| i <= j < n ==> self.meta@[j] == s0[j],
                forall|j: int|
                    index <= j < i ==> (#[trigger] self.meta@[j]).type_id == s0[j].type_id
                        && self.meta@[j].type_size == s0[j].type_size
                        && self.meta@[j].data_index == s0[j].data_index + ts,
                self.data@ == a0,
                self.data_cap == dc0,
                self.meta_cap == mc0,
            decreases n - i,
        {
            let m: AnyMeta = self.meta[i];
            proof {
                lemma_span_in_bounds(s0, i as int);
            }
            self.meta[i] = AnyMeta {
                data_index: m.data_index + ts,
                type_id: m.type_id,
                type_size: m.type_size,
            };
            i += 1;
        }
        let ghost s1 = self.meta@;

        let m_new = AnyMeta { data_index: di, type_id: tag, type_size: ts };
        self.meta.insert(index, m_new);
        let ghost s2 = self.meta@;

        // Open a gap of `ts` bytes at `di` and copy the representation in.
        let mut tail = self.data.split_off(di);
        let mut k: usize = 0;
        while k < bytes.len()
            invariant
                k <= bytes@.len(),
                ts == bytes@.len(),
                di <= a0.len(),
                self.data@ == a0.subrange(0, di as int) + bytes@.subrange(0, k as int),
                tail@ == a0.subrange(di as int, a0.len() as int),
                self.meta@ == s2,
                self.data_cap == dc0,
                self.meta_cap == mc0,
            decreases bytes@.len() - k,
        {
            let b: u8 = bytes[k];
            self.data.push(b);
            proof {
                assert(bytes@.subrange(0, k + 1) =~= bytes@.subrange(0, k as int).push(
                    bytes@[k as int],
                ));
                assert(self.data@ =~= a0.subrange(0, di as int) + bytes@.subrange(0, k + 1));
            }
            k += 1;
        }
        self.data.append(&mut tail);

        if self.data_cap < self.data.len() {
            self.data_cap = self.data.len();
        }
        if self.meta_cap < self.meta.len() {
            self.meta_cap = self.meta.len();
        }

        proof {
            assert(bytes@.subrange(0, ts as int) =~= bytes@);
            assert(self.data@ =~= splice(a0, di as int, bytes@));
            lemma_insert_shape(s0, s1, s2, a0, self.data@, index as int, m_new, bytes@);
            let e = Elem { tag, bytes: bytes@ };
            assert forall|i2: int| 0 <= i2 < s2.len() implies self@[i2] =~= old(self)@.insert(
                index as int,
                e,
            )[i2] by {
                lemma_insert_elem(s0, s1, s2, a0, self.data@, index as int, m_new, bytes@, i2);
                assert(old(self)@.len() == s0.len());
                if i2 < index {
                    assert(old(self)@.insert(index as int, e)[i2] == old(self)@[i2]);
                } else if i2 > index {
                    assert(old(self)@.insert(index as int, e)[i2] == old(self)@[i2 - 1]);
                }
            }
            assert(self@ =~~= old(self)@.insert(index as int, e));
        }
    }

    /// Appends an element to the back of the vector.
    pub fn push(&mut self, tag: TypeTag, bytes: &[u8])
        requires
            old(self).wf(),
            old(self).arena().len() + bytes@.len() <= usize::MAX,
        ensures
            final(self).wf(),
            final(self)@ == old(self)@.push((Elem { tag, bytes: bytes@ })),
            final(self).arena_capacity() == vstd::math::max(
                old(self).arena_capacity(),
                (old(self).arena().len() + bytes@.len()) as int,
            ),
            final(self).slot_capacity() == vstd::math::max(
                old(self).slot_capacity(),
                (old(self)@.len() + 1) as int,
            ),
    {
        let index = self.meta.len();
        self.insert(index, tag, bytes);
        proof {
            assert(old(self)@.insert(old(self)@.len() as int, (Elem { tag, bytes: bytes@ })) =~= old(
                self,
            )@.push((Elem { tag, bytes: bytes@ })));
        }
    }

    /// Returns the bytes of the element at position `index`, checked
    /// against an expected type identity: `Ok(None)` if the index is out of
    /// bounds, a [`TypeMismatch`] if the slot holds another type, and
    /// otherwise a borrow of the element's live span in the arena.
    pub fn get<'a>(&'a self, index: usize, expected: TypeTag) -> (r: Result<
        Option<&'a [u8]>,
        TypeMismatch,
    >)
        requires
            self.wf(),
        ensures
            index >= self@.len() ==> (r matches Ok(o) && o is None),
            index < self@.len() && self@[index as int].tag == expected ==> (r matches Ok(o)
                && o matches Some(b) && b@ == self@[index as int].bytes),
            index < self@.len() && self@[index as int].tag != expected ==> (r matches Err(e) && e
                == (TypeMismatch { expected, actual: self@[index as int].tag })),
    {
        if index >= self.meta.len() {
            return Ok(None);
        }
        let m = self.meta[index];
        if m.type_id != expected {
            return Err(TypeMismatch { expected, actual: m.type_id });
        }
        proof {
            lemma_span_in_bounds(self.slots(), index as int);
        }
        let whole: &[u8] = self.data.as_slice();
        let piece: &[u8] = slice_subrange(whole, m.data_index, m.data_index + m.type_size);
        Ok(Some(piece))
    }

    /// Reserves capacity for at least `additional` more elements of an
    /// average byte size `avg_type_size`. The reservation may exceed the
    /// request for amortized growth; existing contents and offsets are
    /// unchanged.
    pub fn reserve(&mut self, additional: usize, avg_type_size: usize)
        requires
            old(self).wf(),
            old(self).arena().len() + additional * avg_type_size <= usize::MAX,
            old(self)@.len() + additional <= usize::MAX,
        ensures
            final(self).wf(),
            final(self)@ == old(self)@,
            final(self).arena_capacity() == vstd::math::max(
                old(self).arena_capacity(),
                (old(self).arena().len() + additional * avg_type_size) as int,
            ),
            final(self).slot_capacity() == vstd::math::max(
                old(self).slot_capacity(),
                (old(self)@.len() + additional) as int,
            ),
    {
        let add_bytes: usize = additional * avg_type_size;
        self.data.reserve(add_bytes);
        self.meta.reserve(additional);
        let want_bytes: usize = self.data.len() + add_bytes;
        if self.data_cap < want_bytes {
            self.data_cap = want_bytes;
        }
        let want_slots: usize = self.meta.len() + additional;
        if self.meta_cap < want_slots {
            self.meta_cap = want_slots;
        }
    }

    /// Reserves capacity for exactly `additional` more elements of an
    /// average byte size `avg_type_size`, without amortized over-allocation.
    /// Existing contents and offsets are unchanged.
    pub fn reserve_exact(&mut self, additional: usize, avg_type_size: usize)
        requires
            old(self).wf(),
            old(self).arena().len() + additional * avg_type_size <= usize::MAX,
            old(self)@.len() + additional <= usize::MAX,
        ensures
            final(self).wf(),
            final(self)@ == old(self)@,
            final(self).arena_capacity() == vstd::math::max(
                old(self).arena_capacity(),
                (old(self).arena().len() + additional * avg_type_size) as int,
            ),
            final(self).slot_capacity() == vstd::math::max(
                old(self).slot_capacity(),
                (old(self)@.len() + additional) as int,
            ),
    {
        let add_bytes: usize = additional * avg_type_size;
        vec_reserve_exact(&mut self.data, add_bytes);
        vec_reserve_exact(&mut self.meta, additional);
        let want_bytes: usize = self.data.len() + add_bytes;
        if self.data_cap < want_bytes {
            self.data_cap = want_bytes;
        }
        let want_slots: usize = self.meta.len() + additional;
        if self.meta_cap < want_slots {
            self.meta_cap = want_slots;
        }
    }

    /// Shrinks the reserved capacity of both buffers as much as possible.
    /// Logical contents and all offsets are unchanged.
    pub fn shrink_to_fit(&mut self)
        requires
            old(self).wf(),
        ensures
            final(self).wf(),
            final(self)@ == old(self)@,
            final(self).arena_capacity() == old(self).arena().len(),
            final(self).slot_capacity() == old(self)@.len(),
    {
        vec_shrink_to_fit(&mut self.data);
        vec_shrink_to_fit(&mut self.meta);
        self.data_cap = self.data.len();
        self.meta_cap = self.meta.len();
    }

    /// Removes and returns the bytes of the element at position `index`,
    /// checked against an expected type identity, shifting the elements
    /// after it (their slot records and their arena bytes) to the left. On
    /// a [`TypeMismatch`] nothing is removed and the container is
    /// unchanged.
    #[verifier::rlimit(50)]
    pub fn remove(&mut self, index: usize, expected: TypeTag) -> (r: Result<Vec<u8>, TypeMismatch>)
        requires
            old(self).wf(),
            index < old(self)@.len(),
        ensures
            final(self).wf(),
            old(self)@[index as int].tag == expected ==> (r matches Ok(b) && b@ == old(
                self,
            )@[index as int].bytes) && final(self)@ == old(self)@.remove(index as int),
            old(self)@[index as int].tag != expected ==> (r matches Err(e) && e == (TypeMismatch {
                expected,
                actual: old(self)@[index as int].tag,
            })) && *final(self) == *old(self),
            final(self).arena_capacity() == old(self).arena_capacity(),
            final(self).slot_capacity() == old(self).slot_capacity(),
    {
        let m = self.meta[index];
        if m.type_id != expected {
            return Err(TypeMismatch { expected, actual: m.type_id });
        }
        let ghost s0 = self.meta@;
        let ghost a0 = self.data@;
        let ghost dc0 = self.data_cap;
        let ghost mc0 = self.meta_cap;
        proof {
            lemma_span_in_bounds(s0, index as int);
            lemma_prefix_size_nonneg(s0, index as int);
        }
        let ts: usize = m.type_size;
        let di: usize = m.data_index;

        // Drop the slot record and shift the offsets after it left by `ts`.
        self.meta.remove(index);
        let n: usize = self.meta.len();
        let mut i: usize = index;
        while i < n
            invariant
                index <= i <= n,
                self.meta@.len() == n,
                s0.len() == n + 1,
                slots_wf(s0),
                index < s0.len(),
                m == s0[index as int],
                ts == m.type_size,
                forall|j: int| 0 <= j < index ==> self.meta@[j] == s0[j],
                forall|j: int| i <= j < n ==> self.meta@[j] == s0[j + 1],
                forall|j: int|
                    index <= j < i ==> (#[trigger] self.meta@[j]).type_id == s0[j + 1].type_id
                        && self.meta@[j].type_size == s0[j + 1].type_size
                        && self.meta@[j].data_index == s0[j + 1].data_index - ts,
                self.data@ == a0,
                self.data_cap == dc0,
                self.meta_cap == mc0,
            decreases n - i,
        {
            let mm: AnyMeta = self.meta[i];
            proof {
                lemma_span_in_bounds(s0, i as int + 1);
                lemma_prefix_size_mono(s0, index as int + 1, i as int + 1);
                lemma_span_in_bounds(s0, index as int);
            }
            self.meta[i] = AnyMeta {
                data_index: mm.data_index - ts,
                type_id: mm.type_id,
                type_size: mm.type_size,
            };
            i += 1;
        }
        let ghost s2 = self.meta@;

        // Copy the span's bytes out and close the gap in the arena.
        let mut tail = self.data.split_off(di + ts);
        let removed = self.data.split_off(di);
        self.data.append(&mut tail);

        proof {
            assert(removed@ =~= a0.subrange(di as int, di + ts));
            assert(a0 =~= splice(self.data@, di as int, removed@));
            lemma_remove_shape(s0, s2, a0, self.data@, removed@, index as int);
            assert forall|j: int| 0 <= j < s2.len() implies self@[j] =~= old(self)@.remove(
                index as int,
            )[j] by {
                lemma_remove_elem(s0, s2, a0, self.data@, removed@, index as int, j);
                if j < index {
                    assert(old(self)@.remove(index as int)[j] == old(self)@[j]);
                } else {
                    assert(old(self)@.remove(index as int)[j] == old(self)@[j + 1]);
                }
            }
            assert(self@ =~~= old(self)@.remove(index as int));
            assert(removed@ =~= old(self)@[index as int].bytes);
        }
        Ok(removed)
    }

    /// Removes and returns the bytes of the last element, checked against
    /// an expected type identity, or `Ok(None)` if the vector is empty. On
    /// a [`TypeMismatch`] nothing is removed.
    pub fn pop(&mut self, expected: TypeTag) -> (r: Result<Option<Vec<u8>>, TypeMismatch>)
        requires
            old(self).wf(),
        ensures
            final(self).wf(),
            old(self)@.len() == 0 ==> (r matches Ok(o) && o is None) && *final(self) == *old(self),
            old(self)@.len() > 0 && old(self)@.last().tag == expected ==> (r matches Ok(o)
                && o matches Some(b) && b@ == old(self)@.last().bytes) && final(self)@ == old(
                self,
            )@.drop_last(),
            old(self)@.len() > 0 && old(self)@.last().tag != expected ==> (r matches Err(e) && e
                == (TypeMismatch { expected, actual: old(self)@.last().tag })) && *final(self) == *old(self),
            final(self).arena_capacity() == old(self).arena_capacity(),
            final(self).slot_capacity() == old(self).slot_capacity(),
    {
        if self.is_empty() {
            return Ok(None);
        }
        let index = self.meta.len() - 1;
        match self.remove(index, expected) {
            Ok(b) => {
                proof {
                    assert(old(self)@.remove(old(self)@.len() - 1) =~= old(self)@.drop_last());
                }
                Ok(Some(b))
            },
            Err(e) => Err(e),
        }
    }

    /// Shortens the vector to at most `len` elements, dropping the later
    /// slots and their arena bytes. A `len` at or above the current length
    /// leaves the vector unchanged.
    pub fn truncate(&mut self, len: usize)
        requires
            old(self).wf(),
        ensures
            final(self).wf(),
            len >= old(self)@.len() ==> *final(self) == *old(self),
            len < old(self)@.len() ==> final(self)@ == old(self)@.subrange(0, len as int),
            final(self).arena_capacity() == old(self).arena_capacity(),
            final(self).slot_capacity() == old(self).slot_capacity(),
    {
        if len >= self.meta.len() {
            return;
        }
        let ghost s0 = self.meta@;
        let ghost a0 = self.data@;
        let cut: usize = self.meta[len].data_index;
        proof {
            lemma_prefix_size_nonneg(s0, len as int);
            lemma_prefix_size_mono(s0, len as int, s0.len() as int);
        }
        self.data.truncate(cut);
        self.meta.truncate(len);
        proof {
            let s2 = self.meta@;
            let a2 = self.data@;
            assert forall|i: int| 0 <= i <= len implies prefix_size(s2, i) == prefix_size(
                s0,
                i,
            ) by {
                lemma_prefix_size_agree(s2, s0, i);
            }
            assert forall|j: int| 0 <= j < len implies self@[j] =~= old(self)@.subrange(
                0,
                len as int,
            )[j] by {
                lemma_span_in_bounds(s0, j);
                lemma_prefix_size_mono(s0, j + 1, len as int);
                assert(a2.subrange(s0[j].data_index as int, s0[j].data_index + s0[j].type_size)
                    =~= a0.subrange(s0[j].data_index as int, s0[j].data_index + s0[j].type_size));
            }
            assert(self@ =~~= old(self)@.subrange(0, len as int));
        }
    }

    /// Moves every element of `other` onto the end of `self`, re-basing the
    /// appended slots' offsets by `self`'s prior arena length. `other` is
    /// left empty, keeping its reserved capacity.
    #[verifier::rlimit(50)]
    pub fn append(&mut self, other: &mut AnyVec)
        requires
            old(self).wf(),
            old(other).wf(),
            old(self).arena().len() + old(other).arena().len() <= usize::MAX,
            old(self)@.len() + old(other)@.len() <= usize::MAX,
        ensures
            final(self).wf(),
            final(other).wf(),
            final(self)@ == old(self)@ + old(other)@,
            final(other)@ == Seq::<Elem>::empty(),
            final(self).arena_capacity() == vstd::math::max(
                old(self).arena_capacity(),
                (old(self).arena().len() + old(other).arena().len()) as int,
            ),
            final(self).slot_capacity() == vstd::math::max(
                old(self).slot_capacity(),
                (old(self)@.len() + old(other)@.len()) as int,
            ),
            final(other).arena_capacity() == old(other).arena_capacity(),
            final(other).slot_capacity() == old(other).slot_capacity(),
    {
        let ghost s0 = self.meta@;
        let ghost a0 = self.data@;
        let ghost t0 = other.meta@;
        let ghost b0 = other.data@;
        let ghost dc0 = self.data_cap;
        let ghost mc0 = self.meta_cap;
        let base: usize = self.data.len();

        // Re-base the offsets of the slots about to be moved over.
        let n2: usize = other.meta.len();
        let mut i: usize = 0;
        while i < n2
            invariant
                i <= n2,
                other.meta@.len() == n2,
                t0.len() == n2,
                slots_wf(t0),
                total_size(t0) == b0.len(),
                base + b0.len() <= usize::MAX,
                forall|j: int| i <= j < n2 ==> other.meta@[j] == t0[j],
                forall|j: int|
                    0 <= j < i ==> (#[trigger] other.meta@[j]).type_id == t0[j].type_id
                        && other.meta@[j].type_size == t0[j].type_size
                        && other.meta@[j].data_index == t0[j].data_index + base,
                other.data@ == b0,
                other.data_cap == old(other).data_cap,
                other.meta_cap == old(other).meta_cap,
                self.meta@ == s0,
                self.data@ == a0,
                self.data_cap == dc0,
                self.meta_cap == mc0,
                base == a0.len(),
            decreases n2 - i,
        {
            let mm: AnyMeta = other.meta[i];
            proof {
                lemma_span_in_bounds(t0, i as int);
            }
            other.meta[i] = AnyMeta {
                data_index: mm.data_index + base,
                type_id: mm.type_id,
                type_size: mm.type_size,
            };
            i += 1;
        }
        let ghost t1 = other.meta@;

        self.meta.append(&mut other.meta);
        self.data.append(&mut other.data);

        if self.data_cap < self.data.len() {
            self.data_cap = self.data.len();
        }
        if self.meta_cap < self.meta.len() {
            self.meta_cap = self.meta.len();
        }

        proof {
            let n = s0.len() as int;
            let s2 = self.meta@;
            let a2 = self.data@;
            assert forall|i2: int| 0 <= i2 <= s2.len() implies prefix_size(s2, i2) == prefix_size(
                s0 + t0,
                i2,
            ) by {
                lemma_prefix_size_agree(s2, s0 + t0, i2);
            }
            assert forall|j: int| 0 <= j < s2.len() implies (#[trigger] s2[j]).data_index
                == prefix_size(s2, j) by {
                lemma_prefix_size_add(s0, t0, j);
            }
            lemma_prefix_size_add(s0, t0, s2.len() as int);
            assert(a2.len() == total_size(s2));
            assert forall|j: int| 0 <= j < s2.len() implies self@[j] =~= (old(self)@ + old(
                other,
            )@)[j] by {
                if j < n {
                    lemma_span_in_bounds(s0, j);
                    assert(a2.subrange(s0[j].data_index as int, s0[j].data_index + s0[j].type_size)
                        =~= a0.subrange(
                        s0[j].data_index as int,
                        s0[j].data_index + s0[j].type_size,
                    ));
                } else {
                    lemma_span_in_bounds(t0, j - n);
                    assert(a2.subrange(
                        t0[j - n].data_index + base,
                        t0[j - n].data_index + base + t0[j - n].type_size,
                    ) =~= b0.subrange(
                        t0[j - n].data_index as int,
                        t0[j - n].data_index + t0[j - n].type_size,
                    ));
                }
            }
            assert(self@ =~~= old(self)@ + old(other)@);
            assert(other@ =~= Seq::<Elem>::empty());
        }
    }

    /// Splits the collection into two at logical index `at`: `self` keeps
    /// the elements before `at`, and the returned container owns the
    /// elements from `at` on, with its slot offsets re-based to start at
    /// zero and its reserved capacity trimmed to its contents.
    #[verifier::rlimit(50)]
    pub fn split_off(&mut self, at: usize) -> (r: AnyVec)
        requires
            old(self).wf(),
            at <= old(self)@.len(),
        ensures
            final(self).wf(),
            r.wf(),
            final(self)@ == old(self)@.subrange(0, at as int),
            r@ == old(self)@.subrange(at as int, old(self)@.len() as int),
            final(self).arena_capacity() == old(self).arena_capacity(),
            final(self).slot_capacity() == old(self).slot_capacity(),
            r.arena_capacity() == r.arena().len(),
            r.slot_capacity() == r@.len(),
    {
        let ghost s0 = self.meta@;
        let ghost a0 = self.data@;
        let ghost n = s0.len() as int;
        proof {
            lemma_prefix_size_nonneg(s0, at as int);
            lemma_prefix_size_mono(s0, at as int, s0.len() as int);
        }
        let cut: usize = if at < self.meta.len() {
            self.meta[at].data_index
        } else {
            self.data.len()
        };
        assert(cut == prefix_size(s0, at as int));
        let other_data = self.data.split_off(cut);
        let mut other_meta = self.meta.split_off(at);

        // Re-base the moved slots' offsets to start at zero.
        let n2: usize = other_meta.len();
        let mut i: usize = 0;
        while i < n2
            invariant
                i <= n2,
                other_meta@.len() == n2,
                s0.len() == at + n2,
                slots_wf(s0),
                cut == prefix_size(s0, at as int),
                forall|j: int| i <= j < n2 ==> other_meta@[j] == s0[at + j],
                forall|j: int|
                    0 <= j < i ==> (#[trigger] other_meta@[j]).type_id == s0[at + j].type_id
                        && other_meta@[j].type_size == s0[at + j].type_size
                        && other_meta@[j].data_index == s0[at + j].data_index - cut,
            decreases n2 - i,
        {
            let mm: AnyMeta = other_meta[i];
            proof {
                lemma_span_in_bounds(s0, at + i as int);
                lemma_prefix_size_mono(s0, at as int, at + i as int);
            }
            other_meta[i] = AnyMeta {
                data_index: mm.data_index - cut,
                type_id: mm.type_id,
                type_size: mm.type_size,
            };
            i += 1;
        }

        let other_len: usize = other_data.len();
        let r = AnyVec {
            data: other_data,
            meta: other_meta,
            data_cap: other_len,
            meta_cap: n2,
        };

        proof {
            let s2 = self.meta@;
            let a2 = self.data@;
            let t2 = r.meta@;
            let b2 = r.data@;
            let tail = s0.subrange(at as int, n);

            // the receiver keeps a well-formed prefix
            assert forall|i2: int| 0 <= i2 <= at implies prefix_size(s2, i2) == prefix_size(
                s0,
                i2,
            ) by {
                lemma_prefix_size_agree(s2, s0, i2);
            }
            assert forall|j: int| 0 <= j < at implies self@[j] =~= old(self)@.subrange(
                0,
                at as int,
            )[j] by {
                lemma_span_in_bounds(s0, j);
                lemma_prefix_size_mono(s0, j + 1, at as int);
                assert(a2.subrange(s0[j].data_index as int, s0[j].data_index + s0[j].type_size)
                    =~= a0.subrange(s0[j].data_index as int, s0[j].data_index + s0[j].type_size));
            }
            assert(self@ =~~= old(self)@.subrange(0, at as int));

            // the new container owns a well-formed, re-based tail
            assert forall|i2: int| 0 <= i2 <= n2 implies prefix_size(t2, i2) == prefix_size(
                tail,
                i2,
            ) by {
                lemma_prefix_size_agree(t2, tail, i2);
            }
            assert forall|i2: int| 0 <= i2 <= n2 implies prefix_size(tail, i2) == prefix_size(
                s0,
                at + i2,
            ) - cut by {
                lemma_prefix_size_tail(s0, at as int, i2);
            }
            assert forall|j: int| 0 <= j < n2 implies r@[j] =~= old(self)@.subrange(
                at as int,
                n,
            )[j] by {
                lemma_span_in_bounds(s0, at + j);
                lemma_prefix_size_mono(s0, at as int, at + j);
                assert(b2.subrange(
                    s0[at + j].data_index - cut,
                    s0[at + j].data_index - cut + s0[at + j].type_size,
                ) =~= a0.subrange(
                    s0[at + j].data_index as int,
                    s0[at + j].data_index + s0[at + j].type_size,
                ));
            }
            assert(r@ =~~= old(self)@.subrange(at as int, n));
        }
        r
    }

    /// Overwrites, in place, the bytes of the element at position `index`
    /// with `bytes`, checked against an expected type identity: the
    /// mutable counterpart of [`AnyVec::get`]. Returns `Ok(None)` if the
    /// index is out of bounds and a [`TypeMismatch`] (changing nothing) if
    /// the slot holds another type. Representations are fixed-size per
    /// type, so the replacement must have the slot's byte size.
    pub fn get_mut(&mut self, index: usize, expected: TypeTag, bytes: &[u8]) -> (r: Result<
        Option<()>,
        TypeMismatch,
    >)
        requires
            old(self).wf(),
            index < old(self)@.len() && old(self)@[index as int].tag == expected ==> bytes@.len()
                == old(self)@[index as int].bytes.len(),
        ensures
            final(self).wf(),
            index >= old(self)@.len() ==> (r matches Ok(o) && o is None) && *final(self) == *old(
                self,
            ),
            index < old(self)@.len() && old(self)@[index as int].tag != expected ==> *final(self)
                == *old(self) && (r matches Err(e) && e == (TypeMismatch {
                expected,
                actual: old(self)@[index as int].tag,
            })),
            index < old(self)@.len() && old(self)@[index as int].tag == expected ==> (r matches Ok(
                o,
            ) && o == Some(())) && final(self)@ == old(self)@.update(
                index as int,
                (Elem { tag: expected, bytes: bytes@ }),
            ),
            final(self).arena_capacity() == old(self).arena_capacity(),
            final(self).slot_capacity() == old(self).slot_capacity(),
    {
        if index >= self.meta.len() {
            return Ok(None);
        }
        let m = self.meta[index];
        if m.type_id != expected {
            return Err(TypeMismatch { expected, actual: m.type_id });
        }
        let ghost s0 = self.meta@;
        let ghost a0 = self.data@;
        proof {
            lemma_span_in_bounds(s0, index as int);
            lemma_prefix_size_nonneg(s0, index as int);
        }
        let di: usize = m.data_index;
        let ts: usize = m.type_size;

        let mut k: usize = 0;
        while k < bytes.len()
            invariant
                k <= ts,
                ts == bytes@.len(),
                di + ts <= a0.len(),
                a0.len() <= usize::MAX,
                self.meta@ == s0,
                self.data@.len() == a0.len(),
                forall|p: int| 0 <= p < di ==> self.data@[p] == a0[p],
                forall|p: int| di + ts <= p < a0.len() ==> self.data@[p] == a0[p],
                forall|p: int| di + k <= p < di + ts ==> self.data@[p] == a0[p],
                forall|p: int| 0 <= p < k ==> self.data@[di + p] == bytes@[p],
                self.data_cap == old(self).data_cap,
                self.meta_cap == old(self).meta_cap,
            decreases ts - k,
        {
            let b: u8 = bytes[k];
            self.data[di + k] = b;
            k += 1;
        }

        proof {
            let a2 = self.data@;
            assert forall|j: int| 0 <= j < s0.len() implies self@[j] =~= old(self)@.update(
                index as int,
                (Elem { tag: expected, bytes: bytes@ }),
            )[j] by {
                lemma_span_in_bounds(s0, j);
                if j < index {
                    lemma_prefix_size_mono(s0, j + 1, index as int);
                    assert(a2.subrange(s0[j].data_index as int, s0[j].data_index + s0[j].type_size)
                        =~= a0.subrange(
                        s0[j].data_index as int,
                        s0[j].data_index + s0[j].type_size,
                    ));
                } else if j == index {
                    assert(a2.subrange(di as int, di + ts) =~= bytes@);
                } else {
                    lemma_prefix_size_mono(s0, index as int + 1, j);
                    assert(s0[j].data_index == prefix_size(s0, j));
                    assert(prefix_size(s0, index as int + 1) == di + ts);
                    assert(a2.subrange(s0[j].data_index as int, s0[j].data_index + s0[j].type_size)
                        =~= a0.subrange(
                        s0[j].data_index as int,
                        s0[j].data_index + s0[j].type_size,
                    ));
                }
            }
            assert(self@ =~~= old(self)@.update(
                index as int,
                (Elem { tag: expected, bytes: bytes@ }),
            ));
        }
        Ok(Some(()))
    }

    /// Returns whether the element at position `index` carries the type
    /// identity `expected`, or `None` if the index is out of bounds.
    pub fn is(&self, index: usize, expected: TypeTag) -> (r: Option<bool>)
        ensures
            index < self@.len() ==> r == Some(self@[index as int].tag == expected),
            index >= self@.len() ==> r is None,
    {
        if index < self.meta.len() {
            Some(self.meta[index].type_id == expected)
        } else {
            None
        }
    }
}

/// How one insertion reshapes the two buffers: `s1` is the old slot table
/// `s0` with the offsets at or after `index` shifted right by the new
/// element's size, `s2` is `s1` with the new record inserted, and `a2` is
/// the old arena `a0` with the new bytes spliced in. The result is again
/// well formed and fully accounted for.
proof fn lemma_insert_shape(
    s0: Seq<AnyMeta>,
    s1: Seq<AnyMeta>,
    s2: Seq<AnyMeta>,
    a0: Seq<u8>,
    a2: Seq<u8>,
    index: int,
    m_new: AnyMeta,
    ins: Seq<u8>,
)
    requires
        slots_wf(s0),
        a0.len() == total_size(s0),
        0 <= index <= s0.len(),
        s1.len() == s0.len(),
        forall|j: int| 0 <= j < index ==> s1[j] == s0[j],
        forall|j: int|
            index <= j < s0.len() ==> (#[trigger] s1[j]).type_id == s0[j].type_id
                && s1[j].type_size == s0[j].type_size && s1[j].data_index == s0[j].data_index
                + ins.len(),
        s2 == s1.insert(index, m_new),
        m_new.data_index == prefix_size(s0, index),
        m_new.type_size == ins.len(),
        a2 == splice(a0, m_new.data_index as int, ins),
    ensures
        slots_wf(s2),
        a2.len() == total_size(s2),
{
    assert forall|i: int| 0 <= i <= s0.len() implies prefix_size(s1, i) == prefix_size(s0, i) by {
        lemma_prefix_size_agree(s1, s0, i);
    }
    lemma_prefix_size_nonneg(s0, index);
    lemma_prefix_size_mono(s0, index, s0.len() as int);
    assert forall|i: int| 0 <= i < s2.len() implies (#[trigger] s2[i]).data_index == prefix_size(
        s2,
        i,
    ) by {
        lemma_prefix_size_insert(s1, index, m_new, i);
        if i < index {
            assert(s2[i] == s1[i]);
        } else if i == index {
            assert(s2[i] == m_new);
        } else {
            assert(s2[i] == s1[i - 1]);
        }
    }
    lemma_prefix_size_insert(s1, index, m_new, s2.len() as int);
}

/// Where each element's span lands after an insertion, under the same
/// relation of `s0`, `s1`, `s2`, `a0`, `a2` as in [`lemma_insert_shape`]:
/// elements before `index` keep their bytes in place, position `index`
/// holds the inserted bytes, and later elements keep their bytes shifted
/// right by the inserted length.
proof fn lemma_insert_elem(
    s0: Seq<AnyMeta>,
    s1: Seq<AnyMeta>,
    s2: Seq<AnyMeta>,
    a0: Seq<u8>,
    a2: Seq<u8>,
    index: int,
    m_new: AnyMeta,
    ins: Seq<u8>,
    i2: int,
)
    requires
        slots_wf(s0),
        a0.len() == total_size(s0),
        0 <= index <= s0.len(),
        s1.len() == s0.len(),
        forall|j: int| 0 <= j < index ==> s1[j] == s0[j],
        forall|j: int|
            index <= j < s0.len() ==> (#[trigger] s1[j]).type_id == s0[j].type_id
                && s1[j].type_size == s0[j].type_size && s1[j].data_index == s0[j].data_index
                + ins.len(),
        s2 == s1.insert(index, m_new),
        m_new.data_index == prefix_size(s0, index),
        m_new.type_size == ins.len(),
        a2 == splice(a0, m_new.data_index as int, ins),
        0 <= i2 < s2.len(),
    ensures
        i2 < index ==> s2[i2].type_id == s0[i2].type_id && a2.subrange(
            s2[i2].data_index as int,
            s2[i2].data_index + s2[i2].type_size,
        ) == a0.subrange(s0[i2].data_index as int, s0[i2].data_index + s0[i2].type_size),
        i2 == index ==> s2[i2].type_id == m_new.type_id && a2.subrange(
            s2[i2].data_index as int,
            s2[i2].data_index + s2[i2].type_size,
        ) == ins,
        i2 > index ==> s2[i2].type_id == s0[i2 - 1].type_id && a2.subrange(
            s2[i2].data_index as int,
            s2[i2].data_index + s2[i2].type_size,
        ) == a0.subrange(s0[i2 - 1].data_index as int, s0[i2 - 1].data_index + s0[i2 - 1].type_size),
{
    lemma_prefix_size_nonneg(s0, index);
    lemma_prefix_size_mono(s0, index, s0.len() as int);
    let di = m_new.data_index as int;
    if i2 < index {
        assert(s2[i2] == s1[i2]);
        lemma_span_in_bounds(s0, i2);
        lemma_prefix_size_mono(s0, i2 + 1, index);
        lemma_splice_subrange_before(
            a0,
            di,
            ins,
            s0[i2].data_index as int,
            s0[i2].data_index + s0[i2].type_size,
        );
    } else if i2 == index {
        assert(s2[i2] == m_new);
        lemma_splice_subrange_at(a0, di, ins);
    } else {
        assert(s2[i2] == s1[i2 - 1]);
        lemma_span_in_bounds(s0, i2 - 1);
        lemma_prefix_size_mono(s0, index, i2 - 1);
        lemma_splice_subrange_after(
            a0,
            di,
            ins,
            s0[i2 - 1].data_index as int,
            s0[i2 - 1].data_index + s0[i2 - 1].type_size,
        );
    }
}

/// How one removal reshapes the two buffers: `s2` is the old slot table
/// `s0` without the record at `index` and with the offsets after it shifted
/// left by the removed element's size, and the old arena `a0` is the new
/// arena `a2` with the removed bytes `rem` spliced back in at the removed
/// slot's offset. The result is again well formed and fully accounted for.
proof fn lemma_remove_shape(
    s0: Seq<AnyMeta>,
    s2: Seq<AnyMeta>,
    a0: Seq<u8>,
    a2: Seq<u8>,
    rem: Seq<u8>,
    index: int,
)
    requires
        slots_wf(s0),
        a0.len() == total_size(s0),
        0 <= index < s0.len(),
        s2.len() == s0.len() - 1,
        forall|j: int| 0 <= j < index ==> s2[j] == s0[j],
        forall|j: int|
            index <= j < s2.len() ==> (#[trigger] s2[j]).type_id == s0[j + 1].type_id
                && s2[j].type_size == s0[j + 1].type_size && s2[j].data_index == s0[j + 1].data_index
                - s0[index].type_size,
        a2.len() == a0.len() - s0[index].type_size,
        rem.len() == s0[index].type_size,
        a0 == splice(a2, s0[index].data_index as int, rem),
    ensures
        slots_wf(s2),
        a2.len() == total_size(s2),
{
    let rm = s0.remove(index);
    assert forall|i: int| 0 <= i <= s2.len() implies prefix_size(s2, i) == prefix_size(rm, i) by {
        lemma_prefix_size_agree(s2, rm, i);
    }
    assert forall|i: int| 0 <= i < s2.len() implies (#[trigger] s2[i]).data_index == prefix_size(
        s2,
        i,
    ) by {
        lemma_prefix_size_remove(s0, index, i);
        if i >= index {
            assert(prefix_size(s0, index + 1) == prefix_size(s0, index) + s0[index].type_size);
        }
    }
    lemma_prefix_size_remove(s0, index, s2.len() as int);
    assert(prefix_size(s0, index + 1) == prefix_size(s0, index) + s0[index].type_size);
}

/// Where each element's span lands after a removal, under the same relation
/// of `s0`, `s2`, `a0`, `a2`, `rem` as in [`lemma_remove_shape`]: elements
/// before `index` keep their bytes in place, and those after it keep their
/// bytes shifted left by the removed length.
proof fn lemma_remove_elem(
    s0: Seq<AnyMeta>,
    s2: Seq<AnyMeta>,
    a0: Seq<u8>,
    a2: Seq<u8>,
    rem: Seq<u8>,
    index: int,
    j: int,
)
    requires
        slots_wf(s0),
        a0.len() == total_size(s0),
        0 <= index < s0.len(),
        s2.len() == s0.len() - 1,
        forall|j2: int| 0 <= j2 < index ==> s2[j2] == s0[j2],
        forall|j2: int|
            index <= j2 < s2.len() ==> (#[trigger] s2[j2]).type_id == s0[j2 + 1].type_id && s2[j2].type_size
                == s0[j2 + 1].type_size && s2[j2].data_index == s0[j2 + 1].data_index
                - s0[index].type_size,
        a2.len() == a0.len() - s0[index].type_size,
        rem.len() == s0[index].type_size,
        a0 == splice(a2, s0[index].data_index as int, rem),
        0 <= j < s2.len(),
    ensures
        j < index ==> a2.subrange(s2[j].data_index as int, s2[j].data_index + s2[j].type_size)
            == a0.subrange(s0[j].data_index as int, s0[j].data_index + s0[j].type_size),
        j >= index ==> a2.subrange(s2[j].data_index as int, s2[j].data_index + s2[j].type_size)
            == a0.subrange(s0[j + 1].data_index as int, s0[j + 1].data_index + s0[j + 1].type_size),
{
    let di = s0[index].data_index as int;
    let ts = s0[index].type_size as int;
    lemma_span_in_bounds(s0, index);
    lemma_prefix_size_mono(s0, index + 1, s0.len() as int);
    assert(prefix_size(s0, index + 1) == prefix_size(s0, index) + ts);
    if j < index {
        lemma_span_in_bounds(s0, j);
        lemma_prefix_size_mono(s0, j + 1, index);
        lemma_splice_subrange_before(
            a2,
            di,
            rem,
            s0[j].data_index as int,
            s0[j].data_index + s0[j].type_size,
        );
    } else {
        lemma_span_in_bounds(s0, j + 1);
        lemma_prefix_size_mono(s0, index + 1, j + 1);
        lemma_splice_subrange_after(
            a2,
            di,
            rem,
            s0[j + 1].data_index - ts,
            s0[j + 1].data_index - ts + s0[j + 1].type_size,
        );
    }
}

} // verus!
