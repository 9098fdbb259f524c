//! A growable list type with dynamic typing.
//!
//! An `AnyVec` stores values of arbitrarily many concrete types in one
//! contiguous byte arena, with a parallel slot table recording each element's
//! byte offset, type identity, and byte size. Elements enter and leave the
//! container as a [`TypeTag`] paired with their fixed-size byte
//! representation; typed access checks the stored tag before handing the
//! bytes back.

mod bytes;
mod container;
mod laws;
mod slot;
mod tag;

pub use crate::container::AnyVec;
pub use crate::laws::lemma_capacity_bytes_bounded;
pub use crate::laws::lemma_insert_get_round_trip;
pub use crate::laws::lemma_with_capacity_holds_count;
pub use crate::slot::AnyMeta;
pub use crate::slot::prefix_size;
pub use crate::slot::slots_wf;
pub use crate::slot::total_size;
pub use crate::tag::Elem;
pub use crate::tag::TypeMismatch;
pub use crate::tag::TypeTag;
