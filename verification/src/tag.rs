//! Type identity tokens, the type-mismatch error, and the logical model of
//! one stored element.

use vstd::prelude::*;

verus! {

/// A process-stable identifier of a concrete stored type.
///
/// The container never interprets the identifier; it only compares tags for
/// equality when a typed access names an expected type. Callers choose the
/// mapping from concrete types to tags and must keep it injective: one tag
/// per concrete type, and one fixed byte size per tag.
#[derive(Clone, Copy, Debug, PartialEq, Eq, Structural)]
pub struct TypeTag {
    pub id: u64,
}

/// The recoverable failure of a typed access: the slot holds a value of a
/// different type than the caller asked for. Carries both identities and
/// leaves the container unmodified.
#[derive(Clone, Copy, Debug, PartialEq, Eq, Structural)]
pub struct TypeMismatch {
    /// The tag the caller asked for.
    pub expected: TypeTag,
    /// The tag stored in the slot.
    pub actual: TypeTag,
}

/// The logical model of one stored element: its type identity and the bytes
/// of its representation. A container's view is a sequence of these, in
/// logical order.
#[verifier::ext_equal]
pub ghost struct Elem {
    pub tag: TypeTag,
    pub bytes: Seq<u8>,
}

} // verus!
