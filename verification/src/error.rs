//! Error types of the crate.
use vstd::prelude::*;
use crate::layout::Layout;
use std::any::TypeId;

verus! {

/// The reason a reservation of memory failed.
#[derive(Copy, Clone, PartialEq, Eq, Debug)]
pub enum TryReserveErrorKind {
    /// The requested capacity exceeds the maximum size of an allocation (`isize::MAX` bytes),
    /// or the element count computation overflowed.
    CapacityOverflow,
    /// The memory allocator refused to provide memory for the given layout.
    AllocError { layout: Layout },
}

/// The error returned by the fallible memory reservation methods.
#[derive(Copy, Clone, PartialEq, Eq, Debug)]
pub struct TryReserveError {
    kind: TryReserveErrorKind,
}

impl TryReserveError {
    /// The kind of the error, as a specification value.
    pub closed spec fn spec_kind(&self) -> TryReserveErrorKind {
        self.kind
    }

    /// Constructs an error of the given kind.
    pub fn from_kind(kind: TryReserveErrorKind) -> (r: Self)
        ensures
            r.spec_kind() == kind,
    {
        TryReserveError { kind }
    }

    /// Returns the kind of the error.
    pub fn kind(&self) -> (r: TryReserveErrorKind)
        ensures
            r == self.spec_kind(),
    {
        self.kind
    }
}

/// Which runtime type did not match during a type projection.
#[derive(Copy, Clone, PartialEq, Eq, Debug)]
pub enum TryProjectVecErrorKind {
    /// The element type did not match.
    Element,
    /// The allocator type did not match.
    Allocator,
}

/// The error type of the checked type projections of a [`crate::TypeErasedVec`].
#[derive(Copy, Clone, PartialEq, Eq, Debug)]
pub struct TryProjectVecError {
    kind: TryProjectVecErrorKind,
    expected: TypeId,
    result: TypeId,
}

impl TryProjectVecError {
    /// The kind of the error.
    pub closed spec fn spec_kind(&self) -> TryProjectVecErrorKind {
        self.kind
    }

    /// The type identifier stored in the vector.
    pub closed spec fn spec_expected(&self) -> TypeId {
        self.expected
    }

    /// The type identifier that was supplied for the projection.
    pub closed spec fn spec_result(&self) -> TypeId {
        self.result
    }

    /// Constructs a new type projection error.
    pub fn new(kind: TryProjectVecErrorKind, expected: TypeId, result: TypeId) -> (r: Self)
        ensures
            r.spec_kind() == kind,
            r.spec_expected() == expected,
            r.spec_result() == result,
    {
        TryProjectVecError { kind, expected, result }
    }

    /// Returns which data type did not match.
    pub fn kind(&self) -> (r: TryProjectVecErrorKind)
        ensures
            r == self.spec_kind(),
    {
        self.kind
    }

    /// Returns the type identifier of the type that the vector holds.
    pub fn expected(&self) -> (r: TypeId)
        ensures
            r == self.spec_expected(),
    {
        self.expected
    }

    /// Returns the type identifier of the type that was supplied for the projection.
    pub fn result(&self) -> (r: TypeId)
        ensures
            r == self.spec_result(),
    {
        self.result
    }
}

} // verus!
