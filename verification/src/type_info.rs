//! Runtime type identifiers.
use vstd::prelude::*;
use std::any::TypeId;

verus! {

/// The runtime type identifier of the standard library.
#[verifier::external_type_specification]
#[verifier::external_body]
pub struct ExTypeId(std::any::TypeId);

/// Calls `TypeId::of::<T>()`, the identifier of the type `T`.
///
/// Nothing is promised about the value: its relation to `T` cannot be written as a
/// specification here.
#[verifier::external_body]
pub(crate) fn type_id_of<T: 'static>() -> (r: TypeId) {
    TypeId::of::<T>()
}

/// Calls `<TypeId as PartialEq>::eq`.
///
/// The contract states that two type identifiers compare equal exactly when they are the
/// same value, which is what the standard library documents for `TypeId`.
#[verifier::external_body]
pub(crate) fn type_id_eq(a: &TypeId, b: &TypeId) -> (r: bool)
    ensures
        r == (*a == *b),
{
    *a == *b
}

} // verus!
