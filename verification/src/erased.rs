//! The type-erased vector.
use vstd::prelude::*;
use crate::error::{TryProjectVecError, TryProjectVecErrorKind, TryReserveError, TryReserveErrorKind};
use crate::layout::Layout;
use crate::opaque_vec_inner::{OpaqueVecInner, bytes_eq, spec_keeps_bytes, spec_same_bytes};
use crate::vec::{spec_filter, spec_dedup_decisions, spec_keep_unmarked};
use crate::raw_vec::{RawVecMemory, spec_new_capacity};
use crate::type_info::{type_id_eq, type_id_of};
use crate::vec::Global;
use std::any::TypeId;

verus! {

/// A contiguous growable array whose element type and allocator type are known only at
/// runtime, through their type identifiers and the element layout.
///
/// The elements are held as their byte representations, back to back in one buffer, with the
/// capacity policy of [`RawVecMemory`].
pub struct TypeErasedVec {
    element_type_id: TypeId,
    allocator_type_id: TypeId,
    inner: OpaqueVecInner,
}

impl View for TypeErasedVec {
    type V = Seq<Seq<u8>>;

    /// The elements, each as its bytes.
    closed spec fn view(&self) -> Seq<Seq<u8>> {
        self.inner@
    }
}

impl TypeErasedVec {
    /// The type identifier of the element type.
    pub closed spec fn spec_element_type_id(&self) -> TypeId {
        self.element_type_id
    }

    /// The type identifier of the allocator type.
    pub closed spec fn spec_allocator_type_id(&self) -> TypeId {
        self.allocator_type_id
    }

    /// The byte-level storage.
    pub closed spec fn spec_inner(&self) -> OpaqueVecInner {
        self.inner
    }

    /// The capacity bookkeeping.
    pub open spec fn spec_raw(&self) -> RawVecMemory {
        self.spec_inner().spec_raw()
    }

    /// The layout of one element.
    pub open spec fn spec_layout(&self) -> Layout {
        self.spec_raw().spec_layout()
    }

    /// The capacity in elements.
    pub open spec fn spec_capacity(&self) -> nat {
        self.spec_raw().spec_capacity()
    }

    /// The size of one element in bytes.
    pub open spec fn spec_size(&self) -> nat {
        self.spec_layout().spec_size()
    }

    /// Whether pushing one element is possible without a capacity overflow.
    pub open spec fn spec_can_push(&self) -> bool {
        self.spec_inner().spec_can_push()
    }

    /// Whether reserving room for `additional` more elements is possible without a capacity
    /// overflow.
    pub open spec fn spec_can_reserve(&self, additional: nat) -> bool {
        self.spec_inner().spec_can_reserve(additional)
    }

    /// Whether both vectors have the same element type, allocator type and element layout.
    pub open spec fn spec_same_types(&self, other: &TypeErasedVec) -> bool {
        &&& self.spec_element_type_id() == other.spec_element_type_id()
        &&& self.spec_allocator_type_id() == other.spec_allocator_type_id()
        &&& self.spec_layout() == other.spec_layout()
    }

    /// The invariant of the byte-level storage.
    pub open spec fn wf(&self) -> bool {
        &&& self.spec_inner().wf()
        &&& self@ == self.spec_inner()@
    }

    /// The outcome of projecting onto the types with identifiers `element` and `allocator`:
    /// the element type is checked first.
    pub open spec fn spec_projection(&self, element: TypeId, allocator: TypeId) -> Option<(TryProjectVecErrorKind, TypeId, TypeId)> {
        if self.spec_element_type_id() != element {
            Some((TryProjectVecErrorKind::Element, self.spec_element_type_id(), element))
        } else if self.spec_allocator_type_id() != allocator {
            Some((TryProjectVecErrorKind::Allocator, self.spec_allocator_type_id(), allocator))
        } else {
            None
        }
    }

    fn from_inner(element_type_id: TypeId, allocator_type_id: TypeId, inner: OpaqueVecInner) -> (r: Self)
        requires
            inner.wf(),
        ensures
            r.wf(),
            r.spec_inner() == inner,
            r.spec_element_type_id() == element_type_id,
            r.spec_allocator_type_id() == allocator_type_id,
    {
        TypeErasedVec { element_type_id, allocator_type_id, inner }
    }

    /// Constructs a new empty vector for elements of type `T` and the allocator type `A`. It
    /// does not allocate; the allocator value itself is not kept.
    pub fn new_in<T: 'static, A: 'static>(alloc: A) -> (r: Self)
        ensures
            r.wf(),
            r@ == Seq::<Seq<u8>>::empty(),
            r.spec_layout() == Layout::spec_of::<T>(),
            r.spec_raw().spec_stored() == 0,
    {
        let layout = Layout::new::<T>();
        Self::from_inner(type_id_of::<T>(), type_id_of::<A>(), OpaqueVecInner::new_in(layout))
    }

    /// Constructs a new empty vector for elements of type `T` with the global allocator.
    pub fn new<T: 'static>() -> (r: Self)
        ensures
            r.wf(),
            r@ == Seq::<Seq<u8>>::empty(),
            r.spec_layout() == Layout::spec_of::<T>(),
            r.spec_raw().spec_stored() == 0,
    {
        Self::new_in::<T, Global>(Global)
    }

    /// Constructs a new empty vector for `capacity` elements of type `T` and the allocator
    /// type `A`.
    pub fn with_capacity_in<T: 'static, A: 'static>(capacity: usize, alloc: A) -> (r: Self)
        requires
            Layout::spec_of::<T>().array_fits(capacity as nat),
        ensures
            r.wf(),
            r@ == Seq::<Seq<u8>>::empty(),
            r.spec_layout() == Layout::spec_of::<T>(),
            r.spec_raw().spec_stored() == spec_new_capacity(capacity as nat, Layout::spec_of::<T>()),
    {
        let layout = Layout::new::<T>();
        Self::from_inner(type_id_of::<T>(), type_id_of::<A>(), OpaqueVecInner::with_capacity_in(capacity, layout))
    }

    /// Constructs a new empty vector for `capacity` elements of type `T` with the global
    /// allocator.
    pub fn with_capacity<T: 'static>(capacity: usize) -> (r: Self)
        requires
            Layout::spec_of::<T>().array_fits(capacity as nat),
        ensures
            r.wf(),
            r@ == Seq::<Seq<u8>>::empty(),
            r.spec_layout() == Layout::spec_of::<T>(),
            r.spec_raw().spec_stored() == spec_new_capacity(capacity as nat, Layout::spec_of::<T>()),
    {
        Self::with_capacity_in::<T, Global>(capacity, Global)
    }

    /// Constructs a new empty vector for `capacity` elements of type `T` and the allocator type
    /// `A`, or reports why the memory could not be reserved.
    pub fn try_with_capacity_in<T: 'static, A: 'static>(capacity: usize, alloc: A) -> (r: Result<Self, TryReserveError>)
        ensures
            !Layout::spec_of::<T>().array_fits(capacity as nat) ==> (r matches Err(e) && e.spec_kind() == TryReserveErrorKind::CapacityOverflow),
            Layout::spec_of::<T>().array_fits(capacity as nat) ==> match r {
                Ok(v) => {
                    &&& v.wf()
                    &&& v@ == Seq::<Seq<u8>>::empty()
                    &&& v.spec_layout() == Layout::spec_of::<T>()
                    &&& v.spec_raw().spec_stored() == spec_new_capacity(capacity as nat, Layout::spec_of::<T>())
                },
                Err(e) => e.spec_kind() is AllocError,
            },
    {
        let layout = Layout::new::<T>();
        match OpaqueVecInner::try_with_capacity_in(capacity, layout) {
            Ok(inner) => Ok(Self::from_inner(type_id_of::<T>(), type_id_of::<A>(), inner)),
            Err(e) => Err(e),
        }
    }

    /// Constructs a new empty vector for `capacity` elements of type `T` with the global
    /// allocator, or reports why the memory could not be reserved.
    pub fn try_with_capacity<T: 'static>(capacity: usize) -> (r: Result<Self, TryReserveError>)
        ensures
            !Layout::spec_of::<T>().array_fits(capacity as nat) ==> (r matches Err(e) && e.spec_kind() == TryReserveErrorKind::CapacityOverflow),
            Layout::spec_of::<T>().array_fits(capacity as nat) ==> match r {
                Ok(v) => {
                    &&& v.wf()
                    &&& v@ == Seq::<Seq<u8>>::empty()
                    &&& v.spec_layout() == Layout::spec_of::<T>()
                    &&& v.spec_raw().spec_stored() == spec_new_capacity(capacity as nat, Layout::spec_of::<T>())
                },
                Err(e) => e.spec_kind() is AllocError,
            },
    {
        Self::try_with_capacity_in::<T, Global>(capacity, Global)
    }

    /// Returns the type identifier of the element type.
    pub fn element_type_id(&self) -> (r: TypeId)
        ensures
            r == self.spec_element_type_id(),
    {
        self.element_type_id
    }

    /// Returns the type identifier of the allocator type.
    pub fn allocator_type_id(&self) -> (r: TypeId)
        ensures
            r == self.spec_allocator_type_id(),
    {
        self.allocator_type_id
    }

    /// Returns whether the elements have the type with identifier `id`.
    pub fn has_element_type_id(&self, id: &TypeId) -> (r: bool)
        ensures
            r == (self.spec_element_type_id() == *id),
    {
        type_id_eq(&self.element_type_id, id)
    }

    /// Returns whether the allocator has the type with identifier `id`.
    pub fn has_allocator_type_id(&self, id: &TypeId) -> (r: bool)
        ensures
            r == (self.spec_allocator_type_id() == *id),
    {
        type_id_eq(&self.allocator_type_id, id)
    }

    /// Returns whether the elements have the type `T`.
    ///
    /// The identifier of `T` comes from the standard library; what it is cannot be stated
    /// here, so the contract of [`TypeErasedVec::has_element_type_id`] is the exact one.
    pub fn has_element_type<T: 'static>(&self) -> bool {
        let id = type_id_of::<T>();
        self.has_element_type_id(&id)
    }

    /// Returns whether the allocator has the type `A`.
    ///
    /// The identifier of `A` comes from the standard library; what it is cannot be stated
    /// here, so the contract of [`TypeErasedVec::has_allocator_type_id`] is the exact one.
    pub fn has_allocator_type<A: 'static>(&self) -> bool {
        let id = type_id_of::<A>();
        self.has_allocator_type_id(&id)
    }

    /// Checks a projection onto the types with identifiers `element` and `allocator`: the
    /// element type is checked first, then the allocator type; a mismatch names the stored
    /// identifier and the supplied one.
    pub fn check_projection(&self, element: &TypeId, allocator: &TypeId) -> (r: Result<(), TryProjectVecError>)
        ensures
            match self.spec_projection(*element, *allocator) {
                None => r is Ok,
                Some((kind, expected, result)) => r matches Err(e) && e.spec_kind() == kind
                    && e.spec_expected() == expected && e.spec_result() == result,
            },
    {
        if !self.has_element_type_id(element) {
            return Err(TryProjectVecError::new(TryProjectVecErrorKind::Element, self.element_type_id, *element));
        }
        if !self.has_allocator_type_id(allocator) {
            return Err(TryProjectVecError::new(TryProjectVecErrorKind::Allocator, self.allocator_type_id, *allocator));
        }
        Ok(())
    }

    /// Checks a projection onto the element type `T` and the allocator type `A`.
    pub fn try_check_projection<T: 'static, A: 'static>(&self) -> (r: Result<(), TryProjectVecError>)
        ensures
            exists|element: TypeId, allocator: TypeId| match #[trigger] self.spec_projection(element, allocator) {
                None => r is Ok,
                Some((kind, expected, result)) => r matches Err(e) && e.spec_kind() == kind
                    && e.spec_expected() == expected && e.spec_result() == result,
            },
    {
        let element = type_id_of::<T>();
        let allocator = type_id_of::<A>();
        self.check_projection(&element, &allocator)
    }

    /// Returns the layout of one element.
    pub fn element_layout(&self) -> (r: Layout)
        ensures
            r == self.spec_layout(),
    {
        self.inner.element_layout()
    }

    /// Returns the capacity in elements.
    pub fn capacity(&self) -> (r: usize)
        requires
            self.wf(),
        ensures
            r == self.spec_capacity(),
    {
        self.inner.capacity()
    }

    /// Returns the number of elements.
    pub fn len(&self) -> (r: usize)
        requires
            self.wf(),
        ensures
            r == self@.len(),
    {
        self.inner.len()
    }

    /// Returns whether there are no elements.
    pub fn is_empty(&self) -> (r: bool)
        requires
            self.wf(),
        ensures
            r == (self@.len() == 0),
    {
        self.inner.is_empty()
    }

    /// Returns the bytes of all elements, back to back.
    pub fn as_byte_slice(&self) -> (r: &[u8])
        requires
            self.wf(),
        ensures
            r@ == self.spec_inner().spec_bytes(),
    {
        self.inner.as_byte_slice()
    }

    /// Returns a copy of the bytes of the element at `index`.
    pub fn get_unchecked(&self, index: usize) -> (r: Vec<u8>)
        requires
            self.wf(),
            index < self@.len(),
        ensures
            r@ == self@[index as int],
    {
        self.inner.get_unchecked(index)
    }

    /// Returns a copy of the bytes of the element at `index`, or `None` when `index` is out of
    /// bounds.
    pub fn get(&self, index: usize) -> (r: Option<Vec<u8>>)
        requires
            self.wf(),
        ensures
            index >= self@.len() ==> r is None,
            index < self@.len() ==> (r matches Some(v) && v@ == self@[index as int]),
    {
        if index < self.inner.len() {
            Some(self.inner.get_unchecked(index))
        } else {
            None
        }
    }

    /// Appends the element whose bytes are `value`, growing amortized when the vector is full.
    pub fn push(&mut self, value: &[u8])
        requires
            old(self).wf(),
            value@.len() == old(self).spec_size(),
            old(self).spec_can_push(),
        ensures
            final(self).wf(),
            final(self)@ == old(self)@.push(value@),
            old(self).spec_inner().spec_grown_raw(final(self).spec_raw()),
            final(self).spec_same_types(old(self)),
    {
        self.inner.push(value);
    }

    /// Removes the last element and returns its bytes, or `None` when the vector is empty.
    pub fn pop(&mut self) -> (r: Option<Vec<u8>>)
        requires
            old(self).wf(),
        ensures
            final(self).wf(),
            final(self).spec_raw() == old(self).spec_raw(),
            final(self).spec_same_types(old(self)),
            old(self)@.len() == 0 ==> r is None && final(self)@ == old(self)@,
            old(self)@.len() > 0 ==> (r matches Some(v) && v@ == old(self)@.last()) && final(self)@ == old(self)@.drop_last(),
    {
        self.inner.pop()
    }

    /// Appends the element whose bytes are `value` when there is room for it without growing;
    /// otherwise hands `value` back.
    pub fn push_within_capacity(&mut self, value: Vec<u8>) -> (r: Result<(), Vec<u8>>)
        requires
            old(self).wf(),
            value@.len() == old(self).spec_size(),
        ensures
            final(self).wf(),
            final(self).spec_raw() == old(self).spec_raw(),
            final(self).spec_same_types(old(self)),
            old(self)@.len() < old(self).spec_capacity() ==> r is Ok && final(self)@ == old(self)@.push(value@),
            old(self)@.len() >= old(self).spec_capacity() ==> (r matches Err(v) && v@ == value@) && final(self)@ == old(self)@,
    {
        if self.inner.len() < self.inner.capacity() {
            self.inner.push(value.as_slice());
            Ok(())
        } else {
            Err(value)
        }
    }

    /// Replaces the element at `index` with the one whose bytes are `value`, or appends it when
    /// `index` is the length. A full vector grows first, even when an element is replaced.
    pub fn replace_insert(&mut self, index: usize, value: &[u8])
        requires
            old(self).wf(),
            index <= old(self)@.len(),
            value@.len() == old(self).spec_size(),
            old(self).spec_can_push(),
        ensures
            final(self).wf(),
            index < old(self)@.len() ==> final(self)@ == old(self)@.update(index as int, value@),
            index == old(self)@.len() ==> final(self)@ == old(self)@.push(value@),
            old(self).spec_inner().spec_grown_raw(final(self).spec_raw()),
            final(self).spec_same_types(old(self)),
    {
        self.inner.replace_insert(index, value);
    }

    /// Inserts the element whose bytes are `value` at `index`, shifting the elements from
    /// `index` on up by one.
    pub fn shift_insert(&mut self, index: usize, value: &[u8])
        requires
            old(self).wf(),
            index <= old(self)@.len(),
            value@.len() == old(self).spec_size(),
            old(self).spec_can_push(),
        ensures
            final(self).wf(),
            final(self)@ == old(self)@.insert(index as int, value@),
            old(self).spec_inner().spec_grown_raw(final(self).spec_raw()),
            final(self).spec_same_types(old(self)),
    {
        self.inner.shift_insert(index, value);
    }

    /// Removes the element at `index`, moving the last element into its place, and returns its
    /// bytes.
    pub fn swap_remove(&mut self, index: usize) -> (r: Vec<u8>)
        requires
            old(self).wf(),
            index < old(self)@.len(),
        ensures
            final(self).wf(),
            r@ == old(self)@[index as int],
            final(self)@ == old(self)@.update(index as int, old(self)@.last()).drop_last(),
            final(self).spec_raw() == old(self).spec_raw(),
            final(self).spec_same_types(old(self)),
    {
        self.inner.swap_remove(index)
    }

    /// Removes the element at `index`, shifting the elements after it down by one, and returns
    /// its bytes.
    pub fn shift_remove(&mut self, index: usize) -> (r: Vec<u8>)
        requires
            old(self).wf(),
            index < old(self)@.len(),
        ensures
            final(self).wf(),
            r@ == old(self)@[index as int],
            final(self)@ == old(self)@.remove(index as int),
            final(self).spec_raw() == old(self).spec_raw(),
            final(self).spec_same_types(old(self)),
    {
        self.inner.shift_remove(index)
    }

    /// Returns whether some element has exactly the bytes `value`.
    pub fn contains(&self, value: &[u8]) -> (r: bool)
        requires
            self.wf(),
        ensures
            r == self@.contains(value@),
    {
        let n = self.inner.len();
        let mut i: usize = 0;
        while i < n
            invariant
                0 <= i <= n,
                n == self@.len(),
                self.wf(),
                forall|k: int| 0 <= k < i ==> self@[k] != value@,
            decreases n - i,
        {
            let e = self.inner.get_unchecked(i);
            if bytes_eq(e.as_slice(), value) {
                proof {
                    assert(self@[i as int] == value@);
                }
                return true;
            }
            i = i + 1;
        }
        false
    }

    /// Moves every element of `other`, a vector of the same types, to the end of `self`,
    /// leaving `other` empty with its capacity.
    pub fn append(&mut self, other: &mut Self)
        requires
            old(self).wf(),
            old(other).wf(),
            old(other).spec_same_types(old(self)),
            old(self).spec_can_reserve(old(other)@.len()),
        ensures
            final(self).wf(),
            final(other).wf(),
            final(self)@ == old(self)@ + old(other)@,
            final(other)@ == Seq::<Seq<u8>>::empty(),
            old(self).spec_inner().spec_reserved_raw(old(other)@.len(), final(self).spec_raw()),
            final(other).spec_raw() == old(other).spec_raw(),
            final(self).spec_same_types(old(self)),
            final(other).spec_same_types(old(other)),
    {
        self.inner.append(&mut other.inner);
    }

    /// Splits the vector at `at`: `self` keeps the elements before `at` and its capacity, and
    /// the returned vector of the same types, allocated for exactly the rest, holds the
    /// elements from `at` on.
    pub fn split_off(&mut self, at: usize) -> (r: Self)
        requires
            old(self).wf(),
            at <= old(self)@.len(),
        ensures
            final(self).wf(),
            r.wf(),
            final(self)@ == old(self)@.subrange(0, at as int),
            r@ == old(self)@.subrange(at as int, old(self)@.len() as int),
            final(self).spec_raw() == old(self).spec_raw(),
            r.spec_raw().spec_stored() == spec_new_capacity((old(self)@.len() - at) as nat, old(self).spec_layout()),
            final(self).spec_same_types(old(self)),
            r.spec_same_types(old(self)),
    {
        let tail = self.inner.split_off(at);
        Self::from_inner(self.element_type_id, self.allocator_type_id, tail)
    }

    /// Reserves room for at least `additional` more elements, growing amortized when the
    /// capacity does not suffice.
    pub fn reserve(&mut self, additional: usize)
        requires
            old(self).wf(),
            old(self).spec_can_reserve(additional as nat),
        ensures
            final(self).wf(),
            final(self)@ == old(self)@,
            old(self).spec_inner().spec_reserved_raw(additional as nat, final(self).spec_raw()),
            final(self)@.len() + additional <= final(self).spec_capacity(),
            final(self).spec_same_types(old(self)),
    {
        self.inner.reserve(additional);
    }

    /// Reserves room for exactly `additional` more elements when the capacity does not suffice.
    pub fn reserve_exact(&mut self, additional: usize)
        requires
            old(self).wf(),
            old(self).spec_raw().spec_needs_to_grow(old(self)@.len(), additional as nat) ==> !old(self).spec_raw().spec_exact_overflows(old(self)@.len(), additional as nat),
        ensures
            final(self).wf(),
            final(self)@ == old(self)@,
            final(self).spec_same_types(old(self)),
            !old(self).spec_raw().spec_needs_to_grow(old(self)@.len(), additional as nat) ==> final(self).spec_raw() == old(self).spec_raw(),
            old(self).spec_raw().spec_needs_to_grow(old(self)@.len(), additional as nat) ==> final(self).spec_raw().spec_stored() == old(self).spec_raw().spec_exact_capacity(old(self)@.len(), additional as nat),
            final(self)@.len() + additional <= final(self).spec_capacity(),
    {
        self.inner.reserve_exact(additional);
    }

    /// Tries to reserve room for at least `additional` more elements.
    pub fn try_reserve(&mut self, additional: usize) -> (r: Result<(), TryReserveError>)
        requires
            old(self).wf(),
        ensures
            final(self).wf(),
            final(self)@ == old(self)@,
            final(self).spec_same_types(old(self)),
            !old(self).spec_raw().spec_needs_to_grow(old(self)@.len(), additional as nat) ==> r is Ok && final(self).spec_raw() == old(self).spec_raw(),
            old(self).spec_raw().spec_needs_to_grow(old(self)@.len(), additional as nat) && old(self).spec_raw().spec_amortized_overflows(old(self)@.len(), additional as nat) ==>
                (r matches Err(e) && e.spec_kind() == TryReserveErrorKind::CapacityOverflow) && final(self).spec_raw() == old(self).spec_raw(),
            old(self).spec_raw().spec_needs_to_grow(old(self)@.len(), additional as nat) && !old(self).spec_raw().spec_amortized_overflows(old(self)@.len(), additional as nat) ==> match r {
                Ok(()) => final(self).spec_raw().spec_stored() == old(self).spec_raw().spec_amortized_capacity(old(self)@.len(), additional as nat),
                Err(e) => e.spec_kind() is AllocError && final(self).spec_raw() == old(self).spec_raw(),
            },
            r is Ok ==> final(self)@.len() + additional <= final(self).spec_capacity(),
    {
        self.inner.try_reserve(additional)
    }

    /// Tries to reserve room for exactly `additional` more elements.
    pub fn try_reserve_exact(&mut self, additional: usize) -> (r: Result<(), TryReserveError>)
        requires
            old(self).wf(),
        ensures
            final(self).wf(),
            final(self)@ == old(self)@,
            final(self).spec_same_types(old(self)),
            !old(self).spec_raw().spec_needs_to_grow(old(self)@.len(), additional as nat) ==> r is Ok && final(self).spec_raw() == old(self).spec_raw(),
            old(self).spec_raw().spec_needs_to_grow(old(self)@.len(), additional as nat) && old(self).spec_raw().spec_exact_overflows(old(self)@.len(), additional as nat) ==>
                (r matches Err(e) && e.spec_kind() == TryReserveErrorKind::CapacityOverflow) && final(self).spec_raw() == old(self).spec_raw(),
            old(self).spec_raw().spec_needs_to_grow(old(self)@.len(), additional as nat) && !old(self).spec_raw().spec_exact_overflows(old(self)@.len(), additional as nat) ==> match r {
                Ok(()) => final(self).spec_raw().spec_stored() == old(self).spec_raw().spec_exact_capacity(old(self)@.len(), additional as nat),
                Err(e) => e.spec_kind() is AllocError && final(self).spec_raw() == old(self).spec_raw(),
            },
            r is Ok ==> final(self)@.len() + additional <= final(self).spec_capacity(),
    {
        self.inner.try_reserve_exact(additional)
    }

    /// Shrinks the capacity to the length.
    pub fn shrink_to_fit(&mut self)
        requires
            old(self).wf(),
        ensures
            final(self).wf(),
            final(self)@ == old(self)@,
            final(self).spec_same_types(old(self)),
            old(self).spec_capacity() > old(self)@.len() ==> final(self).spec_raw().spec_stored() == spec_new_capacity(old(self)@.len(), old(self).spec_layout()),
            old(self).spec_capacity() <= old(self)@.len() ==> final(self).spec_raw() == old(self).spec_raw(),
    {
        self.inner.shrink_to_fit();
    }

    /// Shrinks the capacity to the larger of the length and `min_capacity`.
    pub fn shrink_to(&mut self, min_capacity: usize)
        requires
            old(self).wf(),
        ensures
            final(self).wf(),
            final(self)@ == old(self)@,
            final(self).spec_same_types(old(self)),
            old(self).spec_capacity() > min_capacity ==> final(self).spec_raw().spec_stored() == spec_new_capacity(
                if old(self)@.len() >= min_capacity { old(self)@.len() } else { min_capacity as nat },
                old(self).spec_layout(),
            ),
            old(self).spec_capacity() <= min_capacity ==> final(self).spec_raw() == old(self).spec_raw(),
    {
        self.inner.shrink_to(min_capacity);
    }

    /// Removes every element, keeping the capacity.
    pub fn clear(&mut self)
        requires
            old(self).wf(),
        ensures
            final(self).wf(),
            final(self)@ == Seq::<Seq<u8>>::empty(),
            final(self).spec_raw() == old(self).spec_raw(),
            final(self).spec_same_types(old(self)),
    {
        self.inner.clear();
    }

    /// Shortens the vector to `len` elements; does nothing when it is not longer.
    pub fn truncate(&mut self, len: usize)
        requires
            old(self).wf(),
        ensures
            final(self).wf(),
            len <= old(self)@.len() ==> final(self)@ == old(self)@.subrange(0, len as int),
            len > old(self)@.len() ==> final(self)@ == old(self)@,
            final(self).spec_raw() == old(self).spec_raw(),
            final(self).spec_same_types(old(self)),
    {
        self.inner.truncate(len);
    }

    /// Resizes the vector to `new_len` elements, filling a longer vector with copies of the
    /// element whose bytes are `value`.
    pub fn resize(&mut self, new_len: usize, value: &[u8])
        requires
            old(self).wf(),
            value@.len() == old(self).spec_size(),
            new_len > old(self)@.len() ==> old(self).spec_can_reserve((new_len - old(self)@.len()) as nat),
        ensures
            final(self).wf(),
            final(self).spec_same_types(old(self)),
            new_len <= old(self)@.len() ==> final(self)@ == old(self)@.subrange(0, new_len as int) && final(self).spec_raw() == old(self).spec_raw(),
            new_len > old(self)@.len() ==> final(self)@ == old(self)@ + Seq::new((new_len - old(self)@.len()) as nat, |i: int| value@)
                && old(self).spec_inner().spec_reserved_raw((new_len - old(self)@.len()) as nat, final(self).spec_raw()),
    {
        let len = self.inner.len();
        if new_len <= len {
            self.inner.truncate(new_len);
        } else {
            self.inner.extend_with(new_len - len, value);
        }
    }

    /// Appends copies of the elements `others`, each given by its bytes, in order.
    pub fn extend_from_slice(&mut self, others: &[Vec<u8>])
        requires
            old(self).wf(),
            forall|i: int| 0 <= i < others@.len() ==> #[trigger] others@[i]@.len() == old(self).spec_size(),
            old(self).spec_can_reserve(others@.len()),
        ensures
            final(self).wf(),
            final(self)@ == old(self)@ + others@.map_values(|v: Vec<u8>| v@),
            old(self).spec_inner().spec_reserved_raw(others@.len(), final(self).spec_raw()),
            final(self).spec_same_types(old(self)),
    {
        self.inner.extend_from_slice(others);
    }

    /// Keeps the elements on whose bytes `keep` returns `true`, in order, and removes the
    /// others, keeping the capacity.
    pub fn retain<F>(&mut self, keep: F)
        where
            F: FnMut(&[u8]) -> bool,
        requires
            old(self).wf(),
            forall|x: &[u8]| keep.requires((x,)),
        ensures
            final(self).wf(),
            final(self).spec_raw() == old(self).spec_raw(),
            final(self).spec_same_types(old(self)),
            exists|flags: Seq<bool>| {
                &&& flags.len() == old(self)@.len()
                &&& forall|i: int| 0 <= i < old(self)@.len() ==> #[trigger] spec_keeps_bytes(keep, old(self)@[i], flags[i])
                &&& final(self)@ == spec_filter(old(self)@, flags)
            },
    {
        self.inner.retain(keep);
    }

    /// Removes every element whose bytes equal those of the last element kept before it.
    pub fn dedup(&mut self)
        requires
            old(self).wf(),
        ensures
            final(self).wf(),
            final(self).spec_raw() == old(self).spec_raw(),
            final(self).spec_same_types(old(self)),
            exists|dups: Seq<bool>| {
                &&& spec_dedup_decisions(old(self)@, dups, |x: Seq<u8>, y: Seq<u8>, b: bool| spec_same_bytes(x, y, b))
                &&& final(self)@ == spec_keep_unmarked(old(self)@, dups)
            },
    {
        self.inner.dedup();
    }

    /// Reverses the order of the elements.
    pub fn reverse(&mut self)
        requires
            old(self).wf(),
        ensures
            final(self).wf(),
            final(self)@ == old(self)@.reverse(),
            final(self).spec_raw() == old(self).spec_raw(),
            final(self).spec_same_types(old(self)),
    {
        self.inner.reverse();
    }

    /// Returns a vector of the same types, layout and capacity holding the same elements.
    pub fn clone(&self) -> (r: Self)
        requires
            self.wf(),
        ensures
            r.wf(),
            r@ == self@,
            r.spec_raw() == self.spec_raw(),
            r.spec_same_types(self),
            r.spec_element_type_id() == self.spec_element_type_id(),
            r.spec_allocator_type_id() == self.spec_allocator_type_id(),
    {
        Self::from_inner(self.element_type_id, self.allocator_type_id, self.inner.clone())
    }
}

} // verus!
