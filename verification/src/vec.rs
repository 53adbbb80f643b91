//! The type-projected vector.
use vstd::prelude::*;
use crate::error::{TryReserveError, TryReserveErrorKind};
use crate::layout::Layout;
use crate::raw_vec::{RawVecMemory, spec_new_capacity};
use crate::type_info::type_id_of;
use std::any::TypeId;
use vstd::std_specs::cmp::PartialEqSpec;

verus! {

/// The global memory allocator: the allocator of the standard library.
#[derive(Copy, Clone, PartialEq, Eq, Debug, Default)]
pub struct Global;

/// A contiguous growable array whose element type `T` and allocator type `A` are known at
/// compile time.
///
/// The vector records its capacity explicitly and grows it by the policy of
/// [`RawVecMemory`]: amortized growth at least doubles the capacity, exact growth allocates
/// exactly what is asked for. A new vector has zero capacity until room is reserved; a vector
/// of zero-sized elements then has the capacity `usize::MAX`, since its elements take no memory.
///
/// Operations that grow the vector require that the grown allocation takes at most
/// `isize::MAX` bytes; for a concrete element type this follows from its size alone.
pub struct TypeProjectedVec<T, A = Global> {
    data: Vec<T>,
    memory: RawVecMemory,
    alloc: A,
    element_type_id: TypeId,
    allocator_type_id: TypeId,
}

impl<T, A> View for TypeProjectedVec<T, A> {
    type V = Seq<T>;

    closed spec fn view(&self) -> Seq<T> {
        self.data@
    }
}

impl<T, A> TypeProjectedVec<T, A> {
    /// The capacity bookkeeping of the vector.
    pub closed spec fn spec_raw(&self) -> RawVecMemory {
        self.memory
    }

    /// The allocator of the vector.
    pub closed spec fn spec_allocator(&self) -> A {
        self.alloc
    }

    /// The runtime type identifier of the element type, recorded when the vector was made.
    pub closed spec fn spec_element_type_id(&self) -> TypeId {
        self.element_type_id
    }

    /// The runtime type identifier of the allocator type, recorded when the vector was made.
    pub closed spec fn spec_allocator_type_id(&self) -> TypeId {
        self.allocator_type_id
    }

    /// Whether both vectors record the same runtime type identifiers.
    pub open spec fn spec_same_type_ids(&self, other: &Self) -> bool {
        &&& self.spec_element_type_id() == other.spec_element_type_id()
        &&& self.spec_allocator_type_id() == other.spec_allocator_type_id()
    }

    /// The capacity of the vector, in elements.
    pub open spec fn spec_capacity(&self) -> nat {
        self.spec_raw().spec_capacity()
    }

    /// The invariant of every type-projected vector: the bookkeeping is well formed, describes
    /// elements of type `T`, and the length never exceeds the capacity.
    pub open spec fn wf(&self) -> bool {
        &&& self.spec_raw().wf()
        &&& self.spec_raw().spec_layout() == Layout::spec_of::<T>()
        &&& self@.len() <= self.spec_raw().spec_capacity()
    }

    /// Whether pushing one element onto the vector is possible without a capacity overflow.
    pub open spec fn spec_can_push(&self) -> bool {
        self@.len() < self.spec_capacity() || !self.spec_raw().spec_amortized_overflows(self.spec_raw().spec_stored(), 1)
    }

    /// The bookkeeping after pushing one element: unchanged when there is room, grown amortized
    /// by one element otherwise.
    pub open spec fn spec_pushed_raw(&self, after: RawVecMemory) -> bool {
        &&& after.spec_layout() == self.spec_raw().spec_layout()
        &&& self@.len() < self.spec_capacity() ==> after == self.spec_raw()
        &&& self@.len() == self.spec_capacity() ==> after.spec_stored() == self.spec_raw().spec_amortized_capacity(self.spec_raw().spec_stored(), 1)
    }

    /// Whether reserving room for `additional` more elements is possible without a capacity
    /// overflow.
    pub open spec fn spec_can_reserve(&self, additional: nat) -> bool {
        self.spec_raw().spec_needs_to_grow(self@.len(), additional) ==> !self.spec_raw().spec_amortized_overflows(self@.len(), additional)
    }

    /// The bookkeeping after an amortized reservation of `additional` elements.
    pub open spec fn spec_reserved_raw(&self, additional: nat, after: RawVecMemory) -> bool {
        &&& after.spec_layout() == self.spec_raw().spec_layout()
        &&& !self.spec_raw().spec_needs_to_grow(self@.len(), additional) ==> after == self.spec_raw()
        &&& self.spec_raw().spec_needs_to_grow(self@.len(), additional) ==> after.spec_stored() == self.spec_raw().spec_amortized_capacity(self@.len(), additional)
    }

    /// Constructs a new empty vector with the given allocator. It does not allocate.
    pub fn new_in(alloc: A) -> (r: Self)
        where
            T: 'static,
            A: 'static,
        ensures
            r.wf(),
            r@ == Seq::<T>::empty(),
            r.spec_raw().spec_stored() == 0,
            r.spec_allocator() == alloc,
    {
        let layout = Layout::new::<T>();
        TypeProjectedVec {
            data: Vec::new(),
            memory: RawVecMemory::new_in(layout),
            alloc,
            element_type_id: type_id_of::<T>(),
            allocator_type_id: type_id_of::<A>(),
        }
    }

    /// Constructs a new empty vector with the given allocator that can hold `capacity` elements
    /// without reallocating.
    pub fn with_capacity_in(capacity: usize, alloc: A) -> (r: Self)
        where
            T: 'static,
            A: 'static,
        requires
            Layout::spec_of::<T>().array_fits(capacity as nat),
        ensures
            r.wf(),
            r@ == Seq::<T>::empty(),
            r.spec_raw().spec_stored() == spec_new_capacity(capacity as nat, Layout::spec_of::<T>()),
            r.spec_allocator() == alloc,
    {
        Self::with_capacity_and_type_ids(capacity, alloc, type_id_of::<T>(), type_id_of::<A>())
    }

    /// An empty vector for `capacity` elements that records the given type identifiers.
    fn with_capacity_and_type_ids(capacity: usize, alloc: A, element_type_id: TypeId, allocator_type_id: TypeId) -> (r: Self)
        requires
            Layout::spec_of::<T>().array_fits(capacity as nat),
        ensures
            r.wf(),
            r@ == Seq::<T>::empty(),
            r.spec_raw().spec_stored() == spec_new_capacity(capacity as nat, Layout::spec_of::<T>()),
            r.spec_allocator() == alloc,
            r.spec_element_type_id() == element_type_id,
            r.spec_allocator_type_id() == allocator_type_id,
    {
        let layout = Layout::new::<T>();
        let mut data = Vec::new();
        let memory = RawVecMemory::with_capacity_in(capacity, layout, &mut data, 1);
        TypeProjectedVec { data, memory, alloc, element_type_id, allocator_type_id }
    }

    /// Constructs a new empty vector with the given allocator that can hold `capacity` elements
    /// without reallocating, or reports why the memory could not be reserved.
    pub fn try_with_capacity_in(capacity: usize, alloc: A) -> (r: Result<Self, TryReserveError>)
        where
            T: 'static,
            A: 'static,
        ensures
            r matches Ok(v) ==> v.wf(),
            !Layout::spec_of::<T>().array_fits(capacity as nat) ==> (r matches Err(e) && e.spec_kind() == TryReserveErrorKind::CapacityOverflow),
            Layout::spec_of::<T>().array_fits(capacity as nat) ==> match r {
                Ok(v) => {
                    &&& v@ == Seq::<T>::empty()
                    &&& v.spec_raw().spec_stored() == spec_new_capacity(capacity as nat, Layout::spec_of::<T>())
                    &&& v.spec_allocator() == alloc
                },
                Err(e) => e.spec_kind() is AllocError,
            },
    {
        let layout = Layout::new::<T>();
        let mut data = Vec::new();
        match RawVecMemory::try_with_capacity_in(capacity, layout, &mut data, 1) {
            Ok(memory) => Ok(TypeProjectedVec {
                data,
                memory,
                alloc,
                element_type_id: type_id_of::<T>(),
                allocator_type_id: type_id_of::<A>(),
            }),
            Err(e) => Err(e),
        }
    }

    /// Returns the number of elements the vector can hold without reallocating.
    pub fn capacity(&self) -> (r: usize)
        requires
            self.wf(),
        ensures
            r == self.spec_capacity(),
    {
        self.memory.capacity()
    }

    /// Returns the number of elements in the vector.
    pub fn len(&self) -> (r: usize)
        ensures
            r == self@.len(),
    {
        self.data.len()
    }

    /// Returns whether the vector holds no elements.
    pub fn is_empty(&self) -> (r: bool)
        ensures
            r == (self@.len() == 0),
    {
        self.data.len() == 0
    }

    /// Returns the allocator of the vector.
    pub fn allocator(&self) -> (r: &A)
        ensures
            *r == self.spec_allocator(),
    {
        &self.alloc
    }

    /// Returns the layout of the elements.
    pub fn element_layout(&self) -> (r: Layout)
        requires
            self.wf(),
        ensures
            r == Layout::spec_of::<T>(),
    {
        self.memory.element_layout()
    }

    /// Returns a reference to the element at `index`, or `None` if `index` is out of bounds.
    pub fn get(&self, index: usize) -> (r: Option<&T>)
        ensures
            index < self@.len() ==> r == Some(&self@[index as int]),
            index >= self@.len() ==> r is None,
    {
        if index < self.data.len() {
            Some(&self.data[index])
        } else {
            None
        }
    }

    /// Returns a reference to the element at `index`, which must be in bounds.
    pub fn get_unchecked(&self, index: usize) -> (r: &T)
        requires
            index < self@.len(),
        ensures
            *r == self@[index as int],
    {
        &self.data[index]
    }

    /// Appends an element to the end of the vector, growing the capacity amortized when the
    /// vector is full.
    pub fn push(&mut self, value: T)
        requires
            old(self).wf(),
            old(self).spec_can_push(),
        ensures
            final(self).wf(),
            final(self)@ == old(self)@.push(value),
            old(self).spec_pushed_raw(final(self).spec_raw()),
            final(self).spec_allocator() == old(self).spec_allocator(),
            final(self).spec_same_type_ids(&old(self)),
    {
        let len = self.data.len();
        if len == self.memory.capacity() {
            self.memory.grow_one(&mut self.data, 1);
        }
        self.data.push(value);
    }

    /// Removes and returns the last element, or `None` if the vector is empty.
    pub fn pop(&mut self) -> (r: Option<T>)
        requires
            old(self).wf(),
        ensures
            final(self).wf(),
            old(self)@.len() == 0 ==> r is None && final(self)@ == old(self)@,
            old(self)@.len() > 0 ==> r == Some(old(self)@.last()) && final(self)@ == old(self)@.drop_last(),
            final(self).spec_raw() == old(self).spec_raw(),
            final(self).spec_allocator() == old(self).spec_allocator(),
            final(self).spec_same_type_ids(&old(self)),
    {
        self.data.pop()
    }

    /// Appends an element if there is spare capacity; otherwise hands the element back.
    pub fn push_within_capacity(&mut self, value: T) -> (r: Result<(), T>)
        requires
            old(self).wf(),
        ensures
            final(self).wf(),
            old(self)@.len() < old(self).spec_capacity() ==> r is Ok && final(self)@ == old(self)@.push(value),
            old(self)@.len() >= old(self).spec_capacity() ==> r == Err::<(), T>(value) && final(self)@ == old(self)@,
            final(self).spec_raw() == old(self).spec_raw(),
            final(self).spec_allocator() == old(self).spec_allocator(),
            final(self).spec_same_type_ids(&old(self)),
    {
        if self.data.len() < self.memory.capacity() {
            self.data.push(value);
            Ok(())
        } else {
            Err(value)
        }
    }

    /// Replaces the element at `index` with `value`, or appends `value` when `index` is the
    /// length of the vector.
    pub fn replace_insert(&mut self, index: usize, value: T)
        requires
            old(self).wf(),
            index <= old(self)@.len(),
            index == old(self)@.len() ==> old(self).spec_can_push(),
        ensures
            final(self).wf(),
            index < old(self)@.len() ==> final(self)@ == old(self)@.update(index as int, value) && final(self).spec_raw() == old(self).spec_raw(),
            index == old(self)@.len() ==> final(self)@ == old(self)@.push(value) && old(self).spec_pushed_raw(final(self).spec_raw()),
            final(self).spec_allocator() == old(self).spec_allocator(),
            final(self).spec_same_type_ids(&old(self)),
    {
        if index < self.data.len() {
            self.data.set(index, value);
        } else {
            self.push(value);
        }
    }

    /// Inserts `value` at `index`, shifting the elements from `index` onwards up by one.
    pub fn shift_insert(&mut self, index: usize, value: T)
        requires
            old(self).wf(),
            index <= old(self)@.len(),
            old(self).spec_can_push(),
        ensures
            final(self).wf(),
            final(self)@ == old(self)@.insert(index as int, value),
            old(self).spec_pushed_raw(final(self).spec_raw()),
            final(self).spec_allocator() == old(self).spec_allocator(),
            final(self).spec_same_type_ids(&old(self)),
    {
        let len = self.data.len();
        if len == self.memory.capacity() {
            self.memory.grow_one(&mut self.data, 1);
        }
        self.data.insert(index, value);
    }

    /// Removes the element at `index` and moves the last element into its place.
    pub fn swap_remove(&mut self, index: usize) -> (r: T)
        requires
            old(self).wf(),
            index < old(self)@.len(),
        ensures
            final(self).wf(),
            r == old(self)@[index as int],
            final(self)@ == old(self)@.update(index as int, old(self)@.last()).drop_last(),
            final(self).spec_raw() == old(self).spec_raw(),
            final(self).spec_allocator() == old(self).spec_allocator(),
            final(self).spec_same_type_ids(&old(self)),
    {
        self.data.swap_remove(index)
    }

    /// Removes the element at `index`, shifting the elements after it down by one.
    pub fn shift_remove(&mut self, index: usize) -> (r: T)
        requires
            old(self).wf(),
            index < old(self)@.len(),
        ensures
            final(self).wf(),
            r == old(self)@[index as int],
            final(self)@ == old(self)@.remove(index as int),
            final(self).spec_raw() == old(self).spec_raw(),
            final(self).spec_allocator() == old(self).spec_allocator(),
            final(self).spec_same_type_ids(&old(self)),
    {
        self.data.remove(index)
    }

    /// Shortens the vector to `len` elements; does nothing when it is not longer than that.
    pub fn truncate(&mut self, len: usize)
        requires
            old(self).wf(),
        ensures
            final(self).wf(),
            len <= old(self)@.len() ==> final(self)@ == old(self)@.subrange(0, len as int),
            len > old(self)@.len() ==> final(self)@ == old(self)@,
            final(self).spec_raw() == old(self).spec_raw(),
            final(self).spec_allocator() == old(self).spec_allocator(),
            final(self).spec_same_type_ids(&old(self)),
    {
        self.data.truncate(len);
    }

    /// Removes every element, keeping the capacity.
    pub fn clear(&mut self)
        requires
            old(self).wf(),
        ensures
            final(self).wf(),
            final(self)@ == Seq::<T>::empty(),
            final(self).spec_raw() == old(self).spec_raw(),
            final(self).spec_allocator() == old(self).spec_allocator(),
            final(self).spec_same_type_ids(&old(self)),
    {
        self.data.clear();
    }

    /// Reserves room for at least `additional` more elements, growing the capacity amortized
    /// when it does not suffice.
    pub fn reserve(&mut self, additional: usize)
        requires
            old(self).wf(),
            old(self).spec_can_reserve(additional as nat),
        ensures
            final(self).wf(),
            final(self)@ == old(self)@,
            old(self).spec_reserved_raw(additional as nat, final(self).spec_raw()),
            final(self)@.len() + additional <= final(self).spec_capacity(),
            final(self).spec_allocator() == old(self).spec_allocator(),
            final(self).spec_same_type_ids(&old(self)),
    {
        let len = self.data.len();
        self.memory.reserve(&mut self.data, 1, len, additional);
    }

    /// Reserves room for exactly `additional` more elements when the capacity does not suffice.
    pub fn reserve_exact(&mut self, additional: usize)
        requires
            old(self).wf(),
            old(self).spec_raw().spec_needs_to_grow(old(self)@.len(), additional as nat) ==> !old(self).spec_raw().spec_exact_overflows(old(self)@.len(), additional as nat),
        ensures
            final(self).wf(),
            final(self)@ == old(self)@,
            final(self).spec_raw().spec_layout() == old(self).spec_raw().spec_layout(),
            !old(self).spec_raw().spec_needs_to_grow(old(self)@.len(), additional as nat) ==> final(self).spec_raw() == old(self).spec_raw(),
            old(self).spec_raw().spec_needs_to_grow(old(self)@.len(), additional as nat) ==> final(self).spec_raw().spec_stored() == old(self).spec_raw().spec_exact_capacity(old(self)@.len(), additional as nat),
            final(self)@.len() + additional <= final(self).spec_capacity(),
            final(self).spec_allocator() == old(self).spec_allocator(),
            final(self).spec_same_type_ids(&old(self)),
    {
        let len = self.data.len();
        self.memory.reserve_exact(&mut self.data, 1, len, additional);
    }

    /// Tries to reserve room for at least `additional` more elements, growing the capacity
    /// amortized when it does not suffice.
    pub fn try_reserve(&mut self, additional: usize) -> (r: Result<(), TryReserveError>)
        requires
            old(self).wf(),
        ensures
            final(self).wf(),
            final(self)@ == old(self)@,
            final(self).spec_allocator() == old(self).spec_allocator(),
            final(self).spec_same_type_ids(&old(self)),
            final(self).spec_raw().spec_layout() == old(self).spec_raw().spec_layout(),
            !old(self).spec_raw().spec_needs_to_grow(old(self)@.len(), additional as nat) ==> r is Ok && final(self).spec_raw() == old(self).spec_raw(),
            old(self).spec_raw().spec_needs_to_grow(old(self)@.len(), additional as nat) && old(self).spec_raw().spec_amortized_overflows(old(self)@.len(), additional as nat) ==>
                (r matches Err(e) && e.spec_kind() == TryReserveErrorKind::CapacityOverflow) && final(self).spec_raw() == old(self).spec_raw(),
            old(self).spec_raw().spec_needs_to_grow(old(self)@.len(), additional as nat) && !old(self).spec_raw().spec_amortized_overflows(old(self)@.len(), additional as nat) ==> match r {
                Ok(()) => final(self).spec_raw().spec_stored() == old(self).spec_raw().spec_amortized_capacity(old(self)@.len(), additional as nat),
                Err(e) => e.spec_kind() is AllocError && final(self).spec_raw() == old(self).spec_raw(),
            },
            r is Ok ==> final(self)@.len() + additional <= final(self).spec_capacity(),
    {
        let len = self.data.len();
        self.memory.try_reserve(&mut self.data, 1, len, additional)
    }

    /// Tries to reserve room for exactly `additional` more elements when the capacity does not
    /// suffice.
    pub fn try_reserve_exact(&mut self, additional: usize) -> (r: Result<(), TryReserveError>)
        requires
            old(self).wf(),
        ensures
            final(self).wf(),
            final(self)@ == old(self)@,
            final(self).spec_allocator() == old(self).spec_allocator(),
            final(self).spec_same_type_ids(&old(self)),
            final(self).spec_raw().spec_layout() == old(self).spec_raw().spec_layout(),
            !old(self).spec_raw().spec_needs_to_grow(old(self)@.len(), additional as nat) ==> r is Ok && final(self).spec_raw() == old(self).spec_raw(),
            old(self).spec_raw().spec_needs_to_grow(old(self)@.len(), additional as nat) && old(self).spec_raw().spec_exact_overflows(old(self)@.len(), additional as nat) ==>
                (r matches Err(e) && e.spec_kind() == TryReserveErrorKind::CapacityOverflow) && final(self).spec_raw() == old(self).spec_raw(),
            old(self).spec_raw().spec_needs_to_grow(old(self)@.len(), additional as nat) && !old(self).spec_raw().spec_exact_overflows(old(self)@.len(), additional as nat) ==> match r {
                Ok(()) => final(self).spec_raw().spec_stored() == old(self).spec_raw().spec_exact_capacity(old(self)@.len(), additional as nat),
                Err(e) => e.spec_kind() is AllocError && final(self).spec_raw() == old(self).spec_raw(),
            },
            r is Ok ==> final(self)@.len() + additional <= final(self).spec_capacity(),
    {
        let len = self.data.len();
        self.memory.try_reserve_exact(&mut self.data, 1, len, additional)
    }

    /// Shrinks the capacity to the length of the vector.
    pub fn shrink_to_fit(&mut self)
        requires
            old(self).wf(),
        ensures
            final(self).wf(),
            final(self)@ == old(self)@,
            final(self).spec_allocator() == old(self).spec_allocator(),
            final(self).spec_same_type_ids(&old(self)),
            final(self).spec_raw().spec_layout() == old(self).spec_raw().spec_layout(),
            old(self).spec_capacity() > old(self)@.len() ==> final(self).spec_raw().spec_stored() == spec_new_capacity(old(self)@.len(), old(self).spec_raw().spec_layout()),
            old(self).spec_capacity() <= old(self)@.len() ==> final(self).spec_raw() == old(self).spec_raw(),
    {
        let len = self.data.len();
        if self.memory.capacity() > len {
            self.memory.shrink_to_fit(&mut self.data, 1, len);
        }
    }

    /// Shrinks the capacity to the larger of the length and `min_capacity`.
    pub fn shrink_to(&mut self, min_capacity: usize)
        requires
            old(self).wf(),
        ensures
            final(self).wf(),
            final(self)@ == old(self)@,
            final(self).spec_allocator() == old(self).spec_allocator(),
            final(self).spec_same_type_ids(&old(self)),
            final(self).spec_raw().spec_layout() == old(self).spec_raw().spec_layout(),
            old(self).spec_capacity() > min_capacity ==> final(self).spec_raw().spec_stored() == spec_new_capacity(
                if old(self)@.len() >= min_capacity { old(self)@.len() } else { min_capacity as nat },
                old(self).spec_raw().spec_layout(),
            ),
            old(self).spec_capacity() <= min_capacity ==> final(self).spec_raw() == old(self).spec_raw(),
    {
        let len = self.data.len();
        if self.memory.capacity() > min_capacity {
            let target = if len >= min_capacity { len } else { min_capacity };
            self.memory.shrink_to_fit(&mut self.data, 1, target);
        }
    }

    /// Returns the elements as a slice.
    pub fn as_slice(&self) -> (r: &[T])
        ensures
            r@ == self@,
    {
        self.data.as_slice()
    }
}

/// The elements of `s` whose flag in `flags` is set, in order.
pub open spec fn spec_filter<T>(s: Seq<T>, flags: Seq<bool>) -> Seq<T>
    decreases s.len(),
{
    if s.len() == 0 {
        Seq::empty()
    } else {
        let rest = spec_filter(s.drop_last(), flags.take(s.len() - 1));
        if flags[s.len() - 1] {
            rest.push(s.last())
        } else {
            rest
        }
    }
}

/// Extending the prefix by one element extends the filtered sequence accordingly.
pub(crate) proof fn lemma_filter_step<T>(s: Seq<T>, flags: Seq<bool>, i: int)
    requires
        0 <= i < s.len(),
        i < flags.len(),
    ensures
        spec_filter(s.take(i + 1), flags.take(i + 1)) == if flags[i] {
            spec_filter(s.take(i), flags.take(i)).push(s[i])
        } else {
            spec_filter(s.take(i), flags.take(i))
        },
{
    assert(s.take(i + 1).drop_last() =~= s.take(i));
    assert(flags.take(i + 1).take(i) =~= flags.take(i));
}

/// `f` may return `out` when called on a mutable reference to `x`.
pub open spec fn spec_called_on_mut<T, F: FnMut(&mut T) -> bool>(f: F, x: T, out: bool) -> bool {
    exists|m: &mut T| *m == x && #[trigger] f.ensures((m,), out)
}

/// The elements of `s` with every element dropped whose flag in `dups` is set: a flag marks an
/// element that the comparison found equal to the last element kept before it.
pub open spec fn spec_keep_unmarked<T>(s: Seq<T>, dups: Seq<bool>) -> Seq<T> {
    spec_filter(s, Seq::new(dups.len(), |i: int| !dups[i]))
}

/// The last element kept among the first `i` elements of `s` when the elements marked in `dups`
/// are dropped.
pub open spec fn spec_last_kept<T>(s: Seq<T>, dups: Seq<bool>, i: int) -> T {
    spec_keep_unmarked(s.take(i), dups.take(i)).last()
}

/// How a deduplication decided: the first element is kept, and each later element is marked
/// exactly when `same` holds of it and the last element kept before it.
pub open spec fn spec_dedup_decisions<T>(s: Seq<T>, dups: Seq<bool>, same: spec_fn(T, T, bool) -> bool) -> bool {
    &&& dups.len() == s.len()
    &&& s.len() > 0 ==> !dups[0]
    &&& forall|i: int| 1 <= i < s.len() ==> #[trigger] same(s[i], spec_last_kept(s, dups, i), dups[i])
}

/// Keeping the first `i + 1` elements, the kept sequence grows by `s[i]` exactly when it is not
/// marked.
pub(crate) proof fn lemma_keep_unmarked_step<T>(s: Seq<T>, dups: Seq<bool>, i: int)
    requires
        0 <= i < s.len(),
        i < dups.len(),
    ensures
        spec_keep_unmarked(s.take(i + 1), dups.take(i + 1)) == if !dups[i] {
            spec_keep_unmarked(s.take(i), dups.take(i)).push(s[i])
        } else {
            spec_keep_unmarked(s.take(i), dups.take(i))
        },
{
    let f = Seq::new(dups.len(), |k: int| !dups[k]);
    lemma_filter_step(s, f, i);
    assert(Seq::new(dups.take(i + 1).len(), |k: int| !dups.take(i + 1)[k]) =~= f.take(i + 1));
    assert(Seq::new(dups.take(i).len(), |k: int| !dups.take(i)[k]) =~= f.take(i));
}

/// A nonempty prefix always keeps its first element.
pub(crate) proof fn lemma_keep_unmarked_nonempty<T>(s: Seq<T>, dups: Seq<bool>, i: int)
    requires
        1 <= i <= s.len(),
        i <= dups.len(),
        !dups[0],
    ensures
        spec_keep_unmarked(s.take(i), dups.take(i)).len() >= 1,
    decreases i,
{
    lemma_keep_unmarked_step(s, dups, i - 1);
    if i > 1 {
        lemma_keep_unmarked_nonempty(s, dups, i - 1);
    } else {
        assert(s.take(0) =~= Seq::<T>::empty());
        assert(spec_keep_unmarked(s.take(0), dups.take(0)) =~= Seq::<T>::empty());
    }
}

impl<T, A> TypeProjectedVec<T, A> {
    /// The deduplication loop shared by the deduplicating methods: `same` is the decision
    /// relation that the comparisons of the caller obey.
    fn dedup_core<F>(&mut self, same_bucket: F, Ghost(same): Ghost<spec_fn(T, T, bool) -> bool>)
        where
            F: FnMut(&T, &T) -> bool,
        requires
            old(self).wf(),
            forall|x: &T, y: &T| same_bucket.requires((x, y)),
            forall|x: &T, y: &T, b: bool| same_bucket.ensures((x, y), b) ==> same(*x, *y, b),
        ensures
            final(self).wf(),
            final(self).spec_raw() == old(self).spec_raw(),
            final(self).spec_allocator() == old(self).spec_allocator(),
            final(self).spec_same_type_ids(&old(self)),
            exists|dups: Seq<bool>| {
                &&& spec_dedup_decisions(old(self)@, dups, same)
                &&& final(self)@ == spec_keep_unmarked(old(self)@, dups)
            },
    {
        let mut same_bucket = same_bucket;
        let ghost f0 = same_bucket;
        let ghost s = self@;
        let n = self.data.len();
        if n == 0 {
            proof {
                assert(spec_dedup_decisions(s, Seq::<bool>::empty(), same));
                assert(spec_keep_unmarked(s, Seq::<bool>::empty()) =~= s);
            }
            return;
        }
        let ghost mut dups: Seq<bool> = seq![false];
        proof {
            lemma_keep_unmarked_step(s, dups, 0);
            assert(s.take(0) =~= Seq::<T>::empty());
            assert(spec_keep_unmarked(s.take(0), dups.take(0)) =~= Seq::<T>::empty());
            assert(dups.take(1) =~= dups);
            assert(self@.subrange(0, 1) =~= seq![s[0]]);
            assert(self@.subrange(1, n as int) =~= s.subrange(1, n as int));
        }
        let mut read: usize = 1;
        let mut write: usize = 1;
        while read < n
            invariant
                1 <= write <= read <= n,
                n == s.len(),
                self.wf(),
                self.spec_raw() == old(self).spec_raw(),
                self.spec_allocator() == old(self).spec_allocator(),
                self.spec_same_type_ids(&old(self)),
                same_bucket == f0,
                forall|x: &T, y: &T| f0.requires((x, y)),
                forall|x: &T, y: &T, b: bool| f0.ensures((x, y), b) ==> same(*x, *y, b),
                dups.len() == read,
                !dups[0],
                forall|i: int| 1 <= i < read ==> #[trigger] same(s[i], spec_last_kept(s, dups, i), dups[i]),
                self@.len() == write + (n - read),
                self@.subrange(0, write as int) == spec_keep_unmarked(s.take(read as int), dups),
                self@.subrange(write as int, self@.len() as int) == s.subrange(read as int, n as int),
            decreases n - read,
        {
            let ghost before = self@;
            let b = same_bucket(&self.data[write], &self.data[write - 1]);
            proof {
                assert(same(before[write as int], before[write - 1], b));
                assert(before[write as int] == s[read as int]) by {
                    assert(before.subrange(write as int, before.len() as int)[0] == before[write as int]);
                }
                assert(dups.take(read as int) =~= dups);
                assert(before[write - 1] == spec_last_kept(s, dups, read as int)) by {
                    assert(before.subrange(0, write as int)[write - 1] == before[write - 1]);
                }
                let nd = dups.push(b);
                lemma_keep_unmarked_step(s, nd, read as int);
                assert(nd.take(read as int) =~= dups);
                assert(nd.take(read as int + 1) =~= nd);
                assert forall|i: int| 1 <= i < read + 1 implies #[trigger] same(s[i], spec_last_kept(s, nd, i), nd[i]) by {
                    if i < read {
                        assert(nd.take(i) =~= dups.take(i));
                        assert(nd[i] == dups[i]);
                        assert(same(s[i], spec_last_kept(s, dups, i), dups[i]));
                    } else {
                        assert(nd.take(i) =~= dups);
                    }
                }
                dups = nd;
            }
            if b {
                self.data.remove(write);
                proof {
                    assert(self@.subrange(0, write as int) =~= before.subrange(0, write as int));
                    assert forall|j: int| write <= j < self@.len() implies #[trigger] self@[j] == s[read + 1 + (j - write)] by {
                        assert(before.subrange(write as int, before.len() as int)[j - write + 1] == s.subrange(read as int, n as int)[j - write + 1]);
                    }
                    assert(self@.subrange(write as int, self@.len() as int) =~= s.subrange(read as int + 1, n as int));
                }
            } else {
                write = write + 1;
                proof {
                    assert(self@.subrange(0, write as int) =~= before.subrange(0, write - 1).push(before[write - 1]));
                    assert forall|j: int| write <= j < self@.len() implies #[trigger] self@[j] == s[read + 1 + (j - write)] by {
                        assert(before.subrange(write - 1, before.len() as int)[j - write + 1] == s.subrange(read as int, n as int)[j - write + 1]);
                    }
                    assert(self@.subrange(write as int, self@.len() as int) =~= s.subrange(read as int + 1, n as int));
                }
            }
            read = read + 1;
            proof {
                assert(s.take(read as int).take(read as int) =~= s.take(read as int));
            }
        }
        proof {
            assert(s.take(n as int) =~= s);
            assert(self@.subrange(0, write as int) =~= self@);
        }
    }

    /// Removes consecutive elements that `same_bucket` finds equal: each element is compared
    /// with the last element kept before it, as `same_bucket(element, kept)`, and dropped when
    /// the comparison returns `true`.
    pub fn dedup_by<F>(&mut self, same_bucket: F)
        where
            F: FnMut(&T, &T) -> bool,
        requires
            old(self).wf(),
            forall|x: &T, y: &T| same_bucket.requires((x, y)),
        ensures
            final(self).wf(),
            final(self).spec_raw() == old(self).spec_raw(),
            final(self).spec_allocator() == old(self).spec_allocator(),
            final(self).spec_same_type_ids(&old(self)),
            exists|dups: Seq<bool>| {
                &&& spec_dedup_decisions(old(self)@, dups, |x: T, y: T, b: bool| same_bucket.ensures((&x, &y), b))
                &&& final(self)@ == spec_keep_unmarked(old(self)@, dups)
            },
    {
        let ghost same = |x: T, y: T, b: bool| same_bucket.ensures((&x, &y), b);
        self.dedup_core(same_bucket, Ghost(same));
    }

    /// Removes consecutive elements whose keys, computed by `key`, compare equal.
    pub fn dedup_by_key<F, K>(&mut self, key: F)
        where
            F: FnMut(&T) -> K,
            K: PartialEq,
        requires
            old(self).wf(),
            forall|x: &T| key.requires((x,)),
        ensures
            final(self).wf(),
            final(self).spec_raw() == old(self).spec_raw(),
            final(self).spec_allocator() == old(self).spec_allocator(),
            final(self).spec_same_type_ids(&old(self)),
            exists|dups: Seq<bool>| {
                &&& spec_dedup_decisions(old(self)@, dups, |x: T, y: T, b: bool| exists|kx: K, ky: K| #![trigger key.ensures((&x,), kx), key.ensures((&y,), ky)] {
                    &&& key.ensures((&x,), kx)
                    &&& key.ensures((&y,), ky)
                    &&& K::obeys_eq_spec() ==> b == kx.eq_spec(&ky)
                })
                &&& final(self)@ == spec_keep_unmarked(old(self)@, dups)
            },
    {
        let ghost same = |x: T, y: T, b: bool| exists|kx: K, ky: K| #![trigger key.ensures((&x,), kx), key.ensures((&y,), ky)] {
            &&& key.ensures((&x,), kx)
            &&& key.ensures((&y,), ky)
            &&& K::obeys_eq_spec() ==> b == kx.eq_spec(&ky)
        };
        let mut key_fn = key;
        let ghost f0 = key_fn;
        assert(f0 == key);
        let ghost s = self@;
        let n = self.data.len();
        if n == 0 {
            proof {
                assert(spec_dedup_decisions(s, Seq::<bool>::empty(), same));
                assert(spec_keep_unmarked(s, Seq::<bool>::empty()) =~= s);
            }
            return;
        }
        let ghost mut dups: Seq<bool> = seq![false];
        proof {
            lemma_keep_unmarked_step(s, dups, 0);
            assert(s.take(0) =~= Seq::<T>::empty());
            assert(spec_keep_unmarked(s.take(0), dups.take(0)) =~= Seq::<T>::empty());
            assert(dups.take(1) =~= dups);
            assert(self@.subrange(0, 1) =~= seq![s[0]]);
            assert(self@.subrange(1, n as int) =~= s.subrange(1, n as int));
        }
        let mut read: usize = 1;
        let mut write: usize = 1;
        while read < n
            invariant
                1 <= write <= read <= n,
                n == s.len(),
                self.wf(),
                self.spec_raw() == old(self).spec_raw(),
                self.spec_allocator() == old(self).spec_allocator(),
                self.spec_same_type_ids(&old(self)),
                key_fn == f0,
                f0 == key,
                same == (|x: T, y: T, b: bool| exists|kx: K, ky: K| #![trigger key.ensures((&x,), kx), key.ensures((&y,), ky)] {
                    &&& key.ensures((&x,), kx)
                    &&& key.ensures((&y,), ky)
                    &&& K::obeys_eq_spec() ==> b == kx.eq_spec(&ky)
                }),
                forall|x: &T| f0.requires((x,)),
                dups.len() == read,
                !dups[0],
                forall|i: int| 1 <= i < read ==> #[trigger] same(s[i], spec_last_kept(s, dups, i), dups[i]),
                self@.len() == write + (n - read),
                self@.subrange(0, write as int) == spec_keep_unmarked(s.take(read as int), dups),
                self@.subrange(write as int, self@.len() as int) == s.subrange(read as int, n as int),
            decreases n - read,
        {
            let ghost before = self@;
            let kx = key_fn(&self.data[write]);
            let ky = key_fn(&self.data[write - 1]);
            let b = kx == ky;
            proof {
                assert(f0.ensures((&self@[write as int],), kx));
                assert(f0.ensures((&self@[write - 1],), ky));
                assert(key.ensures((&self@[write as int],), kx));
                assert(key.ensures((&self@[write - 1],), ky));
                assert(K::obeys_eq_spec() ==> b == kx.eq_spec(&ky));
                assert(same(self@[write as int], self@[write - 1], b));
            }
            proof {
                assert(before[write as int] == s[read as int]) by {
                    assert(before.subrange(write as int, before.len() as int)[0] == before[write as int]);
                }
                assert(dups.take(read as int) =~= dups);
                assert(before[write - 1] == spec_last_kept(s, dups, read as int)) by {
                    assert(before.subrange(0, write as int)[write - 1] == before[write - 1]);
                }
                let nd = dups.push(b);
                lemma_keep_unmarked_step(s, nd, read as int);
                assert(nd.take(read as int) =~= dups);
                assert(nd.take(read as int + 1) =~= nd);
                assert forall|i: int| 1 <= i < read + 1 implies #[trigger] same(s[i], spec_last_kept(s, nd, i), nd[i]) by {
                    if i < read {
                        assert(nd.take(i) =~= dups.take(i));
                        assert(nd[i] == dups[i]);
                        assert(same(s[i], spec_last_kept(s, dups, i), dups[i]));
                    } else {
                        assert(nd.take(i) =~= dups);
                    }
                }
                dups = nd;
            }
            if b {
                self.data.remove(write);
                proof {
                    assert(self@.subrange(0, write as int) =~= before.subrange(0, write as int));
                    assert forall|j: int| write <= j < self@.len() implies #[trigger] self@[j] == s[read + 1 + (j - write)] by {
                        assert(before.subrange(write as int, before.len() as int)[j - write + 1] == s.subrange(read as int, n as int)[j - write + 1]);
                    }
                    assert(self@.subrange(write as int, self@.len() as int) =~= s.subrange(read as int + 1, n as int));
                }
            } else {
                write = write + 1;
                proof {
                    assert(self@.subrange(0, write as int) =~= before.subrange(0, write - 1).push(before[write - 1]));
                    assert forall|j: int| write <= j < self@.len() implies #[trigger] self@[j] == s[read + 1 + (j - write)] by {
                        assert(before.subrange(write - 1, before.len() as int)[j - write + 1] == s.subrange(read as int, n as int)[j - write + 1]);
                    }
                    assert(self@.subrange(write as int, self@.len() as int) =~= s.subrange(read as int + 1, n as int));
                }
            }
            read = read + 1;
            proof {
                assert(s.take(read as int).take(read as int) =~= s.take(read as int));
            }
        }
        proof {
            assert(s.take(n as int) =~= s);
            assert(self@.subrange(0, write as int) =~= self@);
        }
    }

    /// Removes consecutive equal elements.
    pub fn dedup(&mut self)
        where
            T: PartialEq,
        requires
            old(self).wf(),
        ensures
            final(self).wf(),
            final(self).spec_raw() == old(self).spec_raw(),
            final(self).spec_allocator() == old(self).spec_allocator(),
            final(self).spec_same_type_ids(&old(self)),
            exists|dups: Seq<bool>| {
                &&& spec_dedup_decisions(old(self)@, dups, |x: T, y: T, b: bool| T::obeys_eq_spec() ==> b == x.eq_spec(&y))
                &&& final(self)@ == spec_keep_unmarked(old(self)@, dups)
            },
    {
        let ghost same = |x: T, y: T, b: bool| T::obeys_eq_spec() ==> b == x.eq_spec(&y);
        let compare = |x: &T, y: &T| -> (b: bool)
            ensures
                same(*x, *y, b),
        {
            *x == *y
        };
        self.dedup_core(compare, Ghost(same));
    }
}

impl<T, A> TypeProjectedVec<T, A> {
    /// Returns a mutable reference to the element at `index`, which must be in bounds.
    pub fn get_mut_unchecked(&mut self, index: usize) -> (r: &mut T)
        requires
            old(self).wf(),
            index < old(self)@.len(),
        ensures
            *r == old(self)@[index as int],
            final(self)@ == old(self)@.update(index as int, *final(r)),
            final(self).spec_raw() == old(self).spec_raw(),
            final(self).spec_allocator() == old(self).spec_allocator(),
            final(self).spec_same_type_ids(&old(self)),
            final(self).wf(),
    {
        &mut self.data[index]
    }

    /// Returns a mutable reference to the element at `index`, or `None` if `index` is out of
    /// bounds.
    pub fn get_mut(&mut self, index: usize) -> (r: Option<&mut T>)
        requires
            old(self).wf(),
        ensures
            index >= old(self)@.len() ==> r is None && final(self)@ == old(self)@,
            index < old(self)@.len() ==> (r matches Some(e) && *e == old(self)@[index as int]
                && final(self)@ == old(self)@.update(index as int, mut_ref_future(e))),
            final(self).spec_raw() == old(self).spec_raw(),
            final(self).spec_allocator() == old(self).spec_allocator(),
            final(self).spec_same_type_ids(&old(self)),
            final(self).wf(),
    {
        if index < self.data.len() {
            Some(&mut self.data[index])
        } else {
            None
        }
    }

    /// Removes and returns the last element if `predicate` returns `true` for it; the predicate
    /// may change the element before the decision.
    pub fn pop_if<F>(&mut self, predicate: F) -> (r: Option<T>)
        where
            F: FnOnce(&mut T) -> bool,
        requires
            old(self).wf(),
            forall|x: &mut T| predicate.requires((x,)),
        ensures
            final(self).wf(),
            final(self).spec_raw() == old(self).spec_raw(),
            final(self).spec_allocator() == old(self).spec_allocator(),
            final(self).spec_same_type_ids(&old(self)),
            old(self)@.len() == 0 ==> r is None && final(self)@ == old(self)@,
            old(self)@.len() > 0 ==> exists|m: &mut T, b: bool| {
                &&& *m == old(self)@.last()
                &&& predicate.ensures((m,), b)
                &&& b ==> r == Some(mut_ref_future(m)) && final(self)@ == old(self)@.drop_last()
                &&& !b ==> r is None && final(self)@ == old(self)@.drop_last().push(mut_ref_future(m))
            },
    {
        let n = self.data.len();
        if n == 0 {
            return None;
        }
        let b = {
            let last = &mut self.data[n - 1];
            predicate(last)
        };
        if b {
            self.data.pop()
        } else {
            None
        }
    }

    /// Returns the elements as a mutable slice.
    pub fn as_mut_slice(&mut self) -> (r: &mut [T])
        requires
            old(self).wf(),
        ensures
            r@ == old(self)@,
            final(self)@ == final(r)@,
            final(self).spec_raw() == old(self).spec_raw(),
            final(self).spec_allocator() == old(self).spec_allocator(),
            final(self).spec_same_type_ids(&old(self)),
    {
        self.data.as_mut_slice()
    }

    /// Returns whether the vector holds an element equal to `value`.
    pub fn contains(&self, value: &T) -> (r: bool)
        where
            T: PartialEq,
        ensures
            r ==> self@.len() > 0,
            T::obeys_eq_spec() ==> (r <==> exists|i: int| 0 <= i < self@.len() && self@[i].eq_spec(value)),
    {
        let mut i: usize = 0;
        while i < self.data.len()
            invariant
                0 <= i <= self@.len(),
                T::obeys_eq_spec() ==> forall|j: int| 0 <= j < i ==> !self@[j].eq_spec(value),
            decreases self@.len() - i,
        {
            if self.data[i] == *value {
                return true;
            }
            i = i + 1;
        }
        false
    }

    /// Moves every element of `other` to the end of `self`, leaving `other` empty.
    pub fn append(&mut self, other: &mut Self)
        requires
            old(self).wf(),
            old(other).wf(),
            old(self).spec_can_reserve(old(other)@.len()),
        ensures
            final(self).wf(),
            final(other).wf(),
            final(self)@ == old(self)@ + old(other)@,
            final(other)@ == Seq::<T>::empty(),
            old(self).spec_reserved_raw(old(other)@.len(), final(self).spec_raw()),
            final(other).spec_raw() == old(other).spec_raw(),
            final(self).spec_allocator() == old(self).spec_allocator(),
            final(self).spec_same_type_ids(&old(self)),
            final(other).spec_allocator() == old(other).spec_allocator(),
            final(other).spec_same_type_ids(&old(other)),
    {
        let count = other.data.len();
        self.reserve(count);
        self.data.append(&mut other.data);
    }

    /// Splits the vector at `at`: `self` keeps the elements before `at` and its capacity, and
    /// the returned vector, allocated for exactly the rest, holds the elements from `at` on.
    pub fn split_off(&mut self, at: usize) -> (r: Self)
        where
            A: Clone,
        requires
            old(self).wf(),
            at <= old(self)@.len(),
        ensures
            final(self).wf(),
            r.wf(),
            final(self)@ == old(self)@.subrange(0, at as int),
            r@ == old(self)@.subrange(at as int, old(self)@.len() as int),
            final(self).spec_raw() == old(self).spec_raw(),
            r.spec_raw().spec_stored() == spec_new_capacity((old(self)@.len() - at) as nat, Layout::spec_of::<T>()),
            final(self).spec_allocator() == old(self).spec_allocator(),
            final(self).spec_same_type_ids(&old(self)),
            call_ensures(A::clone, (&old(self).spec_allocator(),), r.spec_allocator()),
            r.spec_same_type_ids(&old(self)),
    {
        let other_len = self.data.len() - at;
        proof {
            let layout = self.memory.spec_layout();
            if layout.spec_size() > 0 {
                crate::raw_vec::lemma_fits_monotone(layout, other_len as nat, self.memory.spec_stored());
            } else {
                assert(layout.spec_size() * other_len == 0) by (nonlinear_arith)
                    requires
                        layout.spec_size() == 0,
                ;
            }
        }
        let alloc = self.alloc.clone();
        let mut other = Self::with_capacity_and_type_ids(other_len, alloc, self.element_type_id, self.allocator_type_id);
        let tail = self.data.split_off(at);
        other.data = tail;
        other
    }

    /// Resizes the vector to `new_len` elements: a longer vector is filled with clones of
    /// `value`, its last new element being `value` itself; a shorter one is truncated.
    pub fn resize(&mut self, new_len: usize, value: T)
        where
            T: Clone,
        requires
            old(self).wf(),
            new_len > old(self)@.len() ==> old(self).spec_can_reserve((new_len - old(self)@.len()) as nat),
        ensures
            final(self).wf(),
            final(self).spec_allocator() == old(self).spec_allocator(),
            final(self).spec_same_type_ids(&old(self)),
            new_len <= old(self)@.len() ==> final(self)@ == old(self)@.subrange(0, new_len as int) && final(self).spec_raw() == old(self).spec_raw(),
            new_len > old(self)@.len() ==> {
                &&& final(self)@.len() == new_len
                &&& final(self)@.subrange(0, old(self)@.len() as int) == old(self)@
                &&& forall|i: int| old(self)@.len() <= i < new_len - 1 ==> cloned::<T>(value, #[trigger] final(self)@[i])
                &&& final(self)@[new_len - 1] == value
                &&& old(self).spec_reserved_raw((new_len - old(self)@.len()) as nat, final(self).spec_raw())
            },
    {
        let len = self.data.len();
        if new_len <= len {
            self.data.truncate(new_len);
            return;
        }
        let count = new_len - len;
        self.reserve(count);
        let ghost raw = self.memory;
        let mut i: usize = len;
        while i + 1 < new_len
            invariant
                len <= i < new_len,
                self.wf(),
                self.memory == raw,
                self@.len() == i,
                new_len <= self.spec_capacity(),
                self@.subrange(0, len as int) == old(self)@,
                forall|j: int| len <= j < i ==> cloned::<T>(value, #[trigger] self@[j]),
                self.spec_allocator() == old(self).spec_allocator(),
                self.spec_same_type_ids(&old(self)),
            decreases new_len - i,
        {
            let c = value.clone();
            self.data.push(c);
            proof {
                assert(self@.subrange(0, len as int) =~= old(self)@);
            }
            i = i + 1;
        }
        self.data.push(value);
        proof {
            assert(self@.subrange(0, len as int) =~= old(self)@);
        }
    }

    /// Resizes the vector to `new_len` elements: a longer vector is filled with the values that
    /// successive calls of `f` return; a shorter one is truncated.
    pub fn resize_with<F>(&mut self, new_len: usize, f: F)
        where
            F: FnMut() -> T,
        requires
            old(self).wf(),
            new_len > old(self)@.len() ==> old(self).spec_can_reserve((new_len - old(self)@.len()) as nat),
            f.requires(()),
        ensures
            final(self).wf(),
            final(self).spec_allocator() == old(self).spec_allocator(),
            final(self).spec_same_type_ids(&old(self)),
            new_len <= old(self)@.len() ==> final(self)@ == old(self)@.subrange(0, new_len as int) && final(self).spec_raw() == old(self).spec_raw(),
            new_len > old(self)@.len() ==> {
                &&& final(self)@.len() == new_len
                &&& final(self)@.subrange(0, old(self)@.len() as int) == old(self)@
                &&& forall|i: int| old(self)@.len() <= i < new_len ==> f.ensures((), #[trigger] final(self)@[i])
                &&& old(self).spec_reserved_raw((new_len - old(self)@.len()) as nat, final(self).spec_raw())
            },
    {
        let mut f = f;
        let len = self.data.len();
        if new_len <= len {
            self.data.truncate(new_len);
            return;
        }
        let count = new_len - len;
        self.reserve(count);
        let ghost raw = self.memory;
        let ghost f0 = f;
        let mut i: usize = len;
        while i < new_len
            invariant
                len <= i <= new_len,
                self.wf(),
                self.memory == raw,
                self@.len() == i,
                new_len <= self.spec_capacity(),
                self@.subrange(0, len as int) == old(self)@,
                forall|j: int| len <= j < i ==> f0.ensures((), #[trigger] self@[j]),
                f == f0,
                f0.requires(()),
                self.spec_allocator() == old(self).spec_allocator(),
                self.spec_same_type_ids(&old(self)),
            decreases new_len - i,
        {
            let x = f();
            self.data.push(x);
            proof {
                assert(self@.subrange(0, len as int) =~= old(self)@);
            }
            i = i + 1;
        }
    }

    /// Appends clones of every element of `other`.
    pub fn extend_from_slice(&mut self, other: &[T])
        where
            T: Clone,
        requires
            old(self).wf(),
            old(self).spec_can_reserve(other@.len()),
        ensures
            final(self).wf(),
            final(self).spec_allocator() == old(self).spec_allocator(),
            final(self).spec_same_type_ids(&old(self)),
            final(self)@.len() == old(self)@.len() + other@.len(),
            final(self)@.subrange(0, old(self)@.len() as int) == old(self)@,
            forall|i: int| 0 <= i < other@.len() ==> cloned::<T>(other@[i], #[trigger] final(self)@[old(self)@.len() + i]),
            old(self).spec_reserved_raw(other@.len(), final(self).spec_raw()),
    {
        self.reserve(other.len());
        self.data.extend_from_slice(other);
        proof {
            assert(self@.subrange(0, old(self)@.len() as int) =~= old(self)@);
            assert forall|i: int| 0 <= i < other@.len() implies cloned::<T>(other@[i], #[trigger] self@[old(self)@.len() + i]) by {
                let k = old(self)@.len() + i;
                assert(self@[k] == self.data@[k]);
            }
        }
    }

    /// Keeps the elements for which `keep` returns `true`, in order, and removes the others.
    pub fn retain<F>(&mut self, keep: F)
        where
            F: FnMut(&T) -> bool,
        requires
            old(self).wf(),
            forall|x: &T| keep.requires((x,)),
        ensures
            final(self).wf(),
            final(self).spec_raw() == old(self).spec_raw(),
            final(self).spec_allocator() == old(self).spec_allocator(),
            final(self).spec_same_type_ids(&old(self)),
            exists|flags: Seq<bool>| {
                &&& flags.len() == old(self)@.len()
                &&& forall|i: int| 0 <= i < old(self)@.len() ==> keep.ensures((&old(self)@[i],), #[trigger] flags[i])
                &&& final(self)@ == spec_filter(old(self)@, flags)
            },
    {
        let mut keep = keep;
        let ghost k0 = keep;
        let ghost s = self@;
        let ghost mut flags: Seq<bool> = Seq::empty();
        let n = self.data.len();
        let mut read: usize = 0;
        let mut write: usize = 0;
        while read < n
            invariant
                0 <= write <= read <= n,
                n == s.len(),
                self.wf(),
                self.spec_raw() == old(self).spec_raw(),
                self.spec_allocator() == old(self).spec_allocator(),
                self.spec_same_type_ids(&old(self)),
                keep == k0,
                forall|x: &T| k0.requires((x,)),
                flags.len() == read,
                forall|i: int| 0 <= i < read ==> k0.ensures((&s[i],), #[trigger] flags[i]),
                self@.len() == write + (n - read),
                self@.subrange(0, write as int) == spec_filter(s.take(read as int), flags),
                self@.subrange(write as int, self@.len() as int) == s.subrange(read as int, n as int),
            decreases n - read,
        {
            let ghost before = self@;
            let b = keep(&self.data[write]);
            proof {
                assert(before[write as int] == s[read as int]) by {
                    assert(before.subrange(write as int, before.len() as int)[0] == before[write as int]);
                }
                lemma_filter_step(s, flags.push(b), read as int);
                assert(flags.push(b).take(read as int) =~= flags);
                assert(flags.push(b).take(read as int + 1) =~= flags.push(b));
                flags = flags.push(b);
            }
            if b {
                write = write + 1;
                proof {
                    assert(self@.subrange(0, write as int) =~= before.subrange(0, write - 1).push(before[write - 1]));
                    assert forall|j: int| write <= j < self@.len() implies #[trigger] self@[j] == s[read + 1 + (j - write)] by {
                        assert(before.subrange(write - 1, before.len() as int)[j - write + 1] == s.subrange(read as int, n as int)[j - write + 1]);
                    }
                    assert(self@.subrange(write as int, self@.len() as int) =~= s.subrange(read as int + 1, n as int));
                }
            } else {
                self.data.remove(write);
                proof {
                    assert(self@.subrange(0, write as int) =~= before.subrange(0, write as int));
                    assert forall|j: int| write <= j < self@.len() implies #[trigger] self@[j] == s[read + 1 + (j - write)] by {
                        assert(before.subrange(write as int, before.len() as int)[j - write + 1] == s.subrange(read as int, n as int)[j - write + 1]);
                    }
                    assert(self@.subrange(write as int, self@.len() as int) =~= s.subrange(read as int + 1, n as int));
                }
            }
            read = read + 1;
            proof {
                assert(flags.take(read as int) =~= flags);
            }
        }
        proof {
            assert(s.take(n as int) =~= s);
            assert(flags.take(n as int) =~= flags);
            assert(self@.subrange(0, write as int) =~= self@);
        }
    }

    /// Keeps the elements for which `keep` returns `true`, in order, and removes the others;
    /// `keep` may change each element before deciding. The contract names the decisions and
    /// the order of the kept elements, not the values that `keep` leaves in them.
    pub fn retain_mut<F>(&mut self, keep: F)
        where
            F: FnMut(&mut T) -> bool,
        requires
            old(self).wf(),
            forall|x: &mut T| keep.requires((x,)),
        ensures
            final(self).wf(),
            final(self).spec_raw() == old(self).spec_raw(),
            final(self).spec_allocator() == old(self).spec_allocator(),
            final(self).spec_same_type_ids(&old(self)),
            exists|flags: Seq<bool>, vals: Seq<T>| #![trigger spec_filter(vals, flags)] {
                &&& flags.len() == old(self)@.len()
                &&& vals.len() == old(self)@.len()
                &&& forall|i: int| 0 <= i < old(self)@.len() ==> #[trigger] spec_called_on_mut(keep, old(self)@[i], flags[i])
                &&& final(self)@ == spec_filter(vals, flags)
            },
    {
        let mut keep_fn = keep;
        let ghost k0 = keep_fn;
        let ghost s = self@;
        let ghost mut flags: Seq<bool> = Seq::empty();
        let ghost mut vals: Seq<T> = Seq::empty();
        let ghost mut refs: Seq<&mut T> = Seq::empty();
        let n = self.data.len();
        let mut read: usize = 0;
        let mut write: usize = 0;
        while read < n
            invariant
                0 <= write <= read <= n,
                n == s.len(),
                self.wf(),
                self.spec_raw() == old(self).spec_raw(),
                self.spec_allocator() == old(self).spec_allocator(),
                self.spec_same_type_ids(&old(self)),
                keep_fn == k0,
                k0 == keep,
                forall|x: &mut T| k0.requires((x,)),
                flags.len() == read,
                vals.len() == read,
                refs.len() == read,
                forall|i: int| 0 <= i < read ==> *#[trigger] refs[i] == s[i] && k0.ensures((refs[i],), flags[i]),
                self@.len() == write + (n - read),
                self@.subrange(0, write as int) == spec_filter(vals, flags),
                self@.subrange(write as int, self@.len() as int) == s.subrange(read as int, n as int),
            decreases n - read,
        {
            let ghost before = self@;
            let elem = &mut self.data[write];
            let b = keep_fn(elem);
            let ghost mid = self@;
            proof {
                assert(before[write as int] == s[read as int]) by {
                    assert(before.subrange(write as int, before.len() as int)[0] == before[write as int]);
                }
                let nf = flags.push(b);
                let nv = vals.push(mid[write as int]);
                lemma_filter_step(nv, nf, read as int);
                assert(nv.take(read as int) =~= vals);
                assert(nf.take(read as int) =~= flags);
                assert(nv.take(read as int + 1) =~= nv);
                assert(nf.take(read as int + 1) =~= nf);
                let mm = choose|m3: &mut T| keep_fn.ensures((m3,), b) && *m3 == before[write as int];
                let nr = refs.push(mm);
                assert forall|i: int| 0 <= i < read + 1 implies *#[trigger] nr[i] == s[i] && k0.ensures((nr[i],), nf[i]) by {
                    if i < read {
                        assert(nv[i] == vals[i]);
                        assert(nf[i] == flags[i]);
                        assert(nr[i] == refs[i]);
                    }
                }
                refs = nr;
                flags = nf;
                vals = nv;
            }
            if b {
                write = write + 1;
                proof {
                    assert(self@.subrange(0, write as int) =~= before.subrange(0, write - 1).push(mid[write - 1]));
                    assert forall|j: int| write <= j < self@.len() implies #[trigger] self@[j] == s[read + 1 + (j - write)] by {
                        assert(before.subrange(write - 1, before.len() as int)[j - write + 1] == s.subrange(read as int, n as int)[j - write + 1]);
                    }
                    assert(self@.subrange(write as int, self@.len() as int) =~= s.subrange(read as int + 1, n as int));
                }
            } else {
                self.data.remove(write);
                proof {
                    assert(self@.subrange(0, write as int) =~= before.subrange(0, write as int));
                    assert forall|j: int| write <= j < self@.len() implies #[trigger] self@[j] == s[read + 1 + (j - write)] by {
                        assert(before.subrange(write as int, before.len() as int)[j - write + 1] == s.subrange(read as int, n as int)[j - write + 1]);
                    }
                    assert(self@.subrange(write as int, self@.len() as int) =~= s.subrange(read as int + 1, n as int));
                }
            }
            read = read + 1;
        }
        proof {
            assert(self@.subrange(0, write as int) =~= self@);
            assert forall|i: int| 0 <= i < old(self)@.len() implies #[trigger] spec_called_on_mut(keep, old(self)@[i], flags[i]) by {
                assert(*refs[i] == s[i] && k0.ensures((refs[i],), flags[i]));
            }
            assert(self@ == spec_filter(vals, flags));
            assert(flags.len() == old(self)@.len() && vals.len() == old(self)@.len());

        }
    }

    /// Reverses the order of the elements.
    pub fn reverse(&mut self)
        requires
            old(self).wf(),
        ensures
            final(self).wf(),
            final(self)@ == old(self)@.reverse(),
            final(self).spec_raw() == old(self).spec_raw(),
            final(self).spec_allocator() == old(self).spec_allocator(),
            final(self).spec_same_type_ids(&old(self)),
    {
        let n = self.data.len();
        let mut i: usize = 0;
        let ghost s = self@;
        while i < n
            invariant
                0 <= i <= n,
                n == s.len(),
                self.wf(),
                self.spec_raw() == old(self).spec_raw(),
                self.spec_allocator() == old(self).spec_allocator(),
                self.spec_same_type_ids(&old(self)),
                self@.len() == n,
                self@.subrange(0, i as int) == s.subrange(n - i, n as int).reverse(),
                self@.subrange(i as int, n as int) == s.subrange(0, n - i),
            decreases n - i,
        {
            let ghost before = self@;
            let x = self.data.pop().unwrap();
            self.data.insert(i, x);
            proof {
                assert(x == s[n - i - 1]) by {
                    assert(before.subrange(i as int, n as int)[n - i - 1] == s.subrange(0, n - i)[n - i - 1]);
                }
                assert forall|k: int| 0 <= k < i implies self@[k] == s.subrange(n - i, n as int).reverse()[k] by {
                    assert(before.subrange(0, i as int)[k] == s.subrange(n - i, n as int).reverse()[k]);
                }
                assert forall|j: int| i + 1 <= j < n implies #[trigger] self@[j] == s[j - i - 1] by {
                    assert(before.subrange(i as int, n as int)[j - i - 1] == s.subrange(0, n - i)[j - i - 1]);
                }
                assert(self@.subrange(0, i + 1) =~= s.subrange(n - i - 1, n as int).reverse());
                assert(self@.subrange(i + 1, n as int) =~= s.subrange(0, n - i - 1));
            }
            i = i + 1;
        }
        proof {
            assert(self@ =~= self@.subrange(0, n as int));
            assert(s.subrange(0, n as int) =~= s);
        }
    }
}

impl<T, A> TypeProjectedVec<T, A> {
    /// Removes the elements in `start..end` and returns them, in order. The capacity is kept.
    pub(crate) fn take_range(&mut self, start: usize, end: usize) -> (r: Vec<T>)
        requires
            old(self).wf(),
            start <= end <= old(self)@.len(),
        ensures
            final(self).wf(),
            r@ == old(self)@.subrange(start as int, end as int),
            final(self)@ == old(self)@.subrange(0, start as int) + old(self)@.subrange(end as int, old(self)@.len() as int),
            final(self).spec_raw() == old(self).spec_raw(),
            final(self).spec_allocator() == old(self).spec_allocator(),
            final(self).spec_same_type_ids(&old(self)),
    {
        let mut tail = self.data.split_off(end);
        let middle = self.data.split_off(start);
        self.data.append(&mut tail);
        middle
    }

    /// Takes the vector apart into its elements, its bookkeeping and its allocator.
    pub(crate) fn into_components(self) -> (r: (Vec<T>, RawVecMemory, A))
        ensures
            r.0@ == self@,
            r.1 == self.spec_raw(),
            r.2 == self.spec_allocator(),
    {
        let TypeProjectedVec { data, memory, alloc, .. } = self;
        (data, memory, alloc)
    }

    /// Inserts the elements of `items` at `at`, in order, growing the capacity amortized when
    /// they do not fit.
    pub(crate) fn insert_all(&mut self, at: usize, items: Vec<T>)
        requires
            old(self).wf(),
            at <= old(self)@.len(),
            old(self).spec_can_reserve(items@.len()),
        ensures
            final(self).wf(),
            final(self)@ == old(self)@.subrange(0, at as int) + items@ + old(self)@.subrange(at as int, old(self)@.len() as int),
            old(self).spec_reserved_raw(items@.len(), final(self).spec_raw()),
            final(self).spec_allocator() == old(self).spec_allocator(),
            final(self).spec_same_type_ids(&old(self)),
    {
        let mut items = items;
        self.reserve(items.len());
        let mut tail = self.data.split_off(at);
        self.data.append(&mut items);
        self.data.append(&mut tail);
    }

    /// Returns a vector of the same capacity and allocator whose elements are clones of the
    /// elements of `self`.
    pub fn clone(&self) -> (r: Self)
        where
            T: Clone,
            A: Clone,
        requires
            self.wf(),
        ensures
            r.wf(),
            r@.len() == self@.len(),
            forall|i: int| 0 <= i < self@.len() ==> cloned::<T>(self@[i], #[trigger] r@[i]),
            r.spec_raw() == self.spec_raw(),
            call_ensures(A::clone, (&self.spec_allocator(),), r.spec_allocator()),
            r.spec_same_type_ids(self),
    {
        let alloc = self.alloc.clone();
        let stored = self.memory.stored_capacity();
        let mut other = Self::with_capacity_and_type_ids(stored, alloc, self.element_type_id, self.allocator_type_id);
        other.data.extend_from_slice(self.data.as_slice());
        proof {
            RawVecMemory::lemma_ext_eq(&other.memory, &self.memory);
            assert forall|i: int| 0 <= i < self@.len() implies cloned::<T>(self@[i], #[trigger] other@[i]) by {
                assert(other@[i] == other.data@[0 + i]);
            }
        }
        other
    }
}

impl<T: 'static, A: Default + 'static> Default for TypeProjectedVec<T, A> {
    /// An empty vector with the default allocator. It does not allocate.
    fn default() -> (r: Self)
        ensures
            r.wf(),
            r@ == Seq::<T>::empty(),
            r.spec_raw().spec_stored() == 0,
    {
        TypeProjectedVec::new_in(A::default())
    }
}

impl<T: 'static> TypeProjectedVec<T, Global> {
    /// Converts a standard vector into a type-projected vector with the same elements and the
    /// same capacity.
    pub fn from_vec(vec: Vec<T>) -> (r: Self)
        ensures
            r.wf(),
            r@ == vec@,
            r.spec_raw().spec_stored() >= vec@.len(),
            r.spec_raw().spec_layout() == Layout::spec_of::<T>(),
    {
        let layout = Layout::new::<T>();
        let cap = vec_capacity(&vec);
        let mut memory = RawVecMemory::new_in(layout);
        let data = vec;
        if layout.size() > 0 {
            proof {
                crate::raw_vec::lemma_fits_bounds_count(layout, cap as nat);
            }
            memory.set_recorded_capacity(cap);
        } else if cap > 0 {
            memory.set_recorded_capacity(usize::MAX);
        }
        TypeProjectedVec {
            data,
            memory,
            alloc: Global,
            element_type_id: type_id_of::<T>(),
            allocator_type_id: type_id_of::<Global>(),
        }
    }
}

/// Calls `Vec::capacity`: the number of elements the vector can hold without reallocating.
/// The standard library documents it to be at least the length, and never lets a vector's
/// allocation exceed `isize::MAX` bytes.
#[verifier::external_body]
fn vec_capacity<E>(v: &Vec<E>) -> (r: usize)
    ensures
        r >= v@.len(),
        vstd::layout::size_of::<E>() * r <= isize::MAX,
{
    v.capacity()
}

impl<T: 'static> TypeProjectedVec<T, Global> {
    /// Constructs a new empty vector with the global allocator. It does not allocate.
    pub fn new() -> (r: Self)
        ensures
            r.wf(),
            r@ == Seq::<T>::empty(),
            r.spec_raw().spec_stored() == 0,
    {
        Self::new_in(Global)
    }

    /// Constructs a new empty vector with the global allocator that can hold `capacity`
    /// elements without reallocating.
    pub fn with_capacity(capacity: usize) -> (r: Self)
        requires
            Layout::spec_of::<T>().array_fits(capacity as nat),
        ensures
            r.wf(),
            r@ == Seq::<T>::empty(),
            r.spec_raw().spec_stored() == spec_new_capacity(capacity as nat, Layout::spec_of::<T>()),
    {
        Self::with_capacity_in(capacity, Global)
    }

    /// Constructs a new empty vector with the global allocator that can hold `capacity`
    /// elements without reallocating, or reports why the memory could not be reserved.
    pub fn try_with_capacity(capacity: usize) -> (r: Result<Self, TryReserveError>)
        ensures
            r matches Ok(v) ==> v.wf(),
            !Layout::spec_of::<T>().array_fits(capacity as nat) ==> (r matches Err(e) && e.spec_kind() == TryReserveErrorKind::CapacityOverflow),
            Layout::spec_of::<T>().array_fits(capacity as nat) ==> match r {
                Ok(v) => {
                    &&& v@ == Seq::<T>::empty()
                    &&& v.spec_raw().spec_stored() == spec_new_capacity(capacity as nat, Layout::spec_of::<T>())
                },
                Err(e) => e.spec_kind() is AllocError,
            },
    {
        Self::try_with_capacity_in(capacity, Global)
    }
}

impl<T: 'static, A: 'static> TypeProjectedVec<T, A> {
    /// Returns the runtime type identifier of the element type, which the vector recorded
    /// when it was made and keeps for its whole life.
    pub fn element_type_id(&self) -> (r: TypeId)
        ensures
            r == self.spec_element_type_id(),
    {
        self.element_type_id
    }

    /// Returns the runtime type identifier of the allocator type, which the vector recorded
    /// when it was made and keeps for its whole life.
    pub fn allocator_type_id(&self) -> (r: TypeId)
        ensures
            r == self.spec_allocator_type_id(),
    {
        self.allocator_type_id
    }
}

} // verus!
