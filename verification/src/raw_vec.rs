//! The capacity policy shared by the vectors of this crate.
//!
//! [`RawVecMemory`] records how many elements the vector's allocation can hold and decides how
//! the allocation grows and shrinks. The element storage itself is a `Vec` owned by the caller;
//! every growth of the recorded capacity reserves the matching amount of storage in it, so that
//! a failing allocation is reported exactly where the policy asks for memory.
use vstd::prelude::*;
use crate::error::{TryReserveError, TryReserveErrorKind};
use crate::layout::{Layout, max_size_for_align};

verus! {

/// The single place where capacity overflows are reported: returns the error that says that
/// a requested capacity does not fit in one allocation.
pub fn capacity_overflow() -> (r: TryReserveError)
    ensures
        r.spec_kind() == TryReserveErrorKind::CapacityOverflow,
{
    TryReserveError::from_kind(TryReserveErrorKind::CapacityOverflow)
}

/// The smallest nonzero capacity that an amortized growth allocates, by element size.
pub open spec fn spec_min_non_zero_capacity(size: nat) -> nat {
    if size == 1 {
        8
    } else if size <= 1024 {
        4
    } else {
        1
    }
}

/// Returns the smallest nonzero capacity that an amortized growth allocates for elements of
/// `size` bytes: eight for bytes, four for elements of at most one kilobyte, one otherwise.
pub fn min_non_zero_capacity(size: usize) -> (r: usize)
    ensures
        r == spec_min_non_zero_capacity(size as nat),
{
    if size == 1 {
        8
    } else if size <= 1024 {
        4
    } else {
        1
    }
}

/// The capacity recorded for a requested capacity: a request for zero-sized elements records
/// no capacity when it asks for none and unbounded capacity otherwise, since such elements take
/// no memory.
pub open spec fn spec_new_capacity(capacity: nat, layout: Layout) -> nat {
    if layout.spec_size() == 0 && capacity > 0 {
        usize::MAX as nat
    } else {
        capacity
    }
}

/// Returns the capacity to record for a requested capacity of elements of `layout`.
pub fn new_capacity(capacity: usize, layout: &Layout) -> (r: usize)
    ensures
        r == spec_new_capacity(capacity as nat, *layout),
{
    if layout.size() == 0 && capacity > 0 {
        usize::MAX
    } else {
        capacity
    }
}

/// The layout of an array of `capacity` elements of `element_layout`, or a capacity overflow
/// when such an array does not fit in one allocation.
pub fn layout_array(capacity: usize, element_layout: &Layout) -> (r: Result<Layout, TryReserveError>)
    requires
        element_layout.wf(),
    ensures
        r is Ok <==> element_layout.array_fits(capacity as nat),
        r matches Ok(l) ==> {
            &&& l.wf()
            &&& l.spec_size() == element_layout.spec_size() * capacity
            &&& l.spec_align() == element_layout.spec_align()
        },
        r matches Err(e) ==> e.spec_kind() == TryReserveErrorKind::CapacityOverflow,
{
    match element_layout.repeat(capacity) {
        Some(layout) => Ok(layout),
        None => Err(capacity_overflow()),
    }
}

/// Whether an allocation of `alloc_size` bytes must be refused on this platform.
pub open spec fn spec_alloc_guard_fails(alloc_size: nat) -> bool {
    usize::BITS < 64 && alloc_size > isize::MAX
}

/// Refuses allocations larger than `isize::MAX` bytes on platforms narrower than 64 bits.
pub fn alloc_guard(alloc_size: usize) -> (r: Result<(), TryReserveError>)
    ensures
        r is Err <==> spec_alloc_guard_fails(alloc_size as nat),
        r matches Err(e) ==> e.spec_kind() == TryReserveErrorKind::CapacityOverflow,
{
    if usize::BITS < 64 && alloc_size > isize::MAX as usize {
        Err(capacity_overflow())
    } else {
        Ok(())
    }
}

/// Asks the memory allocator for storage of `total` units in `buf`, for an allocation of
/// `new_layout`.
///
/// The allocator may refuse; then the error names `new_layout`. The stored elements are kept
/// either way.
pub fn finish_grow<E>(new_layout: &Layout, buf: &mut Vec<E>, total: usize) -> (r: Result<(), TryReserveError>)
    requires
        new_layout.wf(),
        old(buf).len() <= total,
    ensures
        final(buf)@ == old(buf)@,
        r matches Err(e) ==> e.spec_kind() == (TryReserveErrorKind::AllocError { layout: *new_layout }),
{
    if let Err(e) = alloc_guard(new_layout.size()) {
        return Err(e);
    }
    let additional = total - buf.len();
    match buf.try_reserve(additional) {
        Ok(()) => Ok(()),
        Err(_) => Err(TryReserveError::from_kind(TryReserveErrorKind::AllocError { layout: *new_layout })),
    }
}

/// The capacity bookkeeping of a vector's allocation.
pub struct RawVecMemory {
    capacity: usize,
    layout: Layout,
}

/// An array of `n` elements of size at least one byte fits only if `n` is at most `isize::MAX`.
pub proof fn lemma_fits_bounds_count(layout: Layout, n: nat)
    requires
        layout.wf(),
        layout.spec_size() >= 1,
        layout.array_fits(n),
    ensures
        n <= isize::MAX,
{
    assert(n <= layout.spec_size() * n) by (nonlinear_arith)
        requires
            layout.spec_size() >= 1,
    ;
}

/// Fewer elements fit whenever more elements fit.
pub proof fn lemma_fits_monotone(layout: Layout, a: nat, b: nat)
    requires
        a <= b,
        layout.array_fits(b),
    ensures
        layout.array_fits(a),
{
    assert(layout.spec_size() * a <= layout.spec_size() * b) by (nonlinear_arith)
        requires
            a <= b,
    ;
}

/// The storage units that `n` elements occupy, where a unit is either a whole element or a byte.
pub open spec fn spec_units(n: nat, unit: nat) -> nat {
    n * unit
}

/// Element units are monotonic in the element count, and stay within `usize` for any count that
/// fits in one allocation.
proof fn lemma_units(layout: Layout, a: nat, b: nat, unit: nat)
    requires
        layout.wf(),
        unit == 1 || unit == layout.spec_size(),
        a <= b,
        layout.spec_size() >= 1 ==> layout.array_fits(b),
        layout.spec_size() == 0 ==> unit == 1 ==> b <= usize::MAX,
    ensures
        spec_units(a, unit) <= spec_units(b, unit),
        spec_units(b, unit) <= usize::MAX,
{
    assert(a * unit <= b * unit) by (nonlinear_arith)
        requires
            a <= b,
    ;
    if layout.spec_size() >= 1 {
        lemma_fits_bounds_count(layout, b);
        assert(layout.spec_size() * b <= isize::MAX);
        if unit == layout.spec_size() {
            assert(b * unit == layout.spec_size() * b) by (nonlinear_arith)
                requires
                    unit == layout.spec_size(),
            ;
        }
    } else if unit == 0 {
        assert(b * unit == 0) by (nonlinear_arith)
            requires
                unit == 0,
        ;
    }
}

impl RawVecMemory {
    /// The capacity that is recorded, in elements.
    pub closed spec fn spec_stored(&self) -> nat {
        self.capacity as nat
    }

    /// The layout of one element.
    pub closed spec fn spec_layout(&self) -> Layout {
        self.layout
    }

    /// The capacity in elements. It is zero until room is first reserved; for zero-sized
    /// elements, which take no memory, it is then unbounded.
    pub open spec fn spec_capacity(&self) -> nat {
        self.spec_stored()
    }

    /// The bookkeeping invariant: zero-sized elements have no capacity or unbounded capacity;
    /// other elements have a capacity whose array fits in one allocation.
    pub open spec fn wf(&self) -> bool {
        &&& self.spec_layout().wf()
        &&& self.spec_layout().spec_size() == 0 ==> (self.spec_stored() == 0 || self.spec_stored() == usize::MAX)
        &&& self.spec_layout().spec_size() > 0 ==> self.spec_layout().array_fits(self.spec_stored())
        &&& self.spec_layout().spec_size() > 0 ==> self.spec_stored() <= isize::MAX
    }

    /// Whether `additional` more elements beyond `len` exceed the capacity.
    pub open spec fn spec_needs_to_grow(&self, len: nat, additional: nat) -> bool {
        additional > self.spec_capacity() - len
    }

    /// The capacity that an amortized growth to `len + additional` elements chooses: at least
    /// double the recorded capacity, at least the required capacity, and at least the minimum
    /// nonzero capacity for the element size; unbounded for zero-sized elements.
    pub open spec fn spec_amortized_capacity(&self, len: nat, additional: nat) -> nat {
        let required = len + additional;
        let doubled = 2 * self.spec_stored();
        let cap = if doubled >= required { doubled } else { required };
        let min = spec_min_non_zero_capacity(self.spec_layout().spec_size());
        if self.spec_layout().spec_size() == 0 {
            usize::MAX as nat
        } else if min >= cap {
            min
        } else {
            cap
        }
    }

    /// The capacity that an exact growth to `len + additional` elements chooses: exactly that,
    /// or unbounded for zero-sized elements.
    pub open spec fn spec_exact_capacity(&self, len: nat, additional: nat) -> nat {
        if self.spec_layout().spec_size() == 0 {
            usize::MAX as nat
        } else {
            len + additional
        }
    }

    /// Whether an amortized growth to `len + additional` elements overflows.
    pub open spec fn spec_amortized_overflows(&self, len: nat, additional: nat) -> bool {
        ||| len + additional > usize::MAX
        ||| !self.spec_layout().array_fits(self.spec_amortized_capacity(len, additional))
    }

    /// Whether an exact growth to `len + additional` elements overflows.
    pub open spec fn spec_exact_overflows(&self, len: nat, additional: nat) -> bool {
        ||| len + additional > usize::MAX
        ||| !self.spec_layout().array_fits(len + additional)
    }

    /// The same bookkeeping with another recorded capacity.
    pub open spec fn spec_with_stored(&self, other: &RawVecMemory, stored: nat) -> bool {
        &&& other.spec_layout() == self.spec_layout()
        &&& other.spec_stored() == stored
    }

    /// An empty allocation for elements of `layout`.
    pub fn new_in(layout: Layout) -> (r: Self)
        requires
            layout.wf(),
        ensures
            r.wf(),
            r.spec_layout() == layout,
            r.spec_stored() == 0,
    {
        RawVecMemory { capacity: 0, layout }
    }

    /// An allocation for `capacity` elements of `layout`, asking the allocator for the memory;
    /// the allocator may refuse. Nothing is allocated when the array takes no bytes.
    pub fn try_with_capacity_in<E>(capacity: usize, layout: Layout, buf: &mut Vec<E>, unit: usize) -> (r: Result<Self, TryReserveError>)
        requires
            layout.wf(),
            unit == 1 || unit == layout.spec_size(),
            old(buf).len() == 0,
        ensures
            final(buf)@ == old(buf)@,
            !layout.array_fits(capacity as nat) ==> (r matches Err(e) && e.spec_kind() == TryReserveErrorKind::CapacityOverflow),
            layout.array_fits(capacity as nat) ==> match r {
                Ok(m) => {
                    &&& m.wf()
                    &&& m.spec_layout() == layout
                    &&& m.spec_stored() == spec_new_capacity(capacity as nat, layout)
                },
                Err(e) => {
                    &&& layout.spec_size() * capacity > 0
                    &&& e.spec_kind() matches TryReserveErrorKind::AllocError { layout: l }
                        && l.spec_size() == layout.spec_size() * capacity
                        && l.spec_align() == layout.spec_align()
                },
            },
    {
        let array = match layout_array(capacity, &layout) {
            Ok(array) => array,
            Err(e) => return Err(e),
        };
        if array.size() == 0 {
            proof {
                assert(layout.spec_size() == 0 || capacity == 0) by (nonlinear_arith)
                    requires
                        layout.spec_size() * capacity == 0,
                ;
            }
            return Ok(RawVecMemory { capacity: new_capacity(capacity, &layout), layout });
        }
        let guard = alloc_guard(array.size());
        if guard.is_err() {
            return Err(guard.unwrap_err());
        }
        proof {
            assert(layout.spec_size() >= 1) by (nonlinear_arith)
                requires
                    layout.spec_size() * capacity > 0,
            ;
            lemma_fits_bounds_count(layout, capacity as nat);
            lemma_units(layout, 0, capacity as nat, unit as nat);
        }
        let total = capacity * unit;
        match buf.try_reserve(total) {
            Ok(()) => Ok(RawVecMemory { capacity, layout }),
            Err(_) => Err(TryReserveError::from_kind(TryReserveErrorKind::AllocError { layout: array })),
        }
    }

    /// An allocation for `capacity` elements of `layout`. An allocator that cannot provide the
    /// memory ends the process.
    pub fn with_capacity_in<E>(capacity: usize, layout: Layout, buf: &mut Vec<E>, unit: usize) -> (r: Self)
        requires
            layout.wf(),
            unit == 1 || unit == layout.spec_size(),
            old(buf).len() == 0,
            layout.array_fits(capacity as nat),
        ensures
            final(buf)@ == old(buf)@,
            r.wf(),
            r.spec_layout() == layout,
            r.spec_stored() == spec_new_capacity(capacity as nat, layout),
    {
        if layout.size() == 0 || capacity == 0 {
            return RawVecMemory { capacity: new_capacity(capacity, &layout), layout };
        }
        proof {
            lemma_fits_bounds_count(layout, capacity as nat);
            lemma_units(layout, 0, capacity as nat, unit as nat);
        }
        let total = capacity * unit;
        buf.reserve(total);
        RawVecMemory { capacity, layout }
    }

    /// Returns the layout of one element.
    pub fn element_layout(&self) -> (r: Layout)
        ensures
            r == self.spec_layout(),
    {
        self.layout
    }

    /// Returns the capacity in elements.
    pub fn capacity(&self) -> (r: usize)
        requires
            self.wf(),
        ensures
            r == self.spec_capacity(),
    {
        self.capacity
    }

    /// The layout of the current allocation, if there is one.
    pub fn current_memory(&self) -> (r: Option<Layout>)
        requires
            self.wf(),
        ensures
            r is None <==> (self.spec_layout().spec_size() == 0 || self.spec_stored() == 0),
            r matches Some(l) ==> {
                &&& l.wf()
                &&& l.spec_size() == self.spec_layout().spec_size() * self.spec_stored()
                &&& l.spec_align() == self.spec_layout().spec_align()
            },
    {
        if self.layout.size() == 0 || self.capacity == 0 {
            None
        } else {
            match self.layout.repeat(self.capacity) {
                Some(l) => Some(l),
                None => {
                    proof {
                        assert(false);
                    }
                    None
                },
            }
        }
    }

    /// Whether `additional` more elements beyond `len` exceed the capacity.
    pub fn needs_to_grow(&self, len: usize, additional: usize) -> (r: bool)
        requires
            self.wf(),
            len <= self.spec_capacity(),
        ensures
            r == self.spec_needs_to_grow(len as nat, additional as nat),
    {
        additional > self.capacity() - len
    }

    /// Computes the capacity of an amortized growth, or reports why there is none.
    fn amortized_target(&self, len: usize, additional: usize) -> (r: Result<(usize, Layout), TryReserveError>)
        requires
            self.wf(),
            self.spec_layout().spec_size() > 0,
        ensures
            r is Err <==> self.spec_amortized_overflows(len as nat, additional as nat),
            r matches Err(e) ==> e.spec_kind() == TryReserveErrorKind::CapacityOverflow,
            r matches Ok((c, l)) ==> {
                &&& c == self.spec_amortized_capacity(len as nat, additional as nat)
                &&& l.wf()
                &&& l.spec_size() == self.spec_layout().spec_size() * c
                &&& l.spec_align() == self.spec_layout().spec_align()
                &&& self.spec_layout().array_fits(c as nat)
                &&& c <= isize::MAX
            },
    {
        let required = match len.checked_add(additional) {
            Some(required) => required,
            None => {
                return Err(capacity_overflow());
            },
        };
        let doubled = self.capacity * 2;
        let cap = if doubled >= required { doubled } else { required };
        let min = min_non_zero_capacity(self.layout.size());
        let cap = if min >= cap { min } else { cap };
        match layout_array(cap, &self.layout) {
            Ok(l) => {
                proof {
                    lemma_fits_bounds_count(self.layout, cap as nat);
                }
                Ok((cap, l))
            },
            Err(e) => Err(e),
        }
    }

    /// Computes the capacity of an exact growth, or reports why there is none.
    fn exact_target(&self, len: usize, additional: usize) -> (r: Result<(usize, Layout), TryReserveError>)
        requires
            self.wf(),
            self.spec_layout().spec_size() > 0,
        ensures
            r is Err <==> self.spec_exact_overflows(len as nat, additional as nat),
            r matches Err(e) ==> e.spec_kind() == TryReserveErrorKind::CapacityOverflow,
            r matches Ok((c, l)) ==> {
                &&& c == len + additional
                &&& l.wf()
                &&& l.spec_size() == self.spec_layout().spec_size() * c
                &&& l.spec_align() == self.spec_layout().spec_align()
                &&& self.spec_layout().array_fits(c as nat)
                &&& c <= isize::MAX
            },
    {
        let cap = match len.checked_add(additional) {
            Some(cap) => cap,
            None => {
                return Err(capacity_overflow());
            },
        };
        match layout_array(cap, &self.layout) {
            Ok(l) => {
                proof {
                    lemma_fits_bounds_count(self.layout, cap as nat);
                }
                Ok((cap, l))
            },
            Err(e) => Err(e),
        }
    }

    /// Returns a copy of the bookkeeping.
    pub fn copy(&self) -> (r: Self)
        ensures
            r == *self,
    {
        RawVecMemory { capacity: self.capacity, layout: self.layout }
    }

    /// Two bookkeeping values with the same layout and recorded capacity are the same.
    pub proof fn lemma_ext_eq(a: &RawVecMemory, b: &RawVecMemory)
        requires
            a.spec_stored() == b.spec_stored(),
            a.spec_layout() == b.spec_layout(),
        ensures
            *a == *b,
    {
    }

    /// Returns the recorded capacity in elements.
    pub fn stored_capacity(&self) -> (r: usize)
        ensures
            r == self.spec_stored(),
    {
        self.capacity
    }

    /// Records the capacity of storage that was reserved elsewhere, such as by a standard
    /// vector that is taken over.
    pub(crate) fn set_recorded_capacity(&mut self, c: usize)
        requires
            old(self).wf(),
            old(self).spec_layout().array_fits(c as nat),
            old(self).spec_layout().spec_size() > 0 ==> c <= isize::MAX,
            old(self).spec_layout().spec_size() == 0 ==> (c == 0 || c == usize::MAX),
        ensures
            final(self).wf(),
            final(self).spec_layout() == old(self).spec_layout(),
            final(self).spec_stored() == c,
    {
        self.set_capacity(c);
    }

    /// Records the capacity of an allocation of `c` elements that has just been made.
    fn set_capacity(&mut self, c: usize)
        requires
            old(self).wf(),
            old(self).spec_layout().array_fits(c as nat),
            old(self).spec_layout().spec_size() > 0 ==> c <= isize::MAX,
            old(self).spec_layout().spec_size() == 0 ==> (c == 0 || c == usize::MAX),
        ensures
            final(self).wf(),
            final(self).spec_layout() == old(self).spec_layout(),
            final(self).spec_stored() == c,
    {
        self.capacity = c;
    }

    /// Grows the allocation to the amortized capacity for `len + additional` elements, asking
    /// the allocator for the memory; the allocator may refuse.
    pub fn grow_amortized<E>(&mut self, buf: &mut Vec<E>, unit: usize, len: usize, additional: usize) -> (r: Result<(), TryReserveError>)
        requires
            old(self).wf(),
            unit == 1 || unit == old(self).spec_layout().spec_size(),
            len <= old(self).spec_capacity(),
            old(buf).len() == spec_units(len as nat, unit as nat),
        ensures
            final(self).wf(),
            final(buf)@ == old(buf)@,
            final(self).spec_layout() == old(self).spec_layout(),
            old(self).spec_amortized_overflows(len as nat, additional as nat) ==> {
                &&& r matches Err(e) && e.spec_kind() == TryReserveErrorKind::CapacityOverflow
                &&& *final(self) == *old(self)
            },
            !old(self).spec_amortized_overflows(len as nat, additional as nat) ==> match r {
                Ok(()) => final(self).spec_stored() == old(self).spec_amortized_capacity(len as nat, additional as nat),
                Err(e) => {
                    &&& e.spec_kind() matches TryReserveErrorKind::AllocError { layout }
                        && layout.spec_size() == old(self).spec_layout().spec_size() * old(self).spec_amortized_capacity(len as nat, additional as nat)
                        && layout.spec_align() == old(self).spec_layout().spec_align()
                    &&& *final(self) == *old(self)
                },
            },
    {
        if self.layout.size() == 0 {
            if additional > usize::MAX - len {
                return Err(capacity_overflow());
            }
            self.set_capacity(usize::MAX);
            return Ok(());
        }
        let (c, new_layout) = match self.amortized_target(len, additional) {
            Ok(target) => target,
            Err(e) => return Err(e),
        };
        proof {
            lemma_units(self.layout, len as nat, c as nat, unit as nat);
        }
        let total = c * unit;
        match finish_grow(&new_layout, buf, total) {
            Ok(()) => {
                self.set_capacity(c);
                Ok(())
            },
            Err(e) => Err(e),
        }
    }

    /// Grows the allocation to exactly `len + additional` elements, asking the allocator for the
    /// memory; the allocator may refuse.
    pub fn grow_exact<E>(&mut self, buf: &mut Vec<E>, unit: usize, len: usize, additional: usize) -> (r: Result<(), TryReserveError>)
        requires
            old(self).wf(),
            unit == 1 || unit == old(self).spec_layout().spec_size(),
            len <= old(self).spec_capacity(),
            old(buf).len() == spec_units(len as nat, unit as nat),
        ensures
            final(self).wf(),
            final(buf)@ == old(buf)@,
            final(self).spec_layout() == old(self).spec_layout(),
            old(self).spec_exact_overflows(len as nat, additional as nat) ==> {
                &&& r matches Err(e) && e.spec_kind() == TryReserveErrorKind::CapacityOverflow
                &&& *final(self) == *old(self)
            },
            !old(self).spec_exact_overflows(len as nat, additional as nat) ==> match r {
                Ok(()) => final(self).spec_stored() == old(self).spec_exact_capacity(len as nat, additional as nat),
                Err(e) => {
                    &&& e.spec_kind() matches TryReserveErrorKind::AllocError { layout }
                        && layout.spec_size() == old(self).spec_layout().spec_size() * (len + additional)
                        && layout.spec_align() == old(self).spec_layout().spec_align()
                    &&& *final(self) == *old(self)
                },
            },
    {
        if self.layout.size() == 0 {
            if additional > usize::MAX - len {
                return Err(capacity_overflow());
            }
            self.set_capacity(usize::MAX);
            return Ok(());
        }
        let (c, new_layout) = match self.exact_target(len, additional) {
            Ok(target) => target,
            Err(e) => return Err(e),
        };
        proof {
            lemma_units(self.layout, len as nat, c as nat, unit as nat);
        }
        let total = c * unit;
        match finish_grow(&new_layout, buf, total) {
            Ok(()) => {
                self.set_capacity(c);
                Ok(())
            },
            Err(e) => Err(e),
        }
    }

    /// Makes room for `additional` more elements beyond `len`, growing amortized when the
    /// capacity does not suffice; the allocator may refuse.
    pub fn try_reserve<E>(&mut self, buf: &mut Vec<E>, unit: usize, len: usize, additional: usize) -> (r: Result<(), TryReserveError>)
        requires
            old(self).wf(),
            unit == 1 || unit == old(self).spec_layout().spec_size(),
            len <= old(self).spec_capacity(),
            old(buf).len() == spec_units(len as nat, unit as nat),
        ensures
            final(self).wf(),
            final(buf)@ == old(buf)@,
            final(self).spec_layout() == old(self).spec_layout(),
            !old(self).spec_needs_to_grow(len as nat, additional as nat) ==> r is Ok && *final(self) == *old(self),
            old(self).spec_needs_to_grow(len as nat, additional as nat) && old(self).spec_amortized_overflows(len as nat, additional as nat) ==> {
                &&& r matches Err(e) && e.spec_kind() == TryReserveErrorKind::CapacityOverflow
                &&& *final(self) == *old(self)
            },
            old(self).spec_needs_to_grow(len as nat, additional as nat) && !old(self).spec_amortized_overflows(len as nat, additional as nat) ==> match r {
                Ok(()) => final(self).spec_stored() == old(self).spec_amortized_capacity(len as nat, additional as nat),
                Err(e) => {
                    &&& e.spec_kind() matches TryReserveErrorKind::AllocError { layout }
                        && layout.spec_size() == old(self).spec_layout().spec_size() * old(self).spec_amortized_capacity(len as nat, additional as nat)
                        && layout.spec_align() == old(self).spec_layout().spec_align()
                    &&& *final(self) == *old(self)
                },
            },
            r is Ok ==> !final(self).spec_needs_to_grow(len as nat, additional as nat),
    {
        if self.needs_to_grow(len, additional) {
            self.grow_amortized(buf, unit, len, additional)
        } else {
            Ok(())
        }
    }

    /// Makes room for exactly `additional` more elements beyond `len` when the capacity does not
    /// suffice; the allocator may refuse.
    pub fn try_reserve_exact<E>(&mut self, buf: &mut Vec<E>, unit: usize, len: usize, additional: usize) -> (r: Result<(), TryReserveError>)
        requires
            old(self).wf(),
            unit == 1 || unit == old(self).spec_layout().spec_size(),
            len <= old(self).spec_capacity(),
            old(buf).len() == spec_units(len as nat, unit as nat),
        ensures
            final(self).wf(),
            final(buf)@ == old(buf)@,
            final(self).spec_layout() == old(self).spec_layout(),
            !old(self).spec_needs_to_grow(len as nat, additional as nat) ==> r is Ok && *final(self) == *old(self),
            old(self).spec_needs_to_grow(len as nat, additional as nat) && old(self).spec_exact_overflows(len as nat, additional as nat) ==> {
                &&& r matches Err(e) && e.spec_kind() == TryReserveErrorKind::CapacityOverflow
                &&& *final(self) == *old(self)
            },
            old(self).spec_needs_to_grow(len as nat, additional as nat) && !old(self).spec_exact_overflows(len as nat, additional as nat) ==> match r {
                Ok(()) => final(self).spec_stored() == old(self).spec_exact_capacity(len as nat, additional as nat),
                Err(e) => {
                    &&& e.spec_kind() matches TryReserveErrorKind::AllocError { layout }
                        && layout.spec_size() == old(self).spec_layout().spec_size() * (len + additional)
                        && layout.spec_align() == old(self).spec_layout().spec_align()
                    &&& *final(self) == *old(self)
                },
            },
            r is Ok ==> !final(self).spec_needs_to_grow(len as nat, additional as nat),
    {
        if self.needs_to_grow(len, additional) {
            self.grow_exact(buf, unit, len, additional)
        } else {
            Ok(())
        }
    }

    /// Makes room for `additional` more elements beyond `len`, growing amortized when the
    /// capacity does not suffice. An allocator that cannot provide the memory ends the process,
    /// as the standard library's `Vec::reserve` does.
    pub fn reserve<E>(&mut self, buf: &mut Vec<E>, unit: usize, len: usize, additional: usize)
        requires
            old(self).wf(),
            unit == 1 || unit == old(self).spec_layout().spec_size(),
            len <= old(self).spec_capacity(),
            old(buf).len() == spec_units(len as nat, unit as nat),
            old(self).spec_needs_to_grow(len as nat, additional as nat) ==> !old(self).spec_amortized_overflows(len as nat, additional as nat),
        ensures
            final(self).wf(),
            final(buf)@ == old(buf)@,
            final(self).spec_layout() == old(self).spec_layout(),
            !old(self).spec_needs_to_grow(len as nat, additional as nat) ==> *final(self) == *old(self),
            old(self).spec_needs_to_grow(len as nat, additional as nat) ==> final(self).spec_stored() == old(self).spec_amortized_capacity(len as nat, additional as nat),
            !final(self).spec_needs_to_grow(len as nat, additional as nat),
    {
        if self.needs_to_grow(len, additional) {
            if self.layout.size() == 0 {
                self.set_capacity(usize::MAX);
                return;
            }
            let (c, _new_layout) = match self.amortized_target(len, additional) {
                Ok(target) => target,
                Err(_) => {
                    proof {
                        assert(false);
                    }
                    return;
                },
            };
            proof {
                lemma_units(self.layout, len as nat, c as nat, unit as nat);
            }
            let total = c * unit;
            buf.reserve(total - buf.len());
            self.set_capacity(c);
        }
    }

    /// Makes room for exactly `additional` more elements beyond `len` when the capacity does not
    /// suffice. An allocator that cannot provide the memory ends the process.
    pub fn reserve_exact<E>(&mut self, buf: &mut Vec<E>, unit: usize, len: usize, additional: usize)
        requires
            old(self).wf(),
            unit == 1 || unit == old(self).spec_layout().spec_size(),
            len <= old(self).spec_capacity(),
            old(buf).len() == spec_units(len as nat, unit as nat),
            old(self).spec_needs_to_grow(len as nat, additional as nat) ==> !old(self).spec_exact_overflows(len as nat, additional as nat),
        ensures
            final(self).wf(),
            final(buf)@ == old(buf)@,
            final(self).spec_layout() == old(self).spec_layout(),
            !old(self).spec_needs_to_grow(len as nat, additional as nat) ==> *final(self) == *old(self),
            old(self).spec_needs_to_grow(len as nat, additional as nat) ==> final(self).spec_stored() == old(self).spec_exact_capacity(len as nat, additional as nat),
            !final(self).spec_needs_to_grow(len as nat, additional as nat),
    {
        if self.needs_to_grow(len, additional) {
            if self.layout.size() == 0 {
                self.set_capacity(usize::MAX);
                return;
            }
            let (c, _new_layout) = match self.exact_target(len, additional) {
                Ok(target) => target,
                Err(_) => {
                    proof {
                        assert(false);
                    }
                    return;
                },
            };
            proof {
                lemma_units(self.layout, len as nat, c as nat, unit as nat);
            }
            let total = c * unit;
            buf.reserve(total - buf.len());
            self.set_capacity(c);
        }
    }

    /// Grows a full allocation by at least one element, amortized.
    pub fn grow_one<E>(&mut self, buf: &mut Vec<E>, unit: usize)
        requires
            old(self).wf(),
            unit == 1 || unit == old(self).spec_layout().spec_size(),
            old(buf).len() == spec_units(old(self).spec_stored(), unit as nat),
            !old(self).spec_amortized_overflows(old(self).spec_stored(), 1),
        ensures
            final(self).wf(),
            final(buf)@ == old(buf)@,
            final(self).spec_layout() == old(self).spec_layout(),
            final(self).spec_stored() == old(self).spec_amortized_capacity(old(self).spec_stored(), 1),
    {
        let len = self.capacity;
        self.reserve(buf, unit, len, 1);
    }

    /// Shrinks the allocation to `capacity` elements; an allocation of no elements is released.
    pub fn shrink_to_fit<E>(&mut self, buf: &mut Vec<E>, unit: usize, capacity: usize)
        requires
            old(self).wf(),
            unit == 1 || unit == old(self).spec_layout().spec_size(),
            capacity <= old(self).spec_capacity(),
            old(buf).len() <= spec_units(capacity as nat, unit as nat),
        ensures
            final(self).wf(),
            final(buf)@ == old(buf)@,
            final(self).spec_layout() == old(self).spec_layout(),
            final(self).spec_stored() == spec_new_capacity(capacity as nat, old(self).spec_layout()),
    {
        if self.layout.size() == 0 {
            self.set_capacity(new_capacity(capacity, &self.layout));
            return;
        }
        match self.current_memory() {
            None => {},
            Some(_current) => {
                proof {
                    lemma_units(self.layout, capacity as nat, self.capacity as nat, unit as nat);
                    lemma_fits_monotone(self.layout, capacity as nat, self.capacity as nat);
                }
                let total = capacity * unit;
                vec_shrink_to(buf, total);
                self.set_capacity(capacity);
            },
        }
    }
}

/// Calls `Vec::shrink_to`: lowers the reserved storage of `buf` towards `min_capacity`
/// units, never below its length. The contract states that the elements are kept.
#[verifier::external_body]
fn vec_shrink_to<E>(buf: &mut Vec<E>, min_capacity: usize)
    ensures
        final(buf)@ == old(buf)@,
{
    buf.shrink_to(min_capacity)
}

} // verus!
