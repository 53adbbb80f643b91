//! Draining a range of a type-projected vector.
use vstd::prelude::*;
use crate::vec::{Global, TypeProjectedVec};

verus! {

/// The elements removed from a range of a type-projected vector, handed out one by one.
///
/// The range is removed from the vector when the `Drain` is created, so the vector is
/// consistent at every moment; [`Drain::keep_rest`] puts the elements that were not handed out
/// back where the range was.
pub struct Drain<'a, T, A = Global> {
    vec: &'a mut TypeProjectedVec<T, A>,
    start: usize,
    items: Vec<T>,
}

impl<'a, T, A> Drain<'a, T, A> {
    /// The vector that the range was drained from, as it is now.
    pub closed spec fn spec_vec(&self) -> TypeProjectedVec<T, A> {
        *self.vec
    }

    /// The borrow of the vector that the drain holds.
    pub closed spec fn spec_vec_ref(&self) -> &'a mut TypeProjectedVec<T, A> {
        self.vec
    }

    /// The position of the drained range in the vector.
    pub closed spec fn spec_start(&self) -> nat {
        self.start as nat
    }

    /// The drained elements that have not been handed out, in order.
    pub closed spec fn spec_remaining(&self) -> Seq<T> {
        self.items@
    }

    /// The shape of a drain: the vector is well formed and the drained position lies in it.
    pub open spec fn wf_shape(&self) -> bool {
        &&& self.spec_vec().wf()
        &&& self.spec_start() <= self.spec_vec()@.len()
    }

    /// The drain invariant: its shape, and room in the vector for the elements that have not
    /// been handed out, so that they can always be put back.
    pub open spec fn wf(&self) -> bool {
        &&& self.wf_shape()
        &&& self.spec_vec()@.len() + self.spec_remaining().len() <= self.spec_vec().spec_capacity()
    }

    /// Returns the elements that have not been handed out yet.
    pub fn as_slice(&self) -> (r: &[T])
        ensures
            r@ == self.spec_remaining(),
    {
        self.items.as_slice()
    }

    /// Returns the allocator of the drained vector.
    pub fn allocator(&self) -> (r: &A)
        ensures
            *r == self.spec_vec().spec_allocator(),
    {
        self.vec.allocator()
    }

    /// Hands out the next element from the front.
    pub fn next(&mut self) -> (r: Option<T>)
        requires
            old(self).wf_shape(),
        ensures
            final(self).wf_shape(),
            old(self).wf() ==> final(self).wf(),
            old(self).spec_remaining().len() == 0 ==> r is None && final(self).spec_remaining() == old(self).spec_remaining(),
            old(self).spec_remaining().len() > 0 ==> r == Some(old(self).spec_remaining()[0])
                && final(self).spec_remaining() == old(self).spec_remaining().drop_first(),
            final(self).spec_vec() == old(self).spec_vec(),
            final(self).spec_vec_ref() == old(self).spec_vec_ref(),
            final(self).spec_start() == old(self).spec_start(),
    {
        if self.items.len() == 0 {
            None
        } else {
            let x = self.items.remove(0);
            proof {
                assert(self.items@ =~= old(self).spec_remaining().drop_first());
            }
            Some(x)
        }
    }

    /// Hands out the next element from the back.
    pub fn next_back(&mut self) -> (r: Option<T>)
        requires
            old(self).wf_shape(),
        ensures
            final(self).wf_shape(),
            old(self).wf() ==> final(self).wf(),
            old(self).spec_remaining().len() == 0 ==> r is None && final(self).spec_remaining() == old(self).spec_remaining(),
            old(self).spec_remaining().len() > 0 ==> r == Some(old(self).spec_remaining().last())
                && final(self).spec_remaining() == old(self).spec_remaining().drop_last(),
            final(self).spec_vec() == old(self).spec_vec(),
            final(self).spec_vec_ref() == old(self).spec_vec_ref(),
            final(self).spec_start() == old(self).spec_start(),
    {
        self.items.pop()
    }

    /// The number of elements that have not been handed out, as a lower and an upper bound.
    pub fn size_hint(&self) -> (r: (usize, Option<usize>))
        ensures
            r.0 == self.spec_remaining().len(),
            r.1 == Some(self.spec_remaining().len() as usize),
    {
        let n = self.items.len();
        (n, Some(n))
    }

    /// Inserts `items` into the vector at the drained position `at`.
    pub(crate) fn refill(&mut self, at: usize, items: Vec<T>)
        requires
            old(self).wf_shape(),
            at == old(self).spec_start(),
            old(self).spec_vec().spec_can_reserve(items@.len()),
        ensures
            final(self).wf_shape(),
            final(self).spec_vec()@ == old(self).spec_vec()@.subrange(0, at as int) + items@
                + old(self).spec_vec()@.subrange(at as int, old(self).spec_vec()@.len() as int),
            old(self).spec_vec().spec_reserved_raw(items@.len(), final(self).spec_vec().spec_raw()),
            final(self).spec_vec().spec_allocator() == old(self).spec_vec().spec_allocator(),
            final(self).spec_vec().spec_same_type_ids(&old(self).spec_vec()),
            final(self).spec_remaining() == old(self).spec_remaining(),
            final(self).spec_start() == old(self).spec_start(),
            mut_ref_future(final(self).spec_vec_ref()) == mut_ref_future(old(self).spec_vec_ref()),
    {
        self.vec.insert_all(at, items);
    }

    /// Puts the elements that have not been handed out back into the vector, where the
    /// drained range was.
    pub fn keep_rest(self)
        requires
            self.wf(),
        ensures
            mut_ref_future(self.spec_vec_ref())@ == self.spec_vec()@.subrange(0, self.spec_start() as int)
                + self.spec_remaining() + self.spec_vec()@.subrange(self.spec_start() as int, self.spec_vec()@.len() as int),
            self.spec_vec().spec_reserved_raw(self.spec_remaining().len(), mut_ref_future(self.spec_vec_ref()).spec_raw()),
            mut_ref_future(self.spec_vec_ref()).spec_allocator() == self.spec_vec().spec_allocator(),
            mut_ref_future(self.spec_vec_ref()).spec_same_type_ids(&self.spec_vec()),
            mut_ref_future(self.spec_vec_ref()).wf(),
    {
        let Drain { vec, start, items } = self;
        vec.insert_all(start, items);
    }
}

/// When a drain is dropped without [`Drain::keep_rest`], the borrowed vector keeps what the
/// drain last showed of it: the elements outside the drained range, with its capacity.
pub broadcast proof fn lemma_drain_dropped<'a, T, A>(drain: Drain<'a, T, A>)
    ensures
        #[trigger] has_resolved(drain) ==> mut_ref_future(drain.spec_vec_ref()) == drain.spec_vec(),
{
}

impl<T, A> TypeProjectedVec<T, A> {
    /// Removes the elements in `range` from the vector and returns a drain that hands them out.
    /// The capacity is kept.
    pub fn drain<'a>(&'a mut self, range: core::ops::Range<usize>) -> (r: Drain<'a, T, A>)
        requires
            old(self).wf(),
            range.start <= range.end <= old(self)@.len(),
        ensures
            r.wf(),
            r.spec_remaining() == old(self)@.subrange(range.start as int, range.end as int),
            r.spec_vec()@.len() + r.spec_remaining().len() <= r.spec_vec().spec_capacity(),
            r.spec_start() == range.start,
            r.spec_vec()@ == old(self)@.subrange(0, range.start as int) + old(self)@.subrange(range.end as int, old(self)@.len() as int),
            r.spec_vec().spec_raw() == old(self).spec_raw(),
            r.spec_vec().spec_allocator() == old(self).spec_allocator(),
            r.spec_vec().spec_same_type_ids(&old(self)),
            *final(self) == mut_ref_future(r.spec_vec_ref()),
    {
        let items = self.take_range(range.start, range.end);
        Drain { vec: self, start: range.start, items }
    }
}

} // verus!
