//! Consuming a type-projected vector element by element.
use vstd::prelude::*;
use crate::raw_vec::RawVecMemory;
use crate::vec::{Global, TypeProjectedVec};

verus! {

/// Hands out the elements of a consumed type-projected vector, from the front or from the back.
pub struct IntoIter<T, A = Global> {
    items: Vec<T>,
    memory: RawVecMemory,
    alloc: A,
}

impl<T, A> IntoIter<T, A> {
    /// The elements that have not been handed out, in order.
    pub closed spec fn spec_remaining(&self) -> Seq<T> {
        self.items@
    }

    /// The capacity bookkeeping of the consumed vector's allocation.
    pub closed spec fn spec_raw(&self) -> RawVecMemory {
        self.memory
    }

    /// The allocator of the consumed vector.
    pub closed spec fn spec_allocator(&self) -> A {
        self.alloc
    }

    /// Returns the elements that have not been handed out yet.
    pub fn as_slice(&self) -> (r: &[T])
        ensures
            r@ == self.spec_remaining(),
    {
        self.items.as_slice()
    }

    /// Returns the elements that have not been handed out yet, as a mutable slice.
    pub fn as_mut_slice(&mut self) -> (r: &mut [T])
        ensures
            r@ == old(self).spec_remaining(),
            final(self).spec_remaining() == final(r)@,
            final(self).spec_raw() == old(self).spec_raw(),
            final(self).spec_allocator() == old(self).spec_allocator(),
    {
        self.items.as_mut_slice()
    }

    /// Returns the allocator of the consumed vector.
    pub fn allocator(&self) -> (r: &A)
        ensures
            *r == self.spec_allocator(),
    {
        &self.alloc
    }

    /// Hands out the next element from the front.
    pub fn next(&mut self) -> (r: Option<T>)
        ensures
            old(self).spec_remaining().len() == 0 ==> r is None && final(self).spec_remaining() == old(self).spec_remaining(),
            old(self).spec_remaining().len() > 0 ==> r == Some(old(self).spec_remaining()[0])
                && final(self).spec_remaining() == old(self).spec_remaining().drop_first(),
            final(self).spec_raw() == old(self).spec_raw(),
            final(self).spec_allocator() == old(self).spec_allocator(),
    {
        if self.items.len() == 0 {
            None
        } else {
            let x = self.items.remove(0);
            proof {
                assert(self.items@ =~= old(self).spec_remaining().drop_first());
            }
            Some(x)
        }
    }

    /// Hands out the next element from the back.
    pub fn next_back(&mut self) -> (r: Option<T>)
        ensures
            old(self).spec_remaining().len() == 0 ==> r is None && final(self).spec_remaining() == old(self).spec_remaining(),
            old(self).spec_remaining().len() > 0 ==> r == Some(old(self).spec_remaining().last())
                && final(self).spec_remaining() == old(self).spec_remaining().drop_last(),
            final(self).spec_raw() == old(self).spec_raw(),
            final(self).spec_allocator() == old(self).spec_allocator(),
    {
        self.items.pop()
    }

    /// The number of elements that have not been handed out, as a lower and an upper bound.
    pub fn size_hint(&self) -> (r: (usize, Option<usize>))
        ensures
            r.0 == self.spec_remaining().len(),
            r.1 == Some(self.spec_remaining().len() as usize),
    {
        let n = self.items.len();
        (n, Some(n))
    }

    /// Returns an iterator over clones of the elements that have not been handed out, with a
    /// clone of the allocator.
    pub fn clone(&self) -> (r: Self)
        where
            T: Clone,
            A: Clone,
        ensures
            r.spec_remaining().len() == self.spec_remaining().len(),
            forall|i: int| 0 <= i < self.spec_remaining().len() ==> cloned::<T>(self.spec_remaining()[i], #[trigger] r.spec_remaining()[i]),
            r.spec_raw() == self.spec_raw(),
            call_ensures(A::clone, (&self.spec_allocator(),), r.spec_allocator()),
    {
        let items = self.items.clone();
        let alloc = self.alloc.clone();
        let memory = self.memory.copy();
        IntoIter { items, memory, alloc }
    }
}

impl<T, A> TypeProjectedVec<T, A> {
    /// Consumes the vector and returns an iterator over its elements.
    pub fn into_iter(self) -> (r: IntoIter<T, A>)
        ensures
            r.spec_remaining() == self@,
            r.spec_raw() == self.spec_raw(),
            r.spec_allocator() == self.spec_allocator(),
    {
        let (items, memory, alloc) = self.into_components();
        IntoIter { items, memory, alloc }
    }
}

} // verus!
