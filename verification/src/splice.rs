//! Replacing a range of a type-projected vector.
use vstd::prelude::*;
use crate::drain::Drain;
use crate::vec::{Global, TypeProjectedVec};

verus! {

/// The elements removed by [`TypeProjectedVec::splice`], handed out one by one.
///
/// The replacement elements are in the vector as soon as the splice is created.
pub struct Splice<'a, T, A = Global> {
    drain: Drain<'a, T, A>,
}

impl<'a, T, A> Splice<'a, T, A> {
    /// The removed elements that have not been handed out, in order.
    pub closed spec fn spec_remaining(&self) -> Seq<T> {
        self.drain.spec_remaining()
    }

    /// The vector that was spliced, as it is now.
    pub closed spec fn spec_vec(&self) -> TypeProjectedVec<T, A> {
        self.drain.spec_vec()
    }

    /// The borrow of the vector that the splice holds.
    pub closed spec fn spec_vec_ref(&self) -> &'a mut TypeProjectedVec<T, A> {
        self.drain.spec_vec_ref()
    }

    /// The splice invariant.
    pub closed spec fn wf(&self) -> bool {
        self.drain.wf_shape()
    }

    /// Hands out the next removed element from the front.
    pub fn next(&mut self) -> (r: Option<T>)
        requires
            old(self).wf(),
        ensures
            final(self).wf(),
            old(self).spec_remaining().len() == 0 ==> r is None && final(self).spec_remaining() == old(self).spec_remaining(),
            old(self).spec_remaining().len() > 0 ==> r == Some(old(self).spec_remaining()[0])
                && final(self).spec_remaining() == old(self).spec_remaining().drop_first(),
            final(self).spec_vec() == old(self).spec_vec(),
            final(self).spec_vec_ref() == old(self).spec_vec_ref(),
    {
        self.drain.next()
    }

    /// Hands out the next removed element from the back.
    pub fn next_back(&mut self) -> (r: Option<T>)
        requires
            old(self).wf(),
        ensures
            final(self).wf(),
            old(self).spec_remaining().len() == 0 ==> r is None && final(self).spec_remaining() == old(self).spec_remaining(),
            old(self).spec_remaining().len() > 0 ==> r == Some(old(self).spec_remaining().last())
                && final(self).spec_remaining() == old(self).spec_remaining().drop_last(),
            final(self).spec_vec() == old(self).spec_vec(),
            final(self).spec_vec_ref() == old(self).spec_vec_ref(),
    {
        self.drain.next_back()
    }

    /// The number of removed elements that have not been handed out, as a lower and an upper
    /// bound.
    pub fn size_hint(&self) -> (r: (usize, Option<usize>))
        ensures
            r.0 == self.spec_remaining().len(),
            r.1 == Some(self.spec_remaining().len() as usize),
    {
        self.drain.size_hint()
    }
}

/// When a splice is dropped, the borrowed vector keeps what the splice last showed of it: the
/// replacement in place of the removed range.
pub broadcast proof fn lemma_splice_dropped<'a, T, A>(splice: Splice<'a, T, A>)
    ensures
        #[trigger] has_resolved(splice) ==> mut_ref_future(splice.spec_vec_ref()) == splice.spec_vec(),
{
    crate::drain::lemma_drain_dropped(splice.drain);
}

impl<T, A> TypeProjectedVec<T, A> {
    /// Replaces the elements in `range` with the elements of `replace_with` and returns a
    /// splice that hands out the removed elements. The capacity grows amortized when the
    /// replacement does not fit.
    pub fn splice<'a>(&'a mut self, range: core::ops::Range<usize>, replace_with: Vec<T>) -> (r: Splice<'a, T, A>)
        requires
            old(self).wf(),
            range.start <= range.end <= old(self)@.len(),
            ({
                let rest = (old(self)@.len() - (range.end - range.start)) as nat;
                old(self).spec_raw().spec_needs_to_grow(rest, replace_with@.len())
                    ==> !old(self).spec_raw().spec_amortized_overflows(rest, replace_with@.len())
            }),
        ensures
            r.wf(),
            r.spec_remaining() == old(self)@.subrange(range.start as int, range.end as int),
            r.spec_vec()@ == old(self)@.subrange(0, range.start as int) + replace_with@
                + old(self)@.subrange(range.end as int, old(self)@.len() as int),
            r.spec_vec().spec_raw().spec_layout() == old(self).spec_raw().spec_layout(),
            ({
                let rest = (old(self)@.len() - (range.end - range.start)) as nat;
                &&& !old(self).spec_raw().spec_needs_to_grow(rest, replace_with@.len()) ==> r.spec_vec().spec_raw() == old(self).spec_raw()
                &&& old(self).spec_raw().spec_needs_to_grow(rest, replace_with@.len()) ==> r.spec_vec().spec_raw().spec_stored()
                    == old(self).spec_raw().spec_amortized_capacity(rest, replace_with@.len())
            }),
            r.spec_vec().spec_allocator() == old(self).spec_allocator(),
            r.spec_vec().spec_same_type_ids(&old(self)),
            *final(self) == mut_ref_future(r.spec_vec_ref()),
    {
        let start = range.start;
        let mut drain = self.drain(range);
        drain.refill(start, replace_with);
        Splice { drain }
    }
}

} // verus!
