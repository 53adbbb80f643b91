//! Removing the elements of a range that a predicate selects.
use vstd::prelude::*;
use crate::vec::{Global, TypeProjectedVec, spec_called_on_mut};

verus! {

/// Removes, one call of [`ExtractIf::next`] at a time, the elements of a range of a
/// type-projected vector for which the predicate returns `true`.
///
/// Elements are removed only as they are handed out: the elements of the range that have not
/// been examined when the `ExtractIf` is dropped stay in the vector.
pub struct ExtractIf<'a, T, F, A = Global> {
    vec: &'a mut TypeProjectedVec<T, A>,
    idx: usize,
    end: usize,
    pred: F,
}

impl<'a, T, F, A> ExtractIf<'a, T, F, A> {
    /// The vector, as it is now.
    pub closed spec fn spec_vec(&self) -> TypeProjectedVec<T, A> {
        *self.vec
    }

    /// The borrow of the vector.
    pub closed spec fn spec_vec_ref(&self) -> &'a mut TypeProjectedVec<T, A> {
        self.vec
    }

    /// The position of the next element to examine.
    pub closed spec fn spec_idx(&self) -> nat {
        self.idx as nat
    }

    /// The end of the range that is still to be examined.
    pub closed spec fn spec_end(&self) -> nat {
        self.end as nat
    }

    /// The predicate.
    pub closed spec fn spec_pred(&self) -> F {
        self.pred
    }

    /// The invariant: the vector is well formed and the range to examine lies in it.
    pub open spec fn wf(&self) -> bool {
        &&& self.spec_vec().wf()
        &&& self.spec_idx() <= self.spec_end() <= self.spec_vec()@.len()
    }

    /// Returns the allocator of the vector.
    pub fn allocator(&self) -> (r: &A)
        ensures
            *r == self.spec_vec().spec_allocator(),
    {
        self.vec.allocator()
    }

    /// Examines the elements of the range in order until the predicate returns `true` for one,
    /// and removes and returns that element; returns `None` when the range is exhausted. The
    /// predicate may change the elements it examines; the contract names its decisions on the
    /// values it was given, not the values it leaves behind.
    pub fn next(&mut self) -> (r: Option<T>)
        where
            F: FnMut(&mut T) -> bool,
        requires
            old(self).wf(),
            forall|x: &mut T| old(self).spec_pred().requires((x,)),
        ensures
            final(self).wf(),
            final(self).spec_pred() == old(self).spec_pred(),
            mut_ref_future(final(self).spec_vec_ref()) == mut_ref_future(old(self).spec_vec_ref()),
            final(self).spec_vec().spec_raw() == old(self).spec_vec().spec_raw(),
            final(self).spec_vec().spec_allocator() == old(self).spec_vec().spec_allocator(),
            final(self).spec_vec().spec_same_type_ids(&old(self).spec_vec()),
            final(self).spec_vec()@.subrange(0, old(self).spec_idx() as int) == old(self).spec_vec()@.subrange(0, old(self).spec_idx() as int),
            r is None ==> {
                &&& final(self).spec_idx() == old(self).spec_end()
                &&& final(self).spec_end() == old(self).spec_end()
                &&& final(self).spec_vec()@.len() == old(self).spec_vec()@.len()
                &&& final(self).spec_vec()@.subrange(old(self).spec_end() as int, old(self).spec_vec()@.len() as int)
                    == old(self).spec_vec()@.subrange(old(self).spec_end() as int, old(self).spec_vec()@.len() as int)
                &&& forall|j: int| old(self).spec_idx() <= j < old(self).spec_end() ==>
                    #[trigger] spec_called_on_mut(old(self).spec_pred(), old(self).spec_vec()@[j], false)
            },
            r is Some ==> {
                let k = final(self).spec_idx() as int;
                &&& old(self).spec_idx() <= k < old(self).spec_end()
                &&& final(self).spec_end() == old(self).spec_end() - 1
                &&& final(self).spec_vec()@.len() == old(self).spec_vec()@.len() - 1
                &&& final(self).spec_vec()@.subrange(k, final(self).spec_vec()@.len() as int)
                    == old(self).spec_vec()@.subrange(k + 1, old(self).spec_vec()@.len() as int)
                &&& forall|j: int| old(self).spec_idx() <= j < k ==>
                    #[trigger] spec_called_on_mut(old(self).spec_pred(), old(self).spec_vec()@[j], false)
                &&& spec_called_on_mut(old(self).spec_pred(), old(self).spec_vec()@[k], true)
                &&& exists|m: &mut T| #![trigger old(self).spec_pred().ensures((m,), true)]
                    *m == old(self).spec_vec()@[k] && old(self).spec_pred().ensures((m,), true) && r == Some(mut_ref_future(m))
            },
            old(self).spec_idx() <= final(self).spec_idx(),
            forall|j: int| #![trigger old(self).spec_vec()@[j]] old(self).spec_idx() <= j < final(self).spec_idx() ==>
                exists|m: &mut T| #![trigger old(self).spec_pred().ensures((m,), false)]
                    *m == old(self).spec_vec()@[j] && mut_ref_future(m) == final(self).spec_vec()@[j]
                    && old(self).spec_pred().ensures((m,), false),
        decreases old(self).spec_end() - old(self).spec_idx(),
    {
        if self.idx >= self.end {
            proof {
                assert(self.vec@.subrange(0, self.idx as int) =~= old(self).spec_vec()@.subrange(0, self.idx as int));
                assert(self.vec@.subrange(self.end as int, self.vec@.len() as int)
                    =~= old(self).spec_vec()@.subrange(self.end as int, self.vec@.len() as int));
            }
            return None;
        }
        let i = self.idx;
        let ghost before = self.vec@;
        proof {
            assert(self.pred == old(self).spec_pred());
            assert(forall|x: &mut T| self.pred.requires((x,)));
        }
        let elem = self.vec.get_mut_unchecked(i);
        let drained = (self.pred)(elem);
        let ghost mid = self.vec@;
        proof {
            assert(spec_called_on_mut(old(self).spec_pred(), old(self).spec_vec()@[i as int], drained));
            assert(exists|m: &mut T| #![trigger old(self).spec_pred().ensures((m,), drained)]
                *m == old(self).spec_vec()@[i as int] && mut_ref_future(m) == mid[i as int]
                && old(self).spec_pred().ensures((m,), drained));
        }
        if drained {
            self.end = self.end - 1;
            let x = self.vec.shift_remove(i);
            proof {
                assert(self.vec@.subrange(0, i as int) =~= old(self).spec_vec()@.subrange(0, i as int));
                assert(self.vec@.subrange(i as int, self.vec@.len() as int)
                    =~= old(self).spec_vec()@.subrange(i + 1, old(self).spec_vec()@.len() as int));
                assert(exists|m: &mut T| #![trigger old(self).spec_pred().ensures((m,), true)]
                    *m == old(self).spec_vec()@[i as int] && old(self).spec_pred().ensures((m,), true) && Some(x) == Some(mut_ref_future(m)));
            }
            return Some(x);
        }
        self.idx = i + 1;
        let ghost pred_mid = self.spec_pred();
        let ghost vec_mid = self.spec_vec();
        proof {
            assert(pred_mid == old(self).spec_pred());
            assert(vec_mid@ == mid);
            assert(self.vec@.subrange(i + 1, self.vec@.len() as int) =~= old(self).spec_vec()@.subrange(i + 1, self.vec@.len() as int));
        }
        let r = self.next();
        proof {
            assert(self.spec_pred() == pred_mid);
            assert(i + 1 <= self.spec_idx());
            assert(forall|j: int| #![trigger vec_mid@[j]] i + 1 <= j < self.spec_idx() ==>
                exists|m: &mut T| #![trigger pred_mid.ensures((m,), false)]
                    *m == vec_mid@[j] && mut_ref_future(m) == self.spec_vec()@[j] && pred_mid.ensures((m,), false));
            assert forall|j: int| i < j < mid.len() implies mid[j] == old(self).spec_vec()@[j] by {
                assert(mid[j] == before[j]);
            }
            assert(self.spec_vec()@[i as int] == mid[i as int]) by {
                assert(self.spec_vec()@.subrange(0, i + 1)[i as int] == vec_mid@.subrange(0, i + 1)[i as int]);
            }
            if r is None {
                assert forall|j: int| old(self).spec_idx() <= j < old(self).spec_end() implies
                    #[trigger] spec_called_on_mut(old(self).spec_pred(), old(self).spec_vec()@[j], false) by {
                    if j > i {
                        assert(mid[j] == old(self).spec_vec()@[j]);
                    }
                }
            } else {
                let k = self.idx as int;
                assert forall|j: int| old(self).spec_idx() <= j < k implies
                    #[trigger] spec_called_on_mut(old(self).spec_pred(), old(self).spec_vec()@[j], false) by {
                    if j > i {
                        assert(mid[j] == old(self).spec_vec()@[j]);
                    }
                }
                assert(mid[k] == old(self).spec_vec()@[k]);
            }
            assert forall|j: int| #![trigger old(self).spec_vec()@[j]] old(self).spec_idx() <= j < self.spec_idx() implies
                exists|m: &mut T| #![trigger old(self).spec_pred().ensures((m,), false)]
                    *m == old(self).spec_vec()@[j] && mut_ref_future(m) == self.spec_vec()@[j]
                    && old(self).spec_pred().ensures((m,), false) by {
                if j > i {
                    assert(mid[j] == old(self).spec_vec()@[j]);
                    assert(exists|m: &mut T| #![trigger pred_mid.ensures((m,), false)]
                        *m == vec_mid@[j] && mut_ref_future(m) == self.spec_vec()@[j] && pred_mid.ensures((m,), false));
                }
            }
            assert(self.spec_vec()@.subrange(0, old(self).spec_idx() as int) =~= old(self).spec_vec()@.subrange(0, old(self).spec_idx() as int)) by {
                assert forall|j: int| 0 <= j < old(self).spec_idx() implies self.spec_vec()@[j] == old(self).spec_vec()@[j] by {
                    assert(self.spec_vec()@.subrange(0, i + 1)[j] == vec_mid@.subrange(0, i + 1)[j]);
                }
            }
        }
        r
    }

    /// A lower and an upper bound of the number of elements that are still to be handed out.
    pub fn size_hint(&self) -> (r: (usize, Option<usize>))
        requires
            self.wf(),
        ensures
            r.0 == 0,
            r.1 == Some((self.spec_end() - self.spec_idx()) as usize),
    {
        (0, Some(self.end - self.idx))
    }
}

/// When an `ExtractIf` is dropped, the borrowed vector keeps what the `ExtractIf` last showed of
/// it: the elements not extracted, including those of the range that were not examined.
pub broadcast proof fn lemma_extract_if_dropped<'a, T, F, A>(extract: ExtractIf<'a, T, F, A>)
    ensures
        #[trigger] has_resolved(extract) ==> mut_ref_future(extract.spec_vec_ref()) == extract.spec_vec(),
{
}

impl<T, A> TypeProjectedVec<T, A> {
    /// Creates an `ExtractIf` that removes the elements in `range` for which `filter` returns
    /// `true`, as they are handed out.
    pub fn extract_if<'a, F>(&'a mut self, range: core::ops::Range<usize>, filter: F) -> (r: ExtractIf<'a, T, F, A>)
        where
            F: FnMut(&mut T) -> bool,
        requires
            old(self).wf(),
            range.start <= range.end <= old(self)@.len(),
        ensures
            r.wf(),
            r.spec_vec() == *old(self),
            r.spec_idx() == range.start,
            r.spec_end() == range.end,
            r.spec_pred() == filter,
            *final(self) == mut_ref_future(r.spec_vec_ref()),
    {
        ExtractIf { vec: self, idx: range.start, end: range.end, pred: filter }
    }
}

} // verus!
