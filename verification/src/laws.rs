//! Laws of the vectors: properties that span several operations or every input, stated over
//! the views and specification functions that the operations' contracts use.
use vstd::prelude::*;
use crate::erased::TypeErasedVec;
use crate::extract_if::ExtractIf;
use crate::raw_vec::{RawVecMemory, spec_min_non_zero_capacity, spec_new_capacity};
use crate::vec::{TypeProjectedVec, spec_dedup_decisions, spec_filter, spec_keep_unmarked, spec_last_kept};

verus! {

/// Pushing `value` and then popping gives `value` back and leaves the elements that were
/// there before the push.
pub proof fn law_push_then_pop<T, A>(
    before: TypeProjectedVec<T, A>,
    value: T,
    pushed: TypeProjectedVec<T, A>,
    popped: TypeProjectedVec<T, A>,
    result: Option<T>,
)
    requires
        pushed@ == before@.push(value),
        pushed@.len() == 0 ==> result is None && popped@ == pushed@,
        pushed@.len() > 0 ==> result == Some(pushed@.last()) && popped@ == pushed@.drop_last(),
    ensures
        result == Some(value),
        popped@ == before@,
{
    assert(before@.push(value).drop_last() =~= before@);
}

/// The same law on a type-erased vector: pushing the bytes of an element and then popping gives
/// those bytes back and leaves the elements that were there before.
pub proof fn law_erased_push_then_pop(
    before: TypeErasedVec,
    value: Seq<u8>,
    pushed: TypeErasedVec,
    popped: TypeErasedVec,
    result: Option<Seq<u8>>,
)
    requires
        pushed@ == before@.push(value),
        pushed@.len() == 0 ==> result is None && popped@ == pushed@,
        pushed@.len() > 0 ==> result == Some(pushed@.last()) && popped@ == pushed@.drop_last(),
    ensures
        result == Some(value),
        popped@ == before@,
{
    assert(before@.push(value).drop_last() =~= before@);
}

/// Shift-inserting `value` at `index` and then shift-removing at `index` gives `value` back and
/// leaves the elements that were there before the insertion.
pub proof fn law_shift_insert_then_shift_remove<T, A>(
    before: TypeProjectedVec<T, A>,
    index: int,
    value: T,
    inserted: TypeProjectedVec<T, A>,
    removed: TypeProjectedVec<T, A>,
    result: T,
)
    requires
        0 <= index <= before@.len(),
        inserted@ == before@.insert(index, value),
        result == inserted@[index],
        removed@ == inserted@.remove(index),
    ensures
        result == value,
        removed@ == before@,
{
    assert(before@.insert(index, value).remove(index) =~= before@);
}

/// Splitting a vector at `at` and appending the split-off tail back onto the front part gives
/// back the elements that the vector had before the split, and leaves the tail empty.
pub proof fn law_split_off_then_append<T, A>(
    before: TypeProjectedVec<T, A>,
    at: int,
    front: TypeProjectedVec<T, A>,
    tail: TypeProjectedVec<T, A>,
    joined: TypeProjectedVec<T, A>,
    emptied: TypeProjectedVec<T, A>,
)
    requires
        0 <= at <= before@.len(),
        front@ == before@.subrange(0, at),
        tail@ == before@.subrange(at, before@.len() as int),
        joined@ == front@ + tail@,
        emptied@ == Seq::<T>::empty(),
    ensures
        joined@ == before@,
        emptied@.len() == 0,
{
    assert(before@.subrange(0, at) + before@.subrange(at, before@.len() as int) =~= before@);
}

/// What a replacing insertion at an occupied index does, element by element: the length stays,
/// the element at `index` becomes `value`, and every other element stays where it was.
pub proof fn law_replace_insert_pointwise<T, A>(before: TypeProjectedVec<T, A>, index: int, value: T, after: TypeProjectedVec<T, A>)
    requires
        0 <= index < before@.len(),
        after@ == before@.update(index, value),
    ensures
        after@.len() == before@.len(),
        after@[index] == value,
        forall|i: int| 0 <= i < before@.len() && i != index ==> after@[i] == before@[i],
{
}

/// What a shifting insertion does, element by element: the length grows by one, the element at
/// `index` is `value`, the elements before `index` stay, and those from `index` on move up by
/// one.
pub proof fn law_shift_insert_pointwise<T, A>(before: TypeProjectedVec<T, A>, index: int, value: T, after: TypeProjectedVec<T, A>)
    requires
        0 <= index <= before@.len(),
        after@ == before@.insert(index, value),
    ensures
        after@.len() == before@.len() + 1,
        after@[index] == value,
        forall|i: int| 0 <= i < index ==> after@[i] == before@[i],
        forall|i: int| index <= i < before@.len() ==> after@[i + 1] == before@[i],
{
}

/// What a swapping removal does, element by element: the removed element is the one at
/// `index`, the length shrinks by one, the last element takes the place of the removed one,
/// and every other element stays where it was.
pub proof fn law_swap_remove_pointwise<T, A>(before: TypeProjectedVec<T, A>, index: int, result: T, after: TypeProjectedVec<T, A>)
    requires
        0 <= index < before@.len(),
        result == before@[index],
        after@ == before@.update(index, before@.last()).drop_last(),
    ensures
        result == before@[index],
        after@.len() == before@.len() - 1,
        index < before@.len() - 1 ==> after@[index] == before@[before@.len() - 1],
        forall|i: int| 0 <= i < before@.len() - 1 && i != index ==> after@[i] == before@[i],
{
}

/// What a shifting removal does, element by element: the removed element is the one at
/// `index`, the length shrinks by one, the elements before `index` stay, and those after it
/// move down by one.
pub proof fn law_shift_remove_pointwise<T, A>(before: TypeProjectedVec<T, A>, index: int, result: T, after: TypeProjectedVec<T, A>)
    requires
        0 <= index < before@.len(),
        result == before@[index],
        after@ == before@.remove(index),
    ensures
        after@.len() == before@.len() - 1,
        forall|i: int| 0 <= i < index ==> after@[i] == before@[i],
        forall|i: int| index <= i < after@.len() ==> after@[i] == before@[i + 1],
{
}

/// What appending does, element by element: the first vector keeps its elements and is
/// followed by those of the second, which is left empty.
pub proof fn law_append_pointwise<T, A>(
    first: TypeProjectedVec<T, A>,
    second: TypeProjectedVec<T, A>,
    first_after: TypeProjectedVec<T, A>,
    second_after: TypeProjectedVec<T, A>,
)
    requires
        first_after@ == first@ + second@,
        second_after@ == Seq::<T>::empty(),
    ensures
        first_after@.len() == first@.len() + second@.len(),
        forall|i: int| 0 <= i < first@.len() ==> first_after@[i] == first@[i],
        forall|i: int| 0 <= i < second@.len() ==> first_after@[first@.len() + i] == second@[i],
        second_after@.len() == 0,
{
}

/// An amortized growth reserves at least the required capacity, at least double the capacity
/// recorded before, and at least the minimum nonzero capacity for the element size; for
/// zero-sized elements it reserves unbounded capacity.
pub proof fn law_amortized_growth(raw: RawVecMemory, len: nat, additional: nat)
    ensures
        raw.spec_layout().spec_size() > 0 ==> raw.spec_amortized_capacity(len, additional) >= len + additional,
        raw.spec_layout().spec_size() > 0 ==> raw.spec_amortized_capacity(len, additional) >= 2 * raw.spec_stored(),
        raw.spec_layout().spec_size() > 0 ==> raw.spec_amortized_capacity(len, additional) >= spec_min_non_zero_capacity(raw.spec_layout().spec_size()),
        raw.spec_layout().spec_size() == 0 ==> raw.spec_amortized_capacity(len, additional) == usize::MAX,
{
}

/// After shrinking to fit, a vector of elements that occupy memory has exactly as much capacity
/// as it has elements.
pub proof fn law_shrink_to_fit_exact<T, A>(before: TypeProjectedVec<T, A>, after: TypeProjectedVec<T, A>)
    requires
        before.wf(),
        after.wf(),
        after@ == before@,
        after.spec_raw().spec_layout() == before.spec_raw().spec_layout(),
        before.spec_capacity() > before@.len() ==> after.spec_raw().spec_stored() == spec_new_capacity(before@.len(), before.spec_raw().spec_layout()),
        before.spec_capacity() <= before@.len() ==> after.spec_raw() == before.spec_raw(),
        before.spec_raw().spec_layout().spec_size() > 0,
    ensures
        after.spec_capacity() == after@.len(),
{
}

/// One step of an `ExtractIf` whose predicate leaves the elements it examines as they are:
/// the step removes exactly the element it hands out, at the position where the examination
/// stopped, and keeps every other element of the vector in place and in order; a step that hands
/// out nothing leaves the vector as it was.
pub proof fn law_extract_if_next_removes_only_the_returned<'a, T, F: FnMut(&mut T) -> bool, A>(
    before: ExtractIf<'a, T, F, A>,
    after: ExtractIf<'a, T, F, A>,
    result: Option<T>,
)
    requires
        forall|m: &mut T, b: bool| #[trigger] before.spec_pred().ensures((m,), b) ==> mut_ref_future(m) == *m,
        before.spec_idx() <= before.spec_end() <= before.spec_vec()@.len(),
        before.spec_idx() <= after.spec_idx(),
        after.spec_vec()@.subrange(0, before.spec_idx() as int) == before.spec_vec()@.subrange(0, before.spec_idx() as int),
        forall|j: int| #![trigger before.spec_vec()@[j]] before.spec_idx() <= j < after.spec_idx() ==>
            exists|m: &mut T| #![trigger before.spec_pred().ensures((m,), false)]
                *m == before.spec_vec()@[j] && mut_ref_future(m) == after.spec_vec()@[j]
                && before.spec_pred().ensures((m,), false),
        result is None ==> {
            &&& after.spec_idx() == before.spec_end()
            &&& after.spec_vec()@.len() == before.spec_vec()@.len()
            &&& after.spec_vec()@.subrange(before.spec_end() as int, before.spec_vec()@.len() as int)
                == before.spec_vec()@.subrange(before.spec_end() as int, before.spec_vec()@.len() as int)
        },
        result is Some ==> {
            let k = after.spec_idx() as int;
            &&& k < before.spec_end()
            &&& after.spec_vec()@.len() == before.spec_vec()@.len() - 1
            &&& after.spec_vec()@.subrange(k, after.spec_vec()@.len() as int)
                == before.spec_vec()@.subrange(k + 1, before.spec_vec()@.len() as int)
            &&& exists|m: &mut T| #![trigger before.spec_pred().ensures((m,), true)]
                *m == before.spec_vec()@[k] && before.spec_pred().ensures((m,), true) && result == Some(mut_ref_future(m))
        },
    ensures
        result is None ==> after.spec_vec()@ == before.spec_vec()@,
        result is Some ==> {
            let k = after.spec_idx() as int;
            &&& result == Some(before.spec_vec()@[k])
            &&& after.spec_vec()@ == before.spec_vec()@.remove(k)
        },
{
    let old_v = before.spec_vec()@;
    let new_v = after.spec_vec()@;
    let i0 = before.spec_idx() as int;
    let k = after.spec_idx() as int;
    assert forall|j: int| i0 <= j < k implies new_v[j] == old_v[j] by {
        assert(before.spec_vec()@[j] == old_v[j]);
        let m = choose|m: &mut T| #![trigger before.spec_pred().ensures((m,), false)]
            *m == before.spec_vec()@[j] && mut_ref_future(m) == after.spec_vec()@[j]
            && before.spec_pred().ensures((m,), false);
        assert(before.spec_pred().ensures((m,), false));
    }
    assert forall|j: int| 0 <= j < i0 implies new_v[j] == old_v[j] by {
        assert(new_v.subrange(0, i0)[j] == old_v.subrange(0, i0)[j]);
    }
    if result is None {
        assert forall|j: int| k <= j < new_v.len() implies new_v[j] == old_v[j] by {
            assert(new_v.subrange(k, new_v.len() as int)[j - k] == old_v.subrange(k, old_v.len() as int)[j - k]);
        }
        assert(new_v =~= old_v);
    } else {
        let m = choose|m: &mut T| #![trigger before.spec_pred().ensures((m,), true)]
            *m == before.spec_vec()@[k] && before.spec_pred().ensures((m,), true) && result == Some(mut_ref_future(m));
        assert(before.spec_pred().ensures((m,), true));
        assert forall|j: int| k <= j < new_v.len() implies new_v[j] == old_v[j + 1] by {
            assert(new_v.subrange(k, new_v.len() as int)[j - k] == old_v.subrange(k + 1, old_v.len() as int)[j - k]);
        }
        assert(new_v =~= old_v.remove(k));
    }
}

/// `g` picks positions of a sequence of `n` elements in strictly increasing order.
pub open spec fn spec_increasing_positions(g: Seq<int>, n: int) -> bool {
    &&& forall|i: int| 0 <= i < g.len() ==> 0 <= #[trigger] g[i] < n
    &&& forall|i: int, j: int| 0 <= i < j < g.len() ==> #[trigger] g[i] < #[trigger] g[j]
}

/// The positions of the elements that a filter keeps.
proof fn lemma_filter_positions<T>(s: Seq<T>, flags: Seq<bool>) -> (g: Seq<int>)
    requires
        flags.len() == s.len(),
    ensures
        g.len() == spec_filter(s, flags).len(),
        spec_increasing_positions(g, s.len() as int),
        forall|i: int| 0 <= i < g.len() ==> flags[#[trigger] g[i]] && spec_filter(s, flags)[i] == s[g[i]],
    decreases s.len(),
{
    if s.len() == 0 {
        Seq::empty()
    } else {
        let n = s.len() - 1;
        let s0 = s.drop_last();
        let f0 = flags.take(n as int);
        let g0 = lemma_filter_positions(s0, f0);
        if flags[n as int] {
            let g = g0.push(n as int);
            assert forall|i: int| 0 <= i < g.len() implies flags[#[trigger] g[i]] && spec_filter(s, flags)[i] == s[g[i]] by {
                if i < g0.len() {
                    assert(g[i] == g0[i]);
                    assert(f0[g0[i]] == flags[g0[i]]);
                }
            }
            assert forall|i: int, j: int| 0 <= i < j < g.len() implies #[trigger] g[i] < #[trigger] g[j] by {
                if j < g0.len() {
                    assert(g[i] == g0[i] && g[j] == g0[j]);
                } else {
                    assert(g[i] == g0[i]);
                }
            }
            g
        } else {
            assert forall|i: int| 0 <= i < g0.len() implies flags[#[trigger] g0[i]] && spec_filter(s, flags)[i] == s[g0[i]] by {
                assert(f0[g0[i]] == flags[g0[i]]);
            }
            g0
        }
    }
}

/// Filtering keeps at most the elements there were; every element kept is an element whose flag
/// is set, and the kept elements keep their order; all elements are kept when every flag is set,
/// and none when no flag is.
pub proof fn law_filter_keeps_flagged<T>(s: Seq<T>, flags: Seq<bool>)
    requires
        flags.len() == s.len(),
    ensures
        exists|g: Seq<int>| {
            &&& g.len() == spec_filter(s, flags).len()
            &&& spec_increasing_positions(g, s.len() as int)
            &&& forall|i: int| 0 <= i < g.len() ==> flags[#[trigger] g[i]] && spec_filter(s, flags)[i] == s[g[i]]
        },
        spec_filter(s, flags).len() <= s.len(),
        forall|j: int| 0 <= j < spec_filter(s, flags).len() ==> exists|i: int| 0 <= i < s.len() && flags[i] && s[i] == #[trigger] spec_filter(s, flags)[j],
        (forall|i: int| 0 <= i < s.len() ==> flags[i]) ==> spec_filter(s, flags) == s,
        (forall|i: int| 0 <= i < s.len() ==> !flags[i]) ==> spec_filter(s, flags).len() == 0,
    decreases s.len(),
{
    let g = lemma_filter_positions(s, flags);
    if s.len() > 0 {
        let n = s.len() - 1;
        let s0 = s.drop_last();
        let f0 = flags.take(n as int);
        law_filter_keeps_flagged(s0, f0);
        let rest = spec_filter(s0, f0);
        assert forall|j: int| 0 <= j < spec_filter(s, flags).len() implies exists|i: int| 0 <= i < s.len() && flags[i] && s[i] == #[trigger] spec_filter(s, flags)[j] by {
            if j < rest.len() {
                let i = choose|i: int| 0 <= i < s0.len() && f0[i] && s0[i] == #[trigger] rest[j];
                assert(flags[i] && s[i] == spec_filter(s, flags)[j]);
            } else {
                assert(flags[n as int] && s[n as int] == spec_filter(s, flags)[j]);
            }
        }
        if forall|i: int| 0 <= i < s.len() ==> flags[i] {
            assert forall|i: int| 0 <= i < s0.len() implies f0[i] by {
                assert(flags[i]);
            }
            assert(rest == s0);
            assert(spec_filter(s, flags) =~= s);
        }
        if forall|i: int| 0 <= i < s.len() ==> !flags[i] {
            assert forall|i: int| 0 <= i < s0.len() implies !f0[i] by {
                assert(!flags[i]);
            }
            assert(!flags[n as int]);
        }
    }
}

/// What a deduplication keeps: a subsequence of the elements that starts with the first
/// element, where each kept element is one that was not marked, and where the comparison of
/// every kept element with the one kept just before it came out `false`.
pub proof fn law_dedup_decisions<T>(s: Seq<T>, dups: Seq<bool>, same: spec_fn(T, T, bool) -> bool)
    requires
        spec_dedup_decisions(s, dups, same),
    ensures
        spec_keep_unmarked(s, dups).len() <= s.len(),
        s.len() > 0 ==> spec_keep_unmarked(s, dups).len() > 0 && spec_keep_unmarked(s, dups)[0] == s[0],
        exists|g: Seq<int>| {
            &&& g.len() == spec_keep_unmarked(s, dups).len()
            &&& spec_increasing_positions(g, s.len() as int)
            &&& forall|i: int| 0 <= i < g.len() ==> !dups[#[trigger] g[i]] && spec_keep_unmarked(s, dups)[i] == s[g[i]]
        },
        forall|i: int| 1 <= i < spec_keep_unmarked(s, dups).len() ==>
            same(#[trigger] spec_keep_unmarked(s, dups)[i], spec_keep_unmarked(s, dups)[i - 1], false),
{
    let flags = Seq::new(dups.len(), |k: int| !dups[k]);
    let g = lemma_filter_positions(s, flags);
    law_filter_keeps_flagged(s, flags);
    assert forall|i: int| 0 <= i < g.len() implies !dups[#[trigger] g[i]] && spec_keep_unmarked(s, dups)[i] == s[g[i]] by {
        assert(flags[g[i]]);
    }
    lemma_dedup_prefix(s, dups, same, s.len() as int);
    assert(s.take(s.len() as int) =~= s);
    assert(dups.take(s.len() as int) =~= dups);
    if s.len() > 0 {
        crate::vec::lemma_keep_unmarked_nonempty(s, dups, s.len() as int);
    }
}

/// After a deduplication whose comparison decides equality, no two neighbouring elements of
/// the result are equal.
pub proof fn law_dedup_no_equal_neighbours<T>(s: Seq<T>, dups: Seq<bool>, same: spec_fn(T, T, bool) -> bool)
    requires
        spec_dedup_decisions(s, dups, same),
        forall|x: T, y: T, b: bool| #[trigger] same(x, y, b) ==> (b <==> x == y),
    ensures
        forall|i: int| 1 <= i < spec_keep_unmarked(s, dups).len() ==> spec_keep_unmarked(s, dups)[i - 1] != #[trigger] spec_keep_unmarked(s, dups)[i],
{
    law_dedup_decisions(s, dups, same);
    assert forall|i: int| 1 <= i < spec_keep_unmarked(s, dups).len() implies spec_keep_unmarked(s, dups)[i - 1] != #[trigger] spec_keep_unmarked(s, dups)[i] by {
        assert(same(spec_keep_unmarked(s, dups)[i], spec_keep_unmarked(s, dups)[i - 1], false));
    }
}

/// Each element kept by every prefix was compared with the one kept just before it, and the
/// comparison came out `false`.
proof fn lemma_dedup_prefix<T>(s: Seq<T>, dups: Seq<bool>, same: spec_fn(T, T, bool) -> bool, k: int)
    requires
        spec_dedup_decisions(s, dups, same),
        0 <= k <= s.len(),
    ensures
        forall|i: int| 1 <= i < spec_keep_unmarked(s.take(k), dups.take(k)).len() ==>
            same(#[trigger] spec_keep_unmarked(s.take(k), dups.take(k))[i], spec_keep_unmarked(s.take(k), dups.take(k))[i - 1], false),
        k >= 1 ==> spec_keep_unmarked(s.take(k), dups.take(k))[0] == s[0],
    decreases k,
{
    if k == 0 {
        assert(s.take(0) =~= Seq::<T>::empty());
        assert(spec_keep_unmarked(s.take(0), dups.take(0)) =~= Seq::<T>::empty());
    } else {
        lemma_dedup_prefix(s, dups, same, k - 1);
        crate::vec::lemma_keep_unmarked_step(s, dups, k - 1);
        let prev = spec_keep_unmarked(s.take(k - 1), dups.take(k - 1));
        let cur = spec_keep_unmarked(s.take(k), dups.take(k));
        if k - 1 >= 1 {
            crate::vec::lemma_keep_unmarked_nonempty(s, dups, k - 1);
        } else {
            assert(s.take(0) =~= Seq::<T>::empty());
            assert(prev =~= Seq::<T>::empty());
        }
        if !dups[k - 1] {
            if k - 1 >= 1 {
                assert(same(s[k - 1], spec_last_kept(s, dups, k - 1), dups[k - 1]));
            }
            assert(cur == prev.push(s[k - 1]));
            assert forall|i: int| 1 <= i < cur.len() implies same(#[trigger] cur[i], cur[i - 1], false) by {
                if i < prev.len() {
                    assert(cur[i - 1] == prev[i - 1] && cur[i] == prev[i]);
                }
            }
        }
    }
}

} // verus!
