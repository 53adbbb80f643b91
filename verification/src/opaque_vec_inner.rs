//! The byte-level storage of a type-erased vector.
//!
//! The elements are stored back to back in one byte buffer: element `i` occupies the bytes
//! `i * size .. (i + 1) * size`, where `size` is the size of the element layout.
use vstd::prelude::*;
use crate::error::{TryReserveError, TryReserveErrorKind};
use crate::layout::Layout;
use crate::raw_vec::{RawVecMemory, spec_new_capacity};
use crate::vec::{spec_filter, spec_keep_unmarked, spec_last_kept, spec_dedup_decisions, lemma_filter_step, lemma_keep_unmarked_step, lemma_keep_unmarked_nonempty};

verus! {

/// The bytes of element `i` in a buffer of elements of `size` bytes.
pub open spec fn spec_chunk(bytes: Seq<u8>, size: nat, i: int) -> Seq<u8> {
    bytes.subrange(i * size, i * size + size)
}

/// The `n` elements of `size` bytes stored back to back in `bytes`.
pub open spec fn spec_elements(bytes: Seq<u8>, size: nat, n: nat) -> Seq<Seq<u8>> {
    Seq::new(n, |i: int| spec_chunk(bytes, size, i))
}

/// Offsets of elements: element `i` ends no later than element `j` starts when `i < j`, and
/// every offset up to `n` elements stays within the buffer of `n` elements.
pub proof fn lemma_offsets(i: int, j: int, size: nat)
    requires
        0 <= i <= j,
    ensures
        i * size <= j * size,
        (i + 1) * size == i * size + size,
        i < j ==> i * size + size <= j * size,
        (j - i) * size == j * size - i * size,
{
    assert(i * size <= j * size) by (nonlinear_arith)
        requires
            0 <= i <= j,
    ;
    assert((i + 1) * size == i * size + size) by (nonlinear_arith);
    assert(i < j ==> i * size + size <= j * size) by (nonlinear_arith)
        requires
            0 <= i <= j,
    ;
    assert((j - i) * size == j * size - i * size) by (nonlinear_arith);
}

/// The elements of a concatenation are the elements of its parts.
pub proof fn lemma_elements_concat(x: Seq<u8>, y: Seq<u8>, size: nat, a: nat, b: nat)
    requires
        x.len() == a * size,
        y.len() == b * size,
    ensures
        spec_elements(x + y, size, a + b) == spec_elements(x, size, a) + spec_elements(y, size, b),
{
    assert forall|j: int| 0 <= j < a + b implies #[trigger] spec_elements(x + y, size, a + b)[j]
        == (spec_elements(x, size, a) + spec_elements(y, size, b))[j] by {
        if j < a {
            lemma_offsets(j, a as int, size);
            assert(spec_chunk(x + y, size, j) =~= spec_chunk(x, size, j));
        } else {
            lemma_offsets(a as int, j, size);
            lemma_offsets(j - a, b as int, size);
            lemma_offsets(j, (a + b) as int, size);
            assert((a + b) * size == a * size + b * size) by (nonlinear_arith);
            assert(spec_chunk(x + y, size, j) =~= spec_chunk(y, size, j - a));
        }
    }
    assert(spec_elements(x + y, size, a + b) =~= spec_elements(x, size, a) + spec_elements(y, size, b));
}

/// The elements of a range of whole elements are the corresponding range of elements.
pub proof fn lemma_elements_subrange(bytes: Seq<u8>, size: nat, n: nat, a: int, b: int)
    requires
        bytes.len() == n * size,
        0 <= a <= b <= n,
    ensures
        bytes.subrange(a * size, b * size).len() == (b - a) * size,
        spec_elements(bytes.subrange(a * size, b * size), size, (b - a) as nat) == spec_elements(bytes, size, n).subrange(a, b),
{
    lemma_offsets(a, b, size);
    lemma_offsets(b, n as int, size);
    let sub = bytes.subrange(a * size, b * size);
    assert forall|j: int| 0 <= j < b - a implies #[trigger] spec_elements(sub, size, (b - a) as nat)[j]
        == spec_elements(bytes, size, n).subrange(a, b)[j] by {
        lemma_offsets(j, b - a, size);
        lemma_offsets(a + j, b, size);
        assert((a + j) * size == a * size + j * size) by (nonlinear_arith);
        assert(spec_chunk(sub, size, j) =~= spec_chunk(bytes, size, a + j));
    }
    assert(spec_elements(sub, size, (b - a) as nat) =~= spec_elements(bytes, size, n).subrange(a, b));
}

/// One element of `size` bytes is itself.
pub proof fn lemma_elements_single(x: Seq<u8>, size: nat)
    requires
        x.len() == size,
    ensures
        spec_elements(x, size, 1) == seq![x],
{
    assert(0 * size == 0) by (nonlinear_arith);
    assert(spec_chunk(x, size, 0) =~= x);
    assert(spec_elements(x, size, 1) =~= seq![x]);
}

/// Appends the bytes of `value` to `bytes`.
fn append_bytes(bytes: &mut Vec<u8>, value: &[u8])
    ensures
        final(bytes)@ == old(bytes)@ + value@,
{
    let mut i: usize = 0;
    while i < value.len()
        invariant
            0 <= i <= value@.len(),
            bytes@ == old(bytes)@ + value@.take(i as int),
        decreases value@.len() - i,
    {
        bytes.push(value[i]);
        proof {
            assert(value@.take(i + 1) =~= value@.take(i as int).push(value@[i as int]));
        }
        i = i + 1;
    }
    proof {
        assert(value@.take(value@.len() as int) =~= value@);
    }
}

/// Copies the bytes `start..end` of `bytes` into a new buffer.
fn copy_range(bytes: &Vec<u8>, start: usize, end: usize) -> (r: Vec<u8>)
    requires
        start <= end <= bytes@.len(),
    ensures
        r@ == bytes@.subrange(start as int, end as int),
{
    let mut out: Vec<u8> = Vec::new();
    let mut i: usize = start;
    while i < end
        invariant
            start <= i <= end <= bytes@.len(),
            out@ == bytes@.subrange(start as int, i as int),
        decreases end - i,
    {
        out.push(bytes[i]);
        proof {
            assert(bytes@.subrange(start as int, i + 1) =~= bytes@.subrange(start as int, i as int).push(bytes@[i as int]));
        }
        i = i + 1;
    }
    out
}

/// Returns whether `a` and `b` hold the same bytes.
pub(crate) fn bytes_eq(a: &[u8], b: &[u8]) -> (r: bool)
    ensures
        r == (a@ == b@),
{
    if a.len() != b.len() {
        return false;
    }
    let mut i: usize = 0;
    while i < a.len()
        invariant
            0 <= i <= a@.len(),
            a@.len() == b@.len(),
            forall|k: int| 0 <= k < i ==> a@[k] == b@[k],
        decreases a@.len() - i,
    {
        if a[i] != b[i] {
            return false;
        }
        i = i + 1;
    }
    proof {
        assert(a@ =~= b@);
    }
    true
}

/// `f` may return `out` when called on a slice holding the bytes `x`.
pub open spec fn spec_keeps_bytes<F: FnMut(&[u8]) -> bool>(f: F, x: Seq<u8>, out: bool) -> bool {
    exists|s: &[u8]| s@ == x && #[trigger] f.ensures((s,), out)
}

/// Whether `b` tells exactly whether the bytes `x` and `y` are equal.
pub open spec fn spec_same_bytes(x: Seq<u8>, y: Seq<u8>, b: bool) -> bool {
    b == (x == y)
}

/// The byte-level storage of a type-erased vector: a length, a buffer holding the elements
/// back to back, and the capacity bookkeeping.
pub struct OpaqueVecInner {
    length: usize,
    bytes: Vec<u8>,
    memory: RawVecMemory,
}

impl View for OpaqueVecInner {
    type V = Seq<Seq<u8>>;

    /// The elements, each as its bytes.
    closed spec fn view(&self) -> Seq<Seq<u8>> {
        spec_elements(self.bytes@, self.memory.spec_layout().spec_size(), self.length as nat)
    }
}

impl OpaqueVecInner {
    /// The bytes of all elements, back to back.
    pub closed spec fn spec_bytes(&self) -> Seq<u8> {
        self.bytes@
    }

    /// The capacity bookkeeping.
    pub closed spec fn spec_raw(&self) -> RawVecMemory {
        self.memory
    }

    /// The layout of one element.
    pub open spec fn spec_layout(&self) -> Layout {
        self.spec_raw().spec_layout()
    }

    /// The size of one element in bytes.
    pub open spec fn spec_size(&self) -> nat {
        self.spec_layout().spec_size()
    }

    /// The capacity in elements.
    pub open spec fn spec_capacity(&self) -> nat {
        self.spec_raw().spec_capacity()
    }

    /// The invariant: the bookkeeping is well formed, the buffer holds exactly the bytes of the
    /// elements, and the length does not exceed the capacity.
    pub open spec fn wf(&self) -> bool {
        &&& self.spec_raw().wf()
        &&& self.spec_bytes().len() == self@.len() * self.spec_size()
        &&& self@.len() <= self.spec_capacity()
    }

    /// Whether pushing one element is possible without a capacity overflow.
    pub open spec fn spec_can_push(&self) -> bool {
        self@.len() < self.spec_capacity() || !self.spec_raw().spec_amortized_overflows(self.spec_raw().spec_stored(), 1)
    }

    /// The bookkeeping after a growth by one element when the storage is full.
    pub open spec fn spec_grown_raw(&self, after: RawVecMemory) -> bool {
        &&& after.spec_layout() == self.spec_raw().spec_layout()
        &&& self@.len() < self.spec_capacity() ==> after == self.spec_raw()
        &&& self@.len() == self.spec_capacity() ==> after.spec_stored() == self.spec_raw().spec_amortized_capacity(self.spec_raw().spec_stored(), 1)
    }

    /// Whether reserving room for `additional` more elements is possible without a capacity
    /// overflow.
    pub open spec fn spec_can_reserve(&self, additional: nat) -> bool {
        self.spec_raw().spec_needs_to_grow(self@.len(), additional) ==> !self.spec_raw().spec_amortized_overflows(self@.len(), additional)
    }

    /// The bookkeeping after an amortized reservation of `additional` elements.
    pub open spec fn spec_reserved_raw(&self, additional: nat, after: RawVecMemory) -> bool {
        &&& after.spec_layout() == self.spec_raw().spec_layout()
        &&& !self.spec_raw().spec_needs_to_grow(self@.len(), additional) ==> after == self.spec_raw()
        &&& self.spec_raw().spec_needs_to_grow(self@.len(), additional) ==> after.spec_stored() == self.spec_raw().spec_amortized_capacity(self@.len(), additional)
    }

    /// An empty storage for elements of `layout`. It does not allocate.
    pub fn new_in(layout: Layout) -> (r: Self)
        requires
            layout.wf(),
        ensures
            r.wf(),
            r@ == Seq::<Seq<u8>>::empty(),
            r.spec_layout() == layout,
            r.spec_raw().spec_stored() == 0,
    {
        let r = OpaqueVecInner { length: 0, bytes: Vec::new(), memory: RawVecMemory::new_in(layout) };
        proof {
            assert(0 * layout.spec_size() == 0) by (nonlinear_arith);
            assert(r@ =~= Seq::<Seq<u8>>::empty());
        }
        r
    }

    /// An empty storage for `capacity` elements of `layout`.
    pub fn with_capacity_in(capacity: usize, layout: Layout) -> (r: Self)
        requires
            layout.wf(),
            layout.array_fits(capacity as nat),
        ensures
            r.wf(),
            r@ == Seq::<Seq<u8>>::empty(),
            r.spec_layout() == layout,
            r.spec_raw().spec_stored() == spec_new_capacity(capacity as nat, layout),
    {
        let mut bytes: Vec<u8> = Vec::new();
        let memory = RawVecMemory::with_capacity_in(capacity, layout, &mut bytes, layout.size());
        let r = OpaqueVecInner { length: 0, bytes, memory };
        proof {
            assert(0 * layout.spec_size() == 0) by (nonlinear_arith);
            assert(r@ =~= Seq::<Seq<u8>>::empty());
        }
        r
    }

    /// An empty storage for `capacity` elements of `layout`, or the reason why the memory could
    /// not be reserved.
    pub fn try_with_capacity_in(capacity: usize, layout: Layout) -> (r: Result<Self, TryReserveError>)
        requires
            layout.wf(),
        ensures
            !layout.array_fits(capacity as nat) ==> (r matches Err(e) && e.spec_kind() == TryReserveErrorKind::CapacityOverflow),
            layout.array_fits(capacity as nat) ==> match r {
                Ok(v) => {
                    &&& v.wf()
                    &&& v@ == Seq::<Seq<u8>>::empty()
                    &&& v.spec_layout() == layout
                    &&& v.spec_raw().spec_stored() == spec_new_capacity(capacity as nat, layout)
                },
                Err(e) => e.spec_kind() is AllocError,
            },
    {
        let mut bytes: Vec<u8> = Vec::new();
        match RawVecMemory::try_with_capacity_in(capacity, layout, &mut bytes, layout.size()) {
            Ok(memory) => {
                let r = OpaqueVecInner { length: 0, bytes, memory };
                proof {
                    assert(0 * layout.spec_size() == 0) by (nonlinear_arith);
                    assert(r@ =~= Seq::<Seq<u8>>::empty());
                }
                Ok(r)
            },
            Err(e) => Err(e),
        }
    }

    /// Returns the layout of one element.
    pub fn element_layout(&self) -> (r: Layout)
        ensures
            r == self.spec_layout(),
    {
        self.memory.element_layout()
    }

    /// Returns the capacity in elements.
    pub fn capacity(&self) -> (r: usize)
        requires
            self.wf(),
        ensures
            r == self.spec_capacity(),
    {
        self.memory.capacity()
    }

    /// Returns the number of elements.
    pub fn len(&self) -> (r: usize)
        requires
            self.wf(),
        ensures
            r == self@.len(),
    {
        self.length
    }

    /// Returns whether there are no elements.
    pub fn is_empty(&self) -> (r: bool)
        requires
            self.wf(),
        ensures
            r == (self@.len() == 0),
    {
        self.length == 0
    }

    /// Returns the bytes of all elements, back to back.
    pub fn as_byte_slice(&self) -> (r: &[u8])
        requires
            self.wf(),
        ensures
            r@ == self.spec_bytes(),
    {
        self.bytes.as_slice()
    }

    /// Returns a copy of the bytes of the element at `index`.
    pub fn get_unchecked(&self, index: usize) -> (r: Vec<u8>)
        requires
            self.wf(),
            index < self@.len(),
        ensures
            r@ == self@[index as int],
    {
        let size = self.memory.element_layout().size();
        let blen = self.bytes.len();
        proof {
            lemma_offsets(index as int, self.length as int, size as nat);
            lemma_offsets(index + 1, self.length as int, size as nat);
            assert(self.length * size == blen);
        }
        let start = index * size;
        copy_range(&self.bytes, start, start + size)
    }

    /// Grows a full storage by at least one element, amortized.
    pub fn grow_one(&mut self)
        requires
            old(self).wf(),
            old(self)@.len() == old(self).spec_capacity(),
            !old(self).spec_raw().spec_amortized_overflows(old(self).spec_raw().spec_stored(), 1),
        ensures
            final(self).wf(),
            final(self)@ == old(self)@,
            final(self).spec_bytes() == old(self).spec_bytes(),
            old(self).spec_grown_raw(final(self).spec_raw()),
    {
        let size = self.memory.element_layout().size();
        self.memory.grow_one(&mut self.bytes, size);
    }

    /// Grows the storage when it is full.
    fn grow_if_full(&mut self)
        requires
            old(self).wf(),
            old(self).spec_can_push(),
        ensures
            final(self).wf(),
            final(self)@ == old(self)@,
            final(self).spec_bytes() == old(self).spec_bytes(),
            old(self).spec_grown_raw(final(self).spec_raw()),
            final(self)@.len() < final(self).spec_capacity(),
    {
        if self.length == self.memory.capacity() {
            self.grow_one();
        }
    }

    /// Appends the element whose bytes are `value`, growing amortized when the storage is
    /// full.
    pub fn push(&mut self, value: &[u8])
        requires
            old(self).wf(),
            value@.len() == old(self).spec_size(),
            old(self).spec_can_push(),
        ensures
            final(self).wf(),
            final(self)@ == old(self)@.push(value@),
            old(self).spec_grown_raw(final(self).spec_raw()),
    {
        self.grow_if_full();
        let ghost b0 = self.bytes@;
        let ghost size = self.memory.spec_layout().spec_size();
        append_bytes(&mut self.bytes, value);
        self.length = self.length + 1;
        proof {
            lemma_elements_concat(b0, value@, size, (self.length - 1) as nat, 1);
            lemma_elements_single(value@, size);
            assert(self.length * size == (self.length - 1) * size + size) by (nonlinear_arith);
        }
    }

    /// Removes the element at `index`, moving the last element into its place, and returns the
    /// bytes of the removed element.
    pub fn swap_remove(&mut self, index: usize) -> (r: Vec<u8>)
        requires
            old(self).wf(),
            index < old(self)@.len(),
        ensures
            final(self).wf(),
            r@ == old(self)@[index as int],
            final(self)@ == old(self)@.update(index as int, old(self)@.last()).drop_last(),
            final(self).spec_raw() == old(self).spec_raw(),
    {
        let ghost old_elems = self@;
        let ghost b = self.bytes@;
        let ghost n = self.length as int;
        let size = self.memory.element_layout().size();
        let blen = self.bytes.len();
        let last = self.length - 1;
        proof {
            assert(n * size == blen);
            lemma_offsets(index as int, last as int, size as nat);
            lemma_offsets(last as int, n, size as nat);
        }
        let last_start = last * size;
        let index_start = index * size;
        if index == last {
            let removed = self.bytes.split_off(last_start);
            self.length = last;
            proof {
                lemma_elements_subrange(b, size as nat, n as nat, 0, last as int);
                lemma_elements_subrange(b, size as nat, n as nat, last as int, n);
                assert(0 * size == 0) by (nonlinear_arith);
                assert(self.bytes@ =~= b.subrange(0, last * size));
                assert(removed@ =~= b.subrange(last * size, n * size));
                lemma_elements_single(removed@, size as nat);
                assert(self@ =~= old_elems.update(index as int, old_elems.last()).drop_last());
            }
            removed
        } else {
            let mut last_bytes = self.bytes.split_off(last_start);
            let mut tail = self.bytes.split_off(index_start + size);
            let removed = self.bytes.split_off(index_start);
            self.bytes.append(&mut last_bytes);
            self.bytes.append(&mut tail);
            self.length = last;
            proof {
                let p = b.subrange(0, index * size);
                let m = b.subrange(index * size, (index + 1) * size);
                let t = b.subrange((index + 1) * size, last * size);
                let l = b.subrange(last * size, n * size);
                assert(0 * size == 0) by (nonlinear_arith);
                lemma_offsets(index + 1, last as int, size as nat);
                assert(removed@ =~= m);
                assert(self.bytes@ =~= p + l + t);
                lemma_elements_subrange(b, size as nat, n as nat, 0, index as int);
                lemma_elements_subrange(b, size as nat, n as nat, index as int, index + 1);
                lemma_elements_subrange(b, size as nat, n as nat, index + 1, last as int);
                lemma_elements_subrange(b, size as nat, n as nat, last as int, n);
                lemma_elements_single(m, size as nat);
                lemma_elements_single(l, size as nat);
                lemma_elements_concat(p, l, size as nat, index as nat, 1);
                lemma_elements_concat(p + l, t, size as nat, (index + 1) as nat, (last - index - 1) as nat);
                assert(self@ =~= old_elems.update(index as int, old_elems.last()).drop_last());
                assert(self.bytes@.len() == self.length * size) by (nonlinear_arith)
                    requires
                        self.bytes@.len() == index * size + size + (last - index - 1) * size,
                        self.length == last,
                ;
            }
            removed
        }
    }

    /// Removes the element at `index`, shifting the elements after it down by one, and returns
    /// the bytes of the removed element.
    pub fn shift_remove(&mut self, index: usize) -> (r: Vec<u8>)
        requires
            old(self).wf(),
            index < old(self)@.len(),
        ensures
            final(self).wf(),
            r@ == old(self)@[index as int],
            final(self)@ == old(self)@.remove(index as int),
            final(self).spec_raw() == old(self).spec_raw(),
    {
        let ghost old_elems = self@;
        let ghost b = self.bytes@;
        let ghost n = self.length as int;
        let size = self.memory.element_layout().size();
        let blen = self.bytes.len();
        proof {
            assert(n * size == blen);
            lemma_offsets(index as int, n, size as nat);
            lemma_offsets(index + 1, n, size as nat);
        }
        let index_start = index * size;
        let mut tail = self.bytes.split_off(index_start + size);
        let removed = self.bytes.split_off(index_start);
        self.bytes.append(&mut tail);
        self.length = self.length - 1;
        proof {
            let p = b.subrange(0, index * size);
            let m = b.subrange(index * size, (index + 1) * size);
            let t = b.subrange((index + 1) * size, n * size);
            assert(0 * size == 0) by (nonlinear_arith);
            assert(removed@ =~= m);
            assert(self.bytes@ =~= p + t);
            lemma_elements_subrange(b, size as nat, n as nat, 0, index as int);
            lemma_elements_subrange(b, size as nat, n as nat, index as int, index + 1);
            lemma_elements_subrange(b, size as nat, n as nat, index + 1, n);
            lemma_elements_single(m, size as nat);
            lemma_elements_concat(p, t, size as nat, index as nat, (n - index - 1) as nat);
            assert(self@ =~= old_elems.remove(index as int));
            assert(self.bytes@.len() == self.length * size) by (nonlinear_arith)
                requires
                    self.bytes@.len() == index * size + (n - index - 1) * size,
                    self.length == n - 1,
            ;
        }
        removed
    }

    /// Replaces the bytes of the element at `index` with `value`, or appends `value` when
    /// `index` is the length. A full storage grows first, even when an element is replaced.
    pub fn replace_insert(&mut self, index: usize, value: &[u8])
        requires
            old(self).wf(),
            index <= old(self)@.len(),
            value@.len() == old(self).spec_size(),
            old(self).spec_can_push(),
        ensures
            final(self).wf(),
            index < old(self)@.len() ==> final(self)@ == old(self)@.update(index as int, value@),
            index == old(self)@.len() ==> final(self)@ == old(self)@.push(value@),
            old(self).spec_grown_raw(final(self).spec_raw()),
    {
        if index == self.length {
            self.push(value);
            return;
        }
        self.grow_if_full();
        let ghost old_elems = self@;
        let ghost b = self.bytes@;
        let ghost n = self.length as int;
        let size = self.memory.element_layout().size();
        let blen = self.bytes.len();
        proof {
            assert(n * size == blen);
            lemma_offsets(index as int, n, size as nat);
            lemma_offsets(index + 1, n, size as nat);
        }
        let index_start = index * size;
        let mut tail = self.bytes.split_off(index_start + size);
        let _replaced = self.bytes.split_off(index_start);
        append_bytes(&mut self.bytes, value);
        self.bytes.append(&mut tail);
        proof {
            let p = b.subrange(0, index * size);
            let t = b.subrange((index + 1) * size, n * size);
            assert(0 * size == 0) by (nonlinear_arith);
            assert(self.bytes@ =~= p + value@ + t);
            lemma_elements_subrange(b, size as nat, n as nat, 0, index as int);
            lemma_elements_subrange(b, size as nat, n as nat, index + 1, n);
            lemma_elements_single(value@, size as nat);
            lemma_elements_concat(p, value@, size as nat, index as nat, 1);
            lemma_elements_concat(p + value@, t, size as nat, (index + 1) as nat, (n - index - 1) as nat);
            assert(self@ =~= old_elems.update(index as int, value@));
            assert(self.bytes@.len() == self.length * size) by (nonlinear_arith)
                requires
                    self.bytes@.len() == index * size + size + (n - index - 1) * size,
                    self.length == n,
            ;
        }
    }

    /// Inserts the element whose bytes are `value` at `index`, shifting the elements from
    /// `index` on up by one, growing amortized when the storage is full.
    pub fn shift_insert(&mut self, index: usize, value: &[u8])
        requires
            old(self).wf(),
            index <= old(self)@.len(),
            value@.len() == old(self).spec_size(),
            old(self).spec_can_push(),
        ensures
            final(self).wf(),
            final(self)@ == old(self)@.insert(index as int, value@),
            old(self).spec_grown_raw(final(self).spec_raw()),
    {
        self.grow_if_full();
        let ghost old_elems = self@;
        let ghost b = self.bytes@;
        let ghost n = self.length as int;
        let size = self.memory.element_layout().size();
        let blen = self.bytes.len();
        proof {
            assert(n * size == blen);
            lemma_offsets(index as int, n, size as nat);
        }
        let index_start = index * size;
        let mut tail = self.bytes.split_off(index_start);
        append_bytes(&mut self.bytes, value);
        self.bytes.append(&mut tail);
        self.length = self.length + 1;
        proof {
            let p = b.subrange(0, index * size);
            let t = b.subrange(index * size, n * size);
            assert(0 * size == 0) by (nonlinear_arith);
            assert(self.bytes@ =~= p + value@ + t);
            lemma_elements_subrange(b, size as nat, n as nat, 0, index as int);
            lemma_elements_subrange(b, size as nat, n as nat, index as int, n);
            lemma_elements_single(value@, size as nat);
            lemma_elements_concat(p, value@, size as nat, index as nat, 1);
            lemma_elements_concat(p + value@, t, size as nat, (index + 1) as nat, (n - index) as nat);
            assert(self@ =~= old_elems.insert(index as int, value@));
            assert(self.bytes@.len() == self.length * size) by (nonlinear_arith)
                requires
                    self.bytes@.len() == index * size + size + (n - index) * size,
                    self.length == n + 1,
            ;
        }
    }

    /// Shortens the storage to `len` elements; does nothing when it is not longer.
    pub fn truncate(&mut self, len: usize)
        requires
            old(self).wf(),
        ensures
            final(self).wf(),
            len <= old(self)@.len() ==> final(self)@ == old(self)@.subrange(0, len as int),
            len > old(self)@.len() ==> final(self)@ == old(self)@,
            final(self).spec_raw() == old(self).spec_raw(),
    {
        if len > self.length {
            return;
        }
        let ghost b = self.bytes@;
        let ghost n = self.length as int;
        let ghost old_elems = self@;
        let size = self.memory.element_layout().size();
        let blen = self.bytes.len();
        proof {
            assert(n * size == blen);
            lemma_offsets(len as int, n, size as nat);
        }
        self.bytes.truncate(len * size);
        self.length = len;
        proof {
            assert(0 * size == 0) by (nonlinear_arith);
            lemma_elements_subrange(b, size as nat, n as nat, 0, len as int);
            assert(self.bytes@ =~= b.subrange(0, len * size));
            assert(self@ =~= old_elems.subrange(0, len as int));
        }
    }

    /// Removes every element, keeping the capacity.
    pub fn clear(&mut self)
        requires
            old(self).wf(),
        ensures
            final(self).wf(),
            final(self)@ == Seq::<Seq<u8>>::empty(),
            final(self).spec_raw() == old(self).spec_raw(),
    {
        self.bytes.clear();
        self.length = 0;
        proof {
            assert(0 * self.memory.spec_layout().spec_size() == 0) by (nonlinear_arith);
            assert(self@ =~= Seq::<Seq<u8>>::empty());
        }
    }

    /// Reserves room for at least `additional` more elements, growing amortized when the
    /// capacity does not suffice.
    pub fn reserve(&mut self, additional: usize)
        requires
            old(self).wf(),
            old(self).spec_can_reserve(additional as nat),
        ensures
            final(self).wf(),
            final(self)@ == old(self)@,
            final(self).spec_bytes() == old(self).spec_bytes(),
            old(self).spec_reserved_raw(additional as nat, final(self).spec_raw()),
            final(self)@.len() + additional <= final(self).spec_capacity(),
    {
        let size = self.memory.element_layout().size();
        let len = self.length;
        self.memory.reserve(&mut self.bytes, size, len, additional);
    }

    /// Reserves room for exactly `additional` more elements when the capacity does not suffice.
    pub fn reserve_exact(&mut self, additional: usize)
        requires
            old(self).wf(),
            old(self).spec_raw().spec_needs_to_grow(old(self)@.len(), additional as nat) ==> !old(self).spec_raw().spec_exact_overflows(old(self)@.len(), additional as nat),
        ensures
            final(self).wf(),
            final(self)@ == old(self)@,
            final(self).spec_bytes() == old(self).spec_bytes(),
            final(self).spec_layout() == old(self).spec_layout(),
            !old(self).spec_raw().spec_needs_to_grow(old(self)@.len(), additional as nat) ==> final(self).spec_raw() == old(self).spec_raw(),
            old(self).spec_raw().spec_needs_to_grow(old(self)@.len(), additional as nat) ==> final(self).spec_raw().spec_stored() == old(self).spec_raw().spec_exact_capacity(old(self)@.len(), additional as nat),
            final(self)@.len() + additional <= final(self).spec_capacity(),
    {
        let size = self.memory.element_layout().size();
        let len = self.length;
        self.memory.reserve_exact(&mut self.bytes, size, len, additional);
    }

    /// Tries to reserve room for at least `additional` more elements.
    pub fn try_reserve(&mut self, additional: usize) -> (r: Result<(), TryReserveError>)
        requires
            old(self).wf(),
        ensures
            final(self).wf(),
            final(self)@ == old(self)@,
            final(self).spec_bytes() == old(self).spec_bytes(),
            final(self).spec_layout() == old(self).spec_layout(),
            !old(self).spec_raw().spec_needs_to_grow(old(self)@.len(), additional as nat) ==> r is Ok && final(self).spec_raw() == old(self).spec_raw(),
            old(self).spec_raw().spec_needs_to_grow(old(self)@.len(), additional as nat) && old(self).spec_raw().spec_amortized_overflows(old(self)@.len(), additional as nat) ==>
                (r matches Err(e) && e.spec_kind() == TryReserveErrorKind::CapacityOverflow) && final(self).spec_raw() == old(self).spec_raw(),
            old(self).spec_raw().spec_needs_to_grow(old(self)@.len(), additional as nat) && !old(self).spec_raw().spec_amortized_overflows(old(self)@.len(), additional as nat) ==> match r {
                Ok(()) => final(self).spec_raw().spec_stored() == old(self).spec_raw().spec_amortized_capacity(old(self)@.len(), additional as nat),
                Err(e) => e.spec_kind() is AllocError && final(self).spec_raw() == old(self).spec_raw(),
            },
            r is Ok ==> final(self)@.len() + additional <= final(self).spec_capacity(),
    {
        let size = self.memory.element_layout().size();
        let len = self.length;
        self.memory.try_reserve(&mut self.bytes, size, len, additional)
    }

    /// Tries to reserve room for exactly `additional` more elements.
    pub fn try_reserve_exact(&mut self, additional: usize) -> (r: Result<(), TryReserveError>)
        requires
            old(self).wf(),
        ensures
            final(self).wf(),
            final(self)@ == old(self)@,
            final(self).spec_bytes() == old(self).spec_bytes(),
            final(self).spec_layout() == old(self).spec_layout(),
            !old(self).spec_raw().spec_needs_to_grow(old(self)@.len(), additional as nat) ==> r is Ok && final(self).spec_raw() == old(self).spec_raw(),
            old(self).spec_raw().spec_needs_to_grow(old(self)@.len(), additional as nat) && old(self).spec_raw().spec_exact_overflows(old(self)@.len(), additional as nat) ==>
                (r matches Err(e) && e.spec_kind() == TryReserveErrorKind::CapacityOverflow) && final(self).spec_raw() == old(self).spec_raw(),
            old(self).spec_raw().spec_needs_to_grow(old(self)@.len(), additional as nat) && !old(self).spec_raw().spec_exact_overflows(old(self)@.len(), additional as nat) ==> match r {
                Ok(()) => final(self).spec_raw().spec_stored() == old(self).spec_raw().spec_exact_capacity(old(self)@.len(), additional as nat),
                Err(e) => e.spec_kind() is AllocError && final(self).spec_raw() == old(self).spec_raw(),
            },
            r is Ok ==> final(self)@.len() + additional <= final(self).spec_capacity(),
    {
        let size = self.memory.element_layout().size();
        let len = self.length;
        self.memory.try_reserve_exact(&mut self.bytes, size, len, additional)
    }

    /// Shrinks the capacity to the length.
    pub fn shrink_to_fit(&mut self)
        requires
            old(self).wf(),
        ensures
            final(self).wf(),
            final(self)@ == old(self)@,
            final(self).spec_bytes() == old(self).spec_bytes(),
            final(self).spec_layout() == old(self).spec_layout(),
            old(self).spec_capacity() > old(self)@.len() ==> final(self).spec_raw().spec_stored() == spec_new_capacity(old(self)@.len(), old(self).spec_layout()),
            old(self).spec_capacity() <= old(self)@.len() ==> final(self).spec_raw() == old(self).spec_raw(),
    {
        let size = self.memory.element_layout().size();
        let len = self.length;
        if self.memory.capacity() > len {
            self.memory.shrink_to_fit(&mut self.bytes, size, len);
        }
    }

    /// Shrinks the capacity to the larger of the length and `min_capacity`.
    pub fn shrink_to(&mut self, min_capacity: usize)
        requires
            old(self).wf(),
        ensures
            final(self).wf(),
            final(self)@ == old(self)@,
            final(self).spec_bytes() == old(self).spec_bytes(),
            final(self).spec_layout() == old(self).spec_layout(),
            old(self).spec_capacity() > min_capacity ==> final(self).spec_raw().spec_stored() == spec_new_capacity(
                if old(self)@.len() >= min_capacity { old(self)@.len() } else { min_capacity as nat },
                old(self).spec_layout(),
            ),
            old(self).spec_capacity() <= min_capacity ==> final(self).spec_raw() == old(self).spec_raw(),
    {
        let size = self.memory.element_layout().size();
        let len = self.length;
        if self.memory.capacity() > min_capacity {
            let target = if len >= min_capacity { len } else { min_capacity };
            proof {
                assert(len * size <= target * size) by (nonlinear_arith)
                    requires
                        len <= target,
                ;
            }
            self.memory.shrink_to_fit(&mut self.bytes, size, target);
        }
    }

    /// Appends `count` copies of the element whose bytes are `value`.
    pub fn extend_with(&mut self, count: usize, value: &[u8])
        requires
            old(self).wf(),
            value@.len() == old(self).spec_size(),
            old(self).spec_can_reserve(count as nat),
        ensures
            final(self).wf(),
            final(self)@ == old(self)@ + Seq::new(count as nat, |i: int| value@),
            old(self).spec_reserved_raw(count as nat, final(self).spec_raw()),
    {
        self.reserve(count);
        let ghost raw = self.memory;
        let ghost size = self.memory.spec_layout().spec_size();
        let mut i: usize = 0;
        while i < count
            invariant
                0 <= i <= count,
                self.wf(),
                self.memory == raw,
                value@.len() == size,
                size == self.spec_size(),
                self@.len() == old(self)@.len() + i,
                self@.len() + (count - i) <= self.spec_capacity(),
                self@ == old(self)@ + Seq::new(i as nat, |j: int| value@),
            decreases count - i,
        {
            let ghost b0 = self.bytes@;
            let ghost e0 = self@;
            append_bytes(&mut self.bytes, value);
            self.length = self.length + 1;
            proof {
                lemma_elements_concat(b0, value@, size, (self.length - 1) as nat, 1);
                lemma_elements_single(value@, size);
                assert(self.length * size == (self.length - 1) * size + size) by (nonlinear_arith);
                assert(self@ =~= e0.push(value@));
                assert(old(self)@ + Seq::new((i + 1) as nat, |j: int| value@) =~= (old(self)@ + Seq::new(i as nat, |j: int| value@)).push(value@));
            }
            i = i + 1;
        }
    }

    /// Removes the last element and returns its bytes, or `None` when there is none.
    pub fn pop(&mut self) -> (r: Option<Vec<u8>>)
        requires
            old(self).wf(),
        ensures
            final(self).wf(),
            final(self).spec_raw() == old(self).spec_raw(),
            old(self)@.len() == 0 ==> r is None && final(self)@ == old(self)@,
            old(self)@.len() > 0 ==> (r matches Some(v) && v@ == old(self)@.last()) && final(self)@ == old(self)@.drop_last(),
    {
        if self.length == 0 {
            return None;
        }
        let ghost before = self@;
        let last = self.length - 1;
        let v = self.shift_remove(last);
        proof {
            assert(before.remove(last as int) =~= before.drop_last());
        }
        Some(v)
    }

    /// Splits the storage at `at`: `self` keeps the elements before `at` and its capacity, and
    /// the returned storage, allocated for exactly the rest, holds the elements from `at` on.
    pub fn split_off(&mut self, at: usize) -> (r: Self)
        requires
            old(self).wf(),
            at <= old(self)@.len(),
        ensures
            final(self).wf(),
            r.wf(),
            final(self)@ == old(self)@.subrange(0, at as int),
            r@ == old(self)@.subrange(at as int, old(self)@.len() as int),
            final(self).spec_raw() == old(self).spec_raw(),
            r.spec_layout() == old(self).spec_layout(),
            r.spec_raw().spec_stored() == spec_new_capacity((old(self)@.len() - at) as nat, old(self).spec_layout()),
    {
        let ghost b = self.bytes@;
        let ghost n = self.length as int;
        let ghost old_elems = self@;
        let layout = self.memory.element_layout();
        let size = layout.size();
        let other_len = self.length - at;
        let blen = self.bytes.len();
        proof {
            assert(n * size == blen);
            lemma_offsets(at as int, n, size as nat);
            if size > 0 {
                crate::raw_vec::lemma_fits_monotone(layout, other_len as nat, self.memory.spec_stored());
            } else {
                assert(layout.spec_size() * other_len == 0) by (nonlinear_arith)
                    requires
                        layout.spec_size() == 0,
                ;
            }
        }
        let mut other = Self::with_capacity_in(other_len, layout);
        let tail = self.bytes.split_off(at * size);
        other.bytes = tail;
        other.length = other_len;
        self.length = at;
        proof {
            assert(0 * size == 0) by (nonlinear_arith);
            lemma_elements_subrange(b, size as nat, n as nat, 0, at as int);
            lemma_elements_subrange(b, size as nat, n as nat, at as int, n);
            assert(self.bytes@ =~= b.subrange(0, at * size));
            assert(other.bytes@ =~= b.subrange(at * size, n * size));
            assert(self@ =~= old_elems.subrange(0, at as int));
            assert(other@ =~= old_elems.subrange(at as int, n));
        }
        other
    }

    /// Moves every element of `other`, whose elements have the same layout, to the end of
    /// `self`, leaving `other` empty with its capacity.
    pub fn append(&mut self, other: &mut Self)
        requires
            old(self).wf(),
            old(other).wf(),
            old(other).spec_layout() == old(self).spec_layout(),
            old(self).spec_can_reserve(old(other)@.len()),
        ensures
            final(self).wf(),
            final(other).wf(),
            final(self)@ == old(self)@ + old(other)@,
            final(other)@ == Seq::<Seq<u8>>::empty(),
            old(self).spec_reserved_raw(old(other)@.len(), final(self).spec_raw()),
            final(other).spec_raw() == old(other).spec_raw(),
    {
        let count = other.length;
        self.reserve(count);
        let ghost x = self.bytes@;
        let ghost y = other.bytes@;
        let ghost size = self.memory.spec_layout().spec_size();
        let ghost a = self.length as nat;
        self.bytes.append(&mut other.bytes);
        self.length = self.length + count;
        other.length = 0;
        proof {
            lemma_elements_concat(x, y, size, a, count as nat);
            assert(self.length * size == a * size + count * size) by (nonlinear_arith)
                requires
                    self.length == a + count,
            ;
            assert(0 * size == 0) by (nonlinear_arith);
            assert(other@ =~= Seq::<Seq<u8>>::empty());
        }
    }

    /// Appends copies of the elements `others`, each given by its bytes, in order.
    pub fn extend_from_slice(&mut self, others: &[Vec<u8>])
        requires
            old(self).wf(),
            forall|i: int| 0 <= i < others@.len() ==> #[trigger] others@[i]@.len() == old(self).spec_size(),
            old(self).spec_can_reserve(others@.len()),
        ensures
            final(self).wf(),
            final(self)@ == old(self)@ + others@.map_values(|v: Vec<u8>| v@),
            old(self).spec_reserved_raw(others@.len(), final(self).spec_raw()),
    {
        let count = others.len();
        self.reserve(count);
        let ghost raw = self.memory;
        let ghost size = self.memory.spec_layout().spec_size();
        let ghost values = others@.map_values(|v: Vec<u8>| v@);
        let mut i: usize = 0;
        while i < count
            invariant
                0 <= i <= count,
                count == others@.len(),
                values == others@.map_values(|v: Vec<u8>| v@),
                forall|k: int| 0 <= k < others@.len() ==> #[trigger] others@[k]@.len() == size,
                self.wf(),
                self.memory == raw,
                size == self.spec_size(),
                self@.len() == old(self)@.len() + i,
                self@.len() + (count - i) <= self.spec_capacity(),
                self@ == old(self)@ + values.take(i as int),
            decreases count - i,
        {
            let value = others[i].as_slice();
            let ghost b0 = self.bytes@;
            let ghost e0 = self@;
            append_bytes(&mut self.bytes, value);
            self.length = self.length + 1;
            proof {
                assert(value@ == others@[i as int]@);
                lemma_elements_concat(b0, value@, size, (self.length - 1) as nat, 1);
                lemma_elements_single(value@, size);
                assert(self.length * size == (self.length - 1) * size + size) by (nonlinear_arith);
                assert(self@ =~= e0.push(value@));
                assert(values.take(i + 1) =~= values.take(i as int).push(value@));
            }
            i = i + 1;
        }
        proof {
            assert(values.take(count as int) =~= values);
        }
    }

    /// Reverses the order of the elements.
    pub fn reverse(&mut self)
        requires
            old(self).wf(),
        ensures
            final(self).wf(),
            final(self)@ == old(self)@.reverse(),
            final(self).spec_raw() == old(self).spec_raw(),
    {
        let n = self.length;
        let ghost old_elems = self@;
        let ghost size = self.memory.spec_layout().spec_size();
        let mut out: Vec<u8> = Vec::new();
        let mut i: usize = 0;
        proof {
            assert(0 * size == 0) by (nonlinear_arith);
            assert(spec_elements(out@, size, 0) =~= old_elems.reverse().take(0));
        }
        while i < n
            invariant
                0 <= i <= n,
                n == self.length,
                self.wf(),
                self@ == old_elems,
                size == self.spec_size(),
                out@.len() == i * size,
                spec_elements(out@, size, i as nat) == old_elems.reverse().take(i as int),
            decreases n - i,
        {
            let e = self.get_unchecked(n - 1 - i);
            let ghost o0 = out@;
            proof {
                lemma_offsets(n - 1 - i, n as int, size);
                assert(e@.len() == size);
            }
            append_bytes(&mut out, e.as_slice());
            proof {
                lemma_elements_concat(o0, e@, size, i as nat, 1);
                lemma_elements_single(e@, size);
                assert((i + 1) * size == i * size + size) by (nonlinear_arith);
                assert(old_elems.reverse().take(i + 1) =~= old_elems.reverse().take(i as int).push(e@));
            }
            i = i + 1;
        }
        self.bytes = out;
        proof {
            assert(old_elems.reverse().take(n as int) =~= old_elems.reverse());
        }
    }

    /// Keeps the elements on whose bytes `keep` returns `true`, in order, and removes the
    /// others, keeping the capacity.
    pub fn retain<F>(&mut self, keep: F)
        where
            F: FnMut(&[u8]) -> bool,
        requires
            old(self).wf(),
            forall|x: &[u8]| keep.requires((x,)),
        ensures
            final(self).wf(),
            final(self).spec_raw() == old(self).spec_raw(),
            exists|flags: Seq<bool>| {
                &&& flags.len() == old(self)@.len()
                &&& forall|i: int| 0 <= i < old(self)@.len() ==> #[trigger] spec_keeps_bytes(keep, old(self)@[i], flags[i])
                &&& final(self)@ == spec_filter(old(self)@, flags)
            },
    {
        let mut keep_fn = keep;
        let ghost k0 = keep_fn;
        let ghost s = self@;
        let ghost size = self.memory.spec_layout().spec_size();
        let ghost mut flags: Seq<bool> = Seq::empty();
        let n = self.length;
        let mut out: Vec<u8> = Vec::new();
        let mut kept: usize = 0;
        let mut i: usize = 0;
        proof {
            assert(0 * size == 0) by (nonlinear_arith);
            assert(s.take(0) =~= Seq::<Seq<u8>>::empty());
            assert(spec_elements(out@, size, 0) =~= Seq::<Seq<u8>>::empty());
        }
        while i < n
            invariant
                0 <= kept <= i <= n,
                n == self.length,
                self.wf(),
                self@ == s,
                size == self.spec_size(),
                keep_fn == k0,
                k0 == keep,
                forall|x: &[u8]| k0.requires((x,)),
                flags.len() == i,
                forall|j: int| 0 <= j < i ==> #[trigger] spec_keeps_bytes(k0, s[j], flags[j]),
                out@.len() == kept * size,
                spec_elements(out@, size, kept as nat) == spec_filter(s.take(i as int), flags),
            decreases n - i,
        {
            let e = self.get_unchecked(i);
            let b = keep_fn(e.as_slice());
            proof {
                lemma_offsets(i as int, n as int, size);
                assert(e@.len() == size);
                assert(spec_keeps_bytes(k0, s[i as int], b));
                let nf = flags.push(b);
                lemma_filter_step(s, nf, i as int);
                assert(nf.take(i as int) =~= flags);
                assert(nf.take(i + 1) =~= nf);
                assert forall|j: int| 0 <= j < i + 1 implies #[trigger] spec_keeps_bytes(k0, s[j], nf[j]) by {
                    if j < i {
                        assert(nf[j] == flags[j]);
                    }
                }
                flags = nf;
            }
            if b {
                let ghost o0 = out@;
                append_bytes(&mut out, e.as_slice());
                proof {
                    lemma_elements_concat(o0, e@, size, kept as nat, 1);
                    lemma_elements_single(e@, size);
                    assert((kept + 1) * size == kept * size + size) by (nonlinear_arith);
                }
                kept = kept + 1;
            }
            i = i + 1;
        }
        proof {
            assert(s.take(n as int) =~= s);
            assert(kept * size <= n * size) by (nonlinear_arith)
                requires
                    kept <= n,
            ;
        }
        self.bytes = out;
        self.length = kept;
    }

    /// Removes every element whose bytes equal those of the last element kept before it.
    pub fn dedup(&mut self)
        requires
            old(self).wf(),
        ensures
            final(self).wf(),
            final(self).spec_raw() == old(self).spec_raw(),
            exists|dups: Seq<bool>| {
                &&& spec_dedup_decisions(old(self)@, dups, |x: Seq<u8>, y: Seq<u8>, b: bool| spec_same_bytes(x, y, b))
                &&& final(self)@ == spec_keep_unmarked(old(self)@, dups)
            },
    {
        let ghost same = |x: Seq<u8>, y: Seq<u8>, b: bool| spec_same_bytes(x, y, b);
        let ghost s = self@;
        let ghost size = self.memory.spec_layout().spec_size();
        let n = self.length;
        if n == 0 {
            proof {
                assert(spec_dedup_decisions(s, Seq::<bool>::empty(), same));
                assert(spec_keep_unmarked(s, Seq::<bool>::empty()) =~= s);
            }
            return;
        }
        let first = self.get_unchecked(0);
        let mut out: Vec<u8> = Vec::new();
        append_bytes(&mut out, first.as_slice());
        let mut last = first;
        let mut kept: usize = 1;
        let mut i: usize = 1;
        let ghost mut dups: Seq<bool> = seq![false];
        proof {
            lemma_offsets(0, n as int, size);
            lemma_elements_single(last@, size);
            assert(1 * size == size) by (nonlinear_arith);
            assert(out@ =~= last@);
            lemma_keep_unmarked_step(s, dups, 0);
            assert(s.take(0) =~= Seq::<Seq<u8>>::empty());
            assert(spec_keep_unmarked(s.take(0), dups.take(0)) =~= Seq::<Seq<u8>>::empty());
            assert(dups.take(1) =~= dups);
        }
        while i < n
            invariant
                1 <= kept <= i <= n,
                n == self.length,
                n == s.len(),
                same == (|x: Seq<u8>, y: Seq<u8>, b: bool| spec_same_bytes(x, y, b)),
                self.wf(),
                self@ == s,
                size == self.spec_size(),
                dups.len() == i,
                !dups[0],
                forall|j: int| 1 <= j < i ==> #[trigger] same(s[j], spec_last_kept(s, dups, j), dups[j]),
                out@.len() == kept * size,
                spec_elements(out@, size, kept as nat) == spec_keep_unmarked(s.take(i as int), dups),
                last@ == spec_keep_unmarked(s.take(i as int), dups).last(),
                spec_keep_unmarked(s.take(i as int), dups).len() == kept,
            decreases n - i,
        {
            let e = self.get_unchecked(i);
            let equal = bytes_eq(e.as_slice(), last.as_slice());
            proof {
                lemma_offsets(i as int, n as int, size);
                assert(dups.take(i as int) =~= dups);
                let nd = dups.push(equal);
                assert(nd.take(i as int) =~= dups);
                assert(nd.take(i + 1) =~= nd);
                lemma_keep_unmarked_step(s, nd, i as int);
                assert(same(s[i as int], spec_last_kept(s, nd, i as int), nd[i as int]));
                assert forall|j: int| 1 <= j < i + 1 implies #[trigger] same(s[j], spec_last_kept(s, nd, j), nd[j]) by {
                    if j < i {
                        assert(nd.take(j) =~= dups.take(j));
                        assert(nd[j] == dups[j]);
                        assert(same(s[j], spec_last_kept(s, dups, j), dups[j]));
                    }
                }
                dups = nd;
            }
            if !equal {
                let ghost o0 = out@;
                append_bytes(&mut out, e.as_slice());
                proof {
                    lemma_elements_concat(o0, e@, size, kept as nat, 1);
                    lemma_elements_single(e@, size);
                    assert((kept + 1) * size == kept * size + size) by (nonlinear_arith);
                }
                kept = kept + 1;
                last = e;
            }
            i = i + 1;
        }
        proof {
            assert(s.take(n as int) =~= s);
            assert(kept * size <= n * size) by (nonlinear_arith)
                requires
                    kept <= n,
            ;
        }
        self.bytes = out;
        self.length = kept;
    }

    /// Returns a storage of the same layout and capacity holding the same bytes.
    pub fn clone(&self) -> (r: Self)
        requires
            self.wf(),
        ensures
            r.wf(),
            r@ == self@,
            r.spec_bytes() == self.spec_bytes(),
            r.spec_raw() == self.spec_raw(),
    {
        let layout = self.memory.element_layout();
        let stored = self.memory.stored_capacity();
        proof {
            if layout.spec_size() == 0 {
                assert(layout.spec_size() * stored == 0) by (nonlinear_arith)
                    requires
                        layout.spec_size() == 0,
                ;
            }
        }
        let mut other = Self::with_capacity_in(stored, layout);
        append_bytes(&mut other.bytes, self.bytes.as_slice());
        other.length = self.length;
        proof {
            RawVecMemory::lemma_ext_eq(&other.memory, &self.memory);
            assert(other.bytes@ =~= self.bytes@);
        }
        other
    }
}

} // verus!
