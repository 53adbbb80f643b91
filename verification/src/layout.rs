//! Memory layouts of elements and of element arrays.
use vstd::prelude::*;

verus! {

/// The largest byte size that an allocation with alignment `align` may have.
pub open spec fn max_size_for_align(align: nat) -> int {
    isize::MAX as int - (isize::MAX as int % align as int)
}

/// The size and alignment of a block of memory.
///
/// A well formed layout has a nonzero alignment, a size that is a multiple of the alignment
/// and a size that does not exceed the largest allocation size for its alignment.
#[derive(Copy, Clone, PartialEq, Eq, Debug, Structural)]
pub struct Layout {
    /// The size in bytes.
    pub size: usize,
    /// The alignment in bytes.
    pub align: usize,
}

impl Layout {
    /// The size in bytes.
    pub open spec fn spec_size(&self) -> nat {
        self.size as nat
    }

    /// The alignment in bytes.
    pub open spec fn spec_align(&self) -> nat {
        self.align as nat
    }

    /// The layout of the type `T`.
    pub open spec fn spec_of<T>() -> Layout {
        Layout {
            size: vstd::layout::size_of::<T>() as usize,
            align: vstd::layout::align_of::<T>() as usize,
        }
    }

    /// The layout invariant.
    pub open spec fn wf(&self) -> bool {
        &&& self.spec_align() >= 1
        &&& self.spec_size() % self.spec_align() == 0
        &&& self.spec_size() <= max_size_for_align(self.spec_align())
    }

    /// Whether an array of `n` elements of this layout fits in one allocation: it takes at most
    /// `isize::MAX` bytes. For a well formed layout this is the same as staying within the
    /// largest allocation size for the alignment, since the array's size is a multiple of it.
    pub open spec fn array_fits(&self, n: nat) -> bool {
        self.spec_size() * n <= isize::MAX
    }

    /// A size that is a multiple of the alignment and at most `isize::MAX` stays within the
    /// largest allocation size for the alignment.
    pub proof fn lemma_multiple_within_max(x: int, align: int)
        requires
            align >= 1,
            0 <= x <= isize::MAX,
            x % align == 0,
        ensures
            x <= max_size_for_align(align as nat),
    {
        let m = isize::MAX as int;
        vstd::arithmetic::div_mod::lemma_fundamental_div_mod(x, align);
        vstd::arithmetic::div_mod::lemma_fundamental_div_mod(m, align);
        let k = x / align;
        let q = m / align;
        let r = m % align;
        assert(0 <= r < align) by {
            vstd::arithmetic::div_mod::lemma_mod_bound(m, align);
        }
        assert(k <= q) by (nonlinear_arith)
            requires
                x == align * k,
                m == align * q + r,
                0 <= r < align,
                x <= m,
                align >= 1,
        ;
        assert(align * k <= align * q) by (nonlinear_arith)
            requires
                k <= q,
                align >= 1,
        ;
    }

    /// The layout of the type `T`.
    pub fn new<T>() -> (r: Self)
        ensures
            r.wf(),
            r == Layout::spec_of::<T>(),
            r.spec_size() == vstd::layout::size_of::<T>(),
            r.spec_align() == vstd::layout::align_of::<T>(),
    {
        vstd::layout::layout_for_type_is_valid::<T>();
        let size = core::mem::size_of::<T>();
        let align = core::mem::align_of::<T>();
        Layout { size, align }
    }

    /// Returns the size in bytes.
    pub fn size(&self) -> (r: usize)
        ensures
            r == self.spec_size(),
    {
        self.size
    }

    /// Returns the alignment in bytes.
    pub fn align(&self) -> (r: usize)
        ensures
            r == self.spec_align(),
    {
        self.align
    }

    /// The layout of an array of `n` elements of this layout, if it fits in one allocation.
    pub fn repeat(&self, n: usize) -> (r: Option<Layout>)
        requires
            self.wf(),
        ensures
            r is Some <==> self.array_fits(n as nat),
            r matches Some(l) ==> {
                &&& l.wf()
                &&& l.spec_size() == self.spec_size() * n
                &&& l.spec_align() == self.spec_align()
            },
    {
        match self.size.checked_mul(n) {
            Some(total) => {
                proof {
                    assert((self.size as int * n as int) % self.align as int == 0) by (nonlinear_arith)
                        requires
                            self.size as int % self.align as int == 0,
                            self.align >= 1,
                    {
                        vstd::arithmetic::div_mod::lemma_mul_mod_noop_left(self.size as int, n as int, self.align as int);
                    }
                    if total <= isize::MAX {
                        Layout::lemma_multiple_within_max(total as int, self.align as int);
                    }
                }
                if total as u64 <= (isize::MAX as usize - (isize::MAX as usize % self.align)) as u64 {
                    Some(Layout { size: total, align: self.align })
                } else {
                    None
                }
            },
            None => {
                proof {
                    assert(self.size as int * n as int > usize::MAX as int);
                }
                None
            },
        }
    }
}

} // verus!
