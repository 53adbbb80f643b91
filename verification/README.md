# opaque_vec

Type-erasable growable vectors, verified with Verus.

- `src/vec.rs`: `TypeProjectedVec<T, A>`, a vector whose element and allocator types are
  known at compile time, with its contracts over the sequence of its elements.
- `src/raw_vec.rs`: the capacity policy shared by all vectors (amortized and exact growth,
  shrinking, overflow and allocation errors).
- `src/drain.rs`, `src/splice.rs`, `src/extract_if.rs`, `src/into_iter.rs`: the draining,
  splicing, extracting and consuming views of a `TypeProjectedVec`.
- `src/opaque_vec_inner.rs`, `src/erased.rs`: `TypeErasedVec`, which stores its elements as
  bytes back to back together with the type identifiers of its element and allocator types.
- `src/layout.rs`, `src/error.rs`, `src/type_info.rs`: memory layouts, error types and runtime
  type identifiers.
- `src/laws.rs`: properties that span several operations.
- `app/lib.rs`: a displayable copy of the projection error for standard error reporting.
