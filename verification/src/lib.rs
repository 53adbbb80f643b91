//! Type-erasable growable vectors.
//!
//! The crate offers a type-projected vector, [`TypeProjectedVec`], whose element type is
//! known at compile time, and a type-erased vector, [`TypeErasedVec`], which stores its
//! elements as raw bytes together with the runtime type information of the element type and
//! of the allocator type. Both share one capacity policy, implemented in [`raw_vec`].
#![allow(unused_imports)]

pub mod error;
pub mod layout;
pub mod type_info;
pub mod raw_vec;
pub mod vec;
pub mod drain;
pub mod splice;
pub mod extract_if;
pub mod into_iter;
pub mod opaque_vec_inner;
pub mod erased;
pub mod laws;

pub use crate::error::{TryProjectVecError, TryProjectVecErrorKind, TryReserveError, TryReserveErrorKind};
pub use crate::layout::Layout;
pub use crate::vec::{Global, TypeProjectedVec};
pub use crate::drain::Drain;
pub use crate::splice::Splice;
pub use crate::extract_if::ExtractIf;
pub use crate::into_iter::IntoIter;
pub use crate::erased::TypeErasedVec;
