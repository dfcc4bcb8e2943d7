//! String interner with configurable id type, optimized for short strings.
//!
//! The pool here encodes any string *shorter* (in UTF-8 bytes) than the
//! symbol-id type directly inside the symbol; strings of the same or
//! greater size are passed to a hash-based backing table.  It is the
//! short-string adaptor applied to the basic pool, under one name: the
//! downside is capacity, since the inline tag bit halves the number of
//! addressable table slots, but symbols with inlined values don't occupy
//! any space in the pool.

use vstd::prelude::*;

pub use crate::adaptors::inline::Pack;

verus! {

/// Interner optimized for short strings: the inline adaptor over the
/// basic string pool.
pub type Pool<I> = crate::adaptors::Inline<crate::basic::Pool<String, I>>;

/// Symbol type used by [`Pool`].
pub type Sym<I> = crate::adaptors::inline::Sym<crate::basic::Sym<I>>;

} // verus!
