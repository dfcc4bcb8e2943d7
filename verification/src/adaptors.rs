//! Interner adaptors.
//!
//! Each type in this module adds functionality on top of another interner.
//! Adaptors are wrapper types: they take the wrapped interner as a generic
//! parameter and implement the same capability traits, so adaptors can be
//! stacked.  [`Inline`] stores short strings directly inside the symbol;
//! [`Luma`] allows interning through a shared reference by checking
//! exclusive access at run time.

pub mod inline;
pub mod luma;

pub use self::inline::{Inline, Sym as InlineSym};
pub use self::luma::{Luma, Sym as LumaSym};
