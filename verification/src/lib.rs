//! Fast general-purpose value interners.
//!
//! An interner maps values to small, cheaply copyable *symbols* that compare
//! in constant time and can later be resolved back to the value they stand
//! for.  The crate is built around a small set of traits describing what an
//! interner can do, a hash-based table interner ([`Pool`]), and adaptors that
//! add behaviour on top of any interner: [`adaptors::Inline`] stores short
//! strings directly inside the symbol, and [`adaptors::Luma`] allows
//! interning through a shared reference.

pub mod adaptors;
pub mod basic;
pub mod error;
pub mod hashing;
pub mod packing;
pub mod prelude;
pub mod short;
pub mod sym;
pub mod symbol;
pub mod traits;

pub use crate::basic::{Pool, Sym};
pub use crate::error::{Error, ErrorKind};
