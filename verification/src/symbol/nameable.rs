//! The `Nameable` trait, for objects with names.

use vstd::prelude::*;

verus! {

/// Trait for objects named by symbols.
pub trait Nameable {
    /// The symbol naming this object.
    fn name(&self) -> crate::symbol::private::Symbol;
}

} // verus!
