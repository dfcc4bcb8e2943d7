//! Traits for defining scope-like hierarchies of value maps, keyed by
//! symbols.

use std::rc::Rc;
use vstd::prelude::*;

verus! {

/// Trait that defines a method to find the root of a scope hierarchy.
pub trait HasRootScope<T> {
    /// Fetch the root scope of the hierarchy this value belongs to.
    fn root_scope(&self) -> Rc<T>;
}

/// Trait for types that define a method to find an instance's parent
/// scope.
pub trait HasParentScope<T> {
    /// Fetch the parent scope of this value.
    fn parent_scope(&self) -> Rc<T>;
}

/// Marker trait for the root scopes of hierarchies of nameable values.
pub trait RootScope<ValueType>: HasRootScope<Self> where
    Self: Sized,
    ValueType: crate::symbol::Nameable,
 {
}

} // verus!
