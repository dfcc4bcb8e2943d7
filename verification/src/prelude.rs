//! Items intended for glob-import.
//!
//! A conservative set of names is brought into scope: only the traits
//! necessary for method resolution are included, and each re-exported
//! trait's name is prefixed to reduce the likelihood of collisions.

pub use crate::traits::Intern as SymternIntern;
pub use crate::traits::Len as SymternLen;
pub use crate::traits::Resolve as SymternResolve;
pub use crate::traits::ResolveUnchecked as SymternResolveUnchecked;
