//! Internal plumbing shared by pools and adaptors: the pool model and the
//! symbol-creation interface.
//!
//! [`Pool`] gives every interner a mathematical model — its stored table,
//! capacity, identity tag and the `find`/`resolves` relations — against
//! which the capability traits in [`crate::traits`] state their contracts.
//! The methods here should be used **only** when implementing a new pool or
//! adaptor type: `create_symbol` mints symbols out of thin air, and any
//! symbol it creates must be resolvable on an existing pool.

pub use crate::traits::{Internable, Symbol, SymbolId};
use vstd::prelude::*;

verus! {

/// Model trait for pool types: abstract state plus a consistent
/// symbol-creation interface for adaptors.
pub trait Pool: Sized {
    /// Symbol type issued by the pool.
    type Symbol: Symbol;

    /// Owned value type stored by the pool.
    type Value: Internable;

    /// Well-formedness of the pool's state; every operation preserves it.
    spec fn wf(&self) -> bool;

    /// The pool's identity tag, carried by every symbol it issues.
    spec fn tag_spec(&self) -> u64;

    /// Number of values the table can hold before the pool is full.
    spec fn cap_spec(&self) -> nat;

    /// The stored values, in insertion order, as their views.
    spec fn table(&self) -> Seq<<Self::Value as View>::V>;

    /// The symbol this pool would currently answer for a value, if any.
    spec fn find_spec(&self, v: <Self::Value as View>::V) -> Option<Self::Symbol>;

    /// The value a symbol stands for in this pool, if any.
    spec fn resolves_spec(&self, s: Self::Symbol) -> Option<<Self::Value as View>::V>;

    /// The symbol this pool mints for a given id.
    spec fn mk_sym_spec(&self, id: <Self::Symbol as Symbol>::Id) -> Self::Symbol;

    /// Whether the pool answers this value without consulting its table:
    /// true for values an adaptor packs into the symbol itself.
    spec fn always_finds(&self, v: <Self::Value as View>::V) -> bool;

    /// Whether a full pool reports overflow before consulting its table,
    /// so that even an already-interned value is refused: true for
    /// adaptors that redefine the fullness condition and fail fast.
    spec fn fails_fast(&self) -> bool;

    /// A minted symbol carries the given id and this pool's tag.
    proof fn lemma_mk_sym(&self, id: <Self::Symbol as Symbol>::Id)
        requires
            self.wf(),
        ensures
            self.mk_sym_spec(id).spec_id() == id,
            self.mk_sym_spec(id).spec_pool_id() == self.tag_spec(),
    ;

    /// A found symbol resolves to a stored (or inlined) value whose content
    /// hash key equals the probed value's key; only hash-colliding distinct
    /// values can make the two differ.
    proof fn lemma_find_resolves(&self, v: <Self::Value as View>::V)
        requires
            self.wf(),
            self.find_spec(v) is Some,
        ensures
            ({
                let s = self.find_spec(v).unwrap();
                &&& s.spec_pool_id() == self.tag_spec()
                &&& match self.resolves_spec(s) {
                    Some(w) => <Self::Value as Internable>::key_spec(w)
                        == <Self::Value as Internable>::key_spec(v) && (w == v
                        || self.table().contains(w)),
                    None => false,
                }
            }),
    ;

    /// Fetch the pool's identity tag.
    fn id(&self) -> (r: u64)
        requires
            self.wf(),
        ensures
            r == self.tag_spec(),
    ;

    /// Create a symbol with the specified id, carrying this pool's tag.
    fn create_symbol(&self, id: <Self::Symbol as Symbol>::Id) -> (r: Self::Symbol)
        requires
            self.wf(),
        ensures
            r == self.mk_sym_spec(id),
            r.spec_id() == id,
            r.spec_pool_id() == self.tag_spec(),
    ;

    /// Create a new, empty pool with the default identity tag.
    fn empty_pool() -> (r: Self)
        ensures
            r.wf(),
            r.table().len() == 0,
            r.tag_spec() == 0,
            r.cap_spec() >= (<<Self::Symbol as Symbol>::Id as SymbolId>::max_spec() + 1) / 2,
    ;
}

/// Interface for creating new symbols from raw ids.
pub trait Create: Symbol {
    /// Create a new symbol with the given id and source pool tag.
    fn create(id: Self::Id, pool_id: u64) -> (r: Self)
        ensures
            r.spec_id() == id,
            r.spec_pool_id() == pool_id,
    ;
}

} // verus!
