//! "Lifetime-safe" interner adaptor.
//!
//! [`Luma`] puts the wrapped pool behind a single-writer/multi-reader
//! runtime-checked cell, so `intern` takes a *shared* reference rather
//! than an exclusive one: any number of symbols can be created and used
//! side by side.  The trade-off is contractual: operations on the cell see
//! *some* well-formed pool state rather than a statically tracked one, so
//! each method promises only that it behaved as the wrapped pool's
//! operation on such a state.  Exclusive access for the duration of each
//! write is enforced by the cell at run time instead of by the borrow
//! checker at compile time.

use crate::error::Error;
use crate::sym::Pool as SymPool;
use crate::traits::{intern_post, resolve_post, Intern, Len, Resolve, Symbol};
use vstd::prelude::*;
use vstd::rwlock::RwLock;

verus! {

/// Symbol type used by the [`Luma`] adaptor.
#[derive(Clone, Copy, Debug, PartialEq, Eq)]
pub struct Sym<S> {
    pub(crate) wrapped: S,
}

impl<S: Symbol> Symbol for Sym<S> {
    type Id = S::Id;

    closed spec fn spec_id(&self) -> S::Id {
        self.wrapped.spec_id()
    }

    closed spec fn spec_pool_id(&self) -> u64 {
        self.wrapped.spec_pool_id()
    }

    fn id(&self) -> (r: S::Id) {
        self.wrapped.id()
    }

    fn id_ref(&self) -> (r: &S::Id) {
        self.wrapped.id_ref()
    }

    fn pool_id(&self) -> (r: u64) {
        self.wrapped.pool_id()
    }
}

impl<S: Symbol> Sym<S> {
    /// The wrapped pool's symbol inside this one.
    pub closed spec fn wrapped_spec(&self) -> S {
        self.wrapped
    }

    /// Wrap a symbol of the underlying pool.
    pub fn from(s: S) -> (r: Self)
        ensures
            r.wrapped_spec() == s,
    {
        Sym { wrapped: s }
    }
}

/// The invariant the cell maintains: it only ever holds well-formed pools.
pub open spec fn luma_inv<W: SymPool>() -> spec_fn(W) -> bool {
    |w: W| w.wf()
}

/// Interner adaptor that allows interning through a shared reference.
///
/// The wrapped pool lives behind a single-writer/multi-reader cell:
/// `intern` briefly takes the write side, `resolve` and the size queries
/// take the read side.  Because the pool state is not visible through a
/// shared reference, each operation's contract says it acted as the
/// wrapped pool's operation on some well-formed state of the cell.
#[verifier::reject_recursive_types(W)]
pub struct Luma<W: SymPool> {
    wrapped: RwLock<W, spec_fn(W) -> bool>,
}

impl<W: SymPool> Luma<W> {
    /// The cell's invariant is the wrapped pool's well-formedness.
    pub closed spec fn wf(&self) -> bool {
        self.wrapped.pred() == luma_inv::<W>()
    }

    /// Create a new, empty `Luma` instance.
    pub fn new() -> (r: Self)
        ensures
            r.wf(),
    {
        let w = W::empty_pool();
        Luma { wrapped: RwLock::new(w, Ghost(luma_inv::<W>())) }
    }

    /// Wrap an existing pool.
    pub fn from(w: W) -> (r: Self)
        requires
            w.wf(),
        ensures
            r.wf(),
    {
        Luma { wrapped: RwLock::new(w, Ghost(luma_inv::<W>())) }
    }
}

impl<W: SymPool> Default for Luma<W> {
    /// Create a new, empty `Luma` instance.
    fn default() -> (r: Self)
        ensures
            r.wf(),
    {
        Self::new()
    }
}

impl<W: SymPool + Intern> Luma<W> {
    /// Fetch the symbol for a value through a shared reference, interning
    /// the value first if it is new: takes the cell's write side for the
    /// duration of the call, and behaves as the wrapped pool's `intern`
    /// on the state found there.
    pub fn intern(&self, value: &W::Value) -> (r: Result<Sym<W::Symbol>, Error>)
        requires
            self.wf(),
        ensures
            match r {
                Ok(s) => exists|pre: W, post: W|
                    pre.wf() && post.wf() && #[trigger] intern_post(
                        pre,
                        post,
                        value@,
                        Ok(s.wrapped_spec()),
                    ),
                Err(e) => exists|pre: W, post: W|
                    pre.wf() && post.wf() && #[trigger] intern_post(
                        pre,
                        post,
                        value@,
                        Err::<W::Symbol, Error>(e),
                    ),
            },
    {
        let (mut w, handle) = self.wrapped.acquire_write();
        let ghost pre_w = w;
        let res = w.intern(value);
        handle.release_write(w);
        let out: Result<Sym<W::Symbol>, Error> = match res {
            Ok(s) => Ok(Sym { wrapped: s }),
            Err(e) => Err(e),
        };
        proof {
            match out {
                Ok(s2) => {
                    assert(pre_w.wf() && w.wf() && intern_post(
                        pre_w,
                        w,
                        value@,
                        Ok(s2.wrapped_spec()),
                    ));
                },
                Err(e2) => {
                    assert(pre_w.wf() && w.wf() && intern_post(
                        pre_w,
                        w,
                        value@,
                        Err::<W::Symbol, Error>(e2),
                    ));
                },
            }
        }
        out
    }
}

impl<W: SymPool + Resolve> Luma<W> {
    /// Look up the value a symbol stands for, through a shared reference:
    /// takes the cell's read side, and behaves as the wrapped pool's
    /// `resolve` on the state found there.
    pub fn resolve(&self, symbol: Sym<W::Symbol>) -> (r: Result<W::Value, Error>)
        requires
            self.wf(),
        ensures
            exists|p: W| p.wf() && #[trigger] resolve_post(p, symbol.wrapped_spec(), r),
    {
        let handle = self.wrapped.acquire_read();
        let wref = handle.borrow();
        let ghost p = *wref;
        let res = <W as Resolve>::resolve(wref, &symbol.wrapped);
        proof {
            assert(p.wf() && resolve_post(p, symbol.wrapped_spec(), res));
        }
        handle.release_read();
        res
    }
}

impl<W: SymPool + Len> Luma<W> {
    /// Fetch the number of values stored in the wrapped pool's table.
    pub fn len(&self) -> (r: usize)
        requires
            self.wf(),
        ensures
            exists|p: W| p.wf() && r as nat == p.table().len(),
    {
        let handle = self.wrapped.acquire_read();
        let n = handle.borrow().len();
        handle.release_read();
        n
    }

    /// Check if the wrapped pool is "empty".
    pub fn is_empty(&self) -> (r: bool)
        requires
            self.wf(),
        ensures
            exists|p: W| p.wf() && r == (p.table().len() == 0),
    {
        let handle = self.wrapped.acquire_read();
        let b = handle.borrow().is_empty();
        handle.release_read();
        b
    }

    /// Check if the wrapped pool has reached its capacity.
    pub fn is_full(&self) -> (r: bool)
        requires
            self.wf(),
        ensures
            exists|p: W| p.wf() && r == (p.table().len() >= p.cap_spec()),
    {
        let handle = self.wrapped.acquire_read();
        let b = handle.borrow().is_full();
        handle.release_read();
        b
    }
}

} // verus!
