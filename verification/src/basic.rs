//! Basic hash-based generic interner.
//!
//! [`Pool`] owns a growable table of stored values and a hash-keyed index
//! into it.  Interning computes the value's content hash key, answers an
//! existing symbol when the key is already known, and otherwise appends the
//! value and assigns the next sequential id — failing with `PoolOverflow`
//! exactly when a genuinely new value meets an exhausted id space.

use crate::error::{Error, ErrorKind};
use crate::sym::Create;
use crate::sym::Pool as SymPool;
use crate::traits::{
    intern_post, Intern, Internable, Len, Resolve, ResolveUnchecked, Symbol, SymbolId,
};
use std::collections::HashMap;
use vstd::prelude::*;

verus! {

/// Symbol type used by [`Pool`].
///
/// A symbol carries its id and the identity tag of the pool that issued it;
/// resolving it on a pool with a different tag is rejected at run time.
#[derive(Clone, Copy, Debug, PartialEq, Eq)]
pub struct Sym<I: SymbolId> {
    id: I,
    pool_id: u64,
}

impl<I: SymbolId> Symbol for Sym<I> {
    type Id = I;

    closed spec fn spec_id(&self) -> I {
        self.id
    }

    closed spec fn spec_pool_id(&self) -> u64 {
        self.pool_id
    }

    fn id(&self) -> (r: I) {
        self.id
    }

    fn id_ref(&self) -> (r: &I) {
        &self.id
    }

    fn pool_id(&self) -> (r: u64) {
        self.pool_id
    }
}

impl<I: SymbolId> Create for Sym<I> {
    fn create(id: I, pool_id: u64) -> (r: Self) {
        Sym { id, pool_id }
    }
}

/// Simple hash-based interner generic over both the type of interned
/// values and the type used to represent symbol ids.
///
/// The index maps each stored value's content hash key to its id; the key
/// stands in for full equality, so distinct values with colliding keys are
/// treated as the same value (see [`crate::traits::lemma_intern_round_trip`]).
#[derive(Clone)]
pub struct Pool<V: Internable, I: SymbolId> {
    ids_map: HashMap<u64, I>,
    lookup_vec: Vec<V>,
    pool_id: u64,
}

impl<V: Internable, I: SymbolId> Pool<V, I> {
    /// Create a new, empty `Pool` instance with the default identity tag.
    ///
    /// Pools created this way share one tag, so symbols from one such pool
    /// are accepted by another when their id happens to be in range; pools
    /// created with distinct [`Pool::with_identity`] tags reject each
    /// other's symbols.
    pub fn new() -> (r: Self)
        ensures
            r.wf(),
            r.table().len() == 0,
            r.tag_spec() == 0,
            r.cap_spec() == I::max_spec() + 1,
            forall|v: <V as View>::V| (#[trigger] r.find_spec(v)) is None,
            forall|s: Sym<I>| (#[trigger] r.resolves_spec(s)) is None,
    {
        Self::with_identity(0)
    }

    /// Create a new, empty `Pool` instance carrying the given identity tag.
    ///
    /// The tag is copied into every symbol the pool issues, and `resolve`
    /// rejects symbols whose tag differs from the pool's own.
    pub fn with_identity(identity: u64) -> (r: Self)
        ensures
            r.wf(),
            r.table().len() == 0,
            r.tag_spec() == identity,
            r.cap_spec() == I::max_spec() + 1,
            forall|v: <V as View>::V| (#[trigger] r.find_spec(v)) is None,
            forall|s: Sym<I>| (#[trigger] r.resolves_spec(s)) is None,
    {
        let r = Pool { ids_map: HashMap::new(), lookup_vec: Vec::new(), pool_id: identity };
        proof {
            assert(r.table() =~= Seq::<<V as View>::V>::empty());
        }
        r
    }

    /// Look up and return a reference to the value represented by a symbol,
    /// or an error if the symbol is unknown to this pool — because it
    /// carries another pool's identity tag or an id this pool never issued.
    pub fn resolve(&self, symbol: Sym<I>) -> (r: Result<&V, Error>)
        requires
            self.wf(),
        ensures
            match r {
                Ok(v) => self.resolves_spec(symbol) == Some(v@),
                Err(e) => e.kind_spec() == ErrorKind::NoSuchSymbol && self.resolves_spec(symbol)
                    is None,
            },
    {
        if symbol.pool_id != self.pool_id {
            return Err(Error::new(ErrorKind::NoSuchSymbol));
        }
        if !symbol.id.index_lt(self.lookup_vec.len()) {
            return Err(Error::new(ErrorKind::NoSuchSymbol));
        }
        let idx = symbol.id.to_index();
        Ok(&self.lookup_vec[idx])
    }
}

impl<V: Internable, I: SymbolId> crate::sym::Pool for Pool<V, I> {
    type Symbol = Sym<I>;

    type Value = V;

    closed spec fn wf(&self) -> bool {
        &&& self.lookup_vec@.len() <= I::max_spec() + 1
        &&& forall|k: u64| #[trigger]
            self.ids_map@.contains_key(k) ==> {
                &&& self.ids_map@[k].as_nat() < self.lookup_vec@.len()
                &&& V::key_spec(self.lookup_vec@[self.ids_map@[k].as_nat() as int]@) == k
            }
        &&& forall|i: int|
            0 <= i < self.lookup_vec@.len() ==> {
                let k = V::key_spec((#[trigger] self.lookup_vec@[i])@);
                &&& self.ids_map@.contains_key(k)
                &&& self.ids_map@[k].as_nat() == i
            }
    }

    closed spec fn tag_spec(&self) -> u64 {
        self.pool_id
    }

    open spec fn cap_spec(&self) -> nat {
        I::max_spec() + 1
    }

    closed spec fn table(&self) -> Seq<<V as View>::V> {
        self.lookup_vec@.map_values(|v: V| v@)
    }

    closed spec fn find_spec(&self, v: <V as View>::V) -> Option<Sym<I>> {
        if self.ids_map@.contains_key(V::key_spec(v)) {
            Some(Sym { id: self.ids_map@[V::key_spec(v)], pool_id: self.pool_id })
        } else {
            None
        }
    }

    closed spec fn resolves_spec(&self, s: Sym<I>) -> Option<<V as View>::V> {
        if s.pool_id == self.pool_id && s.id.as_nat() < self.table().len() {
            Some(self.table()[s.id.as_nat() as int])
        } else {
            None
        }
    }

    closed spec fn mk_sym_spec(&self, id: I) -> Sym<I> {
        Sym { id, pool_id: self.pool_id }
    }

    open spec fn always_finds(&self, v: <V as View>::V) -> bool {
        false
    }

    open spec fn fails_fast(&self) -> bool {
        false
    }

    proof fn lemma_mk_sym(&self, id: I) {
    }

    proof fn lemma_find_resolves(&self, v: <V as View>::V) {
        let k = V::key_spec(v);
        let id = self.ids_map@[k];
        assert(self.ids_map@.contains_key(k));
        let i = id.as_nat() as int;
        assert(self.table()[i] == self.lookup_vec@[i]@);
    }

    fn id(&self) -> (r: u64) {
        self.pool_id
    }

    fn create_symbol(&self, id: I) -> (r: Sym<I>) {
        Sym { id, pool_id: self.pool_id }
    }

    fn empty_pool() -> (r: Self) {
        Self::new()
    }
}

impl<V: Internable, I: SymbolId> Default for Pool<V, I> {
    /// Create a new, empty `Pool` instance with the default identity tag.
    fn default() -> (r: Self)
        ensures
            r.wf(),
            r.table().len() == 0,
            r.tag_spec() == 0,
    {
        Self::new()
    }
}

impl<V: Internable, I: SymbolId> Len for Pool<V, I> {
    /// Get the number of entries contained in the pool.
    fn len(&self) -> (r: usize) {
        self.lookup_vec.len()
    }

    /// Check if the pool is "empty", i.e. has zero stored values.
    fn is_empty(&self) -> (r: bool) {
        self.lookup_vec.len() == 0
    }

    /// Check if the number of interned symbols has reached the maximum
    /// allowed for the pool's id type: ids run from 0 to the type's
    /// maximum M, so a pool holding N entries is full exactly when
    /// N == M + 1.
    fn is_full(&self) -> (r: bool) {
        !I::index_fits(self.lookup_vec.len())
    }
}

impl<V: Internable, I: SymbolId> Intern for Pool<V, I> {
    fn intern(&mut self, value: &V) -> (r: Result<Sym<I>, Error>) {
        let k = value.key();
        let found = match self.ids_map.get(&k) {
            Some(id) => Some(*id),
            None => None,
        };
        match found {
            Some(id) => {
                proof {
                    assert(id.as_nat() < self.lookup_vec@.len());
                }
                Ok(Sym { id, pool_id: self.pool_id })
            },
            None => {
                if !I::index_fits(self.lookup_vec.len()) {
                    return Err(Error::new(ErrorKind::PoolOverflow));
                }
                let ghost pre = *self;
                let id = I::from_index(self.lookup_vec.len());
                self.lookup_vec.push(value.duplicate());
                self.ids_map.insert(k, id);
                proof {
                    lemma_pool_insert(pre, *self, *value, k, id);
                }
                Ok(Sym { id, pool_id: self.pool_id })
            },
        }
    }
}

/// The index and table updates made for a fresh value preserve the pool
/// invariant and extend the model maps as `intern`'s contract states.
proof fn lemma_pool_insert<V: Internable, I: SymbolId>(
    pre: Pool<V, I>,
    post: Pool<V, I>,
    value: V,
    k: u64,
    id: I,
)
    requires
        pre.wf(),
        !pre.ids_map@.contains_key(k),
        k == V::key_spec(value@),
        id.as_nat() == pre.lookup_vec@.len(),
        pre.lookup_vec@.len() as nat <= I::max_spec(),
        post.pool_id == pre.pool_id,
        post.lookup_vec@.len() == pre.lookup_vec@.len() + 1,
        post.lookup_vec@ =~= pre.lookup_vec@.push(post.lookup_vec@[pre.lookup_vec@.len() as int]),
        post.lookup_vec@[pre.lookup_vec@.len() as int]@ == value@,
        post.ids_map@ == pre.ids_map@.insert(k, id),
    ensures
        post.wf(),
        post.table() =~= pre.table().push(value@),
        post.find_spec(value@) == Some(Sym::<I> { id, pool_id: pre.pool_id }),
        post.resolves_spec(Sym::<I> { id, pool_id: pre.pool_id }) == Some(value@),
        forall|s0: Sym<I>|
            (#[trigger] pre.resolves_spec(s0)) is Some ==> post.resolves_spec(s0)
                == pre.resolves_spec(s0),
        forall|w: <V as View>::V|
            (#[trigger] pre.find_spec(w)) is Some ==> post.find_spec(w) == pre.find_spec(w),
{
    let n = pre.lookup_vec@.len() as int;
    assert(post.table() =~= pre.table().push(value@));
    // The invariant's per-key clause for the new state.
    assert forall|k2: u64| #[trigger] post.ids_map@.contains_key(k2) implies {
        &&& post.ids_map@[k2].as_nat() < post.lookup_vec@.len()
        &&& V::key_spec(post.lookup_vec@[post.ids_map@[k2].as_nat() as int]@) == k2
    } by {
        if k2 == k {
            assert(post.ids_map@[k2] == id);
            assert(post.lookup_vec@[n]@ == value@);
        } else {
            assert(pre.ids_map@.contains_key(k2));
            let i2 = pre.ids_map@[k2].as_nat() as int;
            assert(post.lookup_vec@[i2] == pre.lookup_vec@[i2]);
        }
    }
    // The invariant's per-entry clause for the new state.
    assert forall|i: int| 0 <= i < post.lookup_vec@.len() implies {
        let k2 = V::key_spec((#[trigger] post.lookup_vec@[i])@);
        &&& post.ids_map@.contains_key(k2)
        &&& post.ids_map@[k2].as_nat() == i
    } by {
        if i < n {
            assert(post.lookup_vec@[i] == pre.lookup_vec@[i]);
            let k2 = V::key_spec(pre.lookup_vec@[i]@);
            assert(pre.ids_map@.contains_key(k2));
            assert(k2 != k);
            assert(post.ids_map@[k2] == pre.ids_map@[k2]);
        } else {
            assert(post.lookup_vec@[i]@ == value@);
        }
    }
    // Stability of resolution: old symbols point below the old length.
    assert forall|s0: Sym<I>| (#[trigger] pre.resolves_spec(s0)) is Some implies post
        .resolves_spec(s0) == pre.resolves_spec(s0) by {
        let i = s0.id.as_nat() as int;
        assert(pre.table()[i] == post.table()[i]);
    }
    // Stability of lookup: an interned key keeps its id.
    assert forall|w: <V as View>::V| (#[trigger] pre.find_spec(w)) is Some implies post.find_spec(
        w,
    ) == pre.find_spec(w) by {
        let k2 = V::key_spec(w);
        assert(pre.ids_map@.contains_key(k2));
        assert(k2 != k);
    }
}

/// A symbol the pool currently answers for some value always carries an
/// id that indexes the stored table.
pub proof fn lemma_find_indexes_table<V: Internable, I: SymbolId>(p: &Pool<V, I>, v: <V as View>::V)
    requires
        p.wf(),
        p.find_spec(v) is Some,
    ensures
        p.find_spec(v).unwrap().spec_id().as_nat() < p.table().len(),
{
    assert(p.ids_map@.contains_key(V::key_spec(v)));
}

/// Law (overflow boundary): for an id type with maximum value M, a pool
/// that has interned M + 1 distinct values is full; interning a further
/// genuinely new value fails with `PoolOverflow`, while re-interning any
/// stored value still succeeds.
pub proof fn lemma_overflow_boundary<V: Internable, I: SymbolId>(
    pre: Pool<V, I>,
    post: Pool<V, I>,
    v: <V as View>::V,
    r: Result<Sym<I>, Error>,
)
    requires
        pre.wf(),
        pre.table().len() == I::max_spec() + 1,
        intern_post(pre, post, v, r),
    ensures
        pre.table().len() >= pre.cap_spec(),
        pre.find_spec(v) is None ==> (r matches Err(e) && e.kind_spec() == ErrorKind::PoolOverflow),
        pre.table().contains(v) ==> r is Ok,
{
    if pre.table().contains(v) {
        let i = choose|i: int| 0 <= i < pre.table().len() && pre.table()[i] == v;
        assert(pre.table()[i] == pre.lookup_vec@[i]@);
        assert(pre.ids_map@.contains_key(V::key_spec(pre.lookup_vec@[i]@)));
        assert(pre.find_spec(v) is Some);
    }
}

/// Law (cross-pool rejection): a symbol interned on a pool with one
/// identity tag stands for nothing on a pool carrying a different tag, so
/// `resolve` there reports `NoSuchSymbol` rather than silently answering
/// an unrelated value for a numerically colliding id.
pub proof fn lemma_cross_pool_rejection<V: Internable, I: SymbolId>(
    p1: Pool<V, I>,
    p1_post: Pool<V, I>,
    p2: Pool<V, I>,
    v: <V as View>::V,
    s: Sym<I>,
)
    requires
        p1.wf(),
        p2.wf(),
        p1.tag_spec() != p2.tag_spec(),
        intern_post(p1, p1_post, v, Ok(s)),
    ensures
        p2.resolves_spec(s) is None,
{
}

impl<V: Internable, I: SymbolId> Resolve for Pool<V, I> {
    fn resolve(&self, symbol: &Sym<I>) -> (r: Result<V, Error>) {
        match Pool::resolve(self, *symbol) {
            Ok(v) => Ok(v.duplicate()),
            Err(e) => Err(e),
        }
    }
}

impl<V: Internable, I: SymbolId> ResolveUnchecked for Pool<V, I> {
    /// Resolve without the tag and range checks; the caller has proved the
    /// symbol valid for this pool, so the direct table access is safe.
    fn resolve_unchecked(&self, symbol: &Sym<I>) -> (r: V) {
        let n = self.lookup_vec.len();
        proof {
            assert(symbol.id.as_nat() < self.table().len());
            assert(self.table().len() == n);
        }
        let idx = symbol.id.to_index();
        self.lookup_vec[idx].duplicate()
    }
}

} // verus!
