//! Traits that define the interface shared by all interner implementations.
//!
//! An interner maps values to *symbols*: cheap, copyable stand-ins that can
//! later be resolved back into the value they were created from.  The traits
//! here split that contract into capabilities — [`Intern`], [`Resolve`],
//! [`ResolveUnchecked`] and [`Len`] — so that adaptors can wrap any interner
//! that provides the capabilities they need.
//!
//! Every capability trait extends the model trait [`crate::sym::Pool`],
//! which describes a pool's abstract state: its stored table, its capacity,
//! its identity tag, and the relations `find_spec` (which symbol a value
//! currently maps to) and `resolves_spec` (which value a symbol stands for).
//! The contracts [`intern_post`] and [`resolve_post`] are stated once, over
//! that model, and hold for the base pool and for every adaptor stack.

use crate::error::{Error, ErrorKind};
use crate::hashing::fnv64;
use crate::packing::{le_bytes8, u64_to_le_bytes};
use vstd::prelude::*;

verus! {

/// Contract for the primitive unsigned types that can serve as a symbol's
/// internal id: they expose their maximum value and convert to and from
/// table indices.
pub trait SymbolId: Sized + Copy {
    /// The largest value the id type can represent.
    spec fn max_spec() -> nat;

    /// The numeric value of this id.
    spec fn as_nat(self) -> nat;

    /// The id with the given numeric value.
    spec fn from_nat_spec(n: nat) -> Self;

    /// `from_nat_spec` inverts `as_nat` on representable values.
    proof fn lemma_from_nat(n: nat)
        requires
            n <= Self::max_spec(),
        ensures
            Self::from_nat_spec(n).as_nat() == n,
    ;

    /// Ids never exceed the type's maximum.
    proof fn lemma_id_bound(self)
        ensures
            self.as_nat() <= Self::max_spec(),
    ;

    /// Ids with the same numeric value are the same id.
    proof fn lemma_id_injective(a: Self, b: Self)
        requires
            a.as_nat() == b.as_nat(),
        ensures
            a == b,
    ;

    /// The largest value of the id type.
    fn max_value() -> (r: Self)
        ensures
            r.as_nat() == Self::max_spec(),
    ;

    /// Convert a table index into an id; the index must be representable.
    fn from_index(i: usize) -> (r: Self)
        requires
            i as nat <= Self::max_spec(),
        ensures
            r.as_nat() == i as nat,
    ;

    /// Convert this id back into a table index.
    fn to_index(self) -> (r: usize)
        requires
            self.as_nat() <= usize::MAX as nat,
        ensures
            r as nat == self.as_nat(),
    ;

    /// Compare this id against a table length.
    fn index_lt(self, n: usize) -> (r: bool)
        ensures
            r == (self.as_nat() < n as nat),
    ;

    /// Compare this id against a table length, non-strictly.
    fn le_index(self, n: usize) -> (r: bool)
        ensures
            r == (self.as_nat() <= n as nat),
    ;

    /// Whether a table index is representable as an id.
    fn index_fits(i: usize) -> (r: bool)
        ensures
            r == (i as nat <= Self::max_spec()),
    ;
}

impl SymbolId for u8 {
    open spec fn max_spec() -> nat {
        u8::MAX as nat
    }

    open spec fn as_nat(self) -> nat {
        self as nat
    }

    open spec fn from_nat_spec(n: nat) -> Self {
        n as u8
    }

    proof fn lemma_from_nat(n: nat) {
    }

    proof fn lemma_id_bound(self) {
    }

    proof fn lemma_id_injective(a: Self, b: Self) {
    }

    fn max_value() -> (r: Self) {
        u8::MAX
    }

    fn from_index(i: usize) -> (r: Self) {
        i as u8
    }

    fn to_index(self) -> (r: usize) {
        self as usize
    }

    fn index_lt(self, n: usize) -> (r: bool) {
        (self as usize) < n
    }

    fn le_index(self, n: usize) -> (r: bool) {
        (self as usize) <= n
    }

    fn index_fits(i: usize) -> (r: bool) {
        i <= u8::MAX as usize
    }
}

impl SymbolId for u16 {
    open spec fn max_spec() -> nat {
        u16::MAX as nat
    }

    open spec fn as_nat(self) -> nat {
        self as nat
    }

    open spec fn from_nat_spec(n: nat) -> Self {
        n as u16
    }

    proof fn lemma_from_nat(n: nat) {
    }

    proof fn lemma_id_bound(self) {
    }

    proof fn lemma_id_injective(a: Self, b: Self) {
    }

    fn max_value() -> (r: Self) {
        u16::MAX
    }

    fn from_index(i: usize) -> (r: Self) {
        i as u16
    }

    fn to_index(self) -> (r: usize) {
        self as usize
    }

    fn index_lt(self, n: usize) -> (r: bool) {
        (self as usize) < n
    }

    fn le_index(self, n: usize) -> (r: bool) {
        (self as usize) <= n
    }

    fn index_fits(i: usize) -> (r: bool) {
        i <= u16::MAX as usize
    }
}

impl SymbolId for u32 {
    open spec fn max_spec() -> nat {
        u32::MAX as nat
    }

    open spec fn as_nat(self) -> nat {
        self as nat
    }

    open spec fn from_nat_spec(n: nat) -> Self {
        n as u32
    }

    proof fn lemma_from_nat(n: nat) {
    }

    proof fn lemma_id_bound(self) {
    }

    proof fn lemma_id_injective(a: Self, b: Self) {
    }

    fn max_value() -> (r: Self) {
        u32::MAX
    }

    fn from_index(i: usize) -> (r: Self) {
        i as u32
    }

    fn to_index(self) -> (r: usize) {
        self as usize
    }

    fn index_lt(self, n: usize) -> (r: bool) {
        (self as usize) < n
    }

    fn le_index(self, n: usize) -> (r: bool) {
        (self as usize) <= n
    }

    fn index_fits(i: usize) -> (r: bool) {
        i <= u32::MAX as usize
    }
}

impl SymbolId for u64 {
    open spec fn max_spec() -> nat {
        u64::MAX as nat
    }

    open spec fn as_nat(self) -> nat {
        self as nat
    }

    open spec fn from_nat_spec(n: nat) -> Self {
        n as u64
    }

    proof fn lemma_from_nat(n: nat) {
    }

    proof fn lemma_id_bound(self) {
    }

    proof fn lemma_id_injective(a: Self, b: Self) {
    }

    fn max_value() -> (r: Self) {
        u64::MAX
    }

    fn from_index(i: usize) -> (r: Self) {
        i as u64
    }

    fn to_index(self) -> (r: usize) {
        self as usize
    }

    fn index_lt(self, n: usize) -> (r: bool) {
        self < (n as u64)
    }

    fn le_index(self, n: usize) -> (r: bool) {
        self <= (n as u64)
    }

    fn index_fits(_i: usize) -> (r: bool) {
        true
    }
}

impl SymbolId for usize {
    open spec fn max_spec() -> nat {
        usize::MAX as nat
    }

    open spec fn as_nat(self) -> nat {
        self as nat
    }

    open spec fn from_nat_spec(n: nat) -> Self {
        n as usize
    }

    proof fn lemma_from_nat(n: nat) {
    }

    proof fn lemma_id_bound(self) {
    }

    proof fn lemma_id_injective(a: Self, b: Self) {
    }

    fn max_value() -> (r: Self) {
        usize::MAX
    }

    fn from_index(i: usize) -> (r: Self) {
        i
    }

    fn to_index(self) -> (r: usize) {
        self
    }

    fn index_lt(self, n: usize) -> (r: bool) {
        self < n
    }

    fn le_index(self, n: usize) -> (r: bool) {
        self <= n
    }

    fn index_fits(_i: usize) -> (r: bool) {
        true
    }
}

/// Contract for symbol (interned stand-in value) types: a symbol carries an
/// id and the identity tag of the pool that issued it.
pub trait Symbol: Sized + Copy {
    /// Primitive type underlying the symbol implementation.
    type Id: SymbolId;

    /// The symbol's id.
    spec fn spec_id(&self) -> Self::Id;

    /// The identity tag of the pool the symbol belongs to.
    spec fn spec_pool_id(&self) -> u64;

    /// Fetch the symbol's id by value.
    fn id(&self) -> (r: Self::Id)
        ensures
            r == self.spec_id(),
    ;

    /// Fetch a reference to the symbol's id.
    fn id_ref(&self) -> (r: &Self::Id)
        ensures
            *r == self.spec_id(),
    ;

    /// Fetch the identity tag of the pool the symbol belongs to.
    fn pool_id(&self) -> (r: u64)
        ensures
            r == self.spec_pool_id(),
    ;
}

/// Contract for the values a pool can intern: a value has a content hash
/// key, determined by its view alone, and can be copied for storage.
pub trait Internable: Sized + View {
    /// The content hash key of a value with the given view.
    spec fn key_spec(v: Self::V) -> u64;

    /// Compute the value's content hash key.
    fn key(&self) -> (r: u64)
        ensures
            r == Self::key_spec(self@),
    ;

    /// Make an owned copy of the value for storage in a pool.
    fn duplicate(&self) -> (r: Self)
        ensures
            r@ == self@,
    ;
}

impl Internable for String {
    open spec fn key_spec(v: Seq<char>) -> u64 {
        fnv64(vstd::utf8::encode_utf8(v))
    }

    fn key(&self) -> (r: u64) {
        crate::hashing::hash(self.as_str().as_bytes())
    }

    fn duplicate(&self) -> (r: Self) {
        self.as_str().to_owned()
    }
}

impl Internable for u64 {
    open spec fn key_spec(v: u64) -> u64 {
        fnv64(le_bytes8(v))
    }

    fn key(&self) -> (r: u64) {
        let bytes = u64_to_le_bytes(*self);
        crate::hashing::hash(bytes.as_slice())
    }

    fn duplicate(&self) -> (r: Self) {
        *self
    }
}

impl Internable for u32 {
    open spec fn key_spec(v: u32) -> u64 {
        fnv64(le_bytes8(v as u64))
    }

    fn key(&self) -> (r: u64) {
        let bytes = u64_to_le_bytes(*self as u64);
        crate::hashing::hash(bytes.as_slice())
    }

    fn duplicate(&self) -> (r: Self) {
        *self
    }
}

impl Internable for u16 {
    open spec fn key_spec(v: u16) -> u64 {
        fnv64(le_bytes8(v as u64))
    }

    fn key(&self) -> (r: u64) {
        let bytes = u64_to_le_bytes(*self as u64);
        crate::hashing::hash(bytes.as_slice())
    }

    fn duplicate(&self) -> (r: Self) {
        *self
    }
}

/// What a successful or failed `intern` call promises, stated over the
/// pool model: an already-known value is answered by its existing symbol
/// with the pool untouched; a fresh value is appended to the table and its
/// new symbol resolves to it; overflow is reported exactly when a fresh
/// value meets a full table.  Symbols and associations already issued are
/// never invalidated.
pub open spec fn intern_post<P: crate::sym::Pool>(
    pre: P,
    post: P,
    v: <P::Value as View>::V,
    r: Result<P::Symbol, Error>,
) -> bool {
    &&& post.tag_spec() == pre.tag_spec()
    &&& post.cap_spec() == pre.cap_spec()
    &&& match r {
        Ok(s) => {
            &&& match pre.find_spec(v) {
                Some(s0) => s == s0 && post == pre,
                None => {
                    &&& pre.table().len() < pre.cap_spec()
                    &&& post.table() == pre.table().push(v)
                    &&& s.spec_id().as_nat() == pre.table().len()
                    &&& post.resolves_spec(s) == Some(v)
                },
            }
            &&& s.spec_pool_id() == pre.tag_spec()
            &&& post.find_spec(v) == Some(s)
        },
        Err(e) => {
            &&& e.kind_spec() == ErrorKind::PoolOverflow
            &&& post == pre
            &&& pre.table().len() >= pre.cap_spec()
            &&& !pre.always_finds(v)
            &&& (pre.fails_fast() || pre.find_spec(v) is None)
        },
    }
    &&& pre.table().len() < pre.cap_spec() ==> r is Ok
    &&& forall|id: <P::Symbol as Symbol>::Id| #[trigger]
        post.mk_sym_spec(id) == pre.mk_sym_spec(id)
    &&& forall|s0: P::Symbol|
        (#[trigger] pre.resolves_spec(s0)) is Some ==> post.resolves_spec(s0)
            == pre.resolves_spec(s0)
    &&& forall|w: <P::Value as View>::V|
        (#[trigger] pre.find_spec(w)) is Some ==> post.find_spec(w) == pre.find_spec(w)
}

/// What `resolve` promises: success returns exactly the value the symbol
/// stands for in this pool, and failure reports `NoSuchSymbol` exactly when
/// the symbol stands for nothing here.
pub open spec fn resolve_post<P: crate::sym::Pool>(
    p: P,
    s: P::Symbol,
    r: Result<P::Value, Error>,
) -> bool {
    match r {
        Ok(v) => p.resolves_spec(s) == Some(v@),
        Err(e) => e.kind_spec() == ErrorKind::NoSuchSymbol && p.resolves_spec(s) is None,
    }
}

/// Primary interface for interner implementations.
pub trait Intern: crate::sym::Pool {
    /// Fetch the symbol that corresponds to the given value, interning the
    /// value first if it is new.  Fails only when a genuinely new value
    /// meets an exhausted id space.
    fn intern(&mut self, value: &Self::Value) -> (r: Result<Self::Symbol, Error>)
        requires
            old(self).wf(),
        ensures
            final(self).wf(),
            intern_post(*old(self), *final(self), value@, r),
    ;
}

/// Interface for interners that can resolve a symbol into an owned copy of
/// its referent.
pub trait Resolve: crate::sym::Pool {
    /// Look up the value represented by a symbol, or fail with
    /// `NoSuchSymbol` if this pool does not know the symbol.
    fn resolve(&self, symbol: &Self::Symbol) -> (r: Result<Self::Value, Error>)
        requires
            self.wf(),
        ensures
            resolve_post(*self, *symbol, r),
    ;
}

/// Interface for resolvers that provide faster symbol resolution by letting
/// the caller discharge the validity checks beforehand.
pub trait ResolveUnchecked: crate::sym::Pool {
    /// Resolve the given symbol into its referent, bypassing the runtime
    /// validity checks; the caller must prove the symbol valid here.
    fn resolve_unchecked(&self, symbol: &Self::Symbol) -> (r: Self::Value)
        requires
            self.wf(),
            self.resolves_spec(*symbol) is Some,
        ensures
            Some(r@) == self.resolves_spec(*symbol),
    ;
}

/// Trait for interners that can report the number of values they contain.
pub trait Len: crate::sym::Pool {
    /// Fetch the number of values stored in the interner's table.  Values
    /// kept inside symbols themselves (inlined values) are not stored and
    /// are therefore not counted.
    fn len(&self) -> (r: usize)
        requires
            self.wf(),
        ensures
            r as nat == self.table().len(),
    ;

    /// Check if the interner is "empty", i.e. has zero stored values.
    fn is_empty(&self) -> (r: bool)
        requires
            self.wf(),
        ensures
            r == (self.table().len() == 0),
    ;

    /// Check if the number of stored values has reached the maximum allowed.
    fn is_full(&self) -> (r: bool)
        requires
            self.wf(),
        ensures
            r == (self.table().len() >= self.cap_spec()),
    ;
}

/// Law (dedup idempotence): interning a value again right after a
/// successful intern of that value returns the very same symbol and leaves
/// the pool untouched, so any number of interns of one value grows the
/// table at most once.  A fail-fast adaptor may instead report overflow at
/// the capacity boundary; whenever the second call returns a symbol at
/// all, it is the first call's symbol.
pub proof fn lemma_intern_idempotent<P: crate::sym::Pool>(
    p0: P,
    p1: P,
    p2: P,
    v: <P::Value as View>::V,
    s1: P::Symbol,
    r2: Result<P::Symbol, Error>,
)
    requires
        intern_post(p0, p1, v, Ok(s1)),
        intern_post(p1, p2, v, r2),
    ensures
        r2 is Ok ==> r2 == Result::<P::Symbol, Error>::Ok(s1) && p2 == p1,
        !p1.fails_fast() ==> r2 == Result::<P::Symbol, Error>::Ok(s1) && p2 == p1,
        p2.table().len() <= p0.table().len() + 1,
{
    assert(p1.find_spec(v) == Some(s1));
}

/// Law (round trip): a symbol obtained by interning `v` resolves back to
/// `v`, provided no distinct stored value shares `v`'s content hash key.
/// The hash key stands in for full equality (deduplication is by key), so
/// a colliding distinct value would be answered by the earlier value's
/// symbol; no concrete 64-bit collision is known, but nothing rules one
/// out.
pub proof fn lemma_intern_round_trip<P: crate::sym::Pool>(
    pre: P,
    post: P,
    v: <P::Value as View>::V,
    s: P::Symbol,
)
    requires
        pre.wf(),
        intern_post(pre, post, v, Ok(s)),
        forall|w: <P::Value as View>::V|
            pre.table().contains(w) && #[trigger] <P::Value as Internable>::key_spec(w)
                == <P::Value as Internable>::key_spec(v) ==> w == v,
    ensures
        post.resolves_spec(s) == Some(v),
{
    if pre.find_spec(v) is Some {
        pre.lemma_find_resolves(v);
        let w = pre.resolves_spec(s).unwrap();
        if w != v {
            assert(pre.table().contains(w));
        }
    }
}

} // verus!
