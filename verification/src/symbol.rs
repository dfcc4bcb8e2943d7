//! String-interning facility with copyable sixteen-byte symbols.
//!
//! This module provides a hash-based string interner that uses the
//! small-string optimization when possible: names of up to fifteen bytes
//! are packed entirely into the [`Sym`] value and never touch the pool;
//! longer names are stored in the pool under an even content key, and the
//! symbol carries that key together with the pool's identity tag.  Unlike
//! designs that tie symbols back to their pool through a raw pointer,
//! resolution here goes through the pool explicitly: [`Pool::resolve`]
//! rejects symbols that carry another pool's tag or an unknown key.

use crate::error::{Error, ErrorKind};
use crate::hashing::fnv64;
use self::private::{Inline, PackFormat, Pooled, Symbol, Type, INLINE_SYMBOL_MAX_LEN};
use std::collections::BTreeMap;
use vstd::prelude::*;
use vstd::string::StringSliceAdditionalSpecFns;
use vstd::utf8::{decode_utf8, encode_utf8, valid_utf8};

pub mod nameable;
pub mod private;
pub mod scope;

pub use self::nameable::Nameable;

verus! {

/// The content key a pooled entry with the given characters is filed
/// under: the string's hash, folded into the even numbers so that the
/// lowest bit stays free for the inline tag.
pub open spec fn pooled_key_of(s: Seq<char>) -> u64 {
    (((fnv64(encode_utf8(s)) as nat) % 0x8000_0000_0000_0000) * 2) as u64
}

/// A collection of interned strings.
///
/// Names short enough to inline never reach the pool; longer names are
/// stored once, keyed by content hash, and their symbols refer back here
/// by key and identity tag.
#[derive(Clone)]
pub struct Pool {
    map: BTreeMap<u64, String>,
    tag: u64,
}

impl Pool {
    /// Every stored entry sits under the key its content hashes to.
    pub closed spec fn wf(&self) -> bool {
        forall|k: u64| #[trigger]
            self.map@.contains_key(k) ==> k == pooled_key_of(self.map@[k]@)
    }

    /// The pool's identity tag.
    pub closed spec fn identity_spec(&self) -> u64 {
        self.tag
    }

    /// The stored entries, by content key, as character sequences.
    pub closed spec fn table_spec(&self) -> Map<u64, Seq<char>> {
        self.map@.map_values(|s: String| s@)
    }

    /// The string a symbol stands for on this pool, if any: inline
    /// symbols carry it themselves, pooled symbols must match the pool's
    /// tag and name a stored key.
    pub open spec fn resolves_spec(&self, s: Symbol) -> Option<Seq<char>> {
        if s.type_spec() == Type::INLINE {
            if s.ilen_spec() <= INLINE_SYMBOL_MAX_LEN && valid_utf8(s.ibytes_spec()) {
                Some(decode_utf8(s.ibytes_spec()))
            } else {
                None
            }
        } else {
            if s.pool_tag_spec() == self.identity_spec() && self.table_spec().contains_key(
                s.key_spec(),
            ) {
                Some(self.table_spec()[s.key_spec()])
            } else {
                None
            }
        }
    }

    /// Create a new symbol pool with the default identity tag.
    pub fn new() -> (r: Pool)
        ensures
            r.wf(),
            r.identity_spec() == 0,
            r.table_spec() == Map::<u64, Seq<char>>::empty(),
    {
        Self::with_identity(0)
    }

    /// Create a new symbol pool carrying the given identity tag; pooled
    /// symbols remember the tag, and resolution checks it.
    pub fn with_identity(identity: u64) -> (r: Pool)
        ensures
            r.wf(),
            r.identity_spec() == identity,
            r.table_spec() == Map::<u64, Seq<char>>::empty(),
    {
        let r = Pool { map: BTreeMap::new(), tag: identity };
        proof {
            assert(r.table_spec() =~= Map::<u64, Seq<char>>::empty());
        }
        r
    }

    /// Fetch the pool's identity tag.
    pub fn identity(&self) -> (r: u64)
        ensures
            r == self.identity_spec(),
    {
        self.tag
    }

    /// Fetch a symbol corresponding to the given string: packed inline
    /// when the name fits fifteen bytes, otherwise stored in the pool
    /// under its content key — deduplicated by that key, so a stored
    /// entry whose hash collides with the name answers for it.
    pub fn sym(&mut self, name: &str) -> (r: Sym)
        requires
            old(self).wf(),
        ensures
            final(self).wf(),
            final(self).identity_spec() == old(self).identity_spec(),
            name.spec_bytes().len() <= INLINE_SYMBOL_MAX_LEN ==> {
                &&& *final(self) == *old(self)
                &&& r.0.type_spec() == Type::INLINE
                &&& <Inline as PackFormat>::fits(&r.0)
                &&& r.0.ibytes_spec() == name.spec_bytes()
                &&& final(self).resolves_spec(r.0) == Some(name@)
            },
            name.spec_bytes().len() > INLINE_SYMBOL_MAX_LEN ==> {
                let key = pooled_key_of(name@);
                &&& r.0.type_spec() == Type::POOLED
                &&& r.0.key_spec() == key
                &&& r.0.pool_tag_spec() == old(self).identity_spec()
                &&& (old(self).table_spec().contains_key(key) ==> *final(self) == *old(self))
                &&& (!old(self).table_spec().contains_key(key) ==> final(self).table_spec()
                    == old(self).table_spec().insert(key, name@))
                &&& final(self).resolves_spec(r.0) is Some
                &&& pooled_key_of(final(self).resolves_spec(r.0).unwrap()) == key
                &&& (!old(self).table_spec().contains_key(key) ==> final(self).resolves_spec(r.0)
                    == Some(name@))
            },
    {
        if name.as_bytes().len() <= INLINE_SYMBOL_MAX_LEN {
            let inl = Inline::new(name);
            let packed = inl.pack();
            proof {
                private::lemma_inline_pack_view(&inl, packed);
                vstd::utf8::encode_utf8_decode_utf8(name@);
            }
            Sym(packed)
        } else {
            let h = crate::hashing::hash(name.as_bytes());
            let key = (h % 0x8000_0000_0000_0000u64) * 2;
            proof {
                assert(key % 2 == 0) by (nonlinear_arith)
                    requires
                        key == (h as nat % 0x8000_0000_0000_0000) * 2,
                ;
            }
            let ghost pre = *self;
            if !self.map.contains_key(&key) {
                self.map.insert(key, name.to_owned());
                proof {
                    assert(self.table_spec() =~= pre.table_spec().insert(key, name@));
                }
            }
            let pooled = Pooled::new(key, self);
            let packed = pooled.pack();
            proof {
                private::lemma_pooled_pack_view(&pooled, packed);
            }
            Sym(packed)
        }
    }

    /// Look up and return the string a symbol stands for, or an error if
    /// the symbol is malformed, carries another pool's tag, or names an
    /// unknown key.
    pub fn resolve(&self, symbol: &Sym) -> (r: Result<String, Error>)
        requires
            self.wf(),
        ensures
            match r {
                Ok(out) => self.resolves_spec(symbol.0) == Some(out@),
                Err(e) => e.kind_spec() == ErrorKind::NoSuchSymbol && self.resolves_spec(symbol.0)
                    is None,
            },
    {
        match symbol.0.inline_str() {
            Some(out) => Ok(out),
            None => {
                if symbol.0.type_of() == Type::INLINE {
                    return Err(Error::new(ErrorKind::NoSuchSymbol));
                }
                if symbol.0.pool_tag() != self.tag {
                    return Err(Error::new(ErrorKind::NoSuchSymbol));
                }
                let k = symbol.0.key();
                match self.map.get(&k) {
                    Some(entry) => Ok(entry.as_str().to_owned()),
                    None => Err(Error::new(ErrorKind::NoSuchSymbol)),
                }
            },
        }
    }
}

/// Law (dedup idempotence for inline names): `sym` answers a name short
/// enough to inline with the symbol recording exactly the name's bytes,
/// and nothing else, so repeated calls with one name yield equal symbols
/// — here even across pools, since inline symbols carry no pool state.
pub proof fn lemma_inline_sym_deterministic(a: Sym, b: Sym, bytes: Seq<u8>)
    requires
        <Inline as PackFormat>::fits(&a.0),
        <Inline as PackFormat>::fits(&b.0),
        a.0.ibytes_spec() == bytes,
        b.0.ibytes_spec() == bytes,
    ensures
        a == b,
{
    private::lemma_inline_symbol_determined(a.0, b.0);
}

/// Law (dedup idempotence for pooled names): `sym` answers a name too
/// long to inline with the symbol made of the name's content key and the
/// pool's identity tag, and nothing else, so repeated calls with one name
/// on one pool — or on any pools sharing an identity — yield equal
/// symbols.
pub proof fn lemma_sym_deterministic(a: Sym, b: Sym, name: Seq<char>, identity: u64)
    requires
        a.0.key_spec() == pooled_key_of(name),
        a.0.pool_tag_spec() == identity,
        b.0.key_spec() == pooled_key_of(name),
        b.0.pool_tag_spec() == identity,
    ensures
        a == b,
{
    private::lemma_symbol_words_determine(a.0, b.0);
}

impl Default for Pool {
    /// Create a new, empty symbol pool.
    fn default() -> (r: Self)
        ensures
            r.wf(),
            r.identity_spec() == 0,
            r.table_spec() == Map::<u64, Seq<char>>::empty(),
    {
        Self::new()
    }
}

/// Symbol obtained from a symbol pool.
///
/// Instances of `Sym` are created with [`Pool::sym`].  They are small and
/// copyable; two symbols compare equal exactly when their sixteen bytes
/// agree.
#[derive(Clone, Copy, Debug, PartialEq, Eq, Structural)]
pub struct Sym(pub Symbol);

} // verus!
