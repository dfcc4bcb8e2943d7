//! Interner adaptor that uses the short-string optimization.
//!
//! [`Inline`] encodes any string whose UTF-8 form is *shorter* than the
//! symbol-id type directly inside the symbol: the id's most significant
//! byte holds the byte length with the top bit set as the inline tag, and
//! the remaining bytes hold the string itself, zero-padded.  Strings of the
//! same or greater size are passed to the wrapped interner, whose table
//! indices never reach the tag boundary, so the tag check is unambiguous.
//! The cost is capacity: one bit of the id marks inlining, which halves the
//! number of addressable table slots.

use crate::error::{Error, ErrorKind};
use crate::packing::{
    byte_factor, bytes_to_string, le_byte, le_byte_of, le_val, lemma_le_byte_high,
    lemma_le_byte_of_le_val, lemma_le_top, lemma_le_val_bound, u64_from_le_bytes,
};
use crate::sym::Pool as SymPool;
use crate::traits::{intern_post, Intern, Len, Resolve, Symbol, SymbolId};
use vstd::arithmetic::div_mod::{lemma_div_is_ordered, lemma_div_multiples_vanish};
use vstd::arithmetic::mul::lemma_mul_inequality;
use vstd::arithmetic::power2::{
    lemma2_to64, lemma2_to64_rest, lemma_pow2_adds, lemma_pow2_pos, lemma_pow2_strictly_increases,
    pow2,
};
use vstd::prelude::*;
use vstd::string::StringSliceAdditionalSpecFns;
use vstd::utf8::{decode_utf8, encode_utf8, valid_utf8};

verus! {

/// The numeric value of an id that inlines the given bytes, for an
/// `n`-byte id type: the bytes as little-endian digits, with the top byte
/// holding the length tagged by the high bit.
pub open spec fn packed_val(bytes: Seq<u8>, n: nat) -> nat
    recommends
        1 <= n,
{
    le_val(bytes) + (bytes.len() + 128) * pow2(8 * ((n - 1) as nat))
}

/// The inlined length recorded in `v`'s top byte, for an `n`-byte id type.
pub open spec fn unpacked_len(v: nat, n: nat) -> nat
    recommends
        1 <= n,
{
    (v / pow2(8 * ((n - 1) as nat)) - 128) as nat
}

/// The inlined bytes recorded in `v`, for an `n`-byte id type.
pub open spec fn unpacked_bytes(v: nat, n: nat) -> Seq<u8>
    recommends
        1 <= n,
{
    Seq::new(unpacked_len(v, n) as nat, |i: int| le_byte(v, i as nat))
}

/// Whether an id value carries the inline tag: its most significant bit
/// is set.
pub open spec fn is_inlined_spec<T: Pack>(v: T) -> bool {
    v.as_nat() >= pow2((8 * T::width() - 1) as nat)
}

/// The string, if any, that an inline-tagged id stands for by itself:
/// its recorded bytes decoded as UTF-8.
pub open spec fn inline_resolution<T: Pack>(id: T) -> Option<Seq<char>> {
    let n = T::width();
    if is_inlined_spec(id) && unpacked_len(id.as_nat(), n) < n && valid_utf8(
        unpacked_bytes(id.as_nat(), n),
    ) {
        Some(decode_utf8(unpacked_bytes(id.as_nat(), n)))
    } else {
        None
    }
}

/// Half the id type's value range: the first id value with the tag bit
/// set, and the number of table slots left to the wrapped pool.
pub open spec fn half_cap<T: Pack>() -> nat {
    pow2((8 * T::width() - 1) as nat)
}

/// Packing bytes shorter than the id width yields an inline-tagged value
/// below the type's range from which the length and the bytes read back
/// exactly.
pub proof fn lemma_packed_val_props(b: Seq<u8>, n: nat)
    requires
        b.len() < n,
        2 <= n <= 8,
    ensures
        packed_val(b, n) >= pow2((8 * n - 1) as nat),
        packed_val(b, n) < pow2(8 * n),
        unpacked_len(packed_val(b, n), n) == b.len(),
        unpacked_bytes(packed_val(b, n), n) =~= b,
{
    let m = (n - 1) as nat;
    let p = pow2(8 * m);
    let top = (b.len() + 128) as nat;
    let v = packed_val(b, n);
    lemma_pow2_pos(8 * m);
    lemma_le_val_bound(b);
    if 8 * b.len() < 8 * m {
        lemma_pow2_strictly_increases(8 * b.len(), 8 * m);
    }
    assert(le_val(b) < p);
    // Lower bound: the top byte is at least 128.
    lemma_pow2_adds(7, 8 * m);
    lemma2_to64();
    assert(pow2((8 * n - 1) as nat) == 128 * p);
    lemma_mul_inequality(128, top as int, p as int);
    // Upper bound: the top byte is at most 135.
    lemma_pow2_adds(8, 8 * m);
    assert(pow2(8 * n) == 256 * p);
    lemma_mul_inequality(top as int, 135, p as int);
    assert(v < 256 * p);
    // The top byte reads back as the length.
    lemma_le_top(le_val(b), top, m);
    assert(v / p == top);
    // Each stored byte reads back unchanged.
    assert forall|i: int| 0 <= i < b.len() implies unpacked_bytes(v, n)[i] == b[i] by {
        lemma_le_byte_high(le_val(b), top, m, i as nat);
        lemma_le_byte_of_le_val(b, i as nat);
    }
}

/// Interface used to pack strings into symbol ids.  An implementation
/// stores the inlined string's length in the most significant byte of the
/// implementing type, with the byte's top bit set as the inline tag.
pub trait Pack: SymbolId {
    /// The width of the id type in bytes.
    spec fn width() -> nat;

    /// The id type's range is exactly its width in bytes.
    proof fn lemma_width()
        ensures
            2 <= Self::width() <= 8,
            Self::max_spec() + 1 == pow2(8 * Self::width()),
    ;

    /// Get a mask for the most-significant bit in the implementor.
    fn msb_mask() -> (r: Self)
        ensures
            r.as_nat() == pow2((8 * Self::width() - 1) as nat),
    ;

    /// Check if the value contains an inlined string slice.
    fn is_inlined(&self) -> (r: bool)
        ensures
            r == (self.as_nat() >= pow2((8 * Self::width() - 1) as nat)),
    ;

    /// Pack a string slice into an instance of the implementing type,
    /// returning `Some(packed_value)`, or `None` if the slice is too long.
    fn pack(s: &str) -> (r: Option<Self>)
        ensures
            match r {
                Some(id) => s.spec_bytes().len() < Self::width() && id.as_nat() == packed_val(
                    s.spec_bytes(),
                    Self::width(),
                ),
                None => s.spec_bytes().len() >= Self::width(),
            },
    ;

    /// Fetch the inlined string, if this value carries a valid one.
    fn get_packed_ref(&self) -> (r: Option<String>)
        ensures
            match r {
                Some(out) => {
                    &&& self.as_nat() >= pow2((8 * Self::width() - 1) as nat)
                    &&& unpacked_len(self.as_nat(), Self::width()) < Self::width()
                    &&& valid_utf8(unpacked_bytes(self.as_nat(), Self::width()))
                    &&& out@ == decode_utf8(unpacked_bytes(self.as_nat(), Self::width()))
                },
                None => {
                    ||| self.as_nat() < pow2((8 * Self::width() - 1) as nat)
                    ||| unpacked_len(self.as_nat(), Self::width()) >= Self::width()
                    ||| !valid_utf8(unpacked_bytes(self.as_nat(), Self::width()))
                },
            },
    ;
}

/// Pack a string's bytes into the low `n` bytes of a `u64`, top byte
/// holding the tagged length.
fn pack_u64(s: &str, n: usize) -> (r: Option<u64>)
    requires
        2 <= n <= 8,
    ensures
        match r {
            Some(v) => s.spec_bytes().len() < n && v as nat == packed_val(
                s.spec_bytes(),
                n as nat,
            ),
            None => s.spec_bytes().len() >= n,
        },
{
    let bytes = s.as_bytes();
    let len = bytes.len();
    if len >= n {
        return None;
    }
    let low = u64_from_le_bytes(bytes);
    let f = byte_factor(n - 1);
    proof {
        let m = (n - 1) as nat;
        lemma_pow2_pos(8 * m);
        lemma_le_val_bound(bytes@);
        if 8 * (len as nat) < 8 * m {
            lemma_pow2_strictly_increases(8 * (len as nat), 8 * m);
        }
        if 8 * m < 56 {
            lemma_pow2_strictly_increases(8 * m, 56);
        }
        lemma2_to64();
        lemma2_to64_rest();
        assert((len + 128) * f <= 135 * pow2(56)) by (nonlinear_arith)
            requires
                len + 128 <= 135,
                0 < f <= pow2(56),
                pow2(56) > 0,
        ;
    }
    Some(low + (len as u64 + 128) * f)
}

/// Read back the string inlined in `v`, if `v` carries the inline tag, a
/// length within the id width, and valid UTF-8 bytes.
fn unpack_u64(v: u64, n: usize) -> (r: Option<String>)
    requires
        2 <= n <= 8,
    ensures
        match r {
            Some(out) => {
                &&& (v as nat) >= pow2((8 * n - 1) as nat)
                &&& unpacked_len(v as nat, n as nat) < n as nat
                &&& valid_utf8(unpacked_bytes(v as nat, n as nat))
                &&& encode_utf8(out@) =~= unpacked_bytes(v as nat, n as nat)
            },
            None => {
                ||| (v as nat) < pow2((8 * n - 1) as nat)
                ||| unpacked_len(v as nat, n as nat) >= n as nat
                ||| !valid_utf8(unpacked_bytes(v as nat, n as nat))
            },
        },
{
    let f = byte_factor(n - 1);
    proof {
        let m = (n - 1) as nat;
        lemma_pow2_pos(8 * m);
        lemma_pow2_adds(7, 8 * m);
        lemma2_to64();
        lemma2_to64_rest();
        if 8 * m < 56 {
            lemma_pow2_strictly_increases(8 * m, 56);
        }
        assert(128 * f <= 128 * pow2(56)) by (nonlinear_arith)
            requires
                0 < f <= pow2(56),
        ;
    }
    let mask = 128u64 * f;
    if v < mask {
        return None;
    }
    proof {
        lemma_div_is_ordered(mask as int, v as int, f as int);
        lemma_div_multiples_vanish(128, f as int);
        assert(f as int * 128 == 128 * f as int) by (nonlinear_arith);
    }
    let top = v / f;
    let len64 = top - 128;
    if len64 >= n as u64 {
        return None;
    }
    let len = len64 as usize;
    let mut bytes: Vec<u8> = Vec::new();
    let mut i: usize = 0;
    while i < len
        invariant
            i <= len,
            len < n <= 8,
            (v as nat) >= pow2((8 * n - 1) as nat),
            bytes@.len() == i,
            forall|j: int| 0 <= j < i ==> bytes@[j] == le_byte(v as nat, j as nat),
        decreases len - i,
    {
        let b = le_byte_of(v, i);
        bytes.push(b);
        i = i + 1;
    }
    proof {
        assert(bytes@ =~= unpacked_bytes(v as nat, n as nat));
    }
    bytes_to_string(bytes)
}

impl Pack for u16 {
    open spec fn width() -> nat {
        2
    }

    proof fn lemma_width() {
        lemma2_to64();
    }

    fn msb_mask() -> (r: Self) {
        proof {
            lemma2_to64();
        }
        0x8000u16
    }

    fn is_inlined(&self) -> (r: bool) {
        proof {
            lemma2_to64();
        }
        *self >= 0x8000u16
    }

    fn pack(s: &str) -> (r: Option<Self>) {
        match pack_u64(s, 2) {
            Some(v) => {
                proof {
                    lemma_packed_val_props(s.spec_bytes(), 2);
                    lemma2_to64();
                }
                Some(v as u16)
            },
            None => None,
        }
    }

    fn get_packed_ref(&self) -> (r: Option<String>) {
        let out = unpack_u64(*self as u64, 2);
        proof {
            lemma2_to64();
            if out is Some {
                let ub = unpacked_bytes(*self as nat, 2);
                vstd::utf8::encode_utf8_decode_utf8(out.unwrap()@);
            }
        }
        out
    }
}

impl Pack for u32 {
    open spec fn width() -> nat {
        4
    }

    proof fn lemma_width() {
        lemma2_to64();
    }

    fn msb_mask() -> (r: Self) {
        proof {
            lemma2_to64();
        }
        0x8000_0000u32
    }

    fn is_inlined(&self) -> (r: bool) {
        proof {
            lemma2_to64();
        }
        *self >= 0x8000_0000u32
    }

    fn pack(s: &str) -> (r: Option<Self>) {
        match pack_u64(s, 4) {
            Some(v) => {
                proof {
                    lemma_packed_val_props(s.spec_bytes(), 4);
                    lemma2_to64();
                }
                Some(v as u32)
            },
            None => None,
        }
    }

    fn get_packed_ref(&self) -> (r: Option<String>) {
        let out = unpack_u64(*self as u64, 4);
        proof {
            lemma2_to64();
            if out is Some {
                vstd::utf8::encode_utf8_decode_utf8(out.unwrap()@);
            }
        }
        out
    }
}

impl Pack for u64 {
    open spec fn width() -> nat {
        8
    }

    proof fn lemma_width() {
        lemma2_to64_rest();
    }

    fn msb_mask() -> (r: Self) {
        proof {
            lemma2_to64_rest();
        }
        0x8000_0000_0000_0000u64
    }

    fn is_inlined(&self) -> (r: bool) {
        proof {
            lemma2_to64_rest();
        }
        *self >= 0x8000_0000_0000_0000u64
    }

    fn pack(s: &str) -> (r: Option<Self>) {
        pack_u64(s, 8)
    }

    fn get_packed_ref(&self) -> (r: Option<String>) {
        let out = unpack_u64(*self, 8);
        proof {
            if out is Some {
                vstd::utf8::encode_utf8_decode_utf8(out.unwrap()@);
            }
        }
        out
    }
}

/// Pools the inline adaptor can wrap: string pools whose lookup answers
/// for values too long to inline always index the stored table, so their
/// ids never collide with the inline tag.
pub trait Backing: SymPool<Value = String> where <Self::Symbol as Symbol>::Id: Pack {
    /// For a value at least as long as the id width, a found symbol's id
    /// indexes the stored table.
    proof fn lemma_find_low(&self, v: Seq<char>)
        requires
            self.wf(),
            self.find_spec(v) is Some,
            encode_utf8(v).len() >= <<Self::Symbol as Symbol>::Id as Pack>::width(),
        ensures
            self.find_spec(v).unwrap().spec_id().as_nat() < self.table().len(),
    ;
}

impl<I: SymbolId + Pack> Backing for crate::basic::Pool<String, I> {
    proof fn lemma_find_low(&self, v: Seq<char>) {
        crate::basic::lemma_find_indexes_table(self, v);
    }
}

/// Symbol type used by the [`Inline`] adaptor: the wrapped pool's symbol,
/// whose id may carry an inlined string instead of a table index.
#[derive(Clone, Copy, Debug, PartialEq, Eq)]
pub struct Sym<S> {
    pub(crate) wrapped: S,
}

impl<S: Symbol> Symbol for Sym<S> {
    type Id = S::Id;

    closed spec fn spec_id(&self) -> S::Id {
        self.wrapped.spec_id()
    }

    closed spec fn spec_pool_id(&self) -> u64 {
        self.wrapped.spec_pool_id()
    }

    fn id(&self) -> (r: S::Id) {
        self.wrapped.id()
    }

    fn id_ref(&self) -> (r: &S::Id) {
        self.wrapped.id_ref()
    }

    fn pool_id(&self) -> (r: u64) {
        self.wrapped.pool_id()
    }
}

impl<S: Symbol> Sym<S> {
    /// Wrap a symbol of the underlying pool.
    pub fn from(s: S) -> (r: Self)
        ensures
            r.spec_id() == s.spec_id(),
            r.spec_pool_id() == s.spec_pool_id(),
    {
        Sym { wrapped: s }
    }
}

/// Interner adaptor optimized for short strings.
///
/// `Inline` encodes any string *shorter* (in UTF-8 bytes) than the
/// symbol-id type directly inside the symbol; strings of the same or
/// greater size are passed to the wrapped interner.  Inlined values never
/// occupy a table slot, so they are invisible to `len`; the price is that
/// the tag bit halves the number of addressable table slots, which is why
/// `is_full` reports full at half the id type's range.
#[derive(Clone)]
pub struct Inline<W> {
    wrapped: W,
}

impl<W> Inline<W> where W: Backing, <W::Symbol as Symbol>::Id: Pack {
    /// Create a new, empty symbol pool.
    pub fn new() -> (r: Self)
        ensures
            r.wf(),
            r.table().len() == 0,
            r.tag_spec() == 0,
    {
        <Self as SymPool>::empty_pool()
    }

    /// Wrap an existing pool.  The pool must not already have grown past
    /// the adaptor's halved capacity, and must have room for at least that
    /// many values.
    pub fn from(wrapped: W) -> (r: Self)
        requires
            wrapped.wf(),
            wrapped.table().len() <= half_cap::<<W::Symbol as Symbol>::Id>(),
            wrapped.cap_spec() >= half_cap::<<W::Symbol as Symbol>::Id>(),
        ensures
            r.wf(),
            r.table() == wrapped.table(),
            r.tag_spec() == wrapped.tag_spec(),
    {
        Inline { wrapped }
    }
}

impl<W> Default for Inline<W> where W: Backing, <W::Symbol as Symbol>::Id: Pack {
    /// Create a new, empty symbol pool.
    fn default() -> (r: Self)
        ensures
            r.wf(),
            r.table().len() == 0,
    {
        Self::new()
    }
}

impl<W> SymPool for Inline<W> where W: Backing, <W::Symbol as Symbol>::Id: Pack {
    type Symbol = Sym<W::Symbol>;

    type Value = String;

    closed spec fn wf(&self) -> bool {
        &&& self.wrapped.wf()
        &&& self.wrapped.table().len() <= half_cap::<<W::Symbol as Symbol>::Id>()
        &&& self.wrapped.cap_spec() >= half_cap::<<W::Symbol as Symbol>::Id>()
    }

    closed spec fn tag_spec(&self) -> u64 {
        self.wrapped.tag_spec()
    }

    open spec fn cap_spec(&self) -> nat {
        half_cap::<<W::Symbol as Symbol>::Id>()
    }

    closed spec fn table(&self) -> Seq<Seq<char>> {
        self.wrapped.table()
    }

    closed spec fn find_spec(&self, v: Seq<char>) -> Option<Sym<W::Symbol>> {
        if encode_utf8(v).len() < <<W::Symbol as Symbol>::Id as Pack>::width() {
            Some(
                Sym {
                    wrapped: self.wrapped.mk_sym_spec(
                        <<W::Symbol as Symbol>::Id as SymbolId>::from_nat_spec(
                            packed_val(encode_utf8(v), <<W::Symbol as Symbol>::Id as Pack>::width()),
                        ),
                    ),
                },
            )
        } else {
            match self.wrapped.find_spec(v) {
                Some(s0) => Some(Sym { wrapped: s0 }),
                None => None,
            }
        }
    }

    closed spec fn resolves_spec(&self, s: Sym<W::Symbol>) -> Option<Seq<char>> {
        if is_inlined_spec(s.wrapped.spec_id()) {
            inline_resolution(s.wrapped.spec_id())
        } else {
            self.wrapped.resolves_spec(s.wrapped)
        }
    }

    closed spec fn mk_sym_spec(&self, id: <W::Symbol as Symbol>::Id) -> Sym<W::Symbol> {
        Sym { wrapped: self.wrapped.mk_sym_spec(id) }
    }

    open spec fn always_finds(&self, v: Seq<char>) -> bool {
        encode_utf8(v).len() < <<W::Symbol as Symbol>::Id as Pack>::width()
    }

    open spec fn fails_fast(&self) -> bool {
        true
    }

    proof fn lemma_mk_sym(&self, id: <W::Symbol as Symbol>::Id) {
        self.wrapped.lemma_mk_sym(id);
    }

    proof fn lemma_find_resolves(&self, v: Seq<char>) {
        let n = <<W::Symbol as Symbol>::Id as Pack>::width();
        <<W::Symbol as Symbol>::Id as Pack>::lemma_width();
        if encode_utf8(v).len() < n {
            lemma_inline_hit::<W>(self, v);
        } else {
            self.wrapped.lemma_find_resolves(v);
            self.wrapped.lemma_find_low(v);
            let s0 = self.wrapped.find_spec(v).unwrap();
            assert(s0.spec_id().as_nat() < half_cap::<<W::Symbol as Symbol>::Id>());
        }
    }

    fn id(&self) -> (r: u64) {
        self.wrapped.id()
    }

    fn create_symbol(&self, id: <W::Symbol as Symbol>::Id) -> (r: Sym<W::Symbol>) {
        Sym { wrapped: self.wrapped.create_symbol(id) }
    }

    fn empty_pool() -> (r: Self) {
        let w = W::empty_pool();
        proof {
            <<W::Symbol as Symbol>::Id as Pack>::lemma_width();
            let n = <<W::Symbol as Symbol>::Id as Pack>::width();
            lemma_pow2_pos((8 * n - 1) as nat);
            lemma_pow2_adds(1, (8 * n - 1) as nat);
            lemma2_to64();
            assert(pow2(8 * n) == 2 * half_cap::<<W::Symbol as Symbol>::Id>());
        }
        Inline { wrapped: w }
    }
}

/// For a string short enough to inline, the symbol `find_spec` answers is
/// inline-tagged and resolves, from its own bits, to exactly that string.
proof fn lemma_inline_hit<W>(p: &Inline<W>, v: Seq<char>) where
    W: Backing,
    <W::Symbol as Symbol>::Id: Pack,

    requires
        p.wf(),
        encode_utf8(v).len() < <<W::Symbol as Symbol>::Id as Pack>::width(),
    ensures
        ({
            let s = p.find_spec(v).unwrap();
            &&& p.find_spec(v) is Some
            &&& s.spec_pool_id() == p.tag_spec()
            &&& s.spec_id().as_nat() == packed_val(
                encode_utf8(v),
                <<W::Symbol as Symbol>::Id as Pack>::width(),
            )
            &&& is_inlined_spec(s.spec_id())
            &&& inline_resolution(s.spec_id()) == Some(v)
            &&& p.resolves_spec(s) == Some(v)
        }),
{
    let n = <<W::Symbol as Symbol>::Id as Pack>::width();
    <<W::Symbol as Symbol>::Id as Pack>::lemma_width();
    let bytes = encode_utf8(v);
    let pv = packed_val(bytes, n);
    lemma_packed_val_props(bytes, n);
    <<W::Symbol as Symbol>::Id as SymbolId>::lemma_from_nat(pv);
    let id = <<W::Symbol as Symbol>::Id as SymbolId>::from_nat_spec(pv);
    p.wrapped.lemma_mk_sym(id);
    broadcast use vstd::utf8::encode_utf8_valid_utf8;

    vstd::utf8::encode_utf8_decode_utf8(v);
    assert(unpacked_bytes(id.as_nat(), n) == bytes);
}

impl<W> Backing for Inline<W> where W: Backing, <W::Symbol as Symbol>::Id: Pack {
    proof fn lemma_find_low(&self, v: Seq<char>) {
        self.wrapped.lemma_find_low(v);
    }
}

impl<W> Len for Inline<W> where W: Backing + Len, <W::Symbol as Symbol>::Id: Pack {
    /// Fetch the number of items stored in the wrapped pool's table;
    /// values inlined in symbols are not stored and are not counted.
    fn len(&self) -> (r: usize) {
        self.wrapped.len()
    }

    /// Check if the pool is "empty".  Strings inlined in symbols are not
    /// stored in the pool, so they do not affect the result.
    fn is_empty(&self) -> (r: bool) {
        self.wrapped.is_empty()
    }

    /// Check if the number of interned symbols has reached the maximum
    /// allowed: half the id type's range, since one bit marks inlining.
    fn is_full(&self) -> (r: bool) {
        let mask = <<W::Symbol as Symbol>::Id as Pack>::msb_mask();
        mask.le_index(self.wrapped.len())
    }
}

impl<W> Intern for Inline<W> where W: Backing + Intern + Len, <W::Symbol as Symbol>::Id: Pack {
    fn intern(&mut self, value: &String) -> (r: Result<Sym<W::Symbol>, Error>) {
        proof {
            <<W::Symbol as Symbol>::Id as Pack>::lemma_width();
        }
        match <<W::Symbol as Symbol>::Id as Pack>::pack(value.as_str()) {
            Some(id) => {
                let ws = self.wrapped.create_symbol(id);
                proof {
                    let v = value@;
                    let n = <<W::Symbol as Symbol>::Id as Pack>::width();
                    let pv = packed_val(encode_utf8(v), n);
                    lemma_packed_val_props(encode_utf8(v), n);
                    <<W::Symbol as Symbol>::Id as SymbolId>::lemma_from_nat(pv);
                    <<W::Symbol as Symbol>::Id as SymbolId>::lemma_id_injective(
                        id,
                        <<W::Symbol as Symbol>::Id as SymbolId>::from_nat_spec(pv),
                    );
                    lemma_inline_hit::<W>(self, v);
                }
                Ok(Sym { wrapped: ws })
            },
            None => {
                if self.is_full() {
                    return Err(Error::new(ErrorKind::PoolOverflow));
                }
                let ghost pre = *self;
                let res = self.wrapped.intern(value);
                match res {
                    Ok(b) => {
                        proof {
                            lemma_inline_delegate::<W>(pre, *self, *value, b);
                        }
                        Ok(Sym { wrapped: b })
                    },
                    Err(e) => {
                        proof {
                            // The wrapped pool cannot be full: the adaptor
                            // checked its own, stricter fullness bound.
                            assert(pre.wrapped.table().len() < pre.wrapped.cap_spec());
                            assert(false);
                        }
                        Err(e)
                    },
                }
            },
        }
    }
}

/// Delegating a too-long string to the wrapped pool preserves the
/// adaptor's invariant and contract: the wrapped pool's answer, wrapped,
/// is the adaptor's answer.
proof fn lemma_inline_delegate<W>(
    pre: Inline<W>,
    post: Inline<W>,
    value: String,
    b: W::Symbol,
) where W: Backing + Intern + Len, <W::Symbol as Symbol>::Id: Pack
    requires
        pre.wf(),
        post.wrapped.wf(),
        encode_utf8(value@).len() >= <<W::Symbol as Symbol>::Id as Pack>::width(),
        pre.table().len() < pre.cap_spec(),
        intern_post(pre.wrapped, post.wrapped, value@, Ok(b)),
    ensures
        post.wf(),
        intern_post(pre, post, value@, Ok(Sym { wrapped: b })),
{
    let v = value@;
    let n = <<W::Symbol as Symbol>::Id as Pack>::width();
    <<W::Symbol as Symbol>::Id as Pack>::lemma_width();
    let s = Sym { wrapped: b };
    match pre.wrapped.find_spec(v) {
        Some(s0) => {
            assert(post.wrapped == pre.wrapped);
            assert(post == pre) by {
                assert(pre.wrapped == post.wrapped);
            }
        },
        None => {
            // Fresh entry: the new id indexes the table, below the tag bit.
            assert(b.spec_id().as_nat() == pre.table().len());
            assert(b.spec_id().as_nat() < half_cap::<<W::Symbol as Symbol>::Id>());
            assert(!is_inlined_spec(b.spec_id()));
            assert(post.resolves_spec(s) == post.wrapped.resolves_spec(b));
        },
    }
    // Stability of resolution: inline-tagged symbols decode from their own
    // bits, everything else follows the wrapped pool.
    assert forall|s0: Sym<W::Symbol>| (#[trigger] pre.resolves_spec(s0)) is Some implies post
        .resolves_spec(s0) == pre.resolves_spec(s0) by {
        if !is_inlined_spec(s0.wrapped.spec_id()) {
            assert(pre.wrapped.resolves_spec(s0.wrapped) is Some);
        }
    }
    // Stability of lookup.
    assert forall|w: Seq<char>| (#[trigger] pre.find_spec(w)) is Some implies post.find_spec(w)
        == pre.find_spec(w) by {
        if encode_utf8(w).len() < n {
            assert(post.wrapped.mk_sym_spec(
                <<W::Symbol as Symbol>::Id as SymbolId>::from_nat_spec(
                    packed_val(encode_utf8(w), n),
                ),
            ) == pre.wrapped.mk_sym_spec(
                <<W::Symbol as Symbol>::Id as SymbolId>::from_nat_spec(
                    packed_val(encode_utf8(w), n),
                ),
            ));
        } else {
            assert(pre.wrapped.find_spec(w) is Some);
        }
    }
}

impl<W> Resolve for Inline<W> where W: Backing + Resolve, <W::Symbol as Symbol>::Id: Pack {
    /// Resolve an inline-tagged symbol from its own bits, without
    /// consulting the wrapped pool; delegate anything else.
    fn resolve(&self, symbol: &Sym<W::Symbol>) -> (r: Result<String, Error>) {
        let id = symbol.wrapped.id();
        if id.is_inlined() {
            match id.get_packed_ref() {
                Some(out) => Ok(out),
                None => Err(Error::new(ErrorKind::NoSuchSymbol)),
            }
        } else {
            match <W as Resolve>::resolve(&self.wrapped, &symbol.wrapped) {
                Ok(out) => Ok(out),
                Err(e) => Err(e),
            }
        }
    }
}

impl<W> Inline<W> where W: Backing + Resolve, <W::Symbol as Symbol>::Id: Pack {
    /// Look up the value represented by a symbol, taking the symbol by
    /// reference: inline-tagged symbols are read from their own bits,
    /// everything else is delegated to the wrapped pool.
    pub fn resolve_ref(&self, symbol: &Sym<W::Symbol>) -> (r: Result<String, Error>)
        requires
            self.wf(),
        ensures
            crate::traits::resolve_post(*self, *symbol, r),
    {
        <Self as Resolve>::resolve(self, symbol)
    }
}

/// Law (inline transparency): interning a string shorter than the id
/// width changes nothing — in particular the wrapped pool's table — and
/// yields a symbol that resolves to the string from its own bits.
pub proof fn lemma_inline_transparency<W>(
    pre: Inline<W>,
    post: Inline<W>,
    v: Seq<char>,
    r: Result<Sym<W::Symbol>, Error>,
) where W: Backing, <W::Symbol as Symbol>::Id: Pack
    requires
        pre.wf(),
        intern_post(pre, post, v, r),
        encode_utf8(v).len() < <<W::Symbol as Symbol>::Id as Pack>::width(),
    ensures
        r is Ok,
        post == pre,
        post.table() == pre.table(),
        inline_resolution(r.unwrap().spec_id()) == Some(v),
        post.resolves_spec(r.unwrap()) == Some(v),
{
    lemma_inline_hit::<W>(&pre, v);
}

/// Law (inline capacity halving): the adaptor's capacity is half the id
/// type's value range — (M + 1) / 2 for id maximum M — and it is full
/// exactly when the wrapped pool's table reaches that many entries,
/// however many further values were handled by inlining (which, by
/// [`lemma_inline_transparency`], stores nothing).
pub proof fn lemma_capacity_halving<W>(p: Inline<W>) where
    W: Backing,
    <W::Symbol as Symbol>::Id: Pack,

    ensures
        p.cap_spec() == (<<W::Symbol as Symbol>::Id as SymbolId>::max_spec() + 1) / 2,
        p.table().len() >= p.cap_spec() <==> p.table().len() >= (<<W::Symbol as Symbol>::Id
            as SymbolId>::max_spec() + 1) / 2,
{
    let n = <<W::Symbol as Symbol>::Id as Pack>::width();
    <<W::Symbol as Symbol>::Id as Pack>::lemma_width();
    lemma_pow2_pos((8 * n - 1) as nat);
    lemma_pow2_adds(1, (8 * n - 1) as nat);
    lemma2_to64();
    assert(pow2(8 * n) == 2 * half_cap::<<W::Symbol as Symbol>::Id>());
}

} // verus!
