//! Implementation details of the sixteen-byte packed symbols.
//!
//! A [`Symbol`] is two 64-bit words holding one of two formats, told apart
//! by the lowest bit of the first word: an [`Inline`] symbol stores a short
//! string's bytes directly (first byte `(len << 1) | 1`, then up to fifteen
//! string bytes, zero-padded); a [`Pooled`] symbol stores the even content
//! key of a pool entry together with the owning pool's identity tag.

use crate::packing::{
    bytes_to_string, le_byte, le_byte_of, le_val, lemma_digit_split, lemma_le_byte_of_le_val,
    lemma_le_digits, u64_from_le_bytes,
};
use vstd::arithmetic::power2::{lemma2_to64, lemma2_to64_rest, pow2};
use vstd::prelude::*;
use vstd::string::StringSliceAdditionalSpecFns;
use vstd::utf8::{decode_utf8, encode_utf8, valid_utf8};

verus! {

/// Maximum number of bytes in a packed (inline) symbol name.
pub const INLINE_SYMBOL_MAX_LEN: usize = 15;

/// An atomic, copyable symbol value: sixteen bytes that either encode a
/// short string directly or refer to an entry of a pool.
///
/// A `Symbol` carries no lifetime, so resolving a pooled one requires the
/// pool it names; see [`crate::symbol::Pool::resolve`].
#[derive(Clone, Copy, Debug, PartialEq, Eq, Structural)]
pub struct Symbol {
    lo: u64,
    hi: u64,
}

/// Storage type for a symbol instance.
#[derive(Clone, Copy, Debug, PartialEq, Eq, Structural)]
pub enum Type {
    /// Symbol data packed into the structure itself.
    INLINE,
    /// Reference to a value in a pool.
    POOLED,
}

impl Symbol {
    /// The format the symbol's tag bit announces.
    pub closed spec fn type_spec(&self) -> Type {
        if self.lo % 2 == 1 {
            Type::INLINE
        } else {
            Type::POOLED
        }
    }

    /// The inlined length recorded in the symbol's first byte.
    pub closed spec fn ilen_spec(&self) -> nat {
        ((self.lo % 256) / 2) as nat
    }

    /// Byte `i` of the inlined string: bytes one to seven of the first
    /// word, then the eight bytes of the second.
    pub closed spec fn ibyte_spec(&self, i: int) -> u8 {
        if i < 7 {
            le_byte(self.lo as nat, (i + 1) as nat)
        } else {
            le_byte(self.hi as nat, (i - 7) as nat)
        }
    }

    /// The inlined string's bytes.
    pub open spec fn ibytes_spec(&self) -> Seq<u8> {
        Seq::new(self.ilen_spec(), |i: int| self.ibyte_spec(i))
    }

    /// The content key a pooled symbol refers to.
    pub closed spec fn key_spec(&self) -> u64 {
        self.lo
    }

    /// The identity tag of the pool a pooled symbol belongs to.
    pub closed spec fn pool_tag_spec(&self) -> u64 {
        self.hi
    }

    /// Get the symbol's pack format.
    pub fn type_of(&self) -> (r: Type)
        ensures
            r == self.type_spec(),
    {
        if self.lo % 2 == 1 {
            Type::INLINE
        } else {
            Type::POOLED
        }
    }

    /// The content key a pooled symbol refers to.
    pub fn key(&self) -> (r: u64)
        ensures
            r == self.key_spec(),
    {
        self.lo
    }

    /// The identity tag of the pool a pooled symbol belongs to.
    pub fn pool_tag(&self) -> (r: u64)
        ensures
            r == self.pool_tag_spec(),
    {
        self.hi
    }

    /// The string inlined in this symbol, if it is inline-tagged and its
    /// recorded length and bytes are sound.
    pub fn inline_str(&self) -> (r: Option<String>)
        ensures
            match r {
                Some(s) => {
                    &&& self.type_spec() == Type::INLINE
                    &&& self.ilen_spec() <= INLINE_SYMBOL_MAX_LEN
                    &&& valid_utf8(self.ibytes_spec())
                    &&& s@ == decode_utf8(self.ibytes_spec())
                },
                None => {
                    ||| self.type_spec() != Type::INLINE
                    ||| self.ilen_spec() > INLINE_SYMBOL_MAX_LEN
                    ||| !valid_utf8(self.ibytes_spec())
                },
            },
    {
        if self.lo % 2 != 1 {
            return None;
        }
        let lobyte = (self.lo % 256) as u8;
        let len = (lobyte / 2) as usize;
        if len > INLINE_SYMBOL_MAX_LEN {
            return None;
        }
        let mut bytes: Vec<u8> = Vec::new();
        let mut i: usize = 0;
        while i < len
            invariant
                i <= len,
                len == self.ilen_spec(),
                len <= INLINE_SYMBOL_MAX_LEN,
                bytes@.len() == i,
                forall|j: int| 0 <= j < i ==> bytes@[j] == self.ibyte_spec(j),
            decreases len - i,
        {
            let b = if i < 7 {
                le_byte_of(self.lo, i + 1)
            } else {
                le_byte_of(self.hi, i - 7)
            };
            bytes.push(b);
            i = i + 1;
        }
        proof {
            assert(bytes@ =~= self.ibytes_spec());
        }
        match bytes_to_string(bytes) {
            Some(s) => {
                proof {
                    vstd::utf8::encode_utf8_decode_utf8(s@);
                }
                Some(s)
            },
            None => None,
        }
    }

    /// Convert the symbol to its unpacked representation.
    pub fn unpack(&self) -> (r: Unpacked)
        requires
            <Unpacked as PackFormat>::fits(self),
        ensures
            r.wf_fmt(),
            r.packs_to(*self),
    {
        <Unpacked as PackFormat>::unpack(self)
    }
}

/// Methods required of unpacked symbol formats.
pub trait PackFormat: Sized {
    /// Well-formedness of an unpacked value in this format.
    spec fn wf_fmt(&self) -> bool;

    /// Whether a packed symbol carries a value of this format.
    spec fn fits(sym: &Symbol) -> bool;

    /// The relation between an unpacked value and its packed form.
    spec fn packs_to(&self, sym: Symbol) -> bool;

    /// Pack an unpacked symbol in the implementing format into a generic
    /// `Symbol` value.
    fn pack(&self) -> (r: Symbol)
        requires
            self.wf_fmt(),
        ensures
            self.packs_to(r),
            Self::fits(&r),
    ;

    /// Unpack a generic `Symbol` into the implementing format; the symbol
    /// must carry this format.
    fn unpack(sym: &Symbol) -> (r: Self)
        requires
            Self::fits(sym),
        ensures
            r.wf_fmt(),
            r.packs_to(*sym),
    ;
}

/// Data format for symbols packed entirely into a `Symbol` instance: a
/// byte length and a fixed fifteen-byte, zero-padded buffer.
#[derive(Debug, PartialEq, Eq)]
pub struct Inline {
    len: u8,
    data: Vec<u8>,
}

impl Inline {
    /// Well-formedness: a length within the buffer, zero padding past it,
    /// and valid UTF-8 content.
    pub closed spec fn wf_inline(&self) -> bool {
        &&& self.len <= INLINE_SYMBOL_MAX_LEN
        &&& self.data@.len() == INLINE_SYMBOL_MAX_LEN
        &&& forall|i: int| self.len <= i < INLINE_SYMBOL_MAX_LEN ==> self.data@[i] == 0
        &&& valid_utf8(self.data@.subrange(0, self.len as int))
    }

    /// The stored string's bytes.
    pub closed spec fn name_bytes(&self) -> Seq<u8> {
        self.data@.subrange(0, self.len as int)
    }

    /// Create a new inline-format symbol holding the given string, which
    /// must fit the fifteen-byte buffer.
    pub fn new(name: &str) -> (r: Self)
        requires
            name.spec_bytes().len() <= INLINE_SYMBOL_MAX_LEN,
        ensures
            r.wf_inline(),
            r.name_bytes() == name.spec_bytes(),
    {
        let bytes = name.as_bytes();
        let n = bytes.len();
        let mut data: Vec<u8> = Vec::new();
        let mut i: usize = 0;
        while i < n
            invariant
                i <= n,
                n == bytes@.len() <= INLINE_SYMBOL_MAX_LEN,
                data@.len() == i,
                forall|j: int| 0 <= j < i ==> data@[j] == bytes@[j],
            decreases n - i,
        {
            data.push(bytes[i]);
            i = i + 1;
        }
        while data.len() < INLINE_SYMBOL_MAX_LEN
            invariant
                n <= data@.len() <= INLINE_SYMBOL_MAX_LEN,
                n == bytes@.len(),
                forall|j: int| 0 <= j < n ==> data@[j] == bytes@[j],
                forall|j: int| n <= j < data@.len() ==> data@[j] == 0,
            decreases INLINE_SYMBOL_MAX_LEN - data@.len(),
        {
            data.push(0);
        }
        let r = Inline { len: n as u8, data };
        proof {
            broadcast use vstd::utf8::encode_utf8_valid_utf8;

            assert(r.name_bytes() =~= bytes@);
        }
        r
    }

    /// The stored string, rebuilt from the buffer.
    pub fn as_ref(&self) -> (r: String)
        requires
            self.wf_inline(),
        ensures
            encode_utf8(r@) == self.name_bytes(),
            r@ == decode_utf8(self.name_bytes()),
    {
        let len = self.len as usize;
        let mut prefix: Vec<u8> = Vec::new();
        let mut i: usize = 0;
        while i < len
            invariant
                i <= len,
                len == self.len as int <= INLINE_SYMBOL_MAX_LEN,
                self.data@.len() == INLINE_SYMBOL_MAX_LEN,
                prefix@.len() == i,
                forall|j: int| 0 <= j < i ==> prefix@[j] == self.data@[j],
            decreases len - i,
        {
            prefix.push(self.data[i]);
            i = i + 1;
        }
        proof {
            assert(prefix@ =~= self.name_bytes());
        }
        match bytes_to_string(prefix) {
            Some(s) => {
                proof {
                    vstd::utf8::encode_utf8_decode_utf8(s@);
                }
                s
            },
            None => {
                proof {
                    assert(false);
                }
                vstd::pervasive::unreached()
            },
        }
    }
}

impl PackFormat for Inline {
    open spec fn wf_fmt(&self) -> bool {
        self.wf_inline()
    }

    closed spec fn fits(sym: &Symbol) -> bool {
        &&& sym.type_spec() == Type::INLINE
        &&& sym.ilen_spec() <= INLINE_SYMBOL_MAX_LEN
        &&& forall|i: int| sym.ilen_spec() <= i < INLINE_SYMBOL_MAX_LEN ==> sym.ibyte_spec(i) == 0
        &&& valid_utf8(sym.ibytes_spec())
    }

    closed spec fn packs_to(&self, sym: Symbol) -> bool {
        &&& sym.lo as nat == (2 * self.len + 1) + 256 * le_val(self.data@.subrange(0, 7))
        &&& sym.hi as nat == le_val(self.data@.subrange(7, 15))
    }

    fn pack(&self) -> (r: Symbol) {
        let tag_byte = 2 * self.len + 1;
        let mut lobuf: Vec<u8> = Vec::new();
        lobuf.push(tag_byte);
        let mut i: usize = 0;
        while i < 7
            invariant
                i <= 7,
                self.wf_inline(),
                lobuf@.len() == i + 1,
                lobuf@[0] == 2 * self.len + 1,
                forall|j: int| 1 <= j < i + 1 ==> lobuf@[j] == self.data@[j - 1],
            decreases 7 - i,
        {
            lobuf.push(self.data[i]);
            i = i + 1;
        }
        let mut hibuf: Vec<u8> = Vec::new();
        let mut j: usize = 7;
        while j < 15
            invariant
                7 <= j <= 15,
                self.wf_inline(),
                hibuf@.len() == j - 7,
                forall|k: int| 0 <= k < j - 7 ==> hibuf@[k] == self.data@[k + 7],
            decreases 15 - j,
        {
            hibuf.push(self.data[j]);
            j = j + 1;
        }
        let lo = u64_from_le_bytes(lobuf.as_slice());
        let hi = u64_from_le_bytes(hibuf.as_slice());
        let r = Symbol { lo, hi };
        proof {
            assert(lobuf@.drop_first() =~= self.data@.subrange(0, 7));
            assert(le_val(lobuf@) == (2 * self.len + 1) + 256 * le_val(
                self.data@.subrange(0, 7),
            ));
            assert(hibuf@ =~= self.data@.subrange(7, 15));
            lemma_inline_pack_view(self, r);
        }
        r
    }

    fn unpack(sym: &Symbol) -> (r: Self) {
        let lobyte = (sym.lo % 256) as u8;
        let len = (lobyte / 2) as usize;
        let mut data: Vec<u8> = Vec::new();
        let mut i: usize = 0;
        while i < len
            invariant
                i <= len,
                len == sym.ilen_spec(),
                len <= INLINE_SYMBOL_MAX_LEN,
                data@.len() == i,
                forall|j: int| 0 <= j < i ==> data@[j] == sym.ibyte_spec(j),
            decreases len - i,
        {
            let b = if i < 7 {
                le_byte_of(sym.lo, i + 1)
            } else {
                le_byte_of(sym.hi, i - 7)
            };
            data.push(b);
            i = i + 1;
        }
        while data.len() < INLINE_SYMBOL_MAX_LEN
            invariant
                len <= data@.len() <= INLINE_SYMBOL_MAX_LEN,
                len == sym.ilen_spec(),
                forall|j: int| 0 <= j < len ==> data@[j] == sym.ibyte_spec(j),
                forall|j: int| len <= j < data@.len() ==> data@[j] == 0,
            decreases INLINE_SYMBOL_MAX_LEN - data@.len(),
        {
            data.push(0);
        }
        let r = Inline { len: len as u8, data };
        proof {
            lemma_unpack_inline(&r, sym);
        }
        r
    }
}

/// What a packed inline value looks like to a resolver: inline-tagged,
/// its recorded length and bytes exactly the stored string's, with zero
/// padding beyond them.
pub proof fn lemma_inline_pack_view(x: &Inline, r: Symbol)
    requires
        x.wf_inline(),
        x.packs_to(r),
    ensures
        <Inline as PackFormat>::fits(&r),
        r.type_spec() == Type::INLINE,
        r.ilen_spec() == x.name_bytes().len(),
        r.ibytes_spec() == x.name_bytes(),
        valid_utf8(r.ibytes_spec()),
{
    let tag = (2 * x.len + 1) as nat;
    let low7 = x.data@.subrange(0, 7);
    let high8 = x.data@.subrange(7, 15);
    let lobuf = seq![(2 * x.len + 1) as u8] + low7;
    assert(lobuf.drop_first() =~= low7);
    assert(le_val(lobuf) == tag + 256 * le_val(low7));
    assert(r.lo == le_val(lobuf));
    // The tag byte reads back: lo % 256 == 2*len + 1, so the tag bit is
    // set and the length decodes.
    lemma_digit_split(tag, le_val(low7));
    assert(r.lo as nat % 256 == tag);
    lemma_mod_mod_2(r.lo as nat, tag, le_val(low7), x.len as nat);
    // Every data byte reads back from its digit position.
    assert forall|i: int| 0 <= i < INLINE_SYMBOL_MAX_LEN implies r.ibyte_spec(i) == x.data@[i] by {
        if i < 7 {
            lemma_le_byte_of_le_val(lobuf, (i + 1) as nat);
        } else {
            lemma_le_byte_of_le_val(high8, (i - 7) as nat);
        }
    }
    assert(r.ibytes_spec() =~= x.data@.subrange(0, x.len as int));
}

/// The tag bit of a value whose low byte is `2l + 1` is set.
proof fn lemma_mod_mod_2(v: nat, tag: nat, rest: nat, l: nat)
    requires
        tag == 2 * l + 1,
        tag < 256,
        v == tag + 256 * rest,
    ensures
        v % 2 == 1,
        v % 256 == tag,
{
    lemma_digit_split(tag, rest);
    assert(v == 2 * (l + 128 * rest) + 1) by (nonlinear_arith)
        requires
            v == 2 * l + 1 + 256 * rest,
    ;
    vstd::arithmetic::div_mod::lemma_mod_multiples_vanish((l + 128 * rest) as int, 1, 2);
    vstd::arithmetic::div_mod::lemma_small_mod(1, 2);
}

/// Unpacking a fitting symbol yields a well-formed inline value holding
/// the symbol's recorded bytes.
proof fn lemma_unpack_inline(r: &Inline, sym: &Symbol)
    requires
        <Inline as PackFormat>::fits(sym),
        r.len == sym.ilen_spec(),
        r.data@.len() == INLINE_SYMBOL_MAX_LEN,
        forall|j: int| 0 <= j < r.len ==> r.data@[j] == sym.ibyte_spec(j),
        forall|j: int| r.len <= j < INLINE_SYMBOL_MAX_LEN ==> r.data@[j] == 0,
    ensures
        r.wf_inline(),
        r.packs_to(*sym),
{
    // All fifteen buffer bytes match the symbol's digits: stored bytes by
    // construction, padding because a fitting symbol has zero padding.
    assert forall|j: int| 0 <= j < INLINE_SYMBOL_MAX_LEN implies r.data@[j] == sym.ibyte_spec(
        j,
    ) by {}
    assert(r.name_bytes() =~= sym.ibytes_spec());
    // Reassemble the two words from their digits.
    lemma2_to64();
    lemma2_to64_rest();
    lemma_le_digits(sym.lo as nat, 8);
    lemma_le_digits(sym.hi as nat, 8);
    vstd::arithmetic::div_mod::lemma_small_mod(sym.lo as nat, pow2(64));
    vstd::arithmetic::div_mod::lemma_small_mod(sym.hi as nat, pow2(64));
    let lodigits = Seq::new(8, |i: int| le_byte(sym.lo as nat, i as nat));
    let hidigits = Seq::new(8, |i: int| le_byte(sym.hi as nat, i as nat));
    assert forall|i: int| 0 <= i < 7 implies lodigits.drop_first()[i] == r.data@.subrange(
        0,
        7,
    )[i] by {
        assert(lodigits.drop_first()[i] == lodigits[i + 1]);
        assert(r.data@[i] == sym.ibyte_spec(i));
    }
    assert(lodigits.drop_first() =~= r.data@.subrange(0, 7));
    assert(le_val(lodigits) == lodigits[0] + 256 * le_val(r.data@.subrange(0, 7)));
    assert forall|k: int| 0 <= k < 8 implies hidigits[k] == r.data@.subrange(7, 15)[k] by {
        assert(r.data@[k + 7] == sym.ibyte_spec(k + 7));
    }
    assert(hidigits =~= r.data@.subrange(7, 15));
    // The first digit is the tag byte, 2*len + 1.
    assert(lodigits[0] == sym.lo as nat % 256) by {
        lemma2_to64();
        assert((sym.lo as nat) / pow2(0) == sym.lo as nat) by (nonlinear_arith)
            requires
                pow2(0) == 1,
        ;
    }
    lemma_tag_byte_shape(sym.lo as nat);
}

/// A word with its tag bit set has an odd low byte of the form `2l + 1`,
/// where `l` is the recorded length.
proof fn lemma_tag_byte_shape(v: nat)
    requires
        v % 2 == 1,
    ensures
        v % 256 == 2 * ((v % 256) / 2) + 1,
{
    let b = v % 256;
    assert(b % 2 == 1) by {
        vstd::arithmetic::div_mod::lemma_mod_mod(v as int, 2, 128);
        assert(2 * 128 == 256);
    }
    vstd::arithmetic::div_mod::lemma_fundamental_div_mod(b as int, 2);
}

/// Data format for symbols stored as references to a symbol pool: the
/// entry's even content key plus the owning pool's identity tag.  Rather
/// than a raw backward pointer, the reference is this explicit
/// key-and-tag pair, resolved through the pool itself.
#[derive(Clone, Copy, Debug, PartialEq, Eq, Structural)]
pub struct Pooled {
    key: u64,
    pool_tag: u64,
}

impl Pooled {
    /// The content key of the pool entry this value refers to.
    pub closed spec fn key_spec(&self) -> u64 {
        self.key
    }

    /// The identity tag of the owning pool.
    pub closed spec fn tag_spec(&self) -> u64 {
        self.pool_tag
    }

    /// Create a pooled-format symbol for the entry with the given content
    /// key, owned by the given pool.  The key's lowest bit is clear, so
    /// the packed form cannot be mistaken for an inline symbol.
    pub fn new(key: u64, pool: &crate::symbol::Pool) -> (r: Self)
        requires
            key % 2 == 0,
        ensures
            r.wf_fmt(),
            r.key_spec() == key,
            r.tag_spec() == pool.identity_spec(),
    {
        Pooled { key, pool_tag: pool.identity() }
    }
}

impl PackFormat for Pooled {
    closed spec fn wf_fmt(&self) -> bool {
        self.key % 2 == 0
    }

    closed spec fn fits(sym: &Symbol) -> bool {
        sym.type_spec() == Type::POOLED
    }

    closed spec fn packs_to(&self, sym: Symbol) -> bool {
        sym.lo == self.key && sym.hi == self.pool_tag
    }

    fn pack(&self) -> (r: Symbol) {
        Symbol { lo: self.key, hi: self.pool_tag }
    }

    fn unpack(sym: &Symbol) -> (r: Self) {
        Pooled { key: sym.lo, pool_tag: sym.hi }
    }
}

/// Law (pack–unpack round trip): a packed symbol determines the name it
/// was packed from, so any two well-formed inline values that pack to the
/// same symbol — in particular, a value and the result of unpacking its
/// packed form — hold the same string.
pub proof fn lemma_packed_symbol_determines_name(x1: &Inline, x2: &Inline, sym: Symbol)
    requires
        x1.wf_inline(),
        x2.wf_inline(),
        x1.packs_to(sym),
        x2.packs_to(sym),
    ensures
        x1.name_bytes() == x2.name_bytes(),
{
    lemma_inline_pack_view(x1, sym);
    lemma_inline_pack_view(x2, sym);
}

/// What a packed pooled value looks like to a resolver: pool-tagged,
/// carrying the entry key and the owning pool's identity.
pub proof fn lemma_pooled_pack_view(p: &Pooled, r: Symbol)
    requires
        p.wf_fmt(),
        p.packs_to(r),
    ensures
        r.type_spec() == Type::POOLED,
        r.key_spec() == p.key_spec(),
        r.pool_tag_spec() == p.tag_spec(),
{
}

/// An inline symbol is determined by the bytes it records: two fitting
/// symbols with the same recorded bytes are the same symbol.
pub proof fn lemma_inline_symbol_determined(a: Symbol, b: Symbol)
    requires
        <Inline as PackFormat>::fits(&a),
        <Inline as PackFormat>::fits(&b),
        a.ibytes_spec() == b.ibytes_spec(),
    ensures
        a == b,
{
    lemma2_to64();
    lemma2_to64_rest();
    let l = a.ilen_spec();
    assert(b.ilen_spec() == l);
    // Each word is the little-endian value of its digits, and every digit
    // agrees: the tag byte carries the common length, the next fifteen
    // carry the common bytes or the common zero padding.
    lemma_word_from_digits(a, b);
}

/// Both words of two fitting inline symbols with equal recorded bytes
/// agree digit by digit, hence as values.
proof fn lemma_word_from_digits(a: Symbol, b: Symbol)
    requires
        <Inline as PackFormat>::fits(&a),
        <Inline as PackFormat>::fits(&b),
        a.ilen_spec() == b.ilen_spec(),
        a.ibytes_spec() == b.ibytes_spec(),
    ensures
        a == b,
{
    lemma2_to64();
    lemma2_to64_rest();
    let l = a.ilen_spec();
    assert forall|i: int| 0 <= i < INLINE_SYMBOL_MAX_LEN implies a.ibyte_spec(i) == b.ibyte_spec(
        i,
    ) by {
        if i < l {
            assert(a.ibytes_spec()[i] == a.ibyte_spec(i));
            assert(b.ibytes_spec()[i] == b.ibyte_spec(i));
            assert(a.ibytes_spec()[i] == b.ibytes_spec()[i]);
        } else {
            assert(l <= i < INLINE_SYMBOL_MAX_LEN);
            assert(a.ilen_spec() <= i);
            assert(b.ilen_spec() <= i);
            assert(a.ibyte_spec(i) == 0);
            assert(b.ibyte_spec(i) == 0);
        }
    }
    lemma_le_digits(a.lo as nat, 8);
    lemma_le_digits(b.lo as nat, 8);
    lemma_le_digits(a.hi as nat, 8);
    lemma_le_digits(b.hi as nat, 8);
    vstd::arithmetic::div_mod::lemma_small_mod(a.lo as nat, pow2(64));
    vstd::arithmetic::div_mod::lemma_small_mod(b.lo as nat, pow2(64));
    vstd::arithmetic::div_mod::lemma_small_mod(a.hi as nat, pow2(64));
    vstd::arithmetic::div_mod::lemma_small_mod(b.hi as nat, pow2(64));
    // The low words' first digits carry the common tag byte.
    assert(le_byte(a.lo as nat, 0) == a.lo as nat % 256 && le_byte(b.lo as nat, 0) == b.lo
        as nat % 256) by {
        assert((a.lo as nat) / pow2(0) == a.lo as nat && (b.lo as nat) / pow2(0) == b.lo
            as nat) by (nonlinear_arith)
            requires
                pow2(0) == 1,
        ;
    }
    lemma_tag_byte_shape(a.lo as nat);
    lemma_tag_byte_shape(b.lo as nat);
    assert forall|i: int| 0 <= i < 8 implies #[trigger] le_byte(a.lo as nat, i as nat)
        == le_byte(b.lo as nat, i as nat) by {
        if i == 0 {
            assert(a.lo as nat % 256 == 2 * l + 1);
            assert(b.lo as nat % 256 == 2 * l + 1);
        } else {
            assert(a.ibyte_spec(i - 1) == b.ibyte_spec(i - 1));
        }
    }
    assert forall|k: int| 0 <= k < 8 implies #[trigger] le_byte(a.hi as nat, k as nat)
        == le_byte(b.hi as nat, k as nat) by {
        assert(a.ibyte_spec(k + 7) == b.ibyte_spec(k + 7));
    }
    assert(Seq::new(8, |i: int| le_byte(a.lo as nat, i as nat)) =~= Seq::new(
        8,
        |i: int| le_byte(b.lo as nat, i as nat),
    ));
    assert(Seq::new(8, |i: int| le_byte(a.hi as nat, i as nat)) =~= Seq::new(
        8,
        |i: int| le_byte(b.hi as nat, i as nat),
    ));
}

/// A symbol is exactly its two words: the entry key and the pool tag read
/// back from a symbol determine it completely.
pub proof fn lemma_symbol_words_determine(a: Symbol, b: Symbol)
    requires
        a.key_spec() == b.key_spec(),
        a.pool_tag_spec() == b.pool_tag_spec(),
    ensures
        a == b,
{
}

/// A differentiated `Symbol`.
#[derive(Debug, PartialEq, Eq)]
pub enum Unpacked {
    /// Symbol stored inline in the `Symbol`'s own bytes.
    Inline(Inline),
    /// Symbol stored in a pool.
    Pooled(Pooled),
}

impl PackFormat for Unpacked {
    open spec fn wf_fmt(&self) -> bool {
        match self {
            Unpacked::Inline(x) => x.wf_fmt(),
            Unpacked::Pooled(p) => p.wf_fmt(),
        }
    }

    open spec fn fits(sym: &Symbol) -> bool {
        <Inline as PackFormat>::fits(sym) || <Pooled as PackFormat>::fits(sym)
    }

    open spec fn packs_to(&self, sym: Symbol) -> bool {
        match self {
            Unpacked::Inline(x) => x.packs_to(sym),
            Unpacked::Pooled(p) => p.packs_to(sym),
        }
    }

    fn pack(&self) -> (r: Symbol) {
        match self {
            Unpacked::Inline(x) => x.pack(),
            Unpacked::Pooled(p) => p.pack(),
        }
    }

    fn unpack(sym: &Symbol) -> (r: Self) {
        match sym.type_of() {
            Type::INLINE => Unpacked::Inline(<Inline as PackFormat>::unpack(sym)),
            Type::POOLED => Unpacked::Pooled(<Pooled as PackFormat>::unpack(sym)),
        }
    }
}

} // verus!
