//! Little-endian byte/integer conversions shared by the symbol-packing code.
//!
//! Symbols that inline a short string into an integer id do so by treating
//! the integer as a little-endian array of base-256 digits.  This module
//! gives that encoding a mathematical definition ([`le_val`], [`le_byte`]),
//! executable conversions proved against it, and the lemmas the packing
//! proofs need.

use vstd::arithmetic::div_mod::{
    lemma_fundamental_div_mod, lemma_mod_multiples_vanish, lemma_small_mod,
};
use vstd::arithmetic::power2::{lemma2_to64, lemma_pow2_adds, lemma_pow2_pos, pow2};
use vstd::prelude::*;

verus! {

/// The value of a byte sequence read as a little-endian base-256 number.
pub open spec fn le_val(b: Seq<u8>) -> nat
    decreases b.len(),
{
    if b.len() == 0 {
        0
    } else {
        (b[0] + 256 * le_val(b.drop_first())) as nat
    }
}

/// Byte `i` of the little-endian representation of `v`.
pub open spec fn le_byte(v: nat, i: nat) -> u8 {
    (((v / pow2(8 * i)) % 256) as u8)
}

/// A number below 256 is its own low byte, and adding `256 * b` changes
/// neither that byte nor the quotient pairing.
pub proof fn lemma_digit_split(a: nat, b: nat)
    requires
        a < 256,
    ensures
        (a + 256 * b) % 256 == a,
        (a + 256 * b) / 256 == b,
{
    lemma_mod_multiples_vanish(b as int, a as int, 256);
    lemma_small_mod(a, 256);
    lemma_fundamental_div_mod((a + 256 * b) as int, 256);
}

pub proof fn lemma_le_val_bound(b: Seq<u8>)
    ensures
        le_val(b) < pow2(8 * b.len()),
    decreases b.len(),
{
    if b.len() == 0 {
        lemma2_to64();
    } else {
        lemma_le_val_bound(b.drop_first());
        lemma_pow2_adds(8, 8 * (b.len() - 1) as nat);
        lemma2_to64();
        assert(le_val(b) == b[0] + 256 * le_val(b.drop_first()));
        assert(256 * le_val(b.drop_first()) <= 256 * (pow2(8 * (b.len() - 1) as nat) - 1))
            by (nonlinear_arith)
            requires
                le_val(b.drop_first()) <= pow2(8 * (b.len() - 1) as nat) - 1,
        ;
    }
}

/// Extracting byte `i` from the little-endian value of `b` gives `b[i]`.
pub proof fn lemma_le_byte_of_le_val(b: Seq<u8>, i: nat)
    requires
        i < b.len(),
    ensures
        le_byte(le_val(b), i) == b[i as int],
    decreases i,
{
    let v = le_val(b);
    let rest = le_val(b.drop_first());
    assert(v == b[0] + 256 * rest);
    lemma_digit_split(b[0] as nat, rest);
    if i == 0 {
        lemma2_to64();
        assert(pow2(0) == 1);
        assert(v / 1 == v) by (nonlinear_arith);
    } else {
        lemma_le_byte_of_le_val(b.drop_first(), (i - 1) as nat);
        // v / pow2(8i) == rest / pow2(8(i-1)) since v = b[0] + 256 * rest.
        lemma_pow2_adds(8, 8 * (i - 1) as nat);
        lemma2_to64();
        let p = pow2(8 * (i - 1) as nat);
        lemma_pow2_pos(8 * (i - 1) as nat);
        assert(v / (256 * p) == (v / 256) / p) by {
            vstd::arithmetic::div_mod::lemma_div_denominator(v as int, 256, p as int);
        }
        assert(v / 256 == rest);
        assert(b.drop_first()[i as int - 1] == b[i as int]);
    }
}

/// Digits below position `n` are unchanged by adding `h * pow2(8n)`.
pub proof fn lemma_le_byte_high(v: nat, h: nat, n: nat, i: nat)
    requires
        i < n,
    ensures
        le_byte(v + h * pow2(8 * n), i) == le_byte(v, i),
{
    let pi = pow2(8 * i);
    let gap = pow2(8 * (n - i) as nat);
    lemma_pow2_pos(8 * i);
    lemma_pow2_pos(8 * (n - i) as nat);
    lemma_pow2_adds(8 * i, 8 * (n - i) as nat);
    assert(pow2(8 * n) == pi * gap);
    // h * (pi * gap) == (h * gap) * pi
    assert(h * (pi * gap) == (h * gap) * pi) by (nonlinear_arith);
    // (v + (h*gap) * pi) / pi == v / pi + h * gap
    assert((v + (h * gap) * pi) / pi == v / pi + h * gap) by {
        vstd::arithmetic::div_mod::lemma_hoist_over_denominator(
            v as int,
            (h * gap) as int,
            pi,
        );
    }
    // gap is a positive multiple of 256, so (h * gap) % 256 contributes nothing.
    let gap_hi = pow2(8 * ((n - i) as nat - 1) as nat);
    lemma_pow2_adds(8, 8 * ((n - i) as nat - 1) as nat);
    lemma2_to64();
    assert(gap == 256 * gap_hi);
    assert(h * (256 * gap_hi) == 256 * (h * gap_hi)) by (nonlinear_arith);
    lemma_mod_multiples_vanish((h * gap_hi) as int, (v / pi) as int % 256, 256);
    vstd::arithmetic::div_mod::lemma_mod_twice((v / pi) as int, 256);
    assert((v / pi + 256 * (h * gap_hi)) % 256 == (v / pi) % 256) by {
        lemma_mod_multiples_vanish((h * gap_hi) as int, (v / pi) as int, 256);
    }
}

/// The digits at and above position `n` of `v + h * pow2(8n)` are `h`
/// exactly, when `v` fits in the low `n` bytes.
pub proof fn lemma_le_top(v: nat, h: nat, n: nat)
    requires
        v < pow2(8 * n),
    ensures
        (v + h * pow2(8 * n)) / pow2(8 * n) == h,
{
    let p = pow2(8 * n);
    lemma_pow2_pos(8 * n);
    assert(h * p == p * h) by (nonlinear_arith);
    vstd::arithmetic::div_mod::lemma_hoist_over_denominator(v as int, h as int, p);
    assert(v / p == 0) by {
        vstd::arithmetic::div_mod::lemma_basic_div(v as int, p as int);
    }
}

/// Compute `pow2(8 * i)` for byte positions within a `u64`.
pub fn byte_factor(i: usize) -> (r: u64)
    requires
        i <= 7,
    ensures
        r == pow2(8 * i as nat),
{
    proof {
        lemma2_to64();
        vstd::arithmetic::power2::lemma2_to64_rest();
    }
    match i {
        0 => 1,
        1 => 0x100,
        2 => 0x1_0000,
        3 => 0x100_0000,
        4 => 0x1_0000_0000,
        5 => 0x100_0000_0000,
        6 => 0x1_0000_0000_0000,
        _ => 0x100_0000_0000_0000,
    }
}

/// Read up to eight bytes as a little-endian `u64`.
pub fn u64_from_le_bytes(b: &[u8]) -> (r: u64)
    requires
        b@.len() <= 8,
    ensures
        r == le_val(b@),
{
    let len = b.len();
    let mut acc: u64 = 0;
    let mut j: usize = len;
    while j > 0
        invariant
            j <= len,
            len == b@.len() <= 8,
            acc == le_val(b@.skip(j as int)),
        decreases j,
    {
        j = j - 1;
        let digit = b[j];
        proof {
            let s = b@.skip(j as int);
            assert(s.drop_first() =~= b@.skip(j as int + 1));
            assert(s[0] == b@[j as int]);
            assert(le_val(s) == digit + 256 * le_val(s.drop_first()));
            lemma_le_val_bound(b@.skip(j as int + 1));
            let e = 8 * (len - j - 1) as nat;
            if e < 56 {
                vstd::arithmetic::power2::lemma_pow2_strictly_increases(e, 56);
            }
            lemma2_to64();
            vstd::arithmetic::power2::lemma2_to64_rest();
            assert(256 * le_val(b@.skip(j as int + 1))
                <= 256 * (pow2(56) - 1)) by (nonlinear_arith)
                requires
                    le_val(b@.skip(j as int + 1)) <= pow2(56) - 1,
            ;
        }
        acc = acc * 256 + digit as u64;
        proof {
            assert(acc == le_val(b@.skip(j as int)));
        }
    }
    proof {
        assert(b@.skip(0) =~= b@);
    }
    acc
}

/// Extract byte `i` of `v`, little-endian.
pub fn le_byte_of(v: u64, i: usize) -> (r: u8)
    requires
        i <= 7,
    ensures
        r == le_byte(v as nat, i as nat),
{
    let f = byte_factor(i);
    proof {
        lemma_pow2_pos(8 * i as nat);
    }
    ((v / f) % 256) as u8
}

/// The first `k` little-endian digits of `v` reassemble to `v` modulo
/// `pow2(8k)`.
pub proof fn lemma_le_digits(v: nat, k: nat)
    ensures
        le_val(Seq::new(k, |i: int| le_byte(v, i as nat))) == v % pow2(8 * k),
    decreases k,
{
    let s = Seq::new(k, |i: int| le_byte(v, i as nat));
    lemma2_to64();
    if k == 0 {
        assert(v % 1 == 0) by (nonlinear_arith);
    } else {
        let v1 = v / 256;
        let m = (k - 1) as nat;
        lemma_le_digits(v1, m);
        assert forall|i: int| 0 <= i < m implies s.drop_first()[i] == le_byte(v1, i as nat) by {
            lemma_pow2_adds(8, 8 * i as nat);
            lemma_pow2_pos(8 * i as nat);
            vstd::arithmetic::div_mod::lemma_div_denominator(
                v as int,
                256,
                pow2(8 * i as nat) as int,
            );
        }
        assert(s.drop_first() =~= Seq::new(m, |i: int| le_byte(v1, i as nat)));
        lemma_pow2_adds(8, 8 * m);
        lemma_pow2_pos(8 * m);
        vstd::arithmetic::div_mod::lemma_breakdown(v as int, 256, pow2(8 * m) as int);
        assert(le_byte(v, 0) == v % 256) by {
            assert(v / pow2(0) == v) by (nonlinear_arith)
                requires
                    pow2(0) == 1,
            ;
        }
        assert(le_val(s) == le_byte(v, 0) + 256 * le_val(s.drop_first()));
    }
}

/// The eight little-endian bytes of a `u64`.
pub open spec fn le_bytes8(v: u64) -> Seq<u8> {
    Seq::new(8, |i: int| le_byte(v as nat, i as nat))
}

/// Split a `u64` into its eight little-endian bytes.
pub fn u64_to_le_bytes(v: u64) -> (r: Vec<u8>)
    ensures
        r@ =~= le_bytes8(v),
{
    let mut r: Vec<u8> = Vec::new();
    let mut i: usize = 0;
    while i < 8
        invariant
            i <= 8,
            r@.len() == i,
            forall|j: int| 0 <= j < i ==> r@[j] == le_byte(v as nat, j as nat),
        decreases 8 - i,
    {
        let b = le_byte_of(v, i);
        r.push(b);
        i = i + 1;
    }
    r
}

/// Relies on `String::from_utf8`: it returns the string with exactly the
/// given bytes when they are valid UTF-8, and an error otherwise.
#[verifier::external_body]
pub fn bytes_to_string(v: Vec<u8>) -> (r: Option<String>)
    ensures
        match r {
            Some(s) => vstd::utf8::valid_utf8(v@) && vstd::utf8::encode_utf8(s@) =~= v@,
            None => !vstd::utf8::valid_utf8(v@),
        },
{
    match String::from_utf8(v) {
        Ok(s) => Some(s),
        Err(_) => None,
    }
}

} // verus!
