//! Tests for the short-string inline adaptor.

use symtern::adaptors::inline::Pack;
use symtern::adaptors::Inline;
use symtern::traits::{Intern, Len, Resolve, Symbol};
use symtern::{ErrorKind, Pool};

#[test]
fn inline_test_msb_mask() {
    assert_eq!(1u16 << 15, <u16 as Pack>::msb_mask());
    assert_eq!(1u32 << 31, <u32 as Pack>::msb_mask());
    assert_eq!(1u64 << 63, <u64 as Pack>::msb_mask());
}

/// Check that the pool's size is affected only by non-inlined values.
#[test]
fn inline_inlined_values_do_not_affect_size() {
    let mut pool = Inline::<Pool<String, u16>>::new();
    assert!(pool.is_empty());

    // Inlined values shouldn't contribute to the pool's size.
    let x = pool
        .intern(&"x".to_string())
        .expect("failed to intern single-character string");
    assert_eq!(0, pool.len());
    assert!(x.id().is_inlined());
    assert_eq!("x", pool.resolve(&x).unwrap());

    let xy = pool
        .intern(&"xy".to_string())
        .expect("failed to intern two-character string");
    assert_eq!(1, pool.len());
    assert!(!xy.id().is_inlined());
    assert_eq!("xy", pool.resolve(&xy).unwrap());
}

/// Check that we can stack Inline adaptors and still resolve through them.
#[test]
fn can_stack_inliners() {
    let mut pool = Inline::<Inline<Pool<String, u16>>>::new();
    let xy = pool
        .intern(&"xy".to_string())
        .expect("failed to intern two-character string");
    assert_eq!("xy", pool.resolve(&xy).unwrap());
}

#[test]
fn inline_u64_scenario() {
    let mut pool = Inline::<Pool<String, u64>>::new();

    let x = pool.intern(&"x".to_string()).expect("failed to intern a value");
    let xy = pool.intern(&"xy".to_string()).expect("failed to intern a value");
    assert!(x != xy);
    assert!(x.id().is_inlined());
    assert!(xy.id().is_inlined());
    assert_eq!(0, pool.len());

    // A u64 id holds up to seven inline bytes; the eighth byte forces the
    // value into the wrapped pool.
    let seven = pool
        .intern(&"abcdefg".to_string())
        .expect("failed to intern seven-byte string");
    assert!(seven.id().is_inlined());
    assert_eq!(0, pool.len());

    let eight = pool
        .intern(&"abcdefgh".to_string())
        .expect("failed to intern eight-byte string");
    assert!(!eight.id().is_inlined());
    assert_eq!(1, pool.len());

    assert_eq!("abcdefg", pool.resolve(&seven).unwrap());
    assert_eq!("abcdefgh", pool.resolve(&eight).unwrap());
}

/// Every length from zero up to the maximum inlinable length, for every
/// supported integer width, round-trips through `intern` and `resolve`.
#[test]
fn inline_boundary_lengths() {
    let sample = "abcdefghijklmnop";

    let mut p16 = Inline::<Pool<String, u16>>::new();
    for n in 0usize..2 {
        let s = sample[..n].to_string();
        let sym = p16.intern(&s).expect("failed to intern short string");
        assert!(sym.id().is_inlined());
        assert_eq!(0, p16.len());
        assert_eq!(s, p16.resolve(&sym).unwrap());
    }
    let spill16 = p16.intern(&sample[..2].to_string()).unwrap();
    assert!(!spill16.id().is_inlined());
    assert_eq!(1, p16.len());

    let mut p32 = Inline::<Pool<String, u32>>::new();
    for n in 0usize..4 {
        let s = sample[..n].to_string();
        let sym = p32.intern(&s).expect("failed to intern short string");
        assert!(sym.id().is_inlined());
        assert_eq!(0, p32.len());
        assert_eq!(s, p32.resolve(&sym).unwrap());
    }
    let spill32 = p32.intern(&sample[..4].to_string()).unwrap();
    assert!(!spill32.id().is_inlined());
    assert_eq!(1, p32.len());

    let mut p64 = Inline::<Pool<String, u64>>::new();
    for n in 0usize..8 {
        let s = sample[..n].to_string();
        let sym = p64.intern(&s).expect("failed to intern short string");
        assert!(sym.id().is_inlined());
        assert_eq!(0, p64.len());
        assert_eq!(s, p64.resolve(&sym).unwrap());
    }
    let spill64 = p64.intern(&sample[..8].to_string()).unwrap();
    assert!(!spill64.id().is_inlined());
    assert_eq!(1, p64.len());
}

/// The adaptor reports itself full at half the id range, however many
/// further values were inlined, and fails fast from there on.
#[test]
fn capacity_halving_scenario() {
    let mut pool = Inline::<Pool<String, u16>>::new();

    // Fill the halved table: 1 << 15 distinct strings too long to inline.
    for i in 0..(1u32 << 15) {
        assert!(!pool.is_full());
        let s = format!("{:05}", i);
        pool.intern(&s).expect("failed to intern value");
    }
    assert_eq!(1usize << 15, pool.len());
    assert!(pool.is_full());

    // Inlined values still work and occupy no slot.
    let x = pool.intern(&"x".to_string()).expect("failed to intern short string");
    assert!(x.id().is_inlined());
    assert_eq!(1usize << 15, pool.len());

    // A fresh too-long value is refused.
    match pool.intern(&"another one".to_string()) {
        Ok(_) => panic!("unexpected `Ok` when interning unseen value in full pool"),
        Err(e) => assert_eq!(ErrorKind::PoolOverflow, e.kind()),
    }
}

/// Resolving a symbol this pool never issued reports `NoSuchSymbol`
/// rather than inventing a value.
#[test]
fn inline_resolving_foreign_symbol_fails() {
    let mut pool = Inline::<Pool<String, u16>>::new();
    let mut other = Inline::<Pool<String, u16>>::new();
    let xy = other.intern(&"xy".to_string()).unwrap();
    // `pool` has no entries, so the foreign table id is out of range.
    match pool.resolve(&xy) {
        Ok(_) => panic!("resolved a symbol the pool never issued"),
        Err(e) => assert_eq!(ErrorKind::NoSuchSymbol, e.kind()),
    }
}
