//! Tests for the shared-reference adaptor.

use symtern::adaptors::{Inline, Luma};
use symtern::Pool;

/// Check that we can, in fact, intern — and subsequently resolve — more
/// than one value at a time, all through a shared reference.
#[test]
fn can_intern_multiple_value() {
    let luma = Luma::from(Pool::<u64, u8>::new());
    let a = luma.intern(&0u64).expect("failed to intern value");
    let b = luma.intern(&1u64).expect("failed to intern value");
    assert!(a != b);
    assert_eq!(0u64, luma.resolve(a).unwrap());
    assert_eq!(1u64, luma.resolve(b).unwrap());
}

/// Check that we can use a Luma-over-Inline composition.
#[test]
fn can_luma_inline() {
    let luma: Luma<Inline<Pool<String, u64>>> = Luma::new();
    let x = luma.intern(&"x".to_string()).expect("failed to inline a value");
    let y = luma.intern(&"y".to_string()).expect("failed to inline a value");

    assert_eq!("x", luma.resolve(x).unwrap());
    assert_eq!("y", luma.resolve(y).unwrap());
}

#[test]
fn luma_reports_sizes() {
    let luma = Luma::from(Pool::<u64, u8>::new());
    assert!(luma.is_empty());
    luma.intern(&7u64).expect("failed to intern value");
    assert_eq!(1, luma.len());
    assert!(!luma.is_full());
}
