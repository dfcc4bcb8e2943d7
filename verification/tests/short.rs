//! Tests for the short-string pool.

use symtern::short::{Pack, Pool};
use symtern::traits::{Intern, Len, Symbol};

#[test]
fn short_test_msb_mask() {
    assert_eq!(1u16 << 15, <u16 as Pack>::msb_mask());
    assert_eq!(1u32 << 31, <u32 as Pack>::msb_mask());
    assert_eq!(1u64 << 63, <u64 as Pack>::msb_mask());
}

/// Check that the pool's size is affected only by non-inlined values.
#[test]
fn short_inlined_values_do_not_affect_size() {
    let mut pool = Pool::<u16>::new();
    assert!(pool.is_empty());

    // Inlined values shouldn't contribute to the pool's size.
    let x = pool
        .intern(&"x".to_string())
        .expect("failed to intern single-character string");
    assert_eq!(0, pool.len());
    assert!(x.id().is_inlined());
    assert_eq!("x", pool.resolve_ref(&x).unwrap());

    let xy = pool
        .intern(&"xy".to_string())
        .expect("failed to intern two-character string");
    assert_eq!(1, pool.len());
    assert!(!xy.id().is_inlined());
    assert_eq!("xy", pool.resolve_ref(&xy).unwrap());
}
