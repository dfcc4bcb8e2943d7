//! Tests for the basic hash-based interner.

use symtern::traits::{Intern, Len, Resolve, ResolveUnchecked, SymbolId};
use symtern::{ErrorKind, Pool};

#[test]
fn resolve_returns_expected_results() {
    let mut p1 = Pool::<String, u16>::new();
    let mut p2 = Pool::<String, u16>::new();

    let s1 = p1.intern(&"foo".to_string()).unwrap();
    let s2 = p2.intern(&"bar".to_string()).unwrap();

    assert_eq!("foo", p1.resolve(s1).unwrap());
    assert_eq!("bar", p2.resolve(s2).unwrap());
}

#[test]
fn has_expected_len_and_capacity() {
    let mut pool = Pool::<u16, u8>::new();

    assert!(pool.is_empty());

    for i in 0u16..200 {
        pool.intern(&i).expect("failed to intern value");
    }
    assert_eq!(200, pool.len());
    assert!(!pool.is_full());

    for i in 150u16..250 {
        pool.intern(&i).expect("failed to intern value");
    }
    assert_eq!(250, pool.len());
    assert!(!pool.is_full());

    for i in 250u16..256 {
        pool.intern(&i).expect("failed to intern value");
    }
    assert_eq!(256, pool.len());
    assert!(pool.is_full());

    // The pool is full, but interning previously-interned values should
    // still result in Ok(_).
    pool.intern(&123)
        .expect("failed to intern previously-interned value");
    match pool.intern(&456) {
        Ok(_) => panic!("unexpected `Ok` when interning unseen value in full pool"),
        Err(e) => assert_eq!(ErrorKind::PoolOverflow, e.kind()),
    }
}

#[test]
fn intern_hello_world_round_trip() {
    let mut pool = Pool::<String, u8>::new();
    let hello = pool.intern(&"Hello".to_string()).unwrap();
    let world = pool.intern(&"World".to_string()).unwrap();

    assert!(hello != world);
    assert_eq!(hello, hello);
    assert_eq!("Hello", pool.resolve(hello).unwrap());
    assert_eq!("World", pool.resolve(world).unwrap());
    assert_eq!(Ok(hello), pool.intern(&"Hello".to_string()));
    assert_eq!(Ok(world), pool.intern(&"World".to_string()));
}

#[test]
fn overflow_boundary_scenario() {
    let mut pool = Pool::<u16, u8>::new();
    for i in 0u16..256 {
        pool.intern(&i).expect("failed to intern value");
    }
    assert!(pool.is_full());
    pool.intern(&123)
        .expect("failed to intern previously-interned value");
    match pool.intern(&1234) {
        Ok(_) => panic!("unexpected `Ok` when interning unseen value in full pool"),
        Err(e) => assert_eq!(ErrorKind::PoolOverflow, e.kind()),
    }
}

#[test]
fn dedup_is_idempotent() {
    let mut pool = Pool::<String, u32>::new();
    let first = pool.intern(&"again".to_string()).unwrap();
    let len_after_first = pool.len();
    for _ in 0u32..10 {
        let s = pool.intern(&"again".to_string()).unwrap();
        assert_eq!(first, s);
    }
    assert_eq!(len_after_first, pool.len());
    assert_eq!(1, pool.len());
}

#[test]
fn cross_pool_resolution_is_rejected() {
    let mut p1 = Pool::<String, u16>::with_identity(1);
    let mut p2 = Pool::<String, u16>::with_identity(2);

    let foo = p1.intern(&"foo".to_string()).unwrap();
    // Give p2 an entry, so the foreign id is numerically in range.
    p2.intern(&"unrelated".to_string()).unwrap();

    match p2.resolve(foo) {
        Ok(_) => panic!("resolved a symbol on a pool that did not create it"),
        Err(e) => assert_eq!(ErrorKind::NoSuchSymbol, e.kind()),
    }
    assert_eq!("foo", p1.resolve(foo).unwrap());
}

#[test]
fn resolving_out_of_range_id_fails() {
    let mut p1 = Pool::<String, u16>::new();
    let p2 = Pool::<String, u16>::new();
    let s = p1.intern(&"foo".to_string()).unwrap();
    match p2.resolve(s) {
        Ok(_) => panic!("resolved an id the pool never issued"),
        Err(e) => assert_eq!(ErrorKind::NoSuchSymbol, e.kind()),
    }
}

#[test]
fn resolve_unchecked_returns_stored_value() {
    let mut pool = Pool::<u64, u8>::new();
    let s = pool.intern(&42u64).unwrap();
    assert_eq!(42u64, pool.resolve_unchecked(&s));
}

#[test]
fn resolve_trait_returns_owned_copy() {
    let mut pool = Pool::<String, u16>::new();
    let s = pool.intern(&"owned".to_string()).unwrap();
    let out: String = Resolve::resolve(&pool, &s).unwrap();
    assert_eq!("owned", out);
}

#[test]
fn error_values_report_their_kind() {
    let overflow = symtern::Error::new(ErrorKind::PoolOverflow);
    assert_eq!(ErrorKind::PoolOverflow, overflow.kind());
    assert_eq!("out of space for new symbols", overflow.description());

    let missing = symtern::Error::from(ErrorKind::NoSuchSymbol);
    assert_eq!(ErrorKind::NoSuchSymbol, missing.kind());
    assert_eq!("no such symbol found", missing.description());
}

#[test]
fn id_types_report_their_maximum() {
    assert_eq!(u8::MAX, <u8 as SymbolId>::max_value());
    assert_eq!(u16::MAX, <u16 as SymbolId>::max_value());
    assert_eq!(u32::MAX, <u32 as SymbolId>::max_value());
    assert_eq!(u64::MAX, <u64 as SymbolId>::max_value());
    assert_eq!(usize::MAX, <usize as SymbolId>::max_value());
}
