//! Tests for the sixteen-byte packed symbols and their pool.

use symtern::symbol::private::{Inline, PackFormat, Type, Unpacked};
use symtern::symbol::{Pool, Sym};

fn inline_test_strings() -> Vec<String> {
    (0u8..16u8)
        .map(|i| (0u8..i).map(|j| (j + b'a') as char).collect::<String>())
        .collect()
}

#[test]
fn tests_inline_as_slice() {
    for s in inline_test_strings() {
        let sym = Inline::new(&s);
        assert_eq!(sym.as_ref(), s);
    }
}

#[test]
fn tests_inline_packed_as_slice() {
    for s in inline_test_strings() {
        let inl = Inline::new(&s);
        assert_eq!(inl.as_ref(), s);
        assert_eq!(inl.pack().inline_str().unwrap(), s);
    }
}

#[test]
fn tests_inline_pack_unpack() {
    let foo = Inline::new("foo");
    assert_eq!(foo.as_ref(), "foo");

    let bar = foo.pack();

    println!("{:?}", foo);
    println!("{:?}", bar);

    if foo != foo {
        panic!("each symbol::Inline instance should be equal to itself");
    }
    if bar != bar {
        panic!("each symbol::Symbol instance should be equal to itself");
    }

    if Unpacked::Inline(foo) != bar.unpack() {
        panic!("pack-unpack cycle on a symbol::Inline should yield the same symbol");
    }
}

#[test]
fn tests_pooled_pack_unpack() {
    let mut pool = Pool::new();
    let a_str = "it was a very nice day";
    let b_str = "and everyone was happy";

    let a = pool.sym(a_str).0;
    let b = pool.sym(b_str).0;
    assert_eq!(a.type_of(), Type::POOLED);
    assert_eq!(b.type_of(), Type::POOLED);

    println!("{:?} => {:?}", a, pool.resolve(&Sym(a)));
    println!("{:?}", a.unpack());

    assert_eq!(a, a);
    if a == b || b == a {
        panic!("`a` and `b` are distinct symbols and should not be equal");
    }
    assert_eq!(a_str, pool.resolve(&Sym(a)).unwrap());
    assert_eq!(b_str, pool.resolve(&Sym(b)).unwrap());
}

#[test]
fn symbol_pool_resolves_inline_names_without_storage() {
    let mut pool = Pool::new();
    let short = pool.sym("tiny");
    assert_eq!(short.0.type_of(), Type::INLINE);
    assert_eq!("tiny", pool.resolve(&short).unwrap());

    // An inline symbol carries its name itself, so even a fresh pool
    // resolves it.
    let other = Pool::new();
    assert_eq!("tiny", other.resolve(&short).unwrap());
}

#[test]
fn symbol_pool_rejects_foreign_pooled_symbols() {
    let mut p1 = Pool::with_identity(1);
    let p2 = Pool::with_identity(2);
    let long = p1.sym("a name too long to pack inline");
    assert_eq!(long.0.type_of(), Type::POOLED);
    assert_eq!("a name too long to pack inline", p1.resolve(&long).unwrap());
    assert!(p2.resolve(&long).is_err());
}

#[test]
fn symbol_pool_sym_is_deterministic() {
    let mut pool = Pool::new();
    let a1 = pool.sym("tiny");
    let a2 = pool.sym("tiny");
    assert_eq!(a1, a2);

    let b1 = pool.sym("a name too long to pack inline");
    let b2 = pool.sym("a name too long to pack inline");
    assert_eq!(b1, b2);
}
