//! Tests pinning the content-hash primitive to its documented algorithm.

use symtern::hashing::hash;

#[test]
fn hash_matches_published_test_vectors() {
    // FNV-1a, 64 bits: the empty input hashes to the offset basis, and
    // the published vectors for short inputs hold.
    assert_eq!(0xcbf29ce484222325, hash(b""));
    assert_eq!(0xaf63dc4c8601ec8c, hash(b"a"));
    assert_eq!(0xe71fa2190541574b, hash(b"abc"));
}

#[test]
fn hash_depends_on_the_bytes() {
    assert_ne!(hash(b"Hello"), hash(b"World"));
    assert_eq!(hash(b"Hello"), hash(b"Hello"));
}
