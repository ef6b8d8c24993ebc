//! Content addressing: determinism, fixed length, and known digest values.

use hls_cache::keys::derive_key;

#[test]
fn derive_key_is_deterministic() {
    let a = derive_key("https://example.test/a");
    let b = derive_key("https://example.test/a");
    assert_eq!(a, b);
}

#[test]
fn derive_key_has_fixed_length() {
    assert_eq!(derive_key("").len(), 64);
    assert_eq!(derive_key("https://example.test/a").len(), 64);
    assert_eq!(
        derive_key("a rather longer origin identifier, to show the length does not follow the input").len(),
        64
    );
}

#[test]
fn derive_key_matches_known_digests() {
    // SHA-256 of the empty input and of "abc", hex-encoded: standard test vectors.
    assert_eq!(
        derive_key(""),
        "e3b0c44298fc1c149afbf4c8996fb92427ae41e4649b934ca495991b7852b855"
    );
    assert_eq!(
        derive_key("abc"),
        "ba7816bf8f01cfea414140de5dae2223b00361a396177a9cb410ff61f20015ad"
    );
}

#[test]
fn derive_key_is_lowercase_hex() {
    let k = derive_key("https://example.test/a");
    assert!(k.chars().all(|c| c.is_ascii_hexdigit() && !c.is_ascii_uppercase()));
}

#[test]
fn different_urls_get_different_keys() {
    assert_ne!(derive_key("https://example.test/a"), derive_key("https://example.test/b"));
}
