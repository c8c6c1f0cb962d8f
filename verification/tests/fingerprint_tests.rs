use example_chat::fingerprinter::username_from_fingerprint;

#[test]
fn username_has_expected_shape() {
    let u = username_from_fingerprint("127.0.0.1browser/1.0");
    assert_eq!(u.len(), 11);
    assert!(u.starts_with("user_"));
    assert!(u[5..].chars().all(|c| c.is_ascii_hexdigit()));
}

#[test]
fn username_matches_known_digest() {
    // SHA-256 of the empty string begins e3b0c4...
    assert_eq!(username_from_fingerprint(""), "user_e3b0c4");
    // SHA-256 of "abc" begins ba7816...
    assert_eq!(username_from_fingerprint("abc"), "user_ba7816");
}

#[test]
fn username_is_deterministic_across_calls() {
    let a = username_from_fingerprint("10.0.0.7agent");
    let b = username_from_fingerprint("10.0.0.7agent");
    let c = username_from_fingerprint("10.0.0.7agent");
    assert_eq!(a, b);
    assert_eq!(b, c);
}

#[test]
fn different_fingerprints_get_different_names() {
    let a = username_from_fingerprint("host-a");
    let b = username_from_fingerprint("host-b");
    assert_ne!(a, b);
}
