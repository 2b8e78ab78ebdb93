use cirith::auth::{hash_key, AuthValidator};
use cirith::config::{ApiKey, AuthConfig};

const SECRET_FINGERPRINT: &str = "2bb80d537b1da3e38bd30361aa855686bde0eacd7162fef6a25fe97bf527a25b";

fn validator(enabled: bool, hashes: &[&str]) -> AuthValidator {
    let api_keys = hashes
        .iter()
        .enumerate()
        .map(|(i, h)| ApiKey { name: format!("key{}", i), key_hash: h.to_string() })
        .collect();
    AuthValidator::new(&AuthConfig { enabled, api_keys })
}

#[test]
fn hash_key_is_sha256_hex() {
    assert_eq!(hash_key("secret"), SECRET_FINGERPRINT);
    assert_eq!(
        hash_key(""),
        "e3b0c44298fc1c149afbf4c8996fb92427ae41e4649b934ca495991b7852b855"
    );
}

#[test]
fn fingerprint_shape() {
    for k in ["", "a", "secret", "ünïcödé key", "x".repeat(1000).as_str()] {
        let h = hash_key(k);
        assert_eq!(h.len(), 64);
        assert!(h.chars().all(|c| c.is_ascii_digit() || ('a'..='f').contains(&c)));
    }
}

#[test]
fn fingerprint_is_deterministic() {
    assert_eq!(hash_key("another key"), hash_key("another key"));
    assert_ne!(hash_key("key-a"), hash_key("key-b"));
}

#[test]
fn disabled_auth_admits_missing_and_wrong_keys() {
    let v = validator(false, &[SECRET_FINGERPRINT]);
    assert!(!v.is_enabled());
    assert!(v.admits_request(None));
    assert!(v.validate("wrong"));
    assert!(v.admits_request(Some("wrong")));
}

#[test]
fn enabled_auth_checks_fingerprints() {
    let v = validator(true, &["00", SECRET_FINGERPRINT]);
    assert!(v.is_enabled());
    assert!(v.validate("secret"));
    assert!(!v.validate("Secret"));
    assert!(!v.admits_request(None));
    assert!(v.admits_request(Some("secret")));
}

#[test]
fn enabled_auth_with_no_keys_rejects_all() {
    let v = validator(true, &[]);
    assert!(!v.validate("secret"));
    assert!(!v.validate(""));
}
