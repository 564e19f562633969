use maslow_desktop::api_settings::ApiSettings;
use maslow_desktop::auth::{check_key, generate_key, hash_key, to_hex};

fn settings_with_hash(hash: &str) -> ApiSettings {
    ApiSettings { enabled: true, api_key_hash: hash.to_string(), port_http: 8642, port_grpc: 50051 }
}

#[test]
fn default_settings_are_disabled_with_no_key() {
    let d = ApiSettings::default();
    assert!(!d.enabled);
    assert!(d.api_key_hash.is_empty());
    assert_eq!(d.port_http, 8642);
    assert_eq!(d.port_grpc, 50051);
}

#[test]
fn empty_hash_never_authenticates() {
    let settings = settings_with_hash("");
    assert!(!check_key(&settings, "anything"));
    assert!(!check_key(&settings, ""));
}

#[test]
fn correct_key_authenticates() {
    let key = generate_key();
    let settings = settings_with_hash(&hash_key(&key));
    assert!(check_key(&settings, &key));
}

#[test]
fn wrong_key_is_rejected() {
    let key = generate_key();
    let settings = settings_with_hash(&hash_key(&key));
    assert!(!check_key(&settings, "wrong-key"));
    assert!(!check_key(&settings, &generate_key()));
}

#[test]
fn key_similar_but_not_identical_is_rejected() {
    let key = generate_key();
    let settings = settings_with_hash(&hash_key(&key));
    let mut tampered = key.clone();
    tampered.pop();
    tampered.push(if key.ends_with('0') { '1' } else { '0' });
    assert!(!check_key(&settings, &tampered));
}

#[test]
fn hash_key_produces_64_char_hex_string() {
    let hash = hash_key("some-key");
    assert_eq!(hash.len(), 64);
    assert!(hash.chars().all(|c| c.is_ascii_hexdigit()));
}

#[test]
fn hash_key_is_deterministic_and_distinguishes_input() {
    assert_eq!(hash_key("same"), hash_key("same"));
    assert_ne!(hash_key("a"), hash_key("b"));
}

#[test]
fn hash_key_matches_known_sha256_digest() {
    assert_eq!(hash_key("abc"), "ba7816bf8f01cfea414140de5dae2223b00361a396177a9cb410ff61f20015ad");
    assert_eq!(hash_key(""), "e3b0c44298fc1c149afbf4c8996fb92427ae41e4649b934ca495991b7852b855");
}

#[test]
fn generate_key_is_32_hex_chars() {
    let key = generate_key();
    assert_eq!(key.len(), 32);
    assert!(key.chars().all(|c| c.is_ascii_hexdigit()));
}

#[test]
fn generate_key_produces_unique_keys() {
    assert_ne!(generate_key(), generate_key());
}

#[test]
fn hex_is_lowercase_two_digits_per_byte() {
    assert_eq!(to_hex(&[0x00, 0x0f, 0xa0, 0xff]), "000fa0ff");
    assert_eq!(to_hex(&[]), "");
}

#[test]
fn settings_view_reports_key_presence_only() {
    let v = settings_with_hash("abc").view_with(true);
    assert!(v.has_key && v.listening && v.enabled);
    assert!(!ApiSettings::default().view_with(false).has_key);
}

#[test]
fn generated_key_carries_the_v4_digits() {
    for _ in 0..20 {
        let key: Vec<char> = generate_key().chars().collect();
        assert_eq!(key.len(), 32);
        assert!(key.iter().all(|c| c.is_ascii_digit() || ('a'..='f').contains(c)));
        assert_eq!(key[12], '4');
        assert!(matches!(key[16], '8' | '9' | 'a' | 'b'));
    }
}
