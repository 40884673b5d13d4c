//! The value-type primitives: identifiers, timestamps, keys, and the hex
//! rendering of key-exchange replies.

use medblock::encryption::EncryptionApi;
use medblock::patient::InternalBindingKey;
use medblock::types::{AsciiRecordsKey, Id, Principal, Timestamp};

#[test]
fn ids_compare_under_the_total_order() {
    let a = Id::from_parts(1, 5);
    let b = Id::from_parts(2, 0);
    let c = Id::from_parts(2, 7);
    assert!(a.le(&b));
    assert!(b.le(&c));
    assert!(a.le(&c));
    assert!(!c.le(&a));
    assert!(a.le(&a));
    assert_eq!(a, Id::from_parts(1, 5));
    assert_ne!(a, b);
}

#[test]
fn fresh_ids_differ() {
    let a = Id::new();
    let b = Id::new();
    assert_ne!(a, b);
}

#[test]
fn timestamps_hold_their_nanos() {
    let t = Timestamp::from_nanos(123);
    assert_eq!(t.as_nanos(), 123);
    assert!(t.le(&Timestamp::from_nanos(124)));
    assert!(!Timestamp::from_nanos(124).le(&t));
}

#[test]
fn ascii_keys_are_bounded_and_ascii() {
    let max: String = std::iter::repeat('x').take(100).collect();
    assert!(AsciiRecordsKey::new(max.clone()).is_ok());
    let over: String = std::iter::repeat('x').take(101).collect();
    assert!(AsciiRecordsKey::new(over).is_err());
    assert!(AsciiRecordsKey::new(String::from("café")).is_err());
    let key = AsciiRecordsKey::new(String::from("vitals")).unwrap();
    assert_eq!(key.as_string(), "vitals");
}

#[test]
fn binding_keys_validate_their_byte_length() {
    let exact: String = std::iter::repeat('a').take(32).collect();
    let key = InternalBindingKey::from_text(exact.clone()).unwrap();
    assert_eq!(key.as_str(), exact);

    let short: String = std::iter::repeat('a').take(31).collect();
    assert_eq!(InternalBindingKey::from_text(short).unwrap_err(), "invalid nik hash length");
    let long: String = std::iter::repeat('a').take(33).collect();
    assert!(InternalBindingKey::from_text(long).is_err());

    // Only the byte length is checked, not the characters: a two-byte
    // character followed by thirty ASCII ones is 32 bytes of text.
    let mixed: String = format!("é{}", "a".repeat(30));
    assert_eq!(mixed.len(), 32);
    let key = InternalBindingKey::from_text(mixed.clone()).unwrap();
    assert_eq!(key.as_str(), mixed);

    // 32 two-byte characters are 64 bytes and stay rejected.
    let wide: String = std::iter::repeat('é').take(32).collect();
    assert!(InternalBindingKey::from_text(wide).is_err());
}

#[test]
fn principals_compare_by_bytes() {
    let a = Principal::from_bytes(vec![1, 2, 3]);
    let b = Principal::from_bytes(vec![1, 2, 3]);
    let c = Principal::from_bytes(vec![1, 2, 4]);
    assert!(a.same_as(&b));
    assert!(!a.same_as(&c));
    assert!(a.duplicate().same_as(&a));
}

#[test]
fn hex_encoding_matches_expected_digits() {
    assert_eq!(EncryptionApi::encode_to_string(vec![0x48, 0x65, 0x6c]), "48656c");
    assert_eq!(EncryptionApi::encode_to_string(vec![0x00, 0xff, 0x0a]), "00ff0a");
    assert_eq!(EncryptionApi::encode_to_string(vec![]), "");
}
