use axum_flash::{
    decode_cookie_value, encode_cookie_value, FlashMessage, Level, SigningKey,
};

fn msg(level: Level, text: &str) -> FlashMessage {
    FlashMessage::new(level, String::from(text))
}

#[test]
fn round_trip_preserves_order_and_content() {
    let key = SigningKey::generate();
    let msgs = vec![
        msg(Level::Error, "first"),
        msg(Level::Debug, "second; with, punctuation"),
        msg(Level::Success, "third \"quoted\"\n"),
        msg(Level::Info, "non-ASCII: héllo ✓"),
    ];
    let value = encode_cookie_value(&msgs, &key);
    let decoded = decode_cookie_value(&value, &key);
    assert_eq!(decoded, msgs);
}

#[test]
fn round_trip_empty_list() {
    let key = SigningKey::generate();
    let msgs: Vec<FlashMessage> = Vec::new();
    let value = encode_cookie_value(&msgs, &key);
    let decoded = decode_cookie_value(&value, &key);
    assert!(decoded.is_empty());
}

#[test]
fn round_trip_with_fixed_key() {
    let key = SigningKey::from_master((0u8..64).collect()).expect("64 bytes");
    let msgs = vec![msg(Level::Info, "fixed key")];
    let value = encode_cookie_value(&msgs, &key);
    assert_eq!(decode_cookie_value(&value, &key), msgs);
}

#[test]
fn from_master_rejects_wrong_length() {
    assert!(SigningKey::from_master(vec![0u8; 63]).is_none());
    assert!(SigningKey::from_master(vec![0u8; 0]).is_none());
    assert!(SigningKey::from_master(vec![0u8; 64]).is_some());
}

#[test]
fn tampering_with_any_byte_yields_empty() {
    let key = SigningKey::generate();
    let msgs = vec![msg(Level::Warning, "do not touch")];
    let value = encode_cookie_value(&msgs, &key);
    let bytes = value.as_bytes();
    for i in 0..bytes.len() {
        let mut flipped = bytes.to_vec();
        flipped[i] ^= 0x01;
        let Ok(s) = String::from_utf8(flipped) else {
            continue;
        };
        let decoded = decode_cookie_value(&s, &key);
        assert!(decoded.is_empty(), "byte {} flipped but decode was non-empty", i);
    }
}

#[test]
fn truncation_and_extension_yield_empty() {
    let key = SigningKey::generate();
    let msgs = vec![msg(Level::Info, "whole")];
    let value = encode_cookie_value(&msgs, &key);
    let decoded = decode_cookie_value(&value[..value.len() - 1], &key);
    assert!(decoded.is_empty());
    let longer = format!("{}x", value);
    assert!(decode_cookie_value(&longer, &key).is_empty());
}

#[test]
fn wrong_key_yields_empty() {
    let key_a = SigningKey::generate();
    let key_b = SigningKey::generate();
    let msgs = vec![msg(Level::Error, "secret-ish")];
    let value = encode_cookie_value(&msgs, &key_a);
    assert_eq!(decode_cookie_value(&value, &key_a), msgs);
    assert!(decode_cookie_value(&value, &key_b).is_empty());
}

#[test]
fn garbage_values_yield_empty() {
    let key = SigningKey::generate();
    assert!(decode_cookie_value("", &key).is_empty());
    assert!(decode_cookie_value("not a cookie", &key).is_empty());
    assert!(decode_cookie_value("[{\"l\":0,\"m\":\"unsigned\"}]", &key).is_empty());
    let long = "A".repeat(5000);
    assert!(decode_cookie_value(&long, &key).is_empty());
}

#[test]
fn cookie_value_survives_cookie_restrictions() {
    let key = SigningKey::generate();
    let msgs = vec![msg(Level::Info, "hi there; \"quoted\", back\\slash é ✓")];
    let value = encode_cookie_value(&msgs, &key);
    for b in value.bytes() {
        assert!(b > 0x20 && b < 0x7f, "byte {} is not printable ASCII", b);
        assert!(b != b'"' && b != b',' && b != b';' && b != b'\\');
    }
    assert_eq!(decode_cookie_value(&value, &key), msgs);
}
