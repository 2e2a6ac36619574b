use axum_flash::{armor_value, dearmor_value, encode_messages, parse_flash_json, FlashMessage, Level};

fn msg(level: Level, text: &str) -> FlashMessage {
    FlashMessage::new(level, String::from(text))
}

fn chars(s: &str) -> Vec<char> {
    s.chars().collect()
}

#[test]
fn encode_empty_list() {
    let msgs: Vec<FlashMessage> = Vec::new();
    assert_eq!(encode_messages(&msgs), "[]");
}

#[test]
fn encode_single_message_exact() {
    let msgs = vec![msg(Level::Debug, "hi")];
    assert_eq!(encode_messages(&msgs), "[{\"l\":0,\"m\":\"hi\"}]");
}

#[test]
fn encode_two_messages_exact() {
    let msgs = vec![msg(Level::Info, "a"), msg(Level::Error, "b")];
    assert_eq!(encode_messages(&msgs), "[{\"l\":1,\"m\":\"a\"},{\"l\":4,\"m\":\"b\"}]");
}

#[test]
fn encode_escapes_quote_backslash_and_controls() {
    let msgs = vec![msg(Level::Warning, "a\"b\\c\nd")];
    assert_eq!(encode_messages(&msgs), "[{\"l\":3,\"m\":\"a\\\"b\\\\c\\u000ad\"}]");
}

#[test]
fn encode_keeps_unicode_verbatim() {
    let msgs = vec![msg(Level::Success, "héllo ✓")];
    assert_eq!(encode_messages(&msgs), "[{\"l\":2,\"m\":\"héllo ✓\"}]");
}

#[test]
fn parse_inverts_encode() {
    let msgs = vec![
        msg(Level::Debug, ""),
        msg(Level::Error, "quote \" backslash \\ tab \t"),
        msg(Level::Info, "plain"),
    ];
    let encoded = encode_messages(&msgs);
    let parsed = parse_flash_json(&chars(&encoded)).expect("canonical encoding must parse");
    assert_eq!(parsed, msgs);
}

#[test]
fn parse_accepts_exact_canonical_form_only() {
    assert!(parse_flash_json(&chars("[{\"l\":0,\"m\":\"hi\"}]")).is_some());
    // whitespace, reordered fields, or non-canonical escapes are refused
    assert!(parse_flash_json(&chars("[ {\"l\":0,\"m\":\"hi\"} ]")).is_none());
    assert!(parse_flash_json(&chars("[{\"m\":\"hi\",\"l\":0}]")).is_none());
    assert!(parse_flash_json(&chars("[{\"l\":0,\"m\":\"hi\"},]")).is_none());
    assert!(parse_flash_json(&chars("[{\"l\":0,\"m\":\"h\\u000Ai\"}]")).is_none());
    assert!(parse_flash_json(&chars("[{\"l\":0,\"m\":\"h\\u0041i\"}]")).is_none());
    assert!(parse_flash_json(&chars("")).is_none());
    assert!(parse_flash_json(&chars("[]x")).is_none());
    assert!(parse_flash_json(&chars("{\"l\":0}")).is_none());
}

#[test]
fn parse_rejects_out_of_range_level() {
    assert!(parse_flash_json(&chars("[{\"l\":5,\"m\":\"hi\"}]")).is_none());
    assert!(parse_flash_json(&chars("[{\"l\":9,\"m\":\"hi\"}]")).is_none());
    assert!(parse_flash_json(&chars("[{\"l\":4,\"m\":\"hi\"}]")).is_some());
}

#[test]
fn parse_rejects_raw_controls_and_unterminated_strings() {
    assert!(parse_flash_json(&chars("[{\"l\":0,\"m\":\"a\nb\"}]")).is_none());
    assert!(parse_flash_json(&chars("[{\"l\":0,\"m\":\"ab")).is_none());
    assert!(parse_flash_json(&chars("[{\"l\":0,\"m\":\"a\\x\"}]")).is_none());
}

#[test]
fn encoded_form_is_json_for_other_readers() {
    let msgs = vec![msg(Level::Debug, "hi \"there\"\n"), msg(Level::Warning, "ok")];
    let encoded = encode_messages(&msgs);
    let value: serde_json::Value = serde_json::from_str(&encoded).expect("valid JSON");
    let arr = value.as_array().expect("a JSON array");
    assert_eq!(arr.len(), 2);
    assert_eq!(arr[0].get("l").and_then(|v| v.as_u64()), Some(0));
    assert_eq!(arr[0].get("m").and_then(|v| v.as_str()), Some("hi \"there\"\n"));
    assert_eq!(arr[1].get("l").and_then(|v| v.as_u64()), Some(3));
    assert_eq!(arr[1].get("m").and_then(|v| v.as_str()), Some("ok"));
}

#[test]
fn armor_keeps_plain_text_and_escapes_the_rest() {
    assert_eq!(armor_value("abcXYZ0189+/="), "abcXYZ0189+/=");
    assert_eq!(armor_value("a;b"), "a%00003bb");
    assert_eq!(armor_value("a b"), "a%000020b");
    assert_eq!(armor_value("a,b"), "a%00002cb");
    assert_eq!(armor_value("a\"b"), "a%000022b");
    assert_eq!(armor_value("a\\b"), "a%00005cb");
    assert_eq!(armor_value("100%"), "100%000025");
    assert_eq!(armor_value("é"), "%0000e9");
    assert_eq!(armor_value("✓"), "%002713");
}

#[test]
fn dearmor_inverts_armor() {
    let samples = ["", "plain", "a;b c,d\"e\\f", "100% é ✓", "%%%"];
    for s in samples {
        let armored = armor_value(s);
        assert_eq!(dearmor_value(&armored).as_deref(), Some(s));
    }
}

#[test]
fn dearmor_accepts_canonical_forms_only() {
    assert_eq!(dearmor_value("abc").as_deref(), Some("abc"));
    assert!(dearmor_value("a b").is_none());
    assert!(dearmor_value("a;b").is_none());
    assert!(dearmor_value("%00003B").is_none());
    assert!(dearmor_value("%000061").is_none());
    assert!(dearmor_value("%0000").is_none());
    assert!(dearmor_value("%00d801").is_none());
    assert!(dearmor_value("a\u{7f}b").is_none());
}
