use base64::engine::general_purpose::URL_SAFE;
use base64::Engine;
use gws::gmail::{
    decode_base64url, draft_raw_message, draft_summary, draft_update_body, encode_raw_message,
    extract_draft_body,
};
use gws::json::JsonValue;

fn s(v: &str) -> JsonValue {
    JsonValue::Str(v.to_string())
}

fn obj(entries: Vec<(&str, JsonValue)>) -> JsonValue {
    JsonValue::Object(entries.into_iter().map(|(k, v)| (k.to_string(), v)).collect())
}

#[test]
fn test_decode_base64url_valid() {
    let encoded = URL_SAFE.encode(b"Hello, world!");
    let decoded = decode_base64url(&encoded);
    assert_eq!(decoded, Some("Hello, world!".to_string()));
}

#[test]
fn test_decode_base64url_invalid() {
    let decoded = decode_base64url("not-valid-base64@@@");
    assert!(decoded.is_none());
}

#[test]
fn test_extract_draft_body_direct() {
    let encoded = URL_SAFE.encode(b"Draft body text");
    let payload = obj(vec![("body", obj(vec![("data", s(&encoded))])), ("mimeType", s("text/plain"))]);
    assert_eq!(extract_draft_body(&payload), "Draft body text");
}

#[test]
fn test_extract_draft_body_from_parts() {
    let encoded = URL_SAFE.encode(b"Part body text");
    let payload = obj(vec![
        ("body", obj(vec![("size", JsonValue::from_usize(0))])),
        ("mimeType", s("multipart/alternative")),
        (
            "parts",
            JsonValue::Array(vec![
                obj(vec![("mimeType", s("text/plain")), ("body", obj(vec![("data", s(&encoded))]))]),
                obj(vec![("mimeType", s("text/html")), ("body", obj(vec![("data", s("ignored"))]))]),
            ]),
        ),
    ]);
    assert_eq!(extract_draft_body(&payload), "Part body text");
}

#[test]
fn test_extract_draft_body_empty_payload() {
    let payload = obj(vec![]);
    assert_eq!(extract_draft_body(&payload), "");
}

#[test]
fn test_draft_update_rfc5322_format() {
    let to = "alice@example.com";
    let subject = "Test Subject";
    let body = "Hello Alice";
    let raw = draft_raw_message(to, subject, body);

    assert!(raw.starts_with("From: me\r\n"));
    assert!(raw.contains("To: alice@example.com\r\n"));
    assert!(raw.contains("Subject: Test Subject\r\n"));
    assert!(raw.ends_with("\r\n\r\nHello Alice"));

    // Verify base64url encoding roundtrip
    let encoded = encode_raw_message(&raw);
    let decoded_bytes = URL_SAFE.decode(&encoded).unwrap();
    let decoded = String::from_utf8(decoded_bytes).unwrap();
    assert_eq!(decoded, raw);
}

#[test]
fn raw_message_roundtrips_through_decode() {
    let raw = draft_raw_message("bob@example.com", "Hé", "Body ✓");
    let encoded = encode_raw_message(&raw);
    assert_eq!(encoded, URL_SAFE.encode(raw.as_bytes()));
    assert_eq!(decode_base64url(&encoded), Some(raw));
}

#[test]
fn decode_base64url_is_lossy_on_invalid_utf8() {
    let encoded = URL_SAFE.encode([0x61u8, 0xff, 0x62]);
    assert_eq!(decode_base64url(&encoded), Some("a\u{fffd}b".to_string()));
}

#[test]
fn extract_draft_body_skips_undecodable_direct_body() {
    let encoded = URL_SAFE.encode(b"from part");
    let payload = obj(vec![
        ("body", obj(vec![("data", s("@@@"))])),
        (
            "parts",
            JsonValue::Array(vec![
                obj(vec![("mimeType", s("text/plain")), ("body", obj(vec![("data", s("!!"))]))]),
                obj(vec![("mimeType", s("text/plain")), ("body", obj(vec![("data", s(&encoded))]))]),
            ]),
        ),
    ]);
    assert_eq!(extract_draft_body(&payload), "from part");
}

#[test]
fn draft_summary_takes_last_headers() {
    let encoded = URL_SAFE.encode(b"Hi");
    let draft = obj(vec![(
        "message",
        obj(vec![(
            "payload",
            obj(vec![
                (
                    "headers",
                    JsonValue::Array(vec![
                        obj(vec![("name", s("To")), ("value", s("a@x"))]),
                        obj(vec![("name", s("Subject")), ("value", s("S1"))]),
                        obj(vec![("name", s("To")), ("value", s("b@x"))]),
                    ]),
                ),
                ("body", obj(vec![("data", s(&encoded))])),
            ]),
        )]),
    )]);
    let out = draft_summary("d1", &draft);
    assert_eq!(out.at_key("id").as_str(), Some("d1"));
    assert_eq!(out.at_key("to").as_str(), Some("b@x"));
    assert_eq!(out.at_key("subject").as_str(), Some("S1"));
    assert_eq!(out.at_key("body").as_str(), Some("Hi"));
}

#[test]
fn draft_update_body_wraps_encoded_message() {
    let body = draft_update_body("carol@example.com", "Plan", "See you");
    let raw = body.at_key("message").at_key("raw").as_str().unwrap();
    let decoded = String::from_utf8(URL_SAFE.decode(raw).unwrap()).unwrap();
    assert_eq!(decoded, draft_raw_message("carol@example.com", "Plan", "See you"));
    assert_eq!(decoded, "From: me\r\nTo: carol@example.com\r\nSubject: Plan\r\n\r\nSee you");
}
