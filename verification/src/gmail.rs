//! Gmail draft helpers: reading a draft's headers and body, and building the
//! raw message of an update.
use vstd::prelude::*;
use vstd::utf8::{decode_utf8, encode_utf8, encode_utf8_decode_utf8, encode_utf8_valid_utf8, valid_utf8};
use base64::Engine;
use crate::json::{entry, entry_views, obj1, views, Json, JsonValue};
use crate::text::same_text;

verus! {

/// What the `base64` crate's `URL_SAFE` engine decodes from the given text
/// bytes (`None` when it rejects them).
pub uninterp spec fn base64url_decode(input: Seq<u8>) -> Option<Seq<u8>>;

/// What the `base64` crate's `URL_SAFE` engine encodes the given bytes as.
pub uninterp spec fn base64url_encode(input: Seq<u8>) -> Seq<char>;

/// What `String::from_utf8_lossy` makes of bytes that are not valid UTF-8.
pub uninterp spec fn utf8_lossy(bytes: Seq<u8>) -> Seq<char>;

/// The byte lengths whose padded base64 length fits in a `usize`
/// (`base64::encoded_len` panics on the others).
pub open spec fn base64_len_ok(n: nat) -> bool {
    (n / 3) * 4 + (if n % 3 == 0 {
        0int
    } else {
        4int
    }) <= usize::MAX
}

/// Decodes with `base64::engine::general_purpose::URL_SAFE`.
///
/// Trusted: `Engine::decode` of the `base64` crate; its result is named
/// `base64url_decode` of the input bytes, `None` standing for its error.
#[verifier::external_body]
fn url_safe_decode(data: &str) -> (r: Option<Vec<u8>>)
    ensures
        match r {
            Some(b) => base64url_decode(encode_utf8(data@)) == Some(b@),
            None => base64url_decode(encode_utf8(data@)) is None,
        },
{
    base64::engine::general_purpose::URL_SAFE.decode(data.as_bytes()).ok()
}

/// Encodes with `base64::engine::general_purpose::URL_SAFE`.
///
/// Trusted: `Engine::encode` of the `base64` crate. Its result is named
/// `base64url_encode` of the input; the crate's padded, canonical encoding is
/// decoded by the same engine back into the input.
#[verifier::external_body]
fn url_safe_encode(bytes: &[u8]) -> (r: String)
    requires
        base64_len_ok(bytes@.len()),
    ensures
        r@ == base64url_encode(bytes@),
        base64url_decode(encode_utf8(r@)) == Some(bytes@),
{
    base64::engine::general_purpose::URL_SAFE.encode(bytes)
}

/// Turns bytes into text, replacing invalid UTF-8 sequences.
///
/// Trusted: std's `String::from_utf8_lossy`. On valid UTF-8 it is the decoded
/// text unchanged (as its documentation states); on other bytes its result is
/// named `utf8_lossy` of the bytes.
#[verifier::external_body]
fn from_utf8_lossy(bytes: &[u8]) -> (r: String)
    ensures
        r@ == (if valid_utf8(bytes@) {
            decode_utf8(bytes@)
        } else {
            utf8_lossy(bytes@)
        }),
{
    String::from_utf8_lossy(bytes).to_string()
}

/// The text of bytes read as UTF-8, invalid sequences replaced.
pub open spec fn lossy_text(bytes: Seq<u8>) -> Seq<char> {
    if valid_utf8(bytes) {
        decode_utf8(bytes)
    } else {
        utf8_lossy(bytes)
    }
}

/// What `decode_base64url` gives: the base64url-decoded bytes read as UTF-8
/// (lossily), or `None` when the text is not valid base64url.
pub open spec fn decoded_text(data: Seq<char>) -> Option<Seq<char>> {
    match base64url_decode(encode_utf8(data)) {
        Some(b) => Some(lossy_text(b)),
        None => None,
    }
}

/// Decodes a base64url-encoded string, `None` on failure.
pub fn decode_base64url(data: &str) -> (r: Option<String>)
    ensures
        match r {
            Some(s) => decoded_text(data@) == Some(s@),
            None => decoded_text(data@) is None,
        },
{
    match url_safe_decode(data) {
        Some(bytes) => Some(from_utf8_lossy(bytes.as_slice())),
        None => None,
    }
}

/// `v.body.data` as a string, when present.
pub open spec fn body_data(v: Json) -> Option<Seq<char>> {
    match v.get("body"@) {
        Some(b) => match b.get("data"@) {
            Some(d) => d.as_str(),
            None => None,
        },
        None => None,
    }
}

/// The decoded body data of a message part, when it has decodable data.
pub open spec fn decoded_body(v: Json) -> Option<Seq<char>> {
    match body_data(v) {
        Some(d) => decoded_text(d),
        None => None,
    }
}

/// The `mimeType` of a message part as a string, empty when absent.
pub open spec fn mime_type(v: Json) -> Seq<char> {
    match v.get("mimeType"@) {
        Some(m) => match m.as_str() {
            Some(t) => t,
            None => Seq::empty(),
        },
        None => Seq::empty(),
    }
}

/// The decoded body of the first `text/plain` part, among `parts`, whose
/// body data decodes.
pub open spec fn first_plain_body(parts: Seq<Json>) -> Option<Seq<char>>
    decreases parts.len(),
{
    if parts.len() == 0 {
        None
    } else if mime_type(parts[0]) == "text/plain"@ && decoded_body(parts[0]) is Some {
        decoded_body(parts[0])
    } else {
        first_plain_body(parts.drop_first())
    }
}

/// The body text of a draft payload: its own body data if that decodes,
/// else the first decodable `text/plain` part, else empty.
pub open spec fn draft_body(payload: Json) -> Seq<char> {
    match decoded_body(payload) {
        Some(t) => t,
        None => match payload.get("parts"@) {
            Some(p) => match p.as_array() {
                Some(parts) => match first_plain_body(parts) {
                    Some(t) => t,
                    None => Seq::empty(),
                },
                None => Seq::empty(),
            },
            None => Seq::empty(),
        },
    }
}

fn body_data_of(v: &JsonValue) -> (r: Option<&str>)
    ensures
        match r {
            Some(d) => body_data(v@) == Some(d@),
            None => body_data(v@) is None,
        },
{
    match v.get("body") {
        Some(b) => match b.get("data") {
            Some(d) => d.as_str(),
            None => None,
        },
        None => None,
    }
}

fn decoded_body_of(v: &JsonValue) -> (r: Option<String>)
    ensures
        match r {
            Some(t) => decoded_body(v@) == Some(t@),
            None => decoded_body(v@) is None,
        },
{
    match body_data_of(v) {
        Some(d) => decode_base64url(d),
        None => None,
    }
}

fn is_plain_text(v: &JsonValue) -> (r: bool)
    ensures
        r == (mime_type(v@) == "text/plain"@),
{
    let mime = match v.get("mimeType") {
        Some(m) => match m.as_str() {
            Some(t) => t,
            None => "",
        },
        None => "",
    };
    proof {
        reveal_strlit("");
        assert(mime@ == mime_type(v@));
    }
    same_text(mime, "text/plain")
}

/// Extracts the body text from a draft payload: `payload.body.data` first
/// (single-part messages), then the first `text/plain` part.
pub fn extract_draft_body(payload: &JsonValue) -> (r: String)
    ensures
        r@ == draft_body(payload@),
{
    if let Some(decoded) = decoded_body_of(payload) {
        return decoded;
    }
    if let Some(p) = payload.get("parts") {
        if let Some(parts) = p.as_array() {
            let ghost ps = views(parts@);
            let mut i: usize = 0;
            assert(ps.skip(0) =~= ps);
            while i < parts.len()
                invariant
                    i <= parts.len(),
                    ps == views(parts@),
                    decoded_body(payload@) is None,
                    payload@.get("parts"@) == Some(p@),
                    p@.as_array() == Some(ps),
                    first_plain_body(ps) == first_plain_body(ps.skip(i as int)),
                decreases parts.len() - i,
            {
                assert(ps.skip(i as int).drop_first() =~= ps.skip(i + 1));
                assert(ps.skip(i as int)[0] == parts@[i as int]@);
                if is_plain_text(&parts[i]) {
                    if let Some(decoded) = decoded_body_of(&parts[i]) {
                        return decoded;
                    }
                }
                i = i + 1;
            }
            assert(ps.skip(i as int).len() == 0);
        }
    }
    String::new()
}

/// The `name` or `value` of a header, empty when absent or not a string.
pub open spec fn header_field(h: Json, key: Seq<char>) -> Seq<char> {
    match h.get(key) {
        Some(v) => match v.as_str() {
            Some(t) => t,
            None => Seq::empty(),
        },
        None => Seq::empty(),
    }
}

/// The value of the last header named `name` among `headers`, empty if none.
pub open spec fn last_header(headers: Seq<Json>, name: Seq<char>) -> Seq<char>
    decreases headers.len(),
{
    if headers.len() == 0 {
        Seq::empty()
    } else if header_field(headers.last(), "name"@) == name {
        header_field(headers.last(), "value"@)
    } else {
        last_header(headers.drop_last(), name)
    }
}

/// The payload of a draft: `draft.message.payload`, `Null` when absent.
pub open spec fn draft_payload(draft: Json) -> Json {
    let message = match draft.get("message"@) {
        Some(m) => m,
        None => Json::Null,
    };
    match message.get("payload"@) {
        Some(p) => p,
        None => Json::Null,
    }
}

/// The headers of a payload: `payload.headers` as an array, none otherwise.
pub open spec fn payload_headers(payload: Json) -> Seq<Json> {
    match payload.get("headers"@) {
        Some(h) => h.elems(),
        None => Seq::empty(),
    }
}

/// The summary printed for a draft: `{id, to, subject, body}`.
pub open spec fn draft_summary_spec(draft_id: Seq<char>, draft: Json) -> Json {
    let payload = draft_payload(draft);
    let headers = payload_headers(payload);
    Json::Object(
        seq![
            ("id"@, Json::Str(draft_id)),
            ("to"@, Json::Str(last_header(headers, "To"@))),
            ("subject"@, Json::Str(last_header(headers, "Subject"@))),
            ("body"@, Json::Str(draft_body(payload))),
        ],
    )
}

fn header_field_of<'a>(h: &'a JsonValue, key: &str) -> (r: &'a str)
    ensures
        r@ == header_field(h@, key@),
{
    proof {
        reveal_strlit("");
    }
    match h.get(key) {
        Some(v) => match v.as_str() {
            Some(t) => t,
            None => "",
        },
        None => "",
    }
}

/// The id, recipient, subject and body text of a fetched draft; for each of
/// `To` and `Subject` the last such header counts.
pub fn draft_summary(draft_id: &str, draft: &JsonValue) -> (r: JsonValue)
    ensures
        r@ == draft_summary_spec(draft_id@, draft@),
{
    let message = match draft.get("message") {
        Some(m) => m,
        None => &JsonValue::Null,
    };
    let payload = match message.get("payload") {
        Some(p) => p,
        None => &JsonValue::Null,
    };
    let mut subject = String::new();
    let mut to = String::new();
    let ghost hs = payload_headers(payload@);
    if let Some(h) = payload.get("headers") {
        if let Some(headers) = h.as_array() {
            assert(hs == views(headers@));
            assert(hs.take(0) =~= Seq::<Json>::empty());
            proof {
                reveal_strlit("Subject");
                reveal_strlit("To");
            }
            let mut i: usize = 0;
            while i < headers.len()
                invariant
                    i <= headers.len(),
                    hs == views(headers@),
                    subject@ == last_header(hs.take(i as int), "Subject"@),
                    to@ == last_header(hs.take(i as int), "To"@),
                decreases headers.len() - i,
            {
                assert(hs.take(i + 1).drop_last() =~= hs.take(i as int));
                assert(hs[i as int] == headers@[i as int]@);
                proof {
                    reveal_strlit("Subject");
                    reveal_strlit("To");
                }
                let name = header_field_of(&headers[i], "name");
                let value = header_field_of(&headers[i], "value");
                assert(hs.take(i + 1).last() == hs[i as int]);
                assert("Subject"@ != "To"@) by {
                    assert("Subject"@.len() != "To"@.len());
                }
                if same_text(name, "Subject") {
                    subject = String::from_str(value);
                } else if same_text(name, "To") {
                    to = String::from_str(value);
                }
                i = i + 1;
            }
            assert(hs.take(i as int) =~= hs);
        } else {
            assert(hs.len() == 0);
        }
    }
    let body_text = extract_draft_body(payload);
    let out = vec![
        entry("id", JsonValue::text(draft_id)),
        entry("to", JsonValue::Str(to)),
        entry("subject", JsonValue::Str(subject)),
        entry("body", JsonValue::Str(body_text)),
    ];
    let r = JsonValue::object(out);
    assert(entry_views(out@) =~= seq![
        ("id"@, Json::Str(draft_id@)),
        ("to"@, Json::Str(last_header(hs, "To"@))),
        ("subject"@, Json::Str(last_header(hs, "Subject"@))),
        ("body"@, Json::Str(draft_body(payload@))),
    ]);
    r
}

/// The RFC 5322 message of a draft update.
pub open spec fn draft_raw_spec(to: Seq<char>, subject: Seq<char>, body: Seq<char>) -> Seq<char> {
    "From: me\r\nTo: "@ + to + "\r\nSubject: "@ + subject + "\r\n\r\n"@ + body
}

/// Builds the RFC 5322 message `From: me`, `To`, `Subject`, a blank line,
/// then the body.
pub fn draft_raw_message(to: &str, subject: &str, body: &str) -> (r: String)
    ensures
        r@ == draft_raw_spec(to@, subject@, body@),
{
    let mut s = String::from_str("From: me\r\nTo: ");
    s.append(to);
    s.append("\r\nSubject: ");
    s.append(subject);
    s.append("\r\n\r\n");
    s.append(body);
    s
}

/// Encodes a raw message for the Gmail API (base64url with padding). The
/// encoding decodes back into the message itself.
pub fn encode_raw_message(raw: &str) -> (r: String)
    requires
        base64_len_ok(encode_utf8(raw@).len()),
    ensures
        r@ == base64url_encode(encode_utf8(raw@)),
        decoded_text(r@) == Some(raw@),
{
    let bytes = raw.as_bytes();
    let r = url_safe_encode(bytes);
    proof {
        encode_utf8_valid_utf8(raw@);
        encode_utf8_decode_utf8(raw@);
    }
    r
}

/// The body of a draft update: `{"message": {"raw": <base64url of the raw message>}}`.
pub open spec fn draft_update_spec(to: Seq<char>, subject: Seq<char>, body: Seq<char>) -> Json {
    Json::Object(
        seq![
            (
                "message"@,
                Json::Object(
                    seq![
                        (
                            "raw"@,
                            Json::Str(base64url_encode(encode_utf8(draft_raw_spec(to, subject, body)))),
                        ),
                    ],
                ),
            ),
        ],
    )
}

/// Builds the request body of `+draft-update` from the new recipient,
/// subject and body.
pub fn draft_update_body(to: &str, subject: &str, body: &str) -> (r: JsonValue)
    requires
        base64_len_ok(encode_utf8(draft_raw_spec(to@, subject@, body@)).len()),
    ensures
        r@ == draft_update_spec(to@, subject@, body@),
{
    let raw = draft_raw_message(to, subject, body);
    let encoded = encode_raw_message(raw.as_str());
    obj1("message", obj1("raw", JsonValue::Str(encoded)))
}

} // verus!
