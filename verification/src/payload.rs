//! Decoding of a write request's body: a JSON object with required text
//! fields `username` and `message`. A missing or malformed payload is a
//! hard failure of that request; nothing is substituted.

use vstd::prelude::*;
use crate::errors::MalformedPayloadError;

verus! {

/// The string value at `key` of the JSON object `body` decodes to, absent
/// when the body is not a JSON object, the key is missing, or its value
/// is not a string. Depends on the two texts alone.
pub uninterp spec fn json_field_spec(body: Seq<char>, key: Seq<char>) -> Option<Seq<char>>;

/// Relies on `serde_json::from_str` and `serde_json::Value::get`: parses
/// the body as JSON and moves out the string value at `key`, if the body
/// parses, the key is there and its value is a string.
#[verifier::external_body]
fn json_string_field(body: &str, key: &str) -> (r: Option<String>)
    ensures
        match r {
            Some(s) => json_field_spec(body@, key@) == Some(s@),
            None => json_field_spec(body@, key@) is None,
        },
{
    let parsed: Result<serde_json::Value, serde_json::Error> = serde_json::from_str(body);
    let doc = match parsed {
        Ok(v) => v,
        Err(_) => {
            return None;
        },
    };
    match doc.get(key) {
        Some(serde_json::Value::String(s)) => Some(s.clone()),
        _ => None,
    }
}

/// A payload that decodes: both required fields present, as non-empty
/// strings.
pub open spec fn payload_good(bs: Seq<char>) -> bool {
    &&& (json_field_spec(bs, "username"@) matches Some(u) && u.len() > 0)
    &&& (json_field_spec(bs, "message"@) matches Some(m) && m.len() > 0)
}

/// The failure text a bad payload is reported with; the `username` field
/// is checked first.
pub open spec fn payload_err_text(bs: Seq<char>) -> Seq<char> {
    if !(json_field_spec(bs, "username"@) matches Some(u) && u.len() > 0) {
        "missing or empty 'username' field"@
    } else {
        "missing or empty 'message' field"@
    }
}

/// Decode the body of a write request into its `(username, message)`
/// fields; fails exactly when the payload is not [`payload_good`].
pub fn decode_payload(body: &str) -> (r: Result<(String, String), MalformedPayloadError>)
    ensures
        match r {
            Ok(fields) => {
                &&& payload_good(body@)
                &&& json_field_spec(body@, "username"@) == Some(fields.0@)
                &&& json_field_spec(body@, "message"@) == Some(fields.1@)
                &&& fields.0@.len() > 0
                &&& fields.1@.len() > 0
            },
            Err(e) => {
                &&& !payload_good(body@)
                &&& e.detail@ == payload_err_text(body@)
            },
        },
{
    let username = match json_string_field(body, "username") {
        Some(u) => u,
        None => {
            return Err(
                MalformedPayloadError { detail: "missing or empty 'username' field".to_owned() },
            );
        },
    };
    if username.as_str().is_empty() {
        return Err(
            MalformedPayloadError { detail: "missing or empty 'username' field".to_owned() },
        );
    }
    let message = match json_string_field(body, "message") {
        Some(m) => m,
        None => {
            return Err(
                MalformedPayloadError { detail: "missing or empty 'message' field".to_owned() },
            );
        },
    };
    if message.as_str().is_empty() {
        return Err(
            MalformedPayloadError { detail: "missing or empty 'message' field".to_owned() },
        );
    }
    Ok((username, message))
}

} // verus!
