//! Byte and text encodings that the tools hand to other crates: UTF-8 decoding
//! that replaces invalid sequences, Base64, and a JSON object of string fields.
use vstd::prelude::*;
use vstd::string::StringExecFns;
use vstd::utf8::{valid_utf8, decode_utf8};
use base64::Engine;

verus! {

/// What `String::from_utf8_lossy` makes of `bytes`: each invalid sequence
/// becomes U+FFFD.
pub uninterp spec fn utf8_lossy(bytes: Seq<u8>) -> Seq<char>;

/// Calls `String::from_utf8_lossy`. Claimed: the result is
/// `utf8_lossy(bytes)`, and for valid UTF-8 it is the decoded text, as the
/// documentation says (the input is then borrowed unchanged).
#[verifier::external_body]
pub(crate) fn decode_lossy(bytes: &[u8]) -> (r: String)
    ensures
        r@ == utf8_lossy(bytes@),
        valid_utf8(bytes@) ==> r@ == decode_utf8(bytes@),
{
    String::from_utf8_lossy(bytes).into_owned()
}

/// The Base64 digit of a six-bit value: `A`-`Z`, `a`-`z`, `0`-`9`, `+`, `/`
/// (the standard alphabet of RFC 4648).
pub open spec fn base64_digit(v: int) -> char {
    if v < 26 {
        (65 + v) as char
    } else if v < 52 {
        (97 + v - 26) as char
    } else if v < 62 {
        (48 + v - 52) as char
    } else if v == 62 {
        '+'
    } else {
        '/'
    }
}

/// The standard Base64 encoding of `bytes` (RFC 4648, with padding): each
/// group of three bytes becomes four digits of six bits each, and a last
/// group of one or two bytes becomes two or three digits followed by `=`
/// up to four characters.
pub open spec fn base64_standard(bytes: Seq<u8>) -> Seq<char>
    decreases bytes.len(),
{
    if bytes.len() == 0 {
        seq![]
    } else if bytes.len() == 1 {
        let b0 = bytes[0] as int;
        seq![base64_digit(b0 / 4), base64_digit((b0 % 4) * 16), '=', '=']
    } else if bytes.len() == 2 {
        let (b0, b1) = (bytes[0] as int, bytes[1] as int);
        seq![base64_digit(b0 / 4), base64_digit((b0 % 4) * 16 + b1 / 16), base64_digit((b1 % 16) * 4), '=']
    } else {
        let (b0, b1, b2) = (bytes[0] as int, bytes[1] as int, bytes[2] as int);
        seq![
            base64_digit(b0 / 4),
            base64_digit((b0 % 4) * 16 + b1 / 16),
            base64_digit((b1 % 16) * 4 + b2 / 64),
            base64_digit(b2 % 64),
        ] + base64_standard(bytes.skip(3))
    }
}

/// Calls `base64::engine::general_purpose::STANDARD.encode`. Claimed: the
/// result is the standard padded Base64 text of the bytes, `base64_standard`.
#[verifier::external_body]
fn encode_base64(bytes: &[u8]) -> (r: String)
    ensures
        r@ == base64_standard(bytes@),
{
    base64::engine::general_purpose::STANDARD.encode(bytes)
}

/// The compact JSON text of an object whose fields are the given (name,
/// string value) pairs, as `serde_json` writes it.
pub uninterp spec fn json_string_object(fields: Seq<(Seq<char>, Seq<char>)>) -> Seq<char>;

/// The fields as character sequences.
pub open spec fn field_views(fields: Seq<(String, String)>) -> Seq<(Seq<char>, Seq<char>)> {
    fields.map_values(|f: (String, String)| (f.0@, f.1@))
}

/// Builds a `serde_json::Value::Object` of string values and calls
/// `to_string` on it. Claimed: the text is `json_string_object(fields)`, a
/// function of the fields alone.
#[verifier::external_body]
fn json_object_text(fields: Vec<(String, String)>) -> (r: String)
    ensures
        r@ == json_string_object(field_views(fields@)),
{
    let map: serde_json::Map<String, serde_json::Value> =
        fields.into_iter().map(|(k, v)| (k, serde_json::Value::String(v))).collect();
    serde_json::Value::Object(map).to_string()
}

/// The fields of the JSON object that carries an image.
pub open spec fn image_fields(data: Seq<char>, mime: Seq<char>) -> Seq<(Seq<char>, Seq<char>)> {
    seq![("type"@, "image"@), ("data"@, data), ("mimeType"@, mime)]
}

/// The JSON object `{"type": "image", "data": <Base64 of bytes>, "mimeType": mime}` as text.
pub fn image_payload(bytes: &[u8], mime: &str) -> (r: String)
    ensures
        r@ == json_string_object(image_fields(base64_standard(bytes@), mime@)),
{
    let data = encode_base64(bytes);
    let ghost data_view = data@;
    let mut fields: Vec<(String, String)> = Vec::new();
    fields.push((String::from_str("type"), String::from_str("image")));
    fields.push((String::from_str("data"), data));
    fields.push((String::from_str("mimeType"), String::from_str(mime)));
    assert(field_views(fields@) =~= image_fields(data_view, mime@));
    json_object_text(fields)
}

} // verus!
