//! The calls this library makes into code it does not verify: std
//! functions that vstd leaves unspecified, and the `mime`, `serde_json`,
//! `httparse` and `futures` crates. Each item states what it is trusted to do.
use vstd::prelude::*;
use vstd::utf8::*;
use crate::request::{HeaderField, RequestHead};
use crate::text::ascii_lower;

verus! {

// ------------------------------------------------------------------
// Outside types carried through the library
// ------------------------------------------------------------------

/// `futures::channel::mpsc::Receiver`: the receiving end of the channel on
/// which the body of a request arrives chunk by chunk. Opaque here.
#[verifier::external_type_specification]
#[verifier::external_body]
#[verifier::reject_recursive_types(T)]
pub struct ExReceiver<T>(futures::channel::mpsc::Receiver<T>);

/// `mime::Mime`: a parsed media type. Opaque here.
#[verifier::external_type_specification]
#[verifier::external_body]
pub struct ExMime(mime::Mime);

/// `mime::FromStrError`: why a media type did not parse. Opaque here.
#[verifier::external_type_specification]
#[verifier::external_body]
pub struct ExMimeFromStrError(mime::FromStrError);

/// `serde_json::Value`: a JSON document. Opaque here.
#[verifier::external_type_specification]
#[verifier::external_body]
pub struct ExJsonValue(serde_json::Value);

/// `serde_json::Error`: why bytes did not parse as JSON. Opaque here.
#[verifier::external_type_specification]
#[verifier::external_body]
pub struct ExJsonError(serde_json::Error);

/// `std::str::Utf8Error`: why bytes are not UTF-8. Opaque here.
#[verifier::external_type_specification]
#[verifier::external_body]
pub struct ExUtf8Error(std::str::Utf8Error);

// ------------------------------------------------------------------
// std
// ------------------------------------------------------------------

/// Appends one character to a string: std's `String::push`.
/// Trusted to append exactly `c` and change nothing else.
#[verifier::external_body]
pub fn push_char(s: &mut String, c: char)
    ensures
        final(s)@ == old(s)@.push(c),
{
    s.push(c);
}

/// The full Unicode lower-case mapping of a string, as std's
/// `str::to_lowercase` computes it.
pub uninterp spec fn unicode_lower(s: Seq<char>) -> Seq<char>;

/// std's `str::to_lowercase`. Trusted to return the lower-case mapping of
/// `s`, which is named here, not spelled out; on ASCII text that mapping
/// lowers `A` to `Z` and keeps every other character, as the Unicode
/// lower-case mapping does for ASCII. Of other text nothing more is said.
#[verifier::external_body]
pub fn to_lowercase(s: &str) -> (res: String)
    ensures
        res@ == unicode_lower(s@),
        is_ascii_chars(s@) ==> res@ == ascii_lower(s@),
{
    s.to_lowercase()
}

/// std's `std::str::from_utf8`. Trusted, as its documentation says, to
/// succeed exactly on valid UTF-8 and then to view the very same bytes as a
/// string.
#[verifier::external_body]
pub fn str_from_utf8(v: &[u8]) -> (res: Result<&str, std::str::Utf8Error>)
    ensures
        res is Ok <==> valid_utf8(v@),
        res matches Ok(s) ==> encode_utf8(s@) == v@,
{
    std::str::from_utf8(v)
}

// ------------------------------------------------------------------
// mime
// ------------------------------------------------------------------

/// The media type that `mime`'s parser makes of `s`, or `None` where it
/// refuses the text.
pub uninterp spec fn mime_parse(s: Seq<char>) -> Option<mime::Mime>;

/// `<mime::Mime as FromStr>::from_str`. Trusted to succeed exactly when the
/// parser accepts `s`, and then to give the media type it makes of `s`,
/// which depends on `s` alone and is named here, not spelled out.
#[verifier::external_body]
pub fn parse_mime(s: &str) -> (res: Result<mime::Mime, mime::FromStrError>)
    ensures
        res is Ok <==> mime_parse(s@) is Some,
        res matches Ok(m) ==> mime_parse(s@) == Some(m),
{
    s.parse::<mime::Mime>()
}

/// The text of a media type, as its `Display` writes it.
pub uninterp spec fn mime_display(m: mime::Mime) -> Seq<char>;

/// `<mime::Mime as Display>` through `to_string`. Trusted to give the text
/// of `m`, which depends on `m` alone and is named here, not spelled out.
#[verifier::external_body]
pub fn mime_text(m: &mime::Mime) -> (res: String)
    ensures
        res@ == mime_display(*m),
{
    m.to_string()
}

/// `mime::APPLICATION_JSON.to_string()`. Trusted, as the constant's
/// definition in `mime` shows, to be the text "application/json".
#[verifier::external_body]
pub fn application_json_text() -> (res: String)
    ensures
        res@ == "application/json"@,
{
    mime::APPLICATION_JSON.to_string()
}

// ------------------------------------------------------------------
// serde_json
// ------------------------------------------------------------------

/// The JSON document that `serde_json` reads from `bytes`, or `None` where
/// they do not hold exactly one.
pub uninterp spec fn json_parse(bytes: Seq<u8>) -> Option<serde_json::Value>;

/// `serde_json::from_slice::<serde_json::Value>`. Trusted to succeed exactly
/// when the bytes parse, and then to give the document they hold, which
/// depends on the bytes alone and is named here, not spelled out.
#[verifier::external_body]
pub fn json_from_slice(bytes: &[u8]) -> (res: Result<serde_json::Value, serde_json::Error>)
    ensures
        res is Ok <==> json_parse(bytes@) is Some,
        res matches Ok(v) ==> json_parse(bytes@) == Some(v),
{
    serde_json::from_slice::<serde_json::Value>(bytes)
}

/// The compact JSON text of a document, as its `Display` writes it.
pub uninterp spec fn json_display(v: serde_json::Value) -> Seq<char>;

/// `<serde_json::Value as Display>` through `to_string`. Trusted to give the
/// compact JSON text of `v`, which depends on `v` alone and is named here,
/// not spelled out.
#[verifier::external_body]
pub fn json_text(v: &serde_json::Value) -> (res: String)
    ensures
        res@ == json_display(*v),
{
    v.to_string()
}

// ------------------------------------------------------------------
// httparse
// ------------------------------------------------------------------

/// How many header fields one parse takes at most.
pub const MAX_FIELDS: usize = 32;

/// What `httparse` makes of `bytes` read as a chunk-size line: `None` where
/// the line is malformed, `Some(None)` where more bytes are needed, and
/// `Some(Some((used, size)))` where the line takes the first `used` bytes and
/// announces a chunk of `size` bytes.
pub uninterp spec fn chunk_size_parse(bytes: Seq<u8>) -> Option<Option<(usize, u64)>>;

/// `httparse::parse_chunk_size`. Trusted to give the reading of the line,
/// which depends on the bytes alone and is named here, not spelled out; as
/// its source shows, the bytes it takes are never more than it was given.
#[verifier::external_body]
pub fn parse_chunk_size(bytes: &[u8]) -> (res: Result<Option<(usize, u64)>, ()>)
    ensures
        res is Ok <==> chunk_size_parse(bytes@) is Some,
        res matches Ok(r) ==> chunk_size_parse(bytes@) == Some(r),
        res matches Ok(Some((used, _))) ==> used <= bytes@.len(),
{
    match httparse::parse_chunk_size(bytes) {
        Ok(httparse::Status::Complete(found)) => Ok(Some(found)),
        Ok(httparse::Status::Partial) => Ok(None),
        Err(_) => Err(()),
    }
}

/// What `httparse` makes of `bytes` read as a block of header lines ended by
/// an empty line, with room for `MAX_FIELDS` of them: `None` where they are
/// malformed or too many, `Some(None)` where more bytes are needed, and
/// `Some(Some((used, fields)))` where the block takes the first `used` bytes
/// and holds `fields`, in order.
pub uninterp spec fn fields_parse(bytes: Seq<u8>) -> Option<Option<(usize, Seq<HeaderField>)>>;

/// `httparse::parse_headers`, each field copied out as a name and raw value.
/// Trusted to give the reading of the block, which depends on the bytes
/// alone and is named here, not spelled out; as its source shows, the bytes
/// it takes are never more than it was given.
#[verifier::external_body]
pub fn parse_fields(bytes: &[u8]) -> (res: Result<Option<(usize, Vec<HeaderField>)>, ()>)
    ensures
        res is Ok <==> fields_parse(bytes@) is Some,
        res matches Ok(None) ==> fields_parse(bytes@) == Some(None::<(usize, Seq<HeaderField>)>),
        res matches Ok(Some((used, fs))) ==> fields_parse(bytes@) == Some(Some((used, fs@)))
            && used <= bytes@.len(),
{
    let mut headers = [httparse::EMPTY_HEADER; MAX_FIELDS];
    match httparse::parse_headers(bytes, &mut headers) {
        Ok(httparse::Status::Complete((used, fields))) => Ok(Some((
            used,
            fields.iter().map(|h| HeaderField { name: h.name.to_owned(), value: h.value.to_vec() }).collect(),
        ))),
        Ok(httparse::Status::Partial) => Ok(None),
        Err(_) => Err(()),
    }
}

/// What `httparse` makes of `bytes` read as a request head, with room for
/// `MAX_FIELDS` header fields: `None` where the head is malformed or has too
/// many fields, `Some(None)` where more bytes are needed, and
/// `Some(Some((used, head)))` where the head takes the first `used` bytes and
/// reads as `head`.
pub uninterp spec fn request_head_parse(bytes: Seq<u8>) -> Option<Option<(usize, RequestHead)>>;

/// `httparse::Request::parse`, the parts of the head copied out. Trusted to
/// give the reading of the head, which depends on the bytes alone and is
/// named here, not spelled out; as its source shows, the bytes it takes are
/// never more than it was given.
#[verifier::external_body]
pub fn parse_request_head(bytes: &[u8]) -> (res: Result<Option<(usize, RequestHead)>, ()>)
    ensures
        res is Ok <==> request_head_parse(bytes@) is Some,
        res matches Ok(r) ==> request_head_parse(bytes@) == Some(r),
        res matches Ok(Some((used, _))) ==> used <= bytes@.len(),
{
    let mut headers = [httparse::EMPTY_HEADER; MAX_FIELDS];
    let mut p = httparse::Request::new(&mut headers);
    match p.parse(bytes) {
        Ok(httparse::Status::Complete(used)) => Ok(Some((used, RequestHead {
            method: p.method.map(|m| m.to_owned()),
            path: p.path.map(|s| s.to_owned()),
            version: p.version,
            headers: p.headers.iter().map(|h| HeaderField { name: h.name.to_owned(), value: h.value.to_vec() }).collect(),
        }))),
        Ok(httparse::Status::Partial) => Ok(None),
        Err(_) => Err(()),
    }
}

} // verus!
