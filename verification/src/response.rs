//! Responses: their status, header fields and body, and the bytes of the
//! head that goes out on the wire.
use vstd::prelude::*;
use vstd::utf8::*;
use crate::body::ChunkedBody;
use crate::bridge::{application_json_text, json_display, json_text, mime_display, mime_text};
use crate::headers::{lemma_lookup_with_field, lookup, with_field, FieldView, Headers};
use crate::request::{
    collect_fields, content_len_of, content_type_of, fields_utf8, headers_from_fields,
    spec_content_len, spec_content_type, spec_transfer_encoding, transfer_encoding_of,
    Encoding, HeaderField,
};
use crate::text::{ascii_lower, decimal, digit_char, digits_value, lemma_decimal_digits, lemma_parse_decimal, push_bytes, push_str_bytes, to_ascii_lowercase, usize_to_string, utf8_bytes};
use crate::BodyError;

verus! {

// ------------------------------------------------------------------
// Status
// ------------------------------------------------------------------

/// "100 Continue\r\n"
const LINE_CONTINUE: [u8; 14] = [49u8, 48u8, 48u8, 32u8, 67u8, 111u8, 110u8, 116u8, 105u8, 110u8, 117u8, 101u8, 13u8, 10u8];

/// "101 Switching Protocol\r\n"
const LINE_SWITCHING_PROTOCOL: [u8; 24] = [49u8, 48u8, 49u8, 32u8, 83u8, 119u8, 105u8, 116u8, 99u8, 104u8, 105u8, 110u8, 103u8, 32u8, 80u8, 114u8, 111u8, 116u8, 111u8, 99u8, 111u8, 108u8, 13u8, 10u8];

/// "200 OK\r\n"
const LINE_OK: [u8; 8] = [50u8, 48u8, 48u8, 32u8, 79u8, 75u8, 13u8, 10u8];

/// "400 Bad Request\r\n"
const LINE_BAD_REQUEST: [u8; 17] = [52u8, 48u8, 48u8, 32u8, 66u8, 97u8, 100u8, 32u8, 82u8, 101u8, 113u8, 117u8, 101u8, 115u8, 116u8, 13u8, 10u8];

/// "404 Not Found\r\n"
const LINE_NOT_FOUND: [u8; 15] = [52u8, 48u8, 52u8, 32u8, 78u8, 111u8, 116u8, 32u8, 70u8, 111u8, 117u8, 110u8, 100u8, 13u8, 10u8];

/// "408 Request Timeout\r\n"
const LINE_REQUEST_TIMEOUT: [u8; 21] = [52u8, 48u8, 56u8, 32u8, 82u8, 101u8, 113u8, 117u8, 101u8, 115u8, 116u8, 32u8, 84u8, 105u8, 109u8, 101u8, 111u8, 117u8, 116u8, 13u8, 10u8];

/// "418 I'm a teapot\r\n"
const LINE_IM_A_TEAPOT: [u8; 18] = [52u8, 49u8, 56u8, 32u8, 73u8, 39u8, 109u8, 32u8, 97u8, 32u8, 116u8, 101u8, 97u8, 112u8, 111u8, 116u8, 13u8, 10u8];

/// The status of a response.
#[allow(non_camel_case_types)]
#[derive(Debug, Clone, Copy, PartialEq, Eq, Structural)]
pub enum Status {
    Continue,
    SwitchingProtocol,
    OK,
    BadRequest,
    NotFound,
    RequestTimeout,
    ImATeapot,
}

impl Status {
    /// The numeric code of a status.
    pub open spec fn spec_code(self) -> u16 {
        match self {
            Status::Continue => 100,
            Status::SwitchingProtocol => 101,
            Status::OK => 200,
            Status::BadRequest => 400,
            Status::NotFound => 404,
            Status::RequestTimeout => 408,
            Status::ImATeapot => 418,
        }
    }

    /// The status that a numeric code denotes, if it is one of these.
    pub open spec fn spec_from_code(code: u16) -> Option<Status> {
        if code == 100 {
            Some(Status::Continue)
        } else if code == 101 {
            Some(Status::SwitchingProtocol)
        } else if code == 200 {
            Some(Status::OK)
        } else if code == 400 {
            Some(Status::BadRequest)
        } else if code == 404 {
            Some(Status::NotFound)
        } else if code == 408 {
            Some(Status::RequestTimeout)
        } else if code == 418 {
            Some(Status::ImATeapot)
        } else {
            None
        }
    }

    /// The status line after the protocol version: code, reason, line end.
    pub open spec fn spec_line(self) -> Seq<char> {
        match self {
            Status::Continue => "100 Continue\r\n"@,
            Status::SwitchingProtocol => "101 Switching Protocol\r\n"@,
            Status::OK => "200 OK\r\n"@,
            Status::BadRequest => "400 Bad Request\r\n"@,
            Status::NotFound => "404 Not Found\r\n"@,
            Status::RequestTimeout => "408 Request Timeout\r\n"@,
            Status::ImATeapot => "418 I'm a teapot\r\n"@,
        }
    }

    /// The reason phrase of a status.
    pub open spec fn spec_reason(self) -> Seq<char> {
        match self {
            Status::Continue => "Continue"@,
            Status::SwitchingProtocol => "Switching Protocol"@,
            Status::OK => "OK"@,
            Status::BadRequest => "Bad Request"@,
            Status::NotFound => "Not Found"@,
            Status::RequestTimeout => "Request Timeout"@,
            Status::ImATeapot => "I'm a teapot"@,
        }
    }

    /// The status that a numeric code denotes, if it is one of these.
    pub fn new(code: u16) -> (res: Option<Status>)
        ensures
            res == Status::spec_from_code(code),
    {
        match code {
            100 => Some(Status::Continue),
            101 => Some(Status::SwitchingProtocol),
            200 => Some(Status::OK),
            400 => Some(Status::BadRequest),
            404 => Some(Status::NotFound),
            408 => Some(Status::RequestTimeout),
            418 => Some(Status::ImATeapot),
            _ => None,
        }
    }

    /// The numeric code.
    pub fn code(&self) -> (res: u16)
        ensures
            res == self.spec_code(),
    {
        match self {
            Status::Continue => 100,
            Status::SwitchingProtocol => 101,
            Status::OK => 200,
            Status::BadRequest => 400,
            Status::NotFound => 404,
            Status::RequestTimeout => 408,
            Status::ImATeapot => 418,
        }
    }

    /// The status line as it goes out: code, reason, line end.
    pub fn bytes(&self) -> (res: &'static [u8])
        ensures
            res@ == encode_utf8(self.spec_line()),
    {
        let ghost line = self.spec_line();
        proof {
            reveal_strlit("100 Continue\r\n");
            reveal_strlit("101 Switching Protocol\r\n");
            reveal_strlit("200 OK\r\n");
            reveal_strlit("400 Bad Request\r\n");
            reveal_strlit("404 Not Found\r\n");
            reveal_strlit("408 Request Timeout\r\n");
            reveal_strlit("418 I'm a teapot\r\n");
            assert(is_ascii_chars(line));
            is_ascii_chars_encode_utf8(line);
        }
        let res = match *self {
            Status::Continue => LINE_CONTINUE.as_slice(),
            Status::SwitchingProtocol => LINE_SWITCHING_PROTOCOL.as_slice(),
            Status::OK => LINE_OK.as_slice(),
            Status::BadRequest => LINE_BAD_REQUEST.as_slice(),
            Status::NotFound => LINE_NOT_FOUND.as_slice(),
            Status::RequestTimeout => LINE_REQUEST_TIMEOUT.as_slice(),
            Status::ImATeapot => LINE_IM_A_TEAPOT.as_slice(),
        };
        assert(res@ =~= encode_utf8(line));
        res
    }
}

/// Law: a status's code denotes that status, and a code denotes only the
/// status whose code it is.
pub proof fn lemma_status_code(s: Status, code: u16)
    ensures
        Status::spec_from_code(s.spec_code()) == Some(s),
        Status::spec_from_code(code) matches Some(t) ==> t.spec_code() == code,
{
}

/// The numeral of a three-digit number: its three digits in order.
proof fn lemma_decimal_three(n: nat)
    requires
        100 <= n < 1000,
    ensures
        decimal(n) == seq![digit_char(n / 100), digit_char((n / 10) % 10), digit_char(n % 10)],
{
    assert(decimal(n / 100) == seq![digit_char(n / 100)]);
    assert((n / 10) / 10 == n / 100);
    assert(decimal(n / 10) == decimal(n / 100).push(digit_char((n / 10) % 10)));
    assert(decimal(n) == decimal(n / 10).push(digit_char(n % 10)));
    assert(decimal(n) =~= seq![digit_char(n / 100), digit_char((n / 10) % 10), digit_char(n % 10)]);
}

/// Law: a status line is the status's code in decimal, a space, a reason
/// phrase that is not empty and holds no line break, and a line end; so
/// its first three characters read back as the code, which denotes the
/// status again.
pub proof fn lemma_status_line(s: Status)
    ensures
        s.spec_line() == decimal(s.spec_code() as nat) + " "@ + s.spec_reason() + "\r\n"@,
        decimal(s.spec_code() as nat).len() == 3,
        s.spec_reason().len() > 0,
        forall|i: int|
            0 <= i < s.spec_reason().len() ==> #[trigger] s.spec_reason()[i] != '\r'
                && s.spec_reason()[i] != '\n',
        digits_value(s.spec_line().take(3)) == s.spec_code(),
        Status::spec_from_code(s.spec_code()) == Some(s),
{
    reveal_strlit("100 Continue\r\n");
    reveal_strlit("101 Switching Protocol\r\n");
    reveal_strlit("200 OK\r\n");
    reveal_strlit("400 Bad Request\r\n");
    reveal_strlit("404 Not Found\r\n");
    reveal_strlit("408 Request Timeout\r\n");
    reveal_strlit("418 I'm a teapot\r\n");
    reveal_strlit("Continue");
    reveal_strlit("Switching Protocol");
    reveal_strlit("OK");
    reveal_strlit("Bad Request");
    reveal_strlit("Not Found");
    reveal_strlit("Request Timeout");
    reveal_strlit("I'm a teapot");
    reveal_strlit(" ");
    reveal_strlit("\r\n");
    let code = s.spec_code() as nat;
    lemma_decimal_three(code);
    lemma_decimal_digits(code);
    assert(digit_char(0) == '0');
    assert(digit_char(1) == '1');
    assert(digit_char(2) == '2');
    assert(digit_char(4) == '4');
    assert(digit_char(8) == '8');
    assert(s.spec_line() =~= decimal(code) + " "@ + s.spec_reason() + "\r\n"@);
    assert(s.spec_line().take(3) =~= decimal(code));
}

// ------------------------------------------------------------------
// The bytes of a response head
// ------------------------------------------------------------------

/// One header line: name, ": ", value, line end.
pub open spec fn field_bytes(f: FieldView) -> Seq<u8> {
    encode_utf8(f.0) + encode_utf8(": "@) + encode_utf8(f.1) + encode_utf8("\r\n"@)
}

/// The header lines of `fs`, in order.
pub open spec fn fields_bytes(fs: Seq<FieldView>) -> Seq<u8>
    decreases fs.len(),
{
    if fs.len() == 0 {
        Seq::<u8>::empty()
    } else {
        fields_bytes(fs.drop_last()) + field_bytes(fs.last())
    }
}

/// The fields a response goes out with: unless the body is chunked, a
/// `content-length` that gives the body's length.
pub open spec fn announced_fields(headers: Seq<FieldView>, body_len: nat) -> Seq<FieldView> {
    if spec_transfer_encoding(headers) != Encoding::Chunked {
        with_field(headers, "content-length"@, decimal(body_len))
    } else {
        headers
    }
}

/// A response head: status line, header lines, empty line.
pub open spec fn head_bytes(status: Status, fields: Seq<FieldView>) -> Seq<u8> {
    encode_utf8("HTTP/1.1 "@) + encode_utf8(status.spec_line()) + fields_bytes(fields) + encode_utf8(
        "\r\n"@,
    )
}

/// The bytes of ASCII text, one per character.
pub open spec fn ascii_bytes(s: Seq<char>) -> Seq<u8> {
    Seq::new(s.len(), |i: int| s[i] as u8)
}

proof fn lemma_ascii_encode(s: Seq<char>)
    requires
        is_ascii_chars(s),
    ensures
        encode_utf8(s) == ascii_bytes(s),
{
    is_ascii_chars_encode_utf8(s);
    assert(encode_utf8(s) =~= ascii_bytes(s));
}

proof fn lemma_fields_bytes_concat(fs: Seq<FieldView>, gs: Seq<FieldView>)
    ensures
        fields_bytes(fs + gs) == fields_bytes(fs) + fields_bytes(gs),
    decreases gs.len(),
{
    if gs.len() == 0 {
        assert(fs + gs =~= fs);
        assert(fields_bytes(fs) + fields_bytes(gs) =~= fields_bytes(fs));
    } else {
        lemma_fields_bytes_concat(fs, gs.drop_last());
        assert((fs + gs).drop_last() =~= fs + gs.drop_last());
        assert((fs + gs).last() == gs.last());
        assert(fields_bytes(fs + gs) =~= fields_bytes(fs) + fields_bytes(gs));
    }
}

/// Law: the header lines of a list of fields are the lines of its fields,
/// one line for each field, in order: none for no field, and a field added
/// at the end adds its line at the end.
pub proof fn lemma_fields_bytes(fs: Seq<FieldView>, gs: Seq<FieldView>, f: FieldView)
    ensures
        fields_bytes(Seq::<FieldView>::empty()) == Seq::<u8>::empty(),
        fields_bytes(seq![f]) == field_bytes(f),
        fields_bytes(fs.push(f)) == fields_bytes(fs) + field_bytes(f),
        fields_bytes(fs + gs) == fields_bytes(fs) + fields_bytes(gs),
{
    assert(fs.push(f).drop_last() =~= fs);
    assert(seq![f].drop_last() =~= Seq::<FieldView>::empty());
    assert(seq![f].last() == f);
    assert(fields_bytes(seq![f]) == fields_bytes(Seq::<FieldView>::empty()) + field_bytes(f));
    assert(Seq::<u8>::empty() + field_bytes(f) =~= field_bytes(f));
    lemma_fields_bytes_concat(fs, gs);
}

/// Law: the line of a field whose name and value are ASCII is the name's
/// bytes, a colon and a space, the value's bytes, and CR LF.
pub proof fn lemma_field_line(f: FieldView)
    requires
        is_ascii_chars(f.0),
        is_ascii_chars(f.1),
    ensures
        field_bytes(f) == ascii_bytes(f.0) + seq![58u8, 32u8] + ascii_bytes(f.1) + seq![13u8, 10u8],
{
    reveal_strlit(": ");
    reveal_strlit("\r\n");
    lemma_ascii_encode(f.0);
    lemma_ascii_encode(f.1);
    lemma_ascii_encode(": "@);
    lemma_ascii_encode("\r\n"@);
    assert(ascii_bytes(": "@) =~= seq![58u8, 32u8]);
    assert(ascii_bytes("\r\n"@) =~= seq![13u8, 10u8]);
}

/// Law: a response head is the bytes of "HTTP/1.1 ", the status line, the
/// lines of its fields in order, and an empty line (CR LF); a field added at
/// the end adds its line just before that empty line.
pub proof fn lemma_head_bytes(s: Status, fs: Seq<FieldView>, f: FieldView)
    ensures
        head_bytes(s, fs) == seq![72u8, 84u8, 84u8, 80u8, 47u8, 49u8, 46u8, 49u8, 32u8]
            + encode_utf8(s.spec_line()) + fields_bytes(fs) + seq![13u8, 10u8],
        head_bytes(s, fs.push(f)) == head_bytes(s, fs).take(head_bytes(s, fs).len() - 2)
            + field_bytes(f) + seq![13u8, 10u8],
{
    reveal_strlit("HTTP/1.1 ");
    reveal_strlit("\r\n");
    lemma_ascii_encode("HTTP/1.1 "@);
    lemma_ascii_encode("\r\n"@);
    assert(ascii_bytes("HTTP/1.1 "@) =~= seq![72u8, 84u8, 84u8, 80u8, 47u8, 49u8, 46u8, 49u8, 32u8]);
    assert(ascii_bytes("\r\n"@) =~= seq![13u8, 10u8]);
    lemma_fields_bytes(fs, Seq::<FieldView>::empty(), f);
    let pre = seq![72u8, 84u8, 84u8, 80u8, 47u8, 49u8, 46u8, 49u8, 32u8] + encode_utf8(s.spec_line());
    assert(head_bytes(s, fs) =~= pre + fields_bytes(fs) + seq![13u8, 10u8]);
    assert(head_bytes(s, fs).take(head_bytes(s, fs).len() - 2) =~= pre + fields_bytes(fs));
    assert(head_bytes(s, fs.push(f)) =~= pre + fields_bytes(fs) + field_bytes(f) + seq![13u8, 10u8]);
}

/// Law: a chunked response goes out with its fields as they are; any other
/// gets a `content-length` that holds the numeral of the body's length, and
/// keeps every other field as it was.
pub proof fn lemma_announced_fields(h: Seq<FieldView>, body_len: nat, other: Seq<char>)
    ensures
        spec_transfer_encoding(h) == Encoding::Chunked ==> announced_fields(h, body_len) == h,
        spec_transfer_encoding(h) != Encoding::Chunked ==> lookup(
            announced_fields(h, body_len),
            "content-length"@,
        ) == Some(decimal(body_len)),
        other != "content-length"@ ==> lookup(announced_fields(h, body_len), other) == lookup(
            h,
            other,
        ),
{
    lemma_lookup_with_field(h, "content-length"@, decimal(body_len), other);
}

/// Law: a response whose body is streamed (its fields set as `set_stream`
/// sets them) is framed chunked, and its head announces no length.
pub proof fn lemma_stream_is_chunked(h: Seq<FieldView>, ct: Option<Seq<char>>, body_len: nat)
    ensures
        ({
            let te = with_field(h, "transfer-encoding"@, "chunked"@);
            let fs = match ct {
                None => te,
                Some(c) => with_field(te, "content-type"@, c),
            };
            &&& spec_transfer_encoding(fs) == Encoding::Chunked
            &&& announced_fields(fs, body_len) == fs
        }),
{
    reveal_strlit("transfer-encoding");
    reveal_strlit("content-type");
    reveal_strlit("chunked");
    reveal_strlit("identity");
    assert("chunked"@.len() != "identity"@.len());
    assert("content-type"@.len() != "transfer-encoding"@.len());
    let te = with_field(h, "transfer-encoding"@, "chunked"@);
    lemma_lookup_with_field(h, "transfer-encoding"@, "chunked"@, "transfer-encoding"@);
    if let Some(c) = ct {
        lemma_lookup_with_field(te, "content-type"@, c, "transfer-encoding"@);
    }
}

/// Law: unless its body is chunked, a response head announces the length of
/// its body, as `content_len` reads it back, and keeps its framing.
pub proof fn lemma_announced_length(h: Seq<FieldView>, body_len: usize)
    requires
        spec_transfer_encoding(h) != Encoding::Chunked,
    ensures
        spec_content_len(announced_fields(h, body_len as nat)) == Some(body_len as nat),
        spec_transfer_encoding(announced_fields(h, body_len as nat)) == spec_transfer_encoding(h),
{
    reveal_strlit("transfer-encoding");
    reveal_strlit("content-length");
    assert("content-length"@[0] != "transfer-encoding"@[0]);
    lemma_lookup_with_field(h, "content-length"@, decimal(body_len as nat), "transfer-encoding"@);
    lemma_parse_decimal(body_len);
}

// ------------------------------------------------------------------
// Response
// ------------------------------------------------------------------

/// A parsed response head: what `httparse::Response` holds once parsing is
/// complete.
pub struct ResponseHead {
    pub version: Option<u8>,
    pub code: Option<u16>,
    pub reason: Option<String>,
    pub headers: Vec<HeaderField>,
}

/// A response: status, header fields, body, and, for a streamed body, the
/// chunks still to come.
pub struct Response {
    pub status: Status,
    pub headers: Headers,
    pub buf: Vec<u8>,
    pub stream: Option<ChunkedBody>,
}

impl Response {
    /// An empty response with the given status.
    pub fn with_status(status: Status) -> (res: Response)
        ensures
            res.status == status,
            res.headers@ == Seq::<FieldView>::empty(),
            res.buf@ == Seq::<u8>::empty(),
            res.stream is None,
    {
        Response { status, headers: Headers::new(), buf: Vec::new(), stream: None }
    }

    /// The response that a parsed head describes, with no body yet.
    pub fn from_parser(head: ResponseHead) -> (res: Result<Response, BodyError>)
        requires
            head.code is Some,
            Status::spec_from_code(head.code->0) is Some,
            fields_utf8(head.headers@),
        ensures
            res matches Ok(r) && {
                &&& r.status == Status::spec_from_code(head.code->0)->0
                &&& r.headers@ == collect_fields(head.headers@)
                &&& r.buf@ == Seq::<u8>::empty()
                &&& r.stream is None
            },
    {
        let headers = headers_from_fields(&head.headers);
        let status = Status::new(head.code.unwrap()).unwrap();
        Ok(Response { status, headers, buf: Vec::new(), stream: None })
    }

    /// The status.
    pub fn status(&self) -> (res: Status)
        ensures
            res == self.status,
    {
        self.status
    }

    /// The header fields.
    pub fn headers(&self) -> (res: &Headers)
        ensures
            *res == self.headers,
    {
        &self.headers
    }

    /// The header fields, to change them.
    pub fn headers_mut(&mut self) -> (res: &mut Headers)
        ensures
            *res == old(self).headers,
            final(self).headers == *final(res),
            final(self).status == old(self).status,
            final(self).buf == old(self).buf,
            final(self).stream == old(self).stream,
    {
        &mut self.headers
    }

    /// The body.
    pub fn bytes(&self) -> (res: &Vec<u8>)
        ensures
            res@ == self.buf@,
    {
        &self.buf
    }

    /// Replaces the body.
    pub fn set_buf(&mut self, buf: Vec<u8>)
        ensures
            final(self).buf == buf,
            final(self).status == old(self).status,
            final(self).headers == old(self).headers,
            final(self).stream == old(self).stream,
    {
        self.buf = buf;
    }

    /// Makes the body the JSON text of `json`, typed `application/json`.
    pub fn set_json(&mut self, json: serde_json::Value)
        ensures
            final(self).headers@ == with_field(
                old(self).headers@,
                "content-type"@,
                "application/json"@,
            ),
            final(self).buf@ == encode_utf8(json_display(json)),
            final(self).status == old(self).status,
            final(self).stream == old(self).stream,
    {
        self.headers.insert(String::from_str("content-type"), application_json_text());
        let text = json_text(&json);
        self.buf = utf8_bytes(text.as_str());
    }

    /// Makes `buf` the body, typed by `mime`.
    pub fn set_bytes(&mut self, buf: Vec<u8>, mime: mime::Mime)
        ensures
            final(self).headers@ == with_field(old(self).headers@, "content-type"@, mime_display(mime)),
            final(self).buf == buf,
            final(self).status == old(self).status,
            final(self).stream == old(self).stream,
    {
        let text = mime_text(&mime);
        self.headers.insert(String::from_str("content-type"), text);
        self.buf = buf;
    }

    /// Makes the body a stream of chunks, sent with chunked transfer coding
    /// and typed by `mime` where one is given.
    pub fn set_stream(&mut self, receiver: ChunkedBody, mime: Option<mime::Mime>)
        ensures
            ({
                let te = with_field(old(self).headers@, "transfer-encoding"@, "chunked"@);
                match mime {
                    None => final(self).headers@ == te,
                    Some(m) => final(self).headers@ == with_field(te, "content-type"@, mime_display(m)),
                }
            }),
            final(self).stream == Some(receiver),
            final(self).buf == old(self).buf,
            final(self).status == old(self).status,
    {
        let name = Encoding::Chunked.to_string();
        let lower = to_ascii_lowercase(name.as_str());
        proof {
            reveal_strlit("Chunked");
            reveal_strlit("chunked");
            assert(ascii_lower("Chunked"@) =~= "chunked"@);
        }
        self.headers.insert(String::from_str("transfer-encoding"), lower);
        let ghost te = self.headers@;
        if let Some(m) = mime {
            let text = mime_text(&m);
            self.headers.insert(String::from_str("content-type"), text);
        }
        self.stream = Some(receiver);
    }

    /// The whole response as it goes out: head, then body.
    pub fn into_bytes(self) -> (res: Vec<u8>)
        ensures
            res@ == head_bytes(self.status, announced_fields(self.headers@, self.buf@.len()))
                + self.buf@,
    {
        let mut this = self;
        let mut bytes = this.head_as_bytes();
        bytes.append(&mut this.buf);
        bytes
    }

    /// The announced `content-length`, if it is a number.
    pub fn content_len(&self) -> (res: Option<usize>)
        ensures
            res matches Some(n) ==> spec_content_len(self.headers@) == Some(n as nat),
            res is None ==> spec_content_len(self.headers@) is None,
    {
        content_len_of(&self.headers)
    }

    /// The `content-type`, if it is there and parses as a media type.
    pub fn content_type(&self) -> (res: Option<mime::Mime>)
        ensures
            res == spec_content_type(self.headers@),
    {
        content_type_of(&self.headers)
    }

    /// How the body is framed.
    pub fn transfer_endcoding(&self) -> (res: Encoding)
        ensures
            res == spec_transfer_encoding(self.headers@),
    {
        transfer_encoding_of(&self.headers)
    }

    /// The head as it goes out: status line, header lines (with a
    /// `content-length` unless the body is chunked), empty line. The header
    /// fields are taken out of the response on the way.
    pub fn head_as_bytes(&mut self) -> (res: Vec<u8>)
        ensures
            res@ == head_bytes(old(self).status, announced_fields(old(self).headers@, old(self).buf@.len())),
            final(self).headers@ == Seq::<FieldView>::empty(),
            final(self).status == old(self).status,
            final(self).buf == old(self).buf,
            final(self).stream == old(self).stream,
    {
        let mut bytes: Vec<u8> = Vec::new();
        if transfer_encoding_of(&self.headers) != Encoding::Chunked {
            let len = usize_to_string(self.buf.len());
            self.headers.insert(String::from_str("content-length"), len);
        }
        let ghost fields = self.headers@;
        assert(fields == announced_fields(old(self).headers@, old(self).buf@.len()));
        push_str_bytes(&mut bytes, "HTTP/1.1 ");
        push_bytes(&mut bytes, self.status.bytes());
        let ghost start = bytes@;
        let entries = self.headers.drain();
        let mut i: usize = 0;
        while i < entries.len()
            invariant
                i <= entries@.len(),
                crate::headers::fields_view(entries@) == fields,
                bytes@ == start + fields_bytes(fields.take(i as int)),
            decreases entries@.len() - i,
        {
            let ghost before = bytes@;
            let (name, value) = (&entries[i].0, &entries[i].1);
            push_str_bytes(&mut bytes, name.as_str());
            push_str_bytes(&mut bytes, ": ");
            push_str_bytes(&mut bytes, value.as_str());
            push_str_bytes(&mut bytes, "\r\n");
            i = i + 1;
            proof {
                assert(fields.take(i as int).drop_last() =~= fields.take(i - 1));
                assert(fields.take(i as int).last() == fields[i - 1]);
                assert(bytes@ =~= start + fields_bytes(fields.take(i as int)));
            }
        }
        push_str_bytes(&mut bytes, "\r\n");
        assert(fields.take(fields.len() as int) =~= fields);
        assert(bytes@ =~= head_bytes(old(self).status, fields));
        bytes
    }
}

} // verus!
