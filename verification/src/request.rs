//! Requests: the head as the parser hands it over, the header questions a
//! handler asks, and the body as it arrives in chunks.
use vstd::prelude::*;
use vstd::utf8::*;
use crate::bridge::{
    json_from_slice, json_parse, mime_parse, parse_mime, str_from_utf8, to_lowercase,
    unicode_lower,
};
use crate::headers::{lemma_lookup_with_field, lookup, with_field, FieldView, Headers};
use crate::router::{Path, PathView};
use crate::text::{
    ascii_lower, comma_list, decimal, lemma_parse_decimal, parse_usize, parse_usize_str, remove_whitespace, split_chars, str_eq, views,
};
use crate::{BodyError, BUF_LEN};
use futures::channel::mpsc::Receiver;

verus! {

// ------------------------------------------------------------------
// Method
// ------------------------------------------------------------------

/// An HTTP request method.
#[derive(Debug, Hash, PartialEq, Eq, Copy, Clone, Structural)]
pub enum Method {
    Get,
    Head,
    Post,
    Put,
    Delete,
    Connect,
    Options,
    Trace,
    Patch,
}

impl Method {
    /// The lower-case name under which a method is parsed.
    pub open spec fn spec_name(self) -> Seq<char> {
        match self {
            Method::Get => "get"@,
            Method::Head => "head"@,
            Method::Post => "post"@,
            Method::Put => "put"@,
            Method::Delete => "delete"@,
            Method::Connect => "connect"@,
            Method::Options => "options"@,
            Method::Trace => "trace"@,
            Method::Patch => "patch"@,
        }
    }

    /// The method that a lower-case name denotes.
    pub open spec fn spec_from_str(s: Seq<char>) -> Result<Method, ()> {
        if s == "get"@ {
            Ok(Method::Get)
        } else if s == "head"@ {
            Ok(Method::Head)
        } else if s == "post"@ {
            Ok(Method::Post)
        } else if s == "put"@ {
            Ok(Method::Put)
        } else if s == "delete"@ {
            Ok(Method::Delete)
        } else if s == "connect"@ {
            Ok(Method::Connect)
        } else if s == "options"@ {
            Ok(Method::Options)
        } else if s == "trace"@ {
            Ok(Method::Trace)
        } else if s == "patch"@ {
            Ok(Method::Patch)
        } else {
            Err(())
        }
    }

    /// How a method is displayed: the name of its variant.
    pub open spec fn spec_display(self) -> Seq<char> {
        match self {
            Method::Get => "Get"@,
            Method::Head => "Head"@,
            Method::Post => "Post"@,
            Method::Put => "Put"@,
            Method::Delete => "Delete"@,
            Method::Connect => "Connect"@,
            Method::Options => "Options"@,
            Method::Trace => "Trace"@,
            Method::Patch => "Patch"@,
        }
    }

    /// Parses a lower-case method name.
    pub fn from_str(s: &str) -> (res: Result<Method, ()>)
        ensures
            res == Method::spec_from_str(s@),
    {
        if str_eq(s, "get") {
            Ok(Method::Get)
        } else if str_eq(s, "head") {
            Ok(Method::Head)
        } else if str_eq(s, "post") {
            Ok(Method::Post)
        } else if str_eq(s, "put") {
            Ok(Method::Put)
        } else if str_eq(s, "delete") {
            Ok(Method::Delete)
        } else if str_eq(s, "connect") {
            Ok(Method::Connect)
        } else if str_eq(s, "options") {
            Ok(Method::Options)
        } else if str_eq(s, "trace") {
            Ok(Method::Trace)
        } else if str_eq(s, "patch") {
            Ok(Method::Patch)
        } else {
            Err(())
        }
    }

    /// The method as it is displayed.
    pub fn to_string(&self) -> (res: String)
        ensures
            res@ == self.spec_display(),
    {
        match self {
            Method::Get => String::from_str("Get"),
            Method::Head => String::from_str("Head"),
            Method::Post => String::from_str("Post"),
            Method::Put => String::from_str("Put"),
            Method::Delete => String::from_str("Delete"),
            Method::Connect => String::from_str("Connect"),
            Method::Options => String::from_str("Options"),
            Method::Trace => String::from_str("Trace"),
            Method::Patch => String::from_str("Patch"),
        }
    }
}

/// Law: a method's lower-case name parses back as that method.
pub proof fn lemma_method_name(m: Method)
    ensures
        Method::spec_from_str(m.spec_name()) == Ok::<Method, ()>(m),
{
    reveal_strlit("get");
    reveal_strlit("head");
    reveal_strlit("post");
    reveal_strlit("put");
    reveal_strlit("delete");
    reveal_strlit("connect");
    reveal_strlit("options");
    reveal_strlit("trace");
    reveal_strlit("patch");
    assert("head"@.len() != "get"@.len());
    assert("post"@.len() != "get"@.len());
    assert("post"@[0] != "head"@[0]);
    assert("put"@[0] != "get"@[0]);
    assert("put"@.len() != "head"@.len());
    assert("put"@.len() != "post"@.len());
    assert("delete"@.len() != "get"@.len());
    assert("delete"@.len() != "head"@.len());
    assert("delete"@.len() != "post"@.len());
    assert("delete"@.len() != "put"@.len());
    assert("connect"@.len() != "get"@.len());
    assert("connect"@.len() != "head"@.len());
    assert("connect"@.len() != "post"@.len());
    assert("connect"@.len() != "put"@.len());
    assert("connect"@.len() != "delete"@.len());
    assert("options"@.len() != "get"@.len());
    assert("options"@.len() != "head"@.len());
    assert("options"@.len() != "post"@.len());
    assert("options"@.len() != "put"@.len());
    assert("options"@.len() != "delete"@.len());
    assert("options"@[0] != "connect"@[0]);
    assert("trace"@.len() != "get"@.len());
    assert("trace"@.len() != "head"@.len());
    assert("trace"@.len() != "post"@.len());
    assert("trace"@.len() != "put"@.len());
    assert("trace"@.len() != "delete"@.len());
    assert("trace"@.len() != "connect"@.len());
    assert("trace"@.len() != "options"@.len());
    assert("patch"@.len() != "get"@.len());
    assert("patch"@.len() != "head"@.len());
    assert("patch"@.len() != "post"@.len());
    assert("patch"@.len() != "put"@.len());
    assert("patch"@.len() != "delete"@.len());
    assert("patch"@.len() != "connect"@.len());
    assert("patch"@.len() != "options"@.len());
    assert("patch"@[0] != "trace"@[0]);
}

/// Law: a method's displayed name is ASCII, and lower-cased it parses back
/// as that method (so `to_lowercase` of `to_string`, parsed, gives the
/// method again).
pub proof fn lemma_method_display(m: Method)
    ensures
        is_ascii_chars(m.spec_display()),
        Method::spec_from_str(ascii_lower(m.spec_display())) == Ok::<Method, ()>(m),
{
    reveal_strlit("Get");
    reveal_strlit("Head");
    reveal_strlit("Post");
    reveal_strlit("Put");
    reveal_strlit("Delete");
    reveal_strlit("Connect");
    reveal_strlit("Options");
    reveal_strlit("Trace");
    reveal_strlit("Patch");
    reveal_strlit("get");
    reveal_strlit("head");
    reveal_strlit("post");
    reveal_strlit("put");
    reveal_strlit("delete");
    reveal_strlit("connect");
    reveal_strlit("options");
    reveal_strlit("trace");
    reveal_strlit("patch");
    assert(ascii_lower("Get"@) =~= "get"@);
    assert(ascii_lower("Head"@) =~= "head"@);
    assert(ascii_lower("Post"@) =~= "post"@);
    assert(ascii_lower("Put"@) =~= "put"@);
    assert(ascii_lower("Delete"@) =~= "delete"@);
    assert(ascii_lower("Connect"@) =~= "connect"@);
    assert(ascii_lower("Options"@) =~= "options"@);
    assert(ascii_lower("Trace"@) =~= "trace"@);
    assert(ascii_lower("Patch"@) =~= "patch"@);
    assert(ascii_lower(m.spec_display()) == m.spec_name());
    lemma_method_name(m);
}

/// Law: only a method's own lower-case name parses, and as that method.
pub proof fn lemma_method_parse_exact(s: Seq<char>)
    ensures
        Method::spec_from_str(s) matches Ok(m) ==> s == m.spec_name(),
{
}

impl std::str::FromStr for Method {
    type Err = ();

    fn from_str(s: &str) -> (res: Result<Method, ()>)
        ensures
            res == Method::spec_from_str(s@),
    {
        Method::from_str(s)
    }
}

// ------------------------------------------------------------------
// Encoding
// ------------------------------------------------------------------

/// How a message body is framed.
#[derive(Debug, Hash, PartialEq, Eq, Copy, Clone, Structural)]
pub enum Encoding {
    Chunked,
    Identity,
}

impl Encoding {
    /// The encoding that a `transfer-encoding` value denotes.
    pub open spec fn spec_from_str(s: Seq<char>) -> Result<Encoding, ()> {
        if s == "identity"@ {
            Ok(Encoding::Identity)
        } else if s == "chunked"@ {
            Ok(Encoding::Chunked)
        } else {
            Err(())
        }
    }

    /// How an encoding is displayed: the name of its variant.
    pub open spec fn spec_display(self) -> Seq<char> {
        match self {
            Encoding::Chunked => "Chunked"@,
            Encoding::Identity => "Identity"@,
        }
    }

    /// Parses a `transfer-encoding` value.
    pub fn from_str(s: &str) -> (res: Result<Encoding, ()>)
        ensures
            res == Encoding::spec_from_str(s@),
    {
        if str_eq(s, "identity") {
            Ok(Encoding::Identity)
        } else if str_eq(s, "chunked") {
            Ok(Encoding::Chunked)
        } else {
            Err(())
        }
    }

    /// The encoding as it is displayed.
    pub fn to_string(&self) -> (res: String)
        ensures
            res@ == self.spec_display(),
    {
        match self {
            Encoding::Chunked => String::from_str("Chunked"),
            Encoding::Identity => String::from_str("Identity"),
        }
    }
}

/// Law: an encoding's displayed name, in ASCII lower case, parses back as
/// that encoding.
pub proof fn lemma_encoding_name(e: Encoding)
    ensures
        Encoding::spec_from_str(ascii_lower(e.spec_display())) == Ok::<Encoding, ()>(e),
{
    reveal_strlit("Chunked");
    reveal_strlit("chunked");
    reveal_strlit("Identity");
    reveal_strlit("identity");
    assert(ascii_lower("Chunked"@) =~= "chunked"@);
    assert(ascii_lower("Identity"@) =~= "identity"@);
    assert("chunked"@.len() != "identity"@.len());
}

impl std::str::FromStr for Encoding {
    type Err = ();

    fn from_str(s: &str) -> (res: Result<Encoding, ()>)
        ensures
            res == Encoding::spec_from_str(s@),
    {
        Encoding::from_str(s)
    }
}

// ------------------------------------------------------------------
// Chunks of a body
// ------------------------------------------------------------------

/// What the connection hands over while a body arrives: a buffer whose
/// first `size` bytes are body, or the trailer fields that end it.
pub enum Chunk {
    Body { buf: [u8; BUF_LEN], size: usize },
    Trailers { trailers: Headers },
}

// ------------------------------------------------------------------
// Header questions shared by requests and responses
// ------------------------------------------------------------------

/// The `content-length` that the fields announce, if it is a number.
pub open spec fn spec_content_len(h: Seq<FieldView>) -> Option<nat> {
    match lookup(h, "content-length"@) {
        Some(v) => parse_usize(v),
        None => None,
    }
}

/// The body framing that the fields announce: an unknown or missing
/// `transfer-encoding` means identity.
pub open spec fn spec_transfer_encoding(h: Seq<FieldView>) -> Encoding {
    match lookup(h, "transfer-encoding"@) {
        Some(e) => match Encoding::spec_from_str(e) {
            Ok(enc) => enc,
            Err(_) => Encoding::Identity,
        },
        None => Encoding::Identity,
    }
}

/// The media type of the fields' `content-type`, where it is there and
/// `mime` parses it.
pub open spec fn spec_content_type(h: Seq<FieldView>) -> Option<mime::Mime> {
    match lookup(h, "content-type"@) {
        Some(v) => mime_parse(v),
        None => None,
    }
}

pub(crate) fn content_len_of(h: &Headers) -> (res: Option<usize>)
    ensures
        res matches Some(n) ==> spec_content_len(h@) == Some(n as nat),
        res is None ==> spec_content_len(h@) is None,
{
    match h.get("content-length") {
        Some(cl) => parse_usize_str(cl.as_str()),
        None => None,
    }
}

pub(crate) fn content_type_of(h: &Headers) -> (res: Option<mime::Mime>)
    ensures
        res == spec_content_type(h@),
{
    match h.get("content-type") {
        Some(ct) => match parse_mime(ct.as_str()) {
            Ok(m) => Some(m),
            Err(_) => None,
        },
        None => None,
    }
}

pub(crate) fn transfer_encoding_of(h: &Headers) -> (res: Encoding)
    ensures
        res == spec_transfer_encoding(h@),
{
    match h.get("transfer-encoding") {
        Some(encoding) => match Encoding::from_str(encoding.as_str()) {
            Ok(e) => e,
            Err(_) => Encoding::Identity,
        },
        None => Encoding::Identity,
    }
}

// ------------------------------------------------------------------
// The head that the parser hands over
// ------------------------------------------------------------------

/// One header line as the parser found it: its name and its raw value.
pub struct HeaderField {
    pub name: String,
    pub value: Vec<u8>,
}

/// A parsed request head: what `httparse::Request` holds once parsing is
/// complete.
pub struct RequestHead {
    pub method: Option<String>,
    pub path: Option<String>,
    pub version: Option<u8>,
    pub headers: Vec<HeaderField>,
}

/// The lower-case form of a name, as `to_lowercase` gives it: ASCII text
/// with `A` to `Z` lowered, other text by the full Unicode mapping.
pub open spec fn lower_name(s: Seq<char>) -> Seq<char> {
    if is_ascii_chars(s) {
        ascii_lower(s)
    } else {
        unicode_lower(s)
    }
}

/// Whether every header value is UTF-8.
pub open spec fn fields_utf8(hs: Seq<HeaderField>) -> bool {
    forall|i: int| 0 <= i < hs.len() ==> valid_utf8(#[trigger] hs[i].value@)
}

/// The table the header lines make: names lower-cased, values decoded,
/// and a later line with the same name replacing the value of an earlier one.
pub open spec fn collect_fields(hs: Seq<HeaderField>) -> Seq<FieldView>
    decreases hs.len(),
{
    if hs.len() == 0 {
        Seq::<FieldView>::empty()
    } else {
        with_field(
            collect_fields(hs.drop_last()),
            lower_name(hs.last().name@),
            decode_utf8(hs.last().value@),
        )
    }
}

/// Law: header lines make a table line by line: no line makes the empty
/// table; the last line's name, lower-cased, gets that line's decoded value,
/// replacing what an earlier line with that name gave; every other name keeps
/// the value the earlier lines gave it.
pub proof fn lemma_collect_fields(hs: Seq<HeaderField>, f: HeaderField, other: Seq<char>)
    ensures
        collect_fields(Seq::<HeaderField>::empty()) == Seq::<FieldView>::empty(),
        lookup(collect_fields(hs.push(f)), lower_name(f.name@)) == Some(decode_utf8(f.value@)),
        other != lower_name(f.name@) ==> lookup(collect_fields(hs.push(f)), other) == lookup(
            collect_fields(hs),
            other,
        ),
{
    assert(hs.push(f).drop_last() =~= hs);
    lemma_lookup_with_field(collect_fields(hs), lower_name(f.name@), decode_utf8(f.value@), other);
}

/// Law: on ASCII text, lower-casing keeps the length, changes only the
/// letters `A` to `Z`, each into its lower-case letter, leaves no upper-case
/// letter behind, and lower-casing again changes nothing.
pub proof fn lemma_lower_name_ascii(s: Seq<char>)
    requires
        is_ascii_chars(s),
    ensures
        lower_name(s).len() == s.len(),
        forall|i: int|
            0 <= i < s.len() ==> {
                let c = #[trigger] lower_name(s)[i];
                &&& !('A' <= c && c <= 'Z')
                &&& (('A' <= s[i] && s[i] <= 'Z') ==> c as u32 == s[i] as u32 + 32)
                &&& (!('A' <= s[i] && s[i] <= 'Z') ==> c == s[i])
            },
        is_ascii_chars(lower_name(s)),
        lower_name(lower_name(s)) == lower_name(s),
{
    let l = lower_name(s);
    assert forall|i: int| 0 <= i < s.len() implies '\0' <= #[trigger] l[i] <= '\u{7f}' by {
        assert('\0' <= s[i] <= '\u{7f}');
    }
    assert(lower_name(l) =~= l);
}

/// The string that UTF-8 bytes encode.
fn decode_value(v: &[u8]) -> (res: String)
    requires
        valid_utf8(v@),
    ensures
        res@ == decode_utf8(v@),
{
    match str_from_utf8(v) {
        Ok(s) => {
            proof {
                encode_utf8_decode_utf8(s@);
            }
            s.to_owned()
        },
        Err(_) => String::new(),
    }
}

/// Builds the header table of parsed header lines.
pub fn headers_from_fields(fields: &Vec<HeaderField>) -> (res: Headers)
    requires
        fields_utf8(fields@),
    ensures
        res@ == collect_fields(fields@),
{
    let mut headers = Headers::new();
    let mut i: usize = 0;
    while i < fields.len()
        invariant
            i <= fields@.len(),
            fields_utf8(fields@),
            headers@ == collect_fields(fields@.take(i as int)),
        decreases fields@.len() - i,
    {
        let field = &fields[i];
        let name = to_lowercase(field.name.as_str());
        assert(valid_utf8(fields@[i as int].value@));
        let value = decode_value(field.value.as_slice());
        headers.insert(name, value);
        i = i + 1;
        assert(fields@.take(i as int).drop_last() =~= fields@.take(i - 1));
    }
    assert(fields@.take(fields@.len() as int) =~= fields@);
    headers
}

// ------------------------------------------------------------------
// Request
// ------------------------------------------------------------------

/// What a request is.
pub ghost struct RequestView {
    pub bytes: Seq<u8>,
    pub version: u8,
    pub method: Method,
    pub path: Seq<char>,
    pub headers: Seq<FieldView>,
    pub trailers: Option<Seq<FieldView>>,
    pub stream: Option<Receiver<Chunk>>,
}

impl RequestView {
    /// The route a request asks for: its method and its path.
    pub open spec fn route_view(self) -> PathView {
        (Some(self.method), self.path)
    }
}

/// A request: its head, the body read so far, the trailer fields if they
/// came, and the channel on which the rest of the body arrives.
pub struct Request {
    pub(crate) bytes: Vec<u8>,
    pub(crate) version: u8,
    pub(crate) method: Method,
    pub(crate) path: String,
    pub(crate) headers: Headers,
    pub(crate) trailers: Option<Headers>,
    pub(crate) stream: Option<Receiver<Chunk>>,
}

/// The view of optional trailer fields.
pub open spec fn trailers_view(t: Option<Headers>) -> Option<Seq<FieldView>> {
    match t {
        Some(h) => Some(h@),
        None => None,
    }
}

impl View for Request {
    type V = RequestView;

    closed spec fn view(&self) -> RequestView {
        RequestView {
            bytes: self.bytes@,
            version: self.version,
            method: self.method,
            path: self.path@,
            headers: self.headers@,
            trailers: trailers_view(self.trailers),
            stream: self.stream,
        }
    }
}

/// How the body of a request is to be read: in chunks until the trailers
/// or the end of the stream, or up to the announced length.
#[derive(Debug, PartialEq, Eq, Copy, Clone, Structural)]
pub enum BodyMode {
    Chunked,
    Identity(usize),
}

/// Whether reading the body goes on after a chunk.
#[derive(Debug, PartialEq, Eq, Copy, Clone, Structural)]
pub enum BodyFlow {
    More,
    Done,
}

/// Whether a parsed request head is complete and understood: method, path
/// and version present, header values UTF-8, and a known method.
pub open spec fn head_is_usable(head: RequestHead) -> bool {
    &&& head.method is Some
    &&& head.path is Some
    &&& head.version is Some
    &&& fields_utf8(head.headers@)
    &&& Method::spec_from_str(lower_name(head.method->0@)) is Ok
}

/// The request that a usable head describes.
pub open spec fn request_from_head(head: RequestHead) -> RequestView {
    RequestView {
        bytes: Seq::<u8>::empty(),
        version: head.version->0,
        method: Method::spec_from_str(lower_name(head.method->0@))->Ok_0,
        path: head.path->0@,
        headers: collect_fields(head.headers@),
        trailers: None,
        stream: None,
    }
}

/// The body mode that a request's fields call for; none where the body is
/// not chunked and no length is announced.
pub open spec fn spec_body_mode(h: Seq<FieldView>) -> Option<BodyMode> {
    if spec_transfer_encoding(h) == Encoding::Chunked {
        Some(BodyMode::Chunked)
    } else {
        match spec_content_len(h) {
            Some(n) => Some(BodyMode::Identity(n as usize)),
            None => None,
        }
    }
}

/// Whether the body read so far already satisfies the mode.
pub open spec fn spec_body_complete(bytes: Seq<u8>, mode: BodyMode) -> bool {
    match mode {
        BodyMode::Identity(cl) => bytes.len() >= cl,
        BodyMode::Chunked => false,
    }
}

/// Law: a parsed head is usable exactly when it has a method, a path and a
/// version (whichever version it is), every header value is UTF-8, and the
/// method's lower-case name is a known method; the request it then describes
/// has that method, the path and the version as they came, no body read yet,
/// no trailers and no channel.
pub proof fn lemma_usable_head(head: RequestHead)
    ensures
        head_is_usable(head) <==> {
            &&& head.method is Some
            &&& head.path is Some
            &&& head.version is Some
            &&& forall|i: int|
                0 <= i < head.headers@.len() ==> valid_utf8(#[trigger] head.headers@[i].value@)
            &&& Method::spec_from_str(lower_name(head.method->0@)) is Ok
        },
        head_is_usable(head) ==> {
            let r = request_from_head(head);
            &&& Method::spec_from_str(lower_name(head.method->0@)) == Ok::<Method, ()>(r.method)
            &&& r.version == head.version->0
            &&& r.path == head.path->0@
            &&& r.route_view() == (Some(r.method), head.path->0@)
            &&& r.headers == collect_fields(head.headers@)
            &&& r.bytes.len() == 0
            &&& r.trailers is None
            &&& r.stream is None
        },
{
}

/// Law: the route a request asks for is its method and its path exactly as
/// the request gave it.
pub proof fn lemma_route_is_method_and_path(r: RequestView)
    ensures
        r.route_view().0 == Some(r.method),
        r.route_view().1 == r.path,
        r.route_view().1.len() == r.path.len(),
{
}

/// Law: an identity body is complete exactly when it holds at least the
/// announced length, and a chunked body is never complete before its end
/// (the trailers or the end of the channel).
pub proof fn lemma_body_complete(bytes: Seq<u8>, cl: usize)
    ensures
        spec_body_complete(bytes, BodyMode::Identity(cl)) <==> bytes.len() >= cl,
        !spec_body_complete(bytes, BodyMode::Chunked),
        spec_body_complete(bytes, BodyMode::Identity(cl)) ==> spec_body_complete(
            bytes + bytes,
            BodyMode::Identity(cl),
        ),
{
}

/// Law: a `content-length` field that holds the numeral of `n` announces `n`
/// (so `0` announces an empty body), and without the field nothing is
/// announced; a `transfer-encoding` of `chunked` frames the body chunked, and
/// without the field the body is framed as it is.
pub proof fn lemma_framing_fields(h: Seq<FieldView>, n: usize)
    ensures
        lookup(h, "content-length"@) == Some(decimal(n as nat)) ==> spec_content_len(h) == Some(
            n as nat,
        ),
        lookup(h, "content-length"@) is None ==> spec_content_len(h) is None,
        spec_content_len(h) matches Some(m) ==> m <= usize::MAX,
        lookup(h, "transfer-encoding"@) == Some("chunked"@) ==> spec_transfer_encoding(h)
            == Encoding::Chunked,
        lookup(h, "transfer-encoding"@) == Some("identity"@) ==> spec_transfer_encoding(h)
            == Encoding::Identity,
        lookup(h, "transfer-encoding"@) is None ==> spec_transfer_encoding(h) == Encoding::Identity,
        lookup(h, "transfer-encoding"@) matches Some(e) && e != "chunked"@
            ==> spec_transfer_encoding(h) == Encoding::Identity,
{
    lemma_parse_decimal(n);
    reveal_strlit("chunked");
    reveal_strlit("identity");
    assert("chunked"@.len() != "identity"@.len());
}

/// Law: without a `content-type` field there is no media type, and with one
/// the media type is what `mime` makes of its value.
pub proof fn lemma_content_type(h: Seq<FieldView>)
    ensures
        lookup(h, "content-type"@) is None ==> spec_content_type(h) is None,
        lookup(h, "content-type"@) matches Some(v) ==> spec_content_type(h) == mime_parse(v),
{
}

/// Law: a body framed chunked is read in chunks; otherwise an announced
/// length `n`, zero included, is read as an identity body of `n` bytes, and
/// where no length is announced there is no telling where the body ends.
pub proof fn lemma_body_mode(h: Seq<FieldView>)
    ensures
        spec_transfer_encoding(h) == Encoding::Chunked ==> spec_body_mode(h) == Some(
            BodyMode::Chunked,
        ),
        spec_transfer_encoding(h) != Encoding::Chunked ==> match spec_content_len(h) {
            Some(n) => spec_body_mode(h) == Some(BodyMode::Identity(n as usize)) && n as usize == n,
            None => spec_body_mode(h) is None,
        },
{
}

/// All the chunks of `data`, one after the other.
pub open spec fn concat_all(data: Seq<Seq<u8>>) -> Seq<u8>
    decreases data.len(),
{
    if data.len() == 0 {
        Seq::<u8>::empty()
    } else {
        concat_all(data.drop_last()) + data.last()
    }
}

/// Law: when body chunks are fed one after another (`views[k + 1]` being
/// what `feed_body` makes of `views[k]` and the chunk whose bytes are
/// `data[k]`), the body holds their bytes in the order they came, and
/// nothing else of the request changes.
pub proof fn lemma_body_in_order(views: Seq<RequestView>, data: Seq<Seq<u8>>)
    requires
        views.len() == data.len() + 1,
        forall|k: int|
            0 <= k < data.len() ==> #[trigger] views[k + 1] == (RequestView {
                bytes: views[k].bytes + data[k],
                ..views[k]
            }),
    ensures
        views.last() == (RequestView { bytes: views[0].bytes + concat_all(data), ..views[0] }),
    decreases data.len(),
{
    if data.len() == 0 {
        assert(views[0].bytes + concat_all(data) =~= views[0].bytes);
    } else {
        let n = data.len() - 1;
        let pv = views.drop_last();
        let pd = data.drop_last();
        assert forall|k: int| 0 <= k < pd.len() implies #[trigger] pv[k + 1] == (RequestView {
            bytes: pv[k].bytes + pd[k],
            ..pv[k]
        }) by {
            assert(views[k + 1] == (RequestView { bytes: views[k].bytes + data[k], ..views[k] }));
        }
        lemma_body_in_order(pv, pd);
        assert(views[n + 1] == (RequestView { bytes: views[n].bytes + data[n], ..views[n] }));
        assert(views[0].bytes + concat_all(data) =~= views[0].bytes + concat_all(pd) + data[n]);
    }
}

impl Request {
    /// The request that a parsed head describes.
    pub fn from_parser(head: RequestHead) -> (res: Result<Request, BodyError>)
        requires
            head_is_usable(head),
        ensures
            res matches Ok(r) && r@ == request_from_head(head),
    {
        let headers = headers_from_fields(&head.headers);
        let version = head.version.unwrap();
        let path = head.path.unwrap();
        let name = head.method.unwrap();
        let lower = to_lowercase(name.as_str());
        let method = Method::from_str(lower.as_str()).unwrap();
        Ok(
            Request {
                bytes: Vec::new(),
                version,
                method,
                path,
                headers,
                trailers: None,
                stream: None,
            },
        )
    }

    /// The request that a parsed head describes, or `None` where the head is
    /// incomplete or not understood.
    pub fn try_from_parser(head: RequestHead) -> (res: Option<Request>)
        ensures
            res is Some <==> head_is_usable(head),
            res matches Some(r) ==> r@ == request_from_head(head),
    {
        if head.method.is_none() || head.path.is_none() || head.version.is_none() {
            return None;
        }
        let mut i: usize = 0;
        while i < head.headers.len()
            invariant
                i <= head.headers@.len(),
                forall|j: int| 0 <= j < i ==> valid_utf8(#[trigger] head.headers@[j].value@),
            decreases head.headers@.len() - i,
        {
            if str_from_utf8(head.headers[i].value.as_slice()).is_err() {
                return None;
            }
            i = i + 1;
        }
        let known = match &head.method {
            Some(m) => Method::from_str(to_lowercase(m.as_str()).as_str()).is_ok(),
            None => false,
        };
        if !known {
            return None;
        }
        match Request::from_parser(head) {
            Ok(r) => Some(r),
            Err(_) => None,
        }
    }

    /// Hands the request the channel on which its body arrives.
    pub fn stream(&mut self, receiver: Receiver<Chunk>)
        ensures
            final(self)@ == (RequestView { stream: Some(receiver), ..old(self)@ }),
    {
        self.stream = Some(receiver)
    }

    /// Takes the channel on which the body arrives, if it is still there.
    pub fn take_stream(&mut self) -> (res: Option<Receiver<Chunk>>)
        ensures
            res == old(self)@.stream,
            final(self)@ == (RequestView { stream: None, ..old(self)@ }),
    {
        self.stream.take()
    }

    /// The route the request asks for: its method and its path.
    pub fn route(&self) -> (res: Path)
        ensures
            res@ == self@.route_view(),
            res@ == (Some(self@.method), self@.path),
    {
        Path::new(self.method, self.path.clone())
    }

    /// The header fields.
    pub fn headers(&mut self) -> (res: &Headers)
        ensures
            res@ == old(self)@.headers,
            final(self)@ == old(self)@,
    {
        &self.headers
    }

    /// The header fields, to change them.
    pub fn headers_mut(&mut self) -> (res: &mut Headers)
        ensures
            res@ == old(self)@.headers,
            final(self)@ == (RequestView { headers: final(res)@, ..old(self)@ }),
    {
        &mut self.headers
    }

    /// The announced `content-length`, if it is a number.
    pub fn content_len(&self) -> (res: Option<usize>)
        ensures
            res matches Some(n) ==> spec_content_len(self@.headers) == Some(n as nat),
            res is None ==> spec_content_len(self@.headers) is None,
    {
        content_len_of(&self.headers)
    }

    /// The `content-type`, if it is there and parses as a media type.
    pub fn content_type(&self) -> (res: Option<mime::Mime>)
        ensures
            res == spec_content_type(self@.headers),
    {
        content_type_of(&self.headers)
    }

    /// Whether the connection stays open after this request: as the
    /// `connection` field says, else by default for HTTP/1.1.
    pub fn is_keep_alive(&self) -> (res: bool)
        ensures
            res == match lookup(self@.headers, "connection"@) {
                Some(c) => c == "keep-alive"@,
                None => self@.version == 1,
            },
    {
        match self.headers.get("connection") {
            Some(connection) => str_eq("keep-alive", connection.as_str()),
            None => self.version == 1,
        }
    }

    /// How the body is framed.
    pub fn transfer_endcoding(&self) -> (res: Encoding)
        ensures
            res == spec_transfer_encoding(self@.headers),
    {
        transfer_encoding_of(&self.headers)
    }

    /// The names that the `trailer` field announces: its value without
    /// white space, split at commas.
    pub fn check_trailers(&self) -> (res: Vec<String>)
        ensures
            views(res@) == match lookup(self@.headers, "trailer"@) {
                Some(t) => comma_list(t),
                None => Seq::<Seq<char>>::empty(),
            },
    {
        match self.headers.get("trailer") {
            Some(trailers) => {
                let cs = remove_whitespace(trailers.as_str());
                split_chars(cs.as_slice(), ',')
            },
            None => {
                let res: Vec<String> = Vec::new();
                assert(views(res@) =~= Seq::<Seq<char>>::empty());
                res
            },
        }
    }

    /// The trailer fields, once a chunked body has been read to its end.
    pub fn trailers(&self) -> (res: &Option<Headers>)
        ensures
            trailers_view(*res) == self@.trailers,
    {
        &self.trailers
    }

    /// The body read so far.
    pub fn bytes(&self) -> (res: &Vec<u8>)
        ensures
            res@ == self@.bytes,
    {
        &self.bytes
    }

    /// The body read so far, parsed as JSON.
    pub fn json(&self) -> (res: Result<serde_json::Value, BodyError>)
        ensures
            res is Ok <==> json_parse(self@.bytes) is Some,
            res matches Ok(v) ==> json_parse(self@.bytes) == Some(v),
            res matches Err(e) ==> e is Json,
    {
        match json_from_slice(self.bytes.as_slice()) {
            Ok(v) => Ok(v),
            Err(e) => Err(BodyError::Json(e)),
        }
    }

    /// What asking for the body as JSON answers once reading the body ended
    /// with `read`: the error that reading met, else the body parsed.
    pub fn json_after_read(&self, read: Result<(), BodyError>) -> (res: Result<serde_json::Value, BodyError>)
        ensures
            match read {
                Err(e) => res == Err::<serde_json::Value, BodyError>(e),
                Ok(_) => {
                    &&& res is Ok <==> json_parse(self@.bytes) is Some
                    &&& res matches Ok(v) ==> json_parse(self@.bytes) == Some(v)
                    &&& res matches Err(e) ==> e is Json
                },
            },
    {
        match read {
            Err(e) => Err(e),
            Ok(()) => self.json(),
        }
    }

    /// What asking for the body answers once reading the body ended with
    /// `read`: the error that reading met, else the body.
    pub fn bytes_after_read(&self, read: Result<(), BodyError>) -> (res: Result<&Vec<u8>, BodyError>)
        ensures
            match read {
                Err(e) => res == Err::<&Vec<u8>, BodyError>(e),
                Ok(_) => res matches Ok(b) && b@ == self@.bytes,
            },
    {
        match read {
            Err(e) => Err(e),
            Ok(()) => Ok(&self.bytes),
        }
    }

    /// How the body is to be read; `None` where it is not chunked and no
    /// length is announced, so that there is no telling where it ends.
    pub fn body_mode(&self) -> (res: Option<BodyMode>)
        ensures
            res == spec_body_mode(self@.headers),
            spec_transfer_encoding(self@.headers) == Encoding::Chunked ==> res == Some(
                BodyMode::Chunked,
            ),
            spec_transfer_encoding(self@.headers) != Encoding::Chunked ==> match spec_content_len(
                self@.headers,
            ) {
                Some(n) => res == Some(BodyMode::Identity(n as usize)),
                None => res is None,
            },
    {
        if transfer_encoding_of(&self.headers) == Encoding::Chunked {
            Some(BodyMode::Chunked)
        } else {
            match content_len_of(&self.headers) {
                Some(n) => Some(BodyMode::Identity(n)),
                None => None,
            }
        }
    }

    /// Whether the body read so far already satisfies `mode`, so that no
    /// chunk needs to be awaited.
    pub fn body_complete(&self, mode: BodyMode) -> (res: bool)
        ensures
            res == spec_body_complete(self@.bytes, mode),
            res == match mode {
                BodyMode::Identity(cl) => self@.bytes.len() >= cl,
                BodyMode::Chunked => false,
            },
    {
        match mode {
            BodyMode::Identity(cl) => self.bytes.len() >= cl,
            BodyMode::Chunked => false,
        }
    }

    /// Takes in what the body's channel gave: a chunk, or `None` at its end.
    /// Body bytes are added; trailers end a chunked body and are refused in
    /// an identity body; an identity body is done once it is long enough.
    pub fn feed_body(&mut self, mode: BodyMode, chunk: Option<Chunk>) -> (res: Result<BodyFlow, BodyError>)
        requires
            chunk matches Some(Chunk::Body { size, .. }) ==> size <= BUF_LEN,
        ensures
            match chunk {
                None => {
                    &&& res == Ok::<BodyFlow, BodyError>(BodyFlow::Done)
                    &&& final(self)@ == old(self)@
                },
                Some(Chunk::Body { buf, size }) => {
                    let bytes = old(self)@.bytes + buf@.take(size as int);
                    &&& final(self)@ == (RequestView { bytes: bytes, ..old(self)@ })
                    &&& res == Ok::<BodyFlow, BodyError>(
                        if spec_body_complete(bytes, mode) {
                            BodyFlow::Done
                        } else {
                            BodyFlow::More
                        },
                    )
                },
                Some(Chunk::Trailers { trailers }) => match mode {
                    BodyMode::Chunked => {
                        &&& final(self)@ == (RequestView {
                            trailers: Some(trailers@),
                            ..old(self)@
                        })
                        &&& res == Ok::<BodyFlow, BodyError>(BodyFlow::Done)
                    },
                    BodyMode::Identity(_) => {
                        &&& final(self)@ == old(self)@
                        &&& res matches Err(BodyError::InvalidData)
                    },
                },
            },
    {
        match chunk {
            None => Ok(BodyFlow::Done),
            Some(Chunk::Body { buf, size }) => {
                let mut data: Vec<u8> = Vec::new();
                let mut i: usize = 0;
                while i < size
                    invariant
                        i <= size <= BUF_LEN,
                        buf@.len() == BUF_LEN,
                        data@ == buf@.take(i as int),
                    decreases size - i,
                {
                    data.push(buf[i]);
                    i = i + 1;
                    assert(buf@.take(i as int) =~= buf@.take(i - 1).push(buf@[i - 1]));
                }
                self.bytes.append(&mut data);
                if self.body_complete(mode) {
                    Ok(BodyFlow::Done)
                } else {
                    Ok(BodyFlow::More)
                }
            },
            Some(Chunk::Trailers { trailers }) => match mode {
                BodyMode::Chunked => {
                    self.trailers = Some(trailers);
                    Ok(BodyFlow::Done)
                },
                BodyMode::Identity(_) => Err(BodyError::InvalidData),
            },
        }
    }
}

} // verus!
