use brio::request::{BodyFlow, BodyMode, HeaderField, RequestHead};
use brio::{BodyError, Chunk, Encoding, Headers, Method, Request, BUF_LEN};

fn request_head(raw: &[u8]) -> RequestHead {
    let mut headers = [httparse::EMPTY_HEADER; 16];
    let mut parsed = httparse::Request::new(&mut headers);
    let status = parsed.parse(raw).unwrap();
    assert!(status.is_complete());
    RequestHead {
        method: parsed.method.map(|m| m.to_owned()),
        path: parsed.path.map(|p| p.to_owned()),
        version: parsed.version,
        headers: parsed
            .headers
            .iter()
            .map(|h| HeaderField { name: h.name.to_owned(), value: h.value.to_vec() })
            .collect(),
    }
}

fn request_of(raw: &[u8]) -> Request {
    match Request::from_parser(request_head(raw)) {
        Ok(r) => r,
        Err(_) => panic!("request head refused"),
    }
}

fn body_chunk(data: &[u8]) -> Chunk {
    let mut buf = [0u8; BUF_LEN];
    buf[..data.len()].copy_from_slice(data);
    Chunk::Body { buf, size: data.len() }
}

fn json_value(text: &str) -> serde_json::Value {
    serde_json::from_str(text).unwrap()
}

#[test]
fn method_from_str_names() {
    assert_eq!(Method::from_str("get"), Ok(Method::Get));
    assert_eq!(Method::from_str("head"), Ok(Method::Head));
    assert_eq!(Method::from_str("post"), Ok(Method::Post));
    assert_eq!(Method::from_str("put"), Ok(Method::Put));
    assert_eq!(Method::from_str("delete"), Ok(Method::Delete));
    assert_eq!(Method::from_str("connect"), Ok(Method::Connect));
    assert_eq!(Method::from_str("options"), Ok(Method::Options));
    assert_eq!(Method::from_str("trace"), Ok(Method::Trace));
    assert_eq!(Method::from_str("patch"), Ok(Method::Patch));
    assert_eq!(Method::from_str("GET"), Err(()));
    assert_eq!(Method::from_str("fetch"), Err(()));
    assert_eq!("delete".parse::<Method>(), Ok(Method::Delete));
    assert_eq!(Method::Get.to_string(), "Get");
    assert_eq!(Method::Options.to_string(), "Options");
}

#[test]
fn encoding_from_str_names() {
    assert_eq!(Encoding::from_str("chunked"), Ok(Encoding::Chunked));
    assert_eq!(Encoding::from_str("identity"), Ok(Encoding::Identity));
    assert_eq!(Encoding::from_str("gzip"), Err(()));
    assert_eq!(Encoding::Chunked.to_string(), "Chunked");
    assert_eq!("identity".parse::<Encoding>(), Ok(Encoding::Identity));
    for e in [Encoding::Chunked, Encoding::Identity].iter() {
        let name = brio::text::to_ascii_lowercase(&e.to_string());
        assert_eq!(Encoding::from_str(&name), Ok(*e));
    }
}

#[test]
fn from_parser_reads_head() {
    let mut req = request_of(
        b"POST /foo HTTP/1.1\r\nHost: localhost:8000\r\nContent-Type: application/json\r\nContent-Length: 18\r\n\r\n",
    );
    let route = req.route();
    assert_eq!(route.path(), "/foo");
    assert_eq!(*route.method(), Some(Method::Post));
    assert_eq!(req.headers().get("host").unwrap(), "localhost:8000");
    assert_eq!(req.headers().get("content-type").unwrap(), "application/json");
    assert_eq!(req.headers().get("Content-Type"), None);
    assert_eq!(req.content_len(), Some(18));
    assert!(req.content_type().is_some());
    assert!(req.bytes().is_empty());
    assert!(req.trailers().is_none());
    assert!(req.is_keep_alive());
    assert_eq!(req.transfer_endcoding(), Encoding::Identity);
}

#[test]
fn from_parser_later_field_wins() {
    let mut req = request_of(b"GET / HTTP/1.1\r\nX-A: one\r\nx-a: two\r\nX-B: three\r\n\r\n");
    assert_eq!(req.headers().len(), 2);
    assert_eq!(req.headers().get("x-a").unwrap(), "two");
    assert_eq!(req.headers().get("x-b").unwrap(), "three");
}

#[test]
fn try_from_parser_refuses_unknown_method() {
    let head = request_head(b"FETCH / HTTP/1.1\r\n\r\n");
    assert!(Request::try_from_parser(head).is_none());
    let head = request_head(b"DELETE /x HTTP/1.1\r\n\r\n");
    let req = Request::try_from_parser(head).unwrap();
    assert_eq!(*req.route().method(), Some(Method::Delete));
}

#[test]
fn try_from_parser_refuses_invalid_utf8_value() {
    let head = RequestHead {
        method: Some("GET".to_owned()),
        path: Some("/".to_owned()),
        version: Some(1),
        headers: vec![HeaderField { name: "X".to_owned(), value: vec![0xff, 0xfe] }],
    };
    assert!(Request::try_from_parser(head).is_none());
    let head = RequestHead { method: None, path: Some("/".to_owned()), version: Some(1), headers: vec![] };
    assert!(Request::try_from_parser(head).is_none());
}

#[test]
fn keep_alive_rules() {
    assert!(request_of(b"GET / HTTP/1.1\r\n\r\n").is_keep_alive());
    assert!(!request_of(b"GET / HTTP/1.0\r\n\r\n").is_keep_alive());
    assert!(request_of(b"GET / HTTP/1.0\r\nConnection: keep-alive\r\n\r\n").is_keep_alive());
    assert!(!request_of(b"GET / HTTP/1.1\r\nConnection: close\r\n\r\n").is_keep_alive());
    assert!(!request_of(b"GET / HTTP/1.1\r\nConnection: Keep-Alive\r\n\r\n").is_keep_alive());
}

#[test]
fn content_headers_edge_cases() {
    let req = request_of(b"GET / HTTP/1.1\r\nContent-Length: abc\r\nContent-Type: nonsense\r\n\r\n");
    assert_eq!(req.content_len(), None);
    assert!(req.content_type().is_none());
    let req = request_of(b"GET / HTTP/1.1\r\nTransfer-Encoding: gzip\r\n\r\n");
    assert_eq!(req.transfer_endcoding(), Encoding::Identity);
    let req = request_of(b"GET / HTTP/1.1\r\nTransfer-Encoding: chunked\r\n\r\n");
    assert_eq!(req.transfer_endcoding(), Encoding::Chunked);
    assert_eq!(req.body_mode(), Some(BodyMode::Chunked));
    let req = request_of(b"GET / HTTP/1.1\r\n\r\n");
    assert_eq!(req.body_mode(), None);
}

#[test]
fn check_trailers_lists_names() {
    let req = request_of(b"POST / HTTP/1.1\r\nTrailer: Expires, Date\r\n\r\n");
    assert_eq!(req.check_trailers(), vec!["Expires".to_owned(), "Date".to_owned()]);
    let req = request_of(b"POST / HTTP/1.1\r\nTrailer: Expires\r\n\r\n");
    assert_eq!(req.check_trailers(), vec!["Expires".to_owned()]);
    let req = request_of(b"POST / HTTP/1.1\r\nTrailer: \r\n\r\n");
    assert_eq!(req.check_trailers(), vec!["".to_owned()]);
    let req = request_of(b"POST / HTTP/1.1\r\n\r\n");
    assert!(req.check_trailers().is_empty());
}

#[test]
fn identity_body_stops_at_length() {
    let mut req = request_of(b"POST /foo HTTP/1.1\r\nContent-Length: 18\r\n\r\n");
    let mode = req.body_mode().unwrap();
    assert_eq!(mode, BodyMode::Identity(18));
    assert!(!req.body_complete(mode));
    assert!(matches!(req.feed_body(mode, Some(body_chunk(b"{\"hello\": "))), Ok(BodyFlow::More)));
    assert!(matches!(req.feed_body(mode, Some(body_chunk(b"\"world\"}"))), Ok(BodyFlow::Done)));
    assert_eq!(req.bytes().as_slice(), b"{\"hello\": \"world\"}");
    assert!(req.body_complete(mode));
    assert_eq!(req.json().ok(), Some(json_value("{\"hello\": \"world\"}")));
}

#[test]
fn identity_body_refuses_trailers() {
    let mut req = request_of(b"POST /foo HTTP/1.1\r\nContent-Length: 4\r\n\r\n");
    let mode = req.body_mode().unwrap();
    let res = req.feed_body(mode, Some(Chunk::Trailers { trailers: Headers::new() }));
    assert!(matches!(res, Err(BodyError::InvalidData)));
    assert!(req.bytes().is_empty());
    assert!(req.trailers().is_none());
    assert!(matches!(req.feed_body(mode, None), Ok(BodyFlow::Done)));
}

#[test]
fn json_of_bad_body_is_an_error() {
    let mut req = request_of(b"POST /foo HTTP/1.1\r\nContent-Length: 3\r\n\r\n");
    let mode = req.body_mode().unwrap();
    assert!(matches!(req.feed_body(mode, Some(body_chunk(b"{x}"))), Ok(BodyFlow::Done)));
    assert!(matches!(req.json(), Err(BodyError::Json(_))));
}

#[test]
fn chunked_small() {
    let mut req = request_of(
        b"POST /foo HTTP/1.1\r\nHost: localhost:8000\r\nContent-Type: application/json\r\nTransfer-Encoding: chunked\r\n\r\n",
    );
    let mode = req.body_mode().unwrap();
    assert_eq!(mode, BodyMode::Chunked);
    for part in [&b"{"[..], b"\"hello\"", b":", b" \"world\"}"].iter() {
        assert!(matches!(req.feed_body(mode, Some(body_chunk(part))), Ok(BodyFlow::More)));
    }
    assert!(matches!(req.feed_body(mode, None), Ok(BodyFlow::Done)));
    assert_eq!(req.json().ok(), Some(json_value("{\"hello\": \"world\"}")));
    assert!(req.trailers().is_none());
}

#[test]
fn trailers() {
    let mut req = request_of(
        b"POST /trailers HTTP/1.1\r\nHost: localhost:8000\r\nContent-Type: application/json\r\nTransfer-Encoding: chunked\r\nTrailer: Expires\r\n\r\n",
    );
    let mode = req.body_mode().unwrap();
    for part in [&b"{"[..], b"\"hello\"", b":", b" \"world\"}"].iter() {
        assert!(matches!(req.feed_body(mode, Some(body_chunk(part))), Ok(BodyFlow::More)));
    }
    let mut t = Headers::new();
    t.insert("expires".to_owned(), "Fri, 01 Nov 2019 07:28:00 GMT".to_owned());
    assert!(matches!(req.feed_body(mode, Some(Chunk::Trailers { trailers: t })), Ok(BodyFlow::Done)));
    let got = req.trailers().as_ref().unwrap();
    assert_eq!(got.get("expires").unwrap(), "Fri, 01 Nov 2019 07:28:00 GMT");
    assert_eq!(req.check_trailers(), vec!["Expires".to_owned()]);
}

#[test]
fn missing_trailers() {
    let mut req = request_of(
        b"POST /foo HTTP/1.1\r\nHost: localhost:8000\r\nContent-Type: application/json\r\nTransfer-Encoding: chunked\r\nTrailer: Expires\r\n\r\n",
    );
    let mode = req.body_mode().unwrap();
    for part in [&b"{"[..], b"\"hello\"", b":", b" \"world\"}"].iter() {
        assert!(matches!(req.feed_body(mode, Some(body_chunk(part))), Ok(BodyFlow::More)));
    }
    assert!(matches!(req.feed_body(mode, None), Ok(BodyFlow::Done)));
    assert!(req.trailers().is_none());
    assert_eq!(req.json().ok(), Some(json_value("{\"hello\": \"world\"}")));
}

#[test]
fn request_stream_channel() {
    let (_tx, rx) = futures::channel::mpsc::channel::<Chunk>(4);
    let mut req = request_of(b"POST /stream HTTP/1.1\r\nTransfer-Encoding: chunked\r\n\r\n");
    req.stream(rx);
    assert!(req.take_stream().is_some());
    assert!(req.take_stream().is_none());
}

#[test]
fn headers_mut_changes_request() {
    let mut req = request_of(b"GET /echo HTTP/1.1\r\nMath: 1\r\n\r\n");
    req.headers_mut().insert("math".to_owned(), "5".to_owned());
    assert_eq!(req.headers().get("math").unwrap(), "5");
}

fn sonnet() -> &'static str {
    "{\"text\":\"Two households, both alike in dignity,\\nIn fair Verona, where we lay our scene,\\nFrom ancient grudge break to new mutiny,\\nWhere civil blood makes civil hands unclean.\\nFrom forth the fatal loins of these two foes\\nA pair of star-cross'd lovers take their life;\\nWhose misadventured piteous overthrows\\nDo with their death bury their parents' strife.\\nThe fearful passage of their death-mark'd love,\\nAnd the continuance of their parents' rage,\\nWhich, but their children's end, nought could remove,\\nIs now the two hours' traffic of our stage;\\nThe which if you with patient ears attend,\\nWhat here shall miss, our toil shall strive to mend.\"}"
}

#[test]
fn chunked_large() {
    let mut req = request_of(
        b"POST /foo HTTP/1.1\r\nHost: localhost:8000\r\nContent-Type: application/json\r\nTransfer-Encoding: chunked\r\n\r\n",
    );
    let mode = req.body_mode().unwrap();
    let large = sonnet().as_bytes();
    assert_eq!(large.len(), 0x28d);
    for part in [&b"["[..], large, b" ,", large, b"]"].iter() {
        assert!(matches!(req.feed_body(mode, Some(body_chunk(part))), Ok(BodyFlow::More)));
    }
    assert!(matches!(req.feed_body(mode, None), Ok(BodyFlow::Done)));
    let one = json_value(sonnet());
    let expected = serde_json::Value::Array(vec![one.clone(), one]);
    assert_eq!(req.json().ok(), Some(expected));
}

#[test]
fn identity_body_in_many_chunks() {
    let text = format!("[{}, {}, {}]", sonnet(), sonnet(), sonnet());
    let raw = format!("POST /foo HTTP/1.1\r\nContent-Type: application/json\r\nContent-Length: {}\r\n\r\n", text.len());
    let mut req = request_of(raw.as_bytes());
    let mode = req.body_mode().unwrap();
    assert_eq!(mode, BodyMode::Identity(text.len()));
    let pieces: Vec<&[u8]> = text.as_bytes().chunks(BUF_LEN).collect();
    assert!(pieces.len() > 1);
    for (i, piece) in pieces.iter().enumerate() {
        let flow = req.feed_body(mode, Some(body_chunk(piece)));
        if i + 1 < pieces.len() {
            assert!(matches!(flow, Ok(BodyFlow::More)));
        } else {
            assert!(matches!(flow, Ok(BodyFlow::Done)));
        }
    }
    assert_eq!(req.bytes().as_slice(), text.as_bytes());
    assert_eq!(req.json().ok(), Some(json_value(&text)));
}

#[test]
fn method_display_lowercased_parses_back() {
    let all = [
        Method::Get,
        Method::Head,
        Method::Post,
        Method::Put,
        Method::Delete,
        Method::Connect,
        Method::Options,
        Method::Trace,
        Method::Patch,
    ];
    for m in all.iter() {
        let lower = brio::bridge::to_lowercase(&m.to_string());
        assert_eq!(lower, m.to_string().to_lowercase());
        assert_eq!(lower.parse::<Method>(), Ok(*m));
    }
    assert_eq!(brio::bridge::to_lowercase("Content-Type"), "content-type");
    assert_eq!(brio::bridge::to_lowercase("ÄB"), "äb");
}

#[test]
fn content_type_is_the_parsed_media_type() {
    let req = request_of(b"POST /x HTTP/1.1\r\nContent-Type: text/plain; charset=utf-8\r\n\r\n");
    let expected: mime::Mime = "text/plain; charset=utf-8".parse().unwrap();
    assert_eq!(req.content_type(), Some(expected));
    let req = request_of(b"POST /x HTTP/1.1\r\nContent-Type: nonsense\r\n\r\n");
    assert_eq!(req.content_type(), None);
}

#[test]
fn after_read_passes_the_read_error_on() {
    let mut req = request_of(b"POST /x HTTP/1.1\r\nContent-Length: 7\r\n\r\n");
    let mode = req.body_mode().unwrap();
    let read = match req.feed_body(mode, Some(Chunk::Trailers { trailers: Headers::new() })) {
        Ok(_) => Ok(()),
        Err(e) => Err(e),
    };
    assert!(matches!(req.json_after_read(read), Err(BodyError::InvalidData)));
    assert!(matches!(req.bytes_after_read(Err(BodyError::InvalidData)), Err(BodyError::InvalidData)));
    assert!(req.bytes_after_read(Ok(())).ok().unwrap().is_empty());
    assert!(matches!(req.json_after_read(Ok(())), Err(BodyError::Json(_))));
    assert!(matches!(req.feed_body(mode, Some(body_chunk(b"[1, 2]\n"))), Ok(BodyFlow::Done)));
    assert_eq!(req.json_after_read(Ok(())).ok(), Some(json_value("[1,2]")));
    assert_eq!(req.bytes_after_read(Ok(())).ok().map(|b| b.as_slice()), Some(&b"[1, 2]\n"[..]));
}
