use brio::request::HeaderField;
use brio::response::ResponseHead;
use brio::{ChunkedBody, Encoding, Response, Status};

fn parse_response(raw: &[u8]) -> (Response, usize) {
    let mut headers = [httparse::EMPTY_HEADER; 16];
    let mut parsed = httparse::Response::new(&mut headers);
    let status = parsed.parse(raw).unwrap();
    let n = status.unwrap();
    let head = ResponseHead {
        version: parsed.version,
        code: parsed.code,
        reason: parsed.reason.map(|r| r.to_owned()),
        headers: parsed
            .headers
            .iter()
            .map(|h| HeaderField { name: h.name.to_owned(), value: h.value.to_vec() })
            .collect(),
    };
    match Response::from_parser(head) {
        Ok(r) => (r, n),
        Err(_) => panic!("response head refused"),
    }
}

#[test]
fn with_status_is_empty() {
    let res = Response::with_status(Status::NotFound);
    assert_eq!(res.status(), Status::NotFound);
    assert!(res.headers().is_empty());
    assert!(res.bytes().is_empty());
    assert!(res.stream.is_none());
    assert_eq!(res.transfer_endcoding(), Encoding::Identity);
    assert_eq!(res.content_len(), None);
}

#[test]
fn head_as_bytes_exact() {
    let mut res = Response::with_status(Status::OK);
    res.headers_mut().insert("math".to_owned(), "20".to_owned());
    res.set_buf(b"hello".to_vec());
    let head = res.head_as_bytes();
    assert_eq!(head, b"HTTP/1.1 200 OK\r\nmath: 20\r\ncontent-length: 5\r\n\r\n".to_vec());
    assert!(res.headers().is_empty());
    assert_eq!(res.bytes().as_slice(), b"hello");
}

#[test]
fn head_as_bytes_empty_response() {
    let mut res = Response::with_status(Status::BadRequest);
    assert_eq!(res.head_as_bytes(), b"HTTP/1.1 400 Bad Request\r\ncontent-length: 0\r\n\r\n".to_vec());
}

#[test]
fn head_as_bytes_keeps_given_length_field_updated() {
    let mut res = Response::with_status(Status::OK);
    res.headers_mut().insert("content-length".to_owned(), "99".to_owned());
    res.headers_mut().insert("x".to_owned(), "y".to_owned());
    res.set_buf(b"abc".to_vec());
    assert_eq!(res.head_as_bytes(), b"HTTP/1.1 200 OK\r\ncontent-length: 3\r\nx: y\r\n\r\n".to_vec());
}

#[test]
fn into_bytes_roundtrip() {
    let mut res = Response::with_status(Status::ImATeapot);
    res.set_buf(b"short and stout".to_vec());
    let bytes = res.into_bytes();
    let (parsed, n) = parse_response(&bytes);
    assert_eq!(parsed.status(), Status::ImATeapot);
    assert_eq!(parsed.content_len(), Some(15));
    assert_eq!(&bytes[n..], b"short and stout");
}

#[test]
fn smoke_get() {
    let json: serde_json::Value = serde_json::from_str("{\"hello\": \"world\"}").unwrap();
    let mut res = Response::with_status(Status::OK);
    res.set_json(json.clone());
    let bytes = res.into_bytes();
    let (parsed, n) = parse_response(&bytes);
    let body: serde_json::Value = serde_json::from_slice(&bytes[n..]).unwrap();
    assert_eq!(body, json);
    assert_eq!(&bytes[n..], br#"{"hello":"world"}"#);
    assert_eq!(parsed.headers().get("content-type").unwrap(), "application/json");
    assert_eq!(parsed.content_len(), Some(bytes.len() - n));
}

#[test]
fn set_bytes_types_body() {
    let mut res = Response::with_status(Status::OK);
    res.set_bytes(b"<h1>hello world</h1>".to_vec(), "text/html".parse().unwrap());
    assert_eq!(res.headers().get("content-type").unwrap(), "text/html");
    assert_eq!(res.bytes().as_slice(), b"<h1>hello world</h1>");
    let html: mime::Mime = "text/html".parse().unwrap();
    assert_eq!(res.content_type(), Some(html));
    res.set_bytes(b"{}".to_vec(), "application/json; charset=utf-8".parse().unwrap());
    assert_eq!(res.headers().get("content-type").unwrap(), "application/json; charset=utf-8");
    assert_eq!(res.headers().len(), 1);
    assert_eq!(res.bytes().as_slice(), b"{}");
}

#[test]
fn set_stream_is_chunked() {
    let (_tx, rx) = futures::channel::mpsc::channel(4);
    let mut res = Response::with_status(Status::OK);
    res.set_stream(ChunkedBody::new(rx), Some("application/json".parse().unwrap()));
    assert_eq!(res.headers().get("transfer-encoding").unwrap(), "chunked");
    assert_eq!(res.headers().get("content-type").unwrap(), "application/json");
    assert_eq!(res.transfer_endcoding(), Encoding::Chunked);
    assert!(res.stream.is_some());
    let head = res.head_as_bytes();
    let text = String::from_utf8(head).unwrap();
    assert!(text.starts_with("HTTP/1.1 200 OK\r\n"));
    assert!(text.contains("transfer-encoding: chunked\r\n"));
    assert!(!text.contains("content-length"));
    assert!(text.ends_with("\r\n\r\n"));
}

#[test]
fn from_parser_reads_response_head() {
    let raw = b"HTTP/1.1 404 Not Found\r\nContent-Length: 0\r\nX-Thing: A\r\n\r\n";
    let (res, n) = parse_response(raw);
    assert_eq!(n, raw.len());
    assert_eq!(res.status(), Status::NotFound);
    assert_eq!(res.content_len(), Some(0));
    assert_eq!(res.headers().get("x-thing").unwrap(), "A");
    assert!(res.bytes().is_empty());
}
