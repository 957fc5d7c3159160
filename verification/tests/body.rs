use brio::{Chunk, ChunkedBody, Encoding, Headers, Response, Status, BUF_LEN};

fn chunk_of(data: &[u8]) -> Chunk {
    let mut buf = [0u8; BUF_LEN];
    buf[..data.len()].copy_from_slice(data);
    Chunk::Body { buf, size: data.len() }
}

#[test]
fn chunk_frames() {
    let (_tx, rx) = futures::channel::mpsc::channel(1);
    let mut body = ChunkedBody::new(rx);
    assert!(!body.finished());
    let mut out = [7u8; 64];
    let n = body.write_chunk(Some(chunk_of(b"hello")), &mut out);
    assert_eq!(&out[..n], b"5\r\nhello\r\n");
    assert_eq!(out[n], 7);
    let data = [b'x'; 0x28d];
    let mut big = [0u8; 1024];
    let n = body.write_chunk(Some(chunk_of(&data)), &mut big);
    assert_eq!(n, 3 + 2 + 0x28d + 2);
    assert_eq!(&big[..5], b"28d\r\n");
    assert_eq!(&big[n - 2..n], b"\r\n");
    let n = body.write_chunk(Some(chunk_of(b"")), &mut out);
    assert_eq!(&out[..n], b"0\r\n\r\n");
    assert!(!body.finished());
}

#[test]
fn last_chunk_once() {
    let (_tx, rx) = futures::channel::mpsc::channel(1);
    let mut body = ChunkedBody::new(rx);
    let mut out = [0u8; 16];
    let n = body.write_chunk(Some(Chunk::Trailers { trailers: Headers::new() }), &mut out);
    assert_eq!(&out[..n], b"0\r\n\r\n");
    assert!(body.finished());
    let mut again = [9u8; 16];
    assert_eq!(body.write_chunk(None, &mut again), 0);
    assert_eq!(again, [9u8; 16]);
    assert_eq!(body.write_chunk(Some(chunk_of(b"late")), &mut again), 0);
    assert_eq!(again, [9u8; 16]);
    let mut tiny = [3u8; 1];
    assert_eq!(body.write_chunk(Some(Chunk::Trailers { trailers: Headers::new() }), &mut tiny), 0);
    assert_eq!(tiny, [3u8; 1]);
    assert!(body.finished());
}

#[test]
fn stream() {
    let (_tx, rx) = futures::channel::mpsc::channel(1);
    let mut body = ChunkedBody::new(rx);
    let mut wire: Vec<u8> = Vec::new();
    for part in [&b"{"[..], b"\"hello\"", b":", b" \"world\"}"].iter() {
        let mut out = [0u8; 64];
        let n = body.write_chunk(Some(chunk_of(part)), &mut out);
        wire.extend_from_slice(&out[..n]);
    }
    let mut out = [0u8; 64];
    let n = body.write_chunk(None, &mut out);
    wire.extend_from_slice(&out[..n]);
    // decode the chunked framing again
    let mut decoded: Vec<u8> = Vec::new();
    let mut rest = &wire[..];
    loop {
        let (idx, size) = httparse::parse_chunk_size(rest).unwrap().unwrap();
        rest = &rest[idx..];
        if size == 0 {
            assert_eq!(rest, b"\r\n");
            break;
        }
        decoded.extend_from_slice(&rest[..size as usize]);
        assert_eq!(&rest[size as usize..size as usize + 2], b"\r\n");
        rest = &rest[size as usize + 2..];
    }
    let json: serde_json::Value = serde_json::from_slice(&decoded).unwrap();
    let expected: serde_json::Value = serde_json::from_str("{\"hello\": \"world\"}").unwrap();
    assert_eq!(json, expected);

    let (_tx2, rx2) = futures::channel::mpsc::channel(1);
    let mut res = Response::with_status(Status::OK);
    res.set_stream(ChunkedBody::new(rx2), Some("application/json".parse().unwrap()));
    assert_eq!(res.status(), Status::OK);
    assert_eq!(res.transfer_endcoding(), Encoding::Chunked);
    assert_eq!(res.headers().get("content-type").unwrap(), "application/json");
}
