use bytes::{Bytes, BytesMut};

use railscale::http_codec::HttpStreamingCodec;
use railscale::http_frame::Frame;

#[test]
fn decodes_request_line() {
    let mut codec = HttpStreamingCodec::new(vec![]);
    let mut buf = BytesMut::from("GET / HTTP/1.1\r\n");
    let frame = codec.decode(&mut buf).unwrap().unwrap();
    assert!(frame.is_routing_frame());
    assert_eq!(frame.as_bytes(), b"GET / HTTP/1.1");
}

#[test]
fn decodes_header_line() {
    let mut codec = HttpStreamingCodec::new(vec![]);
    let mut buf = BytesMut::from("GET /\r\nHost: example.com\r\n");
    let _ = codec.decode(&mut buf).unwrap();
    let frame = codec.decode(&mut buf).unwrap().unwrap();
    assert!(!frame.is_routing_frame());
    assert_eq!(frame.as_bytes(), b"Host: example.com");
}

#[test]
fn detects_end_of_headers() {
    let mut codec = HttpStreamingCodec::new(vec![]);
    let mut buf = BytesMut::from("GET /\r\n\r\n");
    let _ = codec.decode(&mut buf).unwrap();
    let end = codec.decode(&mut buf).unwrap().unwrap();
    assert!(end.is_end_of_headers());
    assert!(codec.headers_done());
}

#[test]
fn applies_matcher_replacement() {
    let matchers = vec![
        (b"Host".to_vec(), Bytes::from_static(b"rewritten.local")),
    ];
    let mut codec = HttpStreamingCodec::new(matchers);
    let mut buf = BytesMut::from("GET /\r\nHost: example.com\r\n");
    let _ = codec.decode(&mut buf).unwrap();
    let frame = codec.decode(&mut buf).unwrap().unwrap();
    assert_eq!(frame.as_bytes(), b"Host: rewritten.local");
}

#[test]
fn waits_for_complete_line() {
    let mut codec = HttpStreamingCodec::new(vec![]);
    let mut buf = BytesMut::from("GET / HTTP/1.1");
    let result = codec.decode(&mut buf).unwrap();
    assert!(result.is_none());
}

#[test]
fn request_line_is_never_rewritten() {
    let matchers = vec![(b"GET".to_vec(), Bytes::from_static(b"POST"))];
    let mut codec = HttpStreamingCodec::new(matchers);
    let mut buf = BytesMut::from("GET / HTTP/1.1\r\nX-GET: 1\r\n");
    let first = codec.decode(&mut buf).unwrap().unwrap();
    assert_eq!(first.as_bytes(), b"GET / HTTP/1.1");
    let second = codec.decode(&mut buf).unwrap().unwrap();
    assert_eq!(second.as_bytes(), b"X-GET: POST");
}

#[test]
fn nothing_after_end_of_headers() {
    let mut codec = HttpStreamingCodec::new(vec![]);
    let mut buf = BytesMut::from("GET /\r\n\r\nbody\r\n");
    let _ = codec.decode(&mut buf).unwrap();
    let _ = codec.decode(&mut buf).unwrap();
    assert!(codec.decode(&mut buf).unwrap().is_none());
    assert_eq!(&buf[..], b"body\r\n");
}

#[test]
fn decode_eof_with_partial_line() {
    let mut codec = HttpStreamingCodec::new(vec![]);
    let mut buf = BytesMut::from("GET / HTTP/1.1");
    assert!(codec.decode_eof(&mut buf).unwrap().is_none());
}
