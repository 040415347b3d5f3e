use bytes::Bytes;

use railscale::http_frame::{Frame, HttpFrame};

#[test]
fn header_frame_is_routing_when_request_line() {
    let f = HttpFrame::header(Bytes::from_static(b"GET / HTTP/1.1"), true);
    assert!(f.is_routing_frame());
    assert_eq!(f.as_bytes(), b"GET / HTTP/1.1");
}

#[test]
fn header_frame_not_routing_for_normal_headers() {
    let f = HttpFrame::header(Bytes::from_static(b"Host: example.com"), false);
    assert!(!f.is_routing_frame());
}

#[test]
fn into_bytes_returns_data() {
    let f = HttpFrame::header(Bytes::from_static(b"Content-Type: text/plain"), false);
    let b = f.into_bytes();
    assert_eq!(&b[..], b"Content-Type: text/plain");
}

#[test]
fn end_of_headers_frame_is_empty_and_not_routing() {
    let f = HttpFrame::end_of_headers();
    assert!(f.is_end_of_headers());
    assert!(!f.is_routing_frame());
    assert!(f.as_bytes().is_empty());
}
