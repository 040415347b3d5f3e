use bytes::{Bytes, BytesMut};

use railscale::carriage_codec::MappedFrame;
use railscale::poc_server::{poc_response_bytes, PocTally};

#[test]
fn tally_counts_lines_and_body_bytes() {
    let mut t = PocTally::new();
    t.on_frame(&MappedFrame::Header(Bytes::from_static(b"GET / HTTP/1.1")));
    t.on_frame(&MappedFrame::Header(Bytes::from_static(b"Host: x")));
    t.on_frame(&MappedFrame::Body(BytesMut::from("abcde")));
    t.on_frame(&MappedFrame::Body(BytesMut::from("fg")));
    assert_eq!(t.header_count, 2);
    assert_eq!(t.body_bytes, 7);
}

#[test]
fn poc_response_counts_body_bytes_exactly() {
    let body = "railscale poc \u{2014} 12 headers parsed\n";
    let expected = format!(
        "HTTP/1.1 200 OK\r\nContent-Length: {}\r\nConnection: close\r\n\r\n{body}",
        body.len()
    );
    assert_eq!(poc_response_bytes(12), expected.into_bytes());
    assert!(String::from_utf8(poc_response_bytes(0)).unwrap().contains("Content-Length: 35\r\n"));
}
