use bytes::{Bytes, BytesMut};

use railscale::carriage_codec::{mapped_drain, mapped_from_frame, HttpFrame, HttpStreamingCodec, MappedFrame};
use railscale::http_frame::Frame;
use railscale::http_pipeline::{drain_buffer, next_from_frame, HttpParser};
use railscale::http_frame::ParsedData;

fn line(f: Option<HttpFrame>) -> Vec<u8> {
    match f {
        Some(HttpFrame::HeadLine(b)) => b.to_vec(),
        _ => panic!("expected a head line"),
    }
}

#[test]
fn meta_codec_rewrites_every_line() {
    let mut codec = HttpStreamingCodec::new(vec![(b"Host".to_vec(), Bytes::from_static(b"test"))]);
    let mut buf = BytesMut::from("GET http://Host/ HTTP/1.1\r\nHost: a\r\nX: y\r\n\r\nrest");
    assert_eq!(line(codec.decode(&mut buf).unwrap()), b"GET http: test".to_vec());
    assert_eq!(line(codec.decode(&mut buf).unwrap()), b"Host: test".to_vec());
    assert_eq!(line(codec.decode(&mut buf).unwrap()), b"X: y".to_vec());
    assert!(matches!(codec.decode(&mut buf).unwrap(), Some(HttpFrame::EndOfHeaders)));
    assert!(codec.decode(&mut buf).unwrap().is_none());
    assert_eq!(&buf[..], b"rest");
}

#[test]
fn meta_codec_waits_for_line_end() {
    let mut codec = HttpStreamingCodec::new(vec![]);
    let mut buf = BytesMut::from("GET / HTTP/1.1\r");
    assert!(codec.decode(&mut buf).unwrap().is_none());
    assert_eq!(buf.len(), 15);
}

#[test]
fn mapped_stream_drains_body_after_head() {
    let mut done = false;
    let mut buf = BytesMut::from("body bytes");
    match mapped_from_frame(&mut done, HttpFrame::HeadLine(Bytes::from_static(b"Host: a")), &mut buf) {
        Some(MappedFrame::Header(h)) => assert_eq!(&h[..], b"Host: a"),
        _ => panic!("expected a header"),
    }
    assert!(!done);
    match mapped_from_frame(&mut done, HttpFrame::EndOfHeaders, &mut buf) {
        Some(MappedFrame::Body(b)) => assert_eq!(&b[..], b"body bytes"),
        _ => panic!("expected the body"),
    }
    assert!(done);
    assert!(mapped_drain(&mut buf).is_none());
}

#[test]
fn parser_stream_passes_rest_through() {
    let parser = HttpParser::new(vec![]);
    let mut codec = parser.codec();
    let mut buf = BytesMut::from("GET / HTTP/1.1\r\n\r\nraw");
    let mut done = false;
    let first = codec.decode(&mut buf).unwrap().unwrap();
    match next_from_frame(&mut done, first, &mut buf) {
        Some(ParsedData::Parsed(f)) => assert!(f.is_routing_frame()),
        _ => panic!("expected the request line"),
    }
    let end = codec.decode(&mut buf).unwrap().unwrap();
    match next_from_frame(&mut done, end, &mut buf) {
        Some(ParsedData::Passthrough(b)) => assert_eq!(&b[..], b"raw"),
        _ => panic!("expected raw bytes"),
    }
    assert!(done);
    assert!(drain_buffer(&mut buf).is_none());
}
