use bytes::BytesMut;

use railscale::dev_server::{dev_response_bytes, dev_step, DevStep};
use railscale::passenger_http::HttpPassenger;
use railscale::ticket::PassengerDecoder;

fn always(_: &[u8]) -> bool { true }

const RESPONSE: &[u8] =
    b"HTTP/1.1 200 OK\r\nContent-Length: 21\r\nConnection: close\r\n\r\nrailscale dev server\n";

#[test]
fn response_is_exact() {
    assert_eq!(dev_response_bytes(), RESPONSE.to_vec());
}

#[test]
fn responds_once_head_is_complete() {
    let mut decoder = HttpPassenger::with_predicate(always as fn(&[u8]) -> bool);
    let mut raw = BytesMut::from("GET / HTTP/1.1\r\nHost: x\r\n");
    assert!(matches!(dev_step(&mut decoder, &mut raw), DevStep::NeedMore));
    assert!(raw.is_empty());
    raw.extend_from_slice(b"\r\nbody");
    match dev_step(&mut decoder, &mut raw) {
        DevStep::Respond(r) => assert_eq!(r, RESPONSE.to_vec()),
        DevStep::NeedMore => panic!("expected a response"),
    }
    assert_eq!(&raw[..], b"body");
}

#[test]
fn partial_line_needs_more() {
    let mut decoder = HttpPassenger::with_predicate(always as fn(&[u8]) -> bool);
    let mut raw = BytesMut::from("GET / HT");
    assert!(matches!(dev_step(&mut decoder, &mut raw), DevStep::NeedMore));
    assert_eq!(&raw[..], b"GET / HT");
}
