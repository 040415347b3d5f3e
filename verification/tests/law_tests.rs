use bytes::BytesMut;

use railscale::dns_message::{write_name, DnsHeader, DnsQuery, QCLASS_IN, QTYPE_A};
use railscale::dns_resolver::{DnsResolver, Resolution, UpstreamAddr};
use railscale::passenger_http::HttpPassenger;
use railscale::passenger_tls::TlsPassenger;
use railscale::ticket::{PassengerDecoder, TicketField};

fn always(_: &[u8]) -> bool { true }

fn tags<D: PassengerDecoder<fn(&[u8]) -> bool>>(dec: &mut D, buf: &mut BytesMut, out: &mut Vec<String>) {
    while let Ok(Some(f)) = dec.decode(buf) {
        let stop = matches!(f, TicketField::Boundary);
        out.push(match f {
            TicketField::Buffered(b) => format!("B:{:?}", b),
            TicketField::Passthrough(b) => format!("P:{:?}", b),
            TicketField::Boundary => "boundary".to_string(),
        });
        if stop {
            break;
        }
    }
}

#[test]
fn http_incremental_feed_matches_whole_feed() {
    let input: &[u8] = b"GET /a HTTP/1.1\r\nHost: x\r\nX-Y: z\r\n\r\ntail";
    let mut whole = Vec::new();
    let mut dec = HttpPassenger::with_predicate(always as fn(&[u8]) -> bool);
    let mut buf = BytesMut::from(input);
    tags(&mut dec, &mut buf, &mut whole);

    let mut pieces = Vec::new();
    let mut dec = HttpPassenger::with_predicate(always as fn(&[u8]) -> bool);
    let mut buf = BytesMut::new();
    for chunk in input.chunks(3) {
        buf.extend_from_slice(chunk);
        tags(&mut dec, &mut buf, &mut pieces);
    }
    assert_eq!(whole, pieces);
    assert_eq!(whole.len(), 4);
}

#[test]
fn tls_incremental_feed_matches_whole_feed() {
    let input: Vec<u8> = vec![22, 3, 3, 0, 3, 1, 2, 3, 22, 3, 3, 0, 1, 7, 23, 3, 3, 0, 0];
    let mut whole = Vec::new();
    let mut dec = TlsPassenger::with_predicate(always as fn(&[u8]) -> bool);
    let mut buf = BytesMut::from(&input[..]);
    tags(&mut dec, &mut buf, &mut whole);

    let mut pieces = Vec::new();
    let mut dec = TlsPassenger::with_predicate(always as fn(&[u8]) -> bool);
    let mut buf = BytesMut::new();
    for b in &input {
        buf.extend_from_slice(&[*b]);
        tags(&mut dec, &mut buf, &mut pieces);
    }
    assert_eq!(whole, pieces);
    assert_eq!(whole.len(), 2);
    assert_eq!(&buf[..], &[23, 3, 3, 0, 0]);
}

fn query(id: u16, name: &str) -> Vec<u8> {
    let mut buf = Vec::new();
    buf.extend_from_slice(&id.to_be_bytes());
    buf.extend_from_slice(&[1, 0, 0, 1, 0, 0, 0, 0, 0, 0]);
    write_name(name, &mut buf);
    buf.extend_from_slice(&QTYPE_A.to_be_bytes());
    buf.extend_from_slice(&QCLASS_IN.to_be_bytes());
    buf
}

fn resolver() -> DnsResolver {
    let mut r = DnsResolver::new("corp.test".into(), UpstreamAddr::V4 { octets: [1, 1, 1, 1], port: 53 });
    r.add_rule("db", [10, 0, 0, 5]);
    r
}

#[test]
fn answers_carry_query_id_and_response_header() {
    let r = resolver();
    for (id, name, an, flags) in [(0xBEEFu16, "db.corp.test", 1u16, 0x8180u16), (7, "nope.corp.test", 0, 0x8183)] {
        match r.resolve(&query(id, name)).unwrap() {
            Resolution::Respond(bytes) => {
                let h = DnsHeader::parse(&bytes).unwrap();
                assert_eq!(h.id, id);
                assert_eq!(h.flags, flags);
                assert_eq!(h.qd_count, 1);
                assert_eq!(h.an_count, an);
            }
            Resolution::ForwardUpstream => panic!("expected an answer"),
        }
    }
}

#[test]
fn case_does_not_change_the_rule() {
    let r = resolver();
    let a = r.resolve(&query(1, "DB.Corp.Test")).unwrap();
    let b = r.resolve(&query(1, "db.corp.test")).unwrap();
    match (a, b) {
        (Resolution::Respond(x), Resolution::Respond(y)) => {
            assert_eq!(x[x.len() - 4..], y[y.len() - 4..]);
            assert_eq!(&x[x.len() - 4..], &[10, 0, 0, 5]);
        }
        _ => panic!("expected answers"),
    }
}

#[test]
fn other_domains_and_types_go_upstream() {
    let r = resolver();
    assert!(matches!(r.resolve(&query(1, "db.elsewhere.test")).unwrap(), Resolution::ForwardUpstream));
    let mut q = query(1, "db.corp.test");
    let n = q.len();
    q[n - 3] = 28;
    assert!(matches!(r.resolve(&q).unwrap(), Resolution::ForwardUpstream));
}

#[test]
fn ttl_is_carried_into_answers() {
    let r = resolver().with_ttl(300);
    match r.resolve(&query(9, "db.corp.test")).unwrap() {
        Resolution::Respond(x) => {
            let n = x.len();
            assert_eq!(&x[n - 10..n - 6], &300u32.to_be_bytes());
            assert_eq!(&x[n - 6..n - 4], &[0, 4]);
        }
        Resolution::ForwardUpstream => panic!("expected an answer"),
    }
}

#[test]
fn default_ttl_is_sixty_seconds() {
    match resolver().resolve(&query(9, "corp.test")).unwrap() {
        Resolution::Respond(x) => {
            let h = DnsHeader::parse(&x).unwrap();
            assert_eq!(h.flags, 0x8183);
        }
        Resolution::ForwardUpstream => panic!("expected an answer"),
    }
    match resolver().resolve(&query(9, "db.corp.test")).unwrap() {
        Resolution::Respond(x) => {
            let n = x.len();
            assert_eq!(&x[n - 10..n - 6], &60u32.to_be_bytes());
        }
        Resolution::ForwardUpstream => panic!("expected an answer"),
    }
}

#[test]
fn trailing_bytes_do_not_change_a_query() {
    let q = query(0x4242, "db.corp.test");
    let mut longer = q.clone();
    longer.extend_from_slice(&[0xC0, 0x0C, 0, 1, 0, 1, 0, 0, 0, 60, 0, 4, 10, 0, 0, 5]);
    let a = DnsQuery::parse(&q).unwrap();
    let b = DnsQuery::parse(&longer).unwrap();
    assert_eq!(a.header, b.header);
    assert_eq!(a.raw_len, b.raw_len);
    assert_eq!(a.raw_len, q.len());
    assert_eq!(a.questions.len(), b.questions.len());
    assert_eq!(a.questions[0].name, b.questions[0].name);
}

#[test]
fn answer_by_lowercased_name() {
    let r = resolver();
    let q = DnsQuery::parse(&query(3, "DB.corp.test")).unwrap();
    match r.answer_name(&q, &q.questions[0], "db.corp.test") {
        Resolution::Respond(x) => assert_eq!(&x[x.len() - 4..], &[10, 0, 0, 5]),
        Resolution::ForwardUpstream => panic!("expected an answer"),
    }
    match r.answer_name(&q, &q.questions[0], "other.corp.test") {
        Resolution::Respond(x) => assert_eq!(DnsHeader::parse(&x).unwrap().flags, 0x8183),
        Resolution::ForwardUpstream => panic!("expected a name error"),
    }
    assert!(matches!(r.answer_name(&q, &q.questions[0], "db.other.test"), Resolution::ForwardUpstream));
}
