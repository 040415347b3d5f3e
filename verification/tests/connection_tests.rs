use railscale::connection::{request_counts, ConnectionTally};

#[test]
fn fresh_connection_is_unrouted() {
    let t = ConnectionTally::new();
    assert!(!t.routed);
    assert_eq!((t.frame_count, t.passthrough_bytes, t.request_bytes), (0, 0, 0));
}

#[test]
fn first_routing_frame_provides_once() {
    let mut t = ConnectionTally::new();
    assert!(!t.on_parsed(10, false));
    assert!(t.on_parsed(14, true));
    assert!(t.routed);
    assert!(!t.on_parsed(14, true));
    assert_eq!(t.frame_count, 3);
    assert_eq!(t.request_bytes, 38);
}

#[test]
fn passthrough_counts_bytes_both_ways() {
    let mut t = ConnectionTally::new();
    t.on_passthrough(100);
    t.on_parsed(5, true);
    t.on_passthrough(7);
    assert_eq!(t.passthrough_bytes, 107);
    assert_eq!(t.request_bytes, 112);
    assert_eq!(t.frame_count, 1);
}

#[test]
fn request_counts_follow_the_outcome() {
    let ok = request_counts(Some((3, 120, 900)));
    assert_eq!((ok.frames, ok.req_bytes, ok.resp_bytes, ok.error), (3, 120, 900, false));
    let failed = request_counts(None);
    assert_eq!((failed.frames, failed.req_bytes, failed.resp_bytes, failed.error), (0, 0, 0, true));
}
