use railscale::carriage::{GateVerdict, IngressSource, Stamp};
use railscale::counters::SharedCounters;

#[test]
fn stamp_starts_blank_and_keeps_last_mark() {
    let mut stamp = Stamp::new();
    assert_eq!(stamp.entries.len(), 0);
    stamp.add("route".to_string(), "a".to_string());
    stamp.add("route".to_string(), "b".to_string());
    stamp.add("user".to_string(), "c".to_string());
    assert_eq!(stamp.entries.len(), 2);
    assert_eq!(stamp.entries.get("route").map(|s| s.as_str()), Some("b"));
    assert_eq!(stamp.entries.get("user").map(|s| s.as_str()), Some("c"));
    assert!(stamp.entries.get("missing").is_none());
}

#[test]
fn verdict_carries_stamp() {
    let mut stamp = Stamp::new();
    stamp.add("k".to_string(), "v".to_string());
    let verdict = GateVerdict { stamp };
    assert!(verdict.stamp.entries.contains_key("k"));
}

#[test]
fn ingress_sources_differ() {
    assert_ne!(IngressSource::TerminatedTcpPacket, IngressSource::TlsTcpPacket);
    assert_eq!(IngressSource::TlsHttpPacket, IngressSource::TlsHttpPacket);
    assert_ne!(IngressSource::TerminatedHttpPacket, IngressSource::TlsHttpPacket);
}

#[test]
fn counters_start_at_zero() {
    let counters = SharedCounters::new();
    assert_eq!(counters.active_connections.load(std::sync::atomic::Ordering::Relaxed), 0);
}
