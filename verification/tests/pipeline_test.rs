use bytes::Bytes;

use railscale::http_frame::{Frame, FramePipeline, HttpFrame};
use railscale::http_pipeline::HttpPipeline;

fn assert_sync<T: Sync>() {}

#[test]
fn first_match_wins() {
    let pipeline = HttpPipeline::new(vec![
        (b"Host".to_vec(), Bytes::from_static(b"first.com")),
        (b"Host".to_vec(), Bytes::from_static(b"second.com")),
    ]);
    let frame = HttpFrame::header(Bytes::from_static(b"Host: original.com"), false);
    let result = pipeline.process(frame);
    assert_eq!(result.as_bytes(), b"Host: first.com");
}

#[test]
fn no_match_passes_through() {
    let pipeline = HttpPipeline::new(vec![
        (b"Host".to_vec(), Bytes::from_static(b"replaced.com")),
    ]);
    let frame = HttpFrame::header(Bytes::from_static(b"Content-Type: text/html"), false);
    let result = pipeline.process(frame);
    assert_eq!(result.as_bytes(), b"Content-Type: text/html");
}

#[test]
fn empty_matchers_passes_through() {
    let pipeline = HttpPipeline::new(vec![]);
    let frame = HttpFrame::header(Bytes::from_static(b"Host: example.com"), false);
    let result = pipeline.process(frame);
    assert_eq!(result.as_bytes(), b"Host: example.com");
}

#[test]
fn pipeline_test_pipeline_is_sync() {
    assert_sync::<HttpPipeline>();
}

#[test]
fn routing_frame_keeps_routing_after_rewrite() {
    let pipeline = HttpPipeline::new(vec![
        (b"Host".to_vec(), Bytes::from_static(b"first.com")),
    ]);
    let frame = HttpFrame::header(Bytes::from_static(b"GET http://Host/ HTTP/1.1"), true);
    let result = pipeline.process(frame);
    assert!(result.is_routing_frame());
}
