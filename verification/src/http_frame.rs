use vstd::prelude::*;
use bytes::Bytes;

use crate::buffers::{bytes_as_slice, bytes_new, bytes_view};

verus! {

/// A unit of a parsed stream that can be routed on and forwarded.
pub trait Frame: Send + Sized {
    /// The frame's bytes.
    fn as_bytes(&self) -> &[u8];

    /// The frame's bytes, taking the frame.
    fn into_bytes(self) -> Bytes;

    /// The frame decides where the stream goes (e.g. a request line).
    fn is_routing_frame(&self) -> bool;
}

/// What a frame parser yields: a parsed frame, or raw bytes to pass on.
pub enum ParsedData<F: Frame> {
    Parsed(F),
    Passthrough(Bytes),
}

/// A transformation applied to each parsed frame before it is forwarded.
pub trait FramePipeline: Send + Sync {
    type Frame: Frame;

    fn process(&self, frame: Self::Frame) -> Self::Frame;
}

/// One line of an HTTP head (or its end).
pub struct HttpFrame {
    data: Bytes,
    routing: bool,
    end_of_headers: bool,
}

/// An HTTP frame as plain values.
pub struct HttpFrameView {
    pub data: Seq<u8>,
    pub routing: bool,
    pub end_of_headers: bool,
}

impl View for HttpFrame {
    type V = HttpFrameView;

    closed spec fn view(&self) -> HttpFrameView {
        HttpFrameView { data: bytes_view(self.data), routing: self.routing, end_of_headers: self.end_of_headers }
    }
}

impl HttpFrame {
    /// A header line (the request line when `is_request_line`, which makes it
    /// the routing frame).
    pub fn header(data: Bytes, is_request_line: bool) -> (res: Self)
        ensures
            res@ == (HttpFrameView { data: bytes_view(data), routing: is_request_line, end_of_headers: false }),
    {
        HttpFrame { data, routing: is_request_line, end_of_headers: false }
    }

    /// The mark that the head has ended: no bytes, not routing.
    pub fn end_of_headers() -> (res: Self)
        ensures
            res@ == (HttpFrameView { data: Seq::empty(), routing: false, end_of_headers: true }),
    {
        HttpFrame { data: bytes_new(), routing: false, end_of_headers: true }
    }

    /// This frame marks the end of the head.
    pub fn is_end_of_headers(&self) -> (res: bool)
        ensures
            res == self@.end_of_headers,
    {
        self.end_of_headers
    }
}

impl Frame for HttpFrame {
    fn as_bytes(&self) -> (res: &[u8])
        ensures
            res@ == self@.data,
    {
        bytes_as_slice(&self.data)
    }

    fn into_bytes(self) -> (res: Bytes)
        ensures
            bytes_view(res) == self@.data,
    {
        self.data
    }

    fn is_routing_frame(&self) -> (res: bool)
        ensures
            res == self@.routing,
    {
        self.routing
    }
}

} // verus!
