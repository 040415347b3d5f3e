use vstd::prelude::*;
use bytes::{Bytes, BytesMut};

use crate::buffers::{bytes_clone, bytes_mut_as_slice, bytes_mut_freeze, bytes_mut_split, bytes_mut_view, bytes_view};
use crate::header_rewrite::{first_rewrite, first_rewrite_parallel, matchers_view};
use crate::http_codec::HttpStreamingCodec;
use crate::http_frame::{Frame, FramePipeline, HttpFrame, HttpFrameView, ParsedData};

verus! {

/// Clones the matchers, element by element.
pub fn clone_matchers(m: &Vec<(Vec<u8>, Bytes)>) -> (res: Vec<(Vec<u8>, Bytes)>)
    ensures
        matchers_view(res@) == matchers_view(m@),
{
    let mut res: Vec<(Vec<u8>, Bytes)> = Vec::new();
    let n = m.len();
    for i in 0..n
        invariant
            n == m@.len(),
            matchers_view(res@) == matchers_view(m@.take(i as int)),
    {
        let needle = vstd::slice::slice_to_vec(m[i].0.as_slice());
        let value = bytes_clone(&m[i].1);
        let ghost prev = res@;
        assert(needle@ == m@[i as int].0@);
        assert(bytes_view(value) == bytes_view(m@[i as int].1));
        res.push((needle, value));
        assert(res@ == prev.push((needle, value)));
        assert(m@.take(i + 1) =~= m@.take(i as int).push(m@[i as int]));
        assert(matchers_view(res@) =~= matchers_view(prev).push((needle@, bytes_view(value))));
        assert(matchers_view(m@.take(i + 1)) =~= matchers_view(m@.take(i as int)).push((m@[i as int].0@, bytes_view(m@[i as int].1))));
    }
    assert(m@.take(n as int) =~= m@);
    res
}

/// Rewrites header frames with the first matcher that applies.
pub struct HttpPipeline {
    matchers: Vec<(Vec<u8>, Bytes)>,
}

impl HttpPipeline {
    /// The matchers (needle, value) as plain values.
    pub closed spec fn matchers(&self) -> Seq<(Seq<u8>, Seq<u8>)> {
        matchers_view(self.matchers@)
    }

    /// A pipeline with these matchers, tried in order.
    pub fn new(matchers: Vec<(Vec<u8>, Bytes)>) -> (res: Self)
        ensures
            res.matchers() == matchers_view(matchers@),
    {
        HttpPipeline { matchers }
    }
}

impl FramePipeline for HttpPipeline {
    type Frame = HttpFrame;

    /// The frame rewritten by the first matcher that applies (keeping whether
    /// it routes), or the frame itself when none does.
    fn process(&self, frame: HttpFrame) -> (res: HttpFrame)
        ensures
            match first_rewrite(self.matchers(), frame@.data) {
                Some(r) => res@ == (HttpFrameView { data: r, routing: frame@.routing, end_of_headers: false }),
                None => res@ == frame@,
            },
    {
        if self.matchers.len() == 0 {
            return frame;
        }
        let replaced = first_rewrite_parallel(&self.matchers, frame.as_bytes());
        match replaced {
            Some(bytes) => HttpFrame::header(bytes, frame.is_routing_frame()),
            None => frame,
        }
    }
}

/// A parsed-data item of an HTTP stream, as plain values.
pub enum ParsedView {
    Parsed(HttpFrameView),
    Passthrough(Seq<u8>),
}

/// The plain values of a parsed-data item.
pub open spec fn parsed_view(p: Option<ParsedData<HttpFrame>>) -> Option<ParsedView> {
    match p {
        Some(ParsedData::Parsed(f)) => Some(ParsedView::Parsed(f@)),
        Some(ParsedData::Passthrough(b)) => Some(ParsedView::Passthrough(bytes_view(b))),
        None => None,
    }
}

/// Parses HTTP streams into header frames with these matchers.
pub struct HttpParser {
    matchers: Vec<(Vec<u8>, Bytes)>,
}

impl HttpParser {
    /// The matchers (needle, value) as plain values.
    pub closed spec fn matchers(&self) -> Seq<(Seq<u8>, Seq<u8>)> {
        matchers_view(self.matchers@)
    }

    /// A parser whose codecs use these matchers.
    pub fn new(matchers: Vec<(Vec<u8>, Bytes)>) -> (res: Self)
        ensures
            res.matchers() == matchers_view(matchers@),
    {
        HttpParser { matchers }
    }

    /// A fresh codec for one stream, with a copy of the matchers.
    pub fn codec(&self) -> (res: HttpStreamingCodec)
        ensures
            !res.done(),
            res.at_first_line(),
            res.matchers() == self.matchers(),
    {
        HttpStreamingCodec::new(clone_matchers(&self.matchers))
    }
}

/// Once the head is over, what is left in the read buffer goes on as raw
/// bytes: all of it, or nothing (the stream ends) when it is empty.
pub fn drain_buffer(buf: &mut BytesMut) -> (res: Option<ParsedData<HttpFrame>>)
    ensures
        bytes_mut_view(*old(buf)).len() == 0 ==> parsed_view(res) is None && bytes_mut_view(*final(buf)) == bytes_mut_view(*old(buf)),
        bytes_mut_view(*old(buf)).len() > 0 ==> parsed_view(res) == Some(ParsedView::Passthrough(bytes_mut_view(*old(buf))))
            && bytes_mut_view(*final(buf)).len() == 0,
{
    if bytes_mut_as_slice(buf).len() > 0 {
        let chunk = bytes_mut_split(buf);
        Some(ParsedData::Passthrough(bytes_mut_freeze(chunk)))
    } else {
        None
    }
}

/// What the stream yields for a frame from the codec: a header frame as it
/// is; at the end of the head, `headers_done` is set and the read buffer is
/// drained.
pub fn next_from_frame(headers_done: &mut bool, frame: HttpFrame, buf: &mut BytesMut) -> (res: Option<ParsedData<HttpFrame>>)
    ensures
        !frame@.end_of_headers ==> parsed_view(res) == Some(ParsedView::Parsed(frame@))
            && *final(headers_done) == *old(headers_done) && bytes_mut_view(*final(buf)) == bytes_mut_view(*old(buf)),
        frame@.end_of_headers ==> *final(headers_done) && ({
            let b = bytes_mut_view(*old(buf));
            if b.len() == 0 {
                parsed_view(res) is None && bytes_mut_view(*final(buf)) == b
            } else {
                parsed_view(res) == Some(ParsedView::Passthrough(b)) && bytes_mut_view(*final(buf)).len() == 0
            }
        }),
{
    if frame.is_end_of_headers() {
        *headers_done = true;
        return drain_buffer(buf);
    }
    Some(ParsedData::Parsed(frame))
}

} // verus!
