use vstd::prelude::*;
use bytes::{Bytes, BytesMut};

use crate::buffers::{bytes_as_slice, bytes_mut_advance, bytes_mut_as_slice, bytes_mut_freeze, bytes_mut_split, bytes_mut_split_to, bytes_mut_view, bytes_view};
use crate::header_rewrite::{first_rewrite, first_rewrite_parallel, matchers_view};
use crate::http_codec::{find_crlf, first_crlf, lemma_first_crlf};

verus! {

/// A line of an HTTP head, or the mark that the head has ended.
pub enum HttpFrame {
    HeadLine(Bytes),
    EndOfHeaders,
}

/// A frame as plain values: `Some(line)` or `None` for the end of the head.
pub open spec fn head_frame_view(f: HttpFrame) -> Option<Seq<u8>> {
    match f {
        HttpFrame::HeadLine(b) => Some(bytes_view(b)),
        HttpFrame::EndOfHeaders => None,
    }
}

/// Splits an HTTP head into lines at CR LF, rewriting every line with the
/// first matcher that applies; the empty line ends the head.
pub struct HttpStreamingCodec {
    done: bool,
    pub matchers: Vec<(Vec<u8>, Bytes)>,
}

impl HttpStreamingCodec {
    /// The head has ended.
    pub closed spec fn done(&self) -> bool {
        self.done
    }

    /// The matchers as plain values: needle bytes and replacement bytes.
    pub closed spec fn rules(&self) -> Seq<(Seq<u8>, Seq<u8>)> {
        matchers_view(self.matchers@)
    }

    /// A codec at the start of a head with these matchers.
    pub fn new(matchers: Vec<(Vec<u8>, Bytes)>) -> (res: Self)
        ensures
            !res.done(),
            res.rules() == matchers_view(matchers@),
    {
        HttpStreamingCodec { done: false, matchers }
    }

    /// The next line of the head, taken off `src` with its CR LF and
    /// rewritten by the first matcher that applies; the empty line ends the
    /// head.  Without a complete line, or once the head has ended, nothing.
    pub fn decode(&mut self, src: &mut BytesMut) -> (res: Result<Option<HttpFrame>, std::io::Error>)
        ensures
            res is Ok,
            final(self).rules() == old(self).rules(),
            ({
                let s = bytes_mut_view(*old(src));
                let s2 = bytes_mut_view(*final(src));
                if old(self).done() || s.len() == 0 || first_crlf(s) is None {
                    res matches Ok(None) && s2 == s && final(self).done() == old(self).done()
                } else if first_crlf(s) == Some(0int) {
                    res matches Ok(Some(HttpFrame::EndOfHeaders)) && s2 == s.skip(2) && final(self).done()
                } else {
                    let p = first_crlf(s).unwrap();
                    let line = s.take(p);
                    &&& s2 == s.skip(p + 2)
                    &&& !final(self).done()
                    &&& res matches Ok(Some(f)) && head_frame_view(f) == Some(
                        match first_rewrite(old(self).rules(), line) {
                            Some(r) => r,
                            None => line,
                        },
                    )
                }
            }),
    {
        let data = bytes_mut_as_slice(src);
        if self.done || data.len() == 0 {
            return Ok(None);
        }
        let ghost s0 = data@;
        let found = find_crlf(data);
        proof {
            lemma_first_crlf(s0);
        }
        match found {
            Some(0) => {
                bytes_mut_advance(src, 2);
                self.done = true;
                Ok(Some(HttpFrame::EndOfHeaders))
            },
            Some(pos) => {
                let line = bytes_mut_freeze(bytes_mut_split_to(src, pos));
                bytes_mut_advance(src, 2);
                assert(bytes_mut_view(*src) =~= s0.skip(pos + 2));
                let replaced = first_rewrite_parallel(&self.matchers, bytes_as_slice(&line));
                match replaced {
                    Some(bytes) => Ok(Some(HttpFrame::HeadLine(bytes))),
                    None => Ok(Some(HttpFrame::HeadLine(line))),
                }
            },
            None => Ok(None),
        }
    }
}

/// What a mapped HTTP stream yields: head lines, then body chunks.
#[derive(Debug)]
pub enum MappedFrame {
    Header(Bytes),
    Body(BytesMut),
}

/// A mapped frame as plain values.
pub enum MappedView {
    Header(Seq<u8>),
    Body(Seq<u8>),
}

/// The plain values of a mapped frame.
pub open spec fn mapped_view(f: Option<MappedFrame>) -> Option<MappedView> {
    match f {
        Some(MappedFrame::Header(b)) => Some(MappedView::Header(bytes_view(b))),
        Some(MappedFrame::Body(b)) => Some(MappedView::Body(bytes_mut_view(b))),
        None => None,
    }
}

/// After the head: the whole read buffer as one body chunk, or the end of the
/// stream when it is empty.
pub fn mapped_drain(buf: &mut BytesMut) -> (res: Option<MappedFrame>)
    ensures
        bytes_mut_view(*old(buf)).len() == 0 ==> mapped_view(res) is None && bytes_mut_view(*final(buf)) == bytes_mut_view(*old(buf)),
        bytes_mut_view(*old(buf)).len() > 0 ==> mapped_view(res) == Some(MappedView::Body(bytes_mut_view(*old(buf))))
            && bytes_mut_view(*final(buf)).len() == 0,
{
    if bytes_mut_as_slice(buf).len() > 0 {
        Some(MappedFrame::Body(bytes_mut_split(buf)))
    } else {
        None
    }
}

/// What the mapped stream yields for a frame of the codec: a head line as a
/// header; at the end of the head, `headers_done` is set and the read buffer
/// drained.
pub fn mapped_from_frame(headers_done: &mut bool, frame: HttpFrame, buf: &mut BytesMut) -> (res: Option<MappedFrame>)
    ensures
        head_frame_view(frame) matches Some(line) ==> mapped_view(res) == Some(MappedView::Header(line))
            && *final(headers_done) == *old(headers_done) && bytes_mut_view(*final(buf)) == bytes_mut_view(*old(buf)),
        head_frame_view(frame) is None ==> *final(headers_done) && ({
            let b = bytes_mut_view(*old(buf));
            if b.len() == 0 {
                mapped_view(res) is None && bytes_mut_view(*final(buf)) == b
            } else {
                mapped_view(res) == Some(MappedView::Body(b)) && bytes_mut_view(*final(buf)).len() == 0
            }
        }),
{
    match frame {
        HttpFrame::HeadLine(line) => Some(MappedFrame::Header(line)),
        HttpFrame::EndOfHeaders => {
            *headers_done = true;
            mapped_drain(buf)
        },
    }
}

} // verus!
