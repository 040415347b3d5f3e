use vstd::prelude::*;
use bytes::{Bytes, BytesMut};

use crate::buffers::{bytes_mut_advance, bytes_mut_as_slice, bytes_mut_freeze, bytes_mut_split_to, bytes_mut_view, bytes_view};
use crate::header_rewrite::{first_rewrite, first_rewrite_parallel, matchers_view, memchr_byte};
use crate::http_frame::{HttpFrame, HttpFrameView};
use crate::lines::{first_index_of, lemma_first_index_of};

verus! {

/// `s` has a CR LF pair at `i`.
pub open spec fn crlf_at(s: Seq<u8>, i: int) -> bool {
    0 <= i && i + 1 < s.len() && s[i] == 13u8 && s[i + 1] == 10u8
}

/// The index of the first CR LF pair.
pub open spec fn first_crlf(s: Seq<u8>) -> Option<int>
    decreases s.len(),
{
    if s.len() < 2 {
        None
    } else {
        match first_crlf(s.drop_last()) {
            Some(i) => Some(i),
            None => if crlf_at(s, s.len() - 2) { Some(s.len() - 2) } else { None },
        }
    }
}

/// What pins down `first_crlf`.
pub proof fn lemma_first_crlf(s: Seq<u8>)
    ensures
        first_crlf(s) matches Some(i) ==> crlf_at(s, i) && forall|j: int| 0 <= j < i ==> !crlf_at(s, j),
        first_crlf(s) is None ==> forall|j: int| !crlf_at(s, j),
    decreases s.len(),
{
    if s.len() >= 2 {
        lemma_first_crlf(s.drop_last());
        assert forall|j: int| crlf_at(s.drop_last(), j) <==> crlf_at(s, j) && j + 2 < s.len() + 0 by {}
    }
}

/// A position with the first-CR-LF property is the first CR LF.
pub proof fn lemma_first_crlf_unique(s: Seq<u8>, i: int)
    requires
        crlf_at(s, i),
        forall|j: int| 0 <= j < i ==> !crlf_at(s, j),
    ensures
        first_crlf(s) == Some(i),
{
    lemma_first_crlf(s);
    if first_crlf(s) is None {
        assert(!crlf_at(s, i));
    }
}

/// No CR LF anywhere: `first_crlf` is `None`.
pub proof fn lemma_no_crlf(s: Seq<u8>)
    requires
        forall|j: int| !crlf_at(s, j),
    ensures
        first_crlf(s) is None,
{
    lemma_first_crlf(s);
}

/// The index of the CR of the first CR LF pair, found by scanning line feeds.
pub fn find_crlf(buf: &[u8]) -> (res: Option<usize>)
    ensures
        match res {
            Some(i) => first_crlf(buf@) == Some(i as int),
            None => first_crlf(buf@) is None,
        },
{
    let mut start: usize = 0;
    loop
        invariant
            start <= buf@.len(),
            forall|j: int| 0 <= j && j + 1 < start ==> !crlf_at(buf@, j),
        decreases buf@.len() - start,
    {
        let rest = vstd::slice::slice_subrange(buf, start, buf.len());
        match memchr_byte(0x0A, rest) {
            Some(pos) => {
                proof {
                    lemma_first_index_of(rest@, 0x0Au8);
                }
                let abs = start + pos;
                assert(buf@[abs as int] == 10u8) by {
                    assert(rest@[pos as int] == buf@[start + pos]);
                }
                assert forall|j: int| start <= j + 1 && j + 1 < abs implies !crlf_at(buf@, j) by {
                    assert(rest@[j + 1 - start] == buf@[j + 1]);
                }
                if abs > 0 && buf[abs - 1] == 13 {
                    proof {
                        lemma_first_crlf_unique(buf@, abs - 1);
                    }
                    return Some(abs - 1);
                }
                start = abs + 1;
            },
            None => {
                proof {
                    lemma_first_index_of(rest@, 0x0Au8);
                    assert forall|j: int| !crlf_at(buf@, j) by {
                        if crlf_at(buf@, j) && j + 1 >= start {
                            assert(rest@[j + 1 - start] == buf@[j + 1]);
                        }
                    }
                    lemma_no_crlf(buf@);
                }
                return None;
            },
        }
    }
}

/// Splits an HTTP head into lines (at CR LF), marking the request line as the
/// routing frame and rewriting header lines with the first matcher that
/// applies; the empty line ends the head.
pub struct HttpStreamingCodec {
    done: bool,
    first_line: bool,
    matchers: Vec<(Vec<u8>, Bytes)>,
}

impl HttpStreamingCodec {
    /// The head has ended.
    pub closed spec fn done(&self) -> bool {
        self.done
    }

    /// The next line is the request line.
    pub closed spec fn at_first_line(&self) -> bool {
        self.first_line
    }

    /// The matchers (needle, value) as plain values.
    pub closed spec fn matchers(&self) -> Seq<(Seq<u8>, Seq<u8>)> {
        matchers_view(self.matchers@)
    }

    /// A codec at the start of a head with these matchers.
    pub fn new(matchers: Vec<(Vec<u8>, Bytes)>) -> (res: Self)
        ensures
            !res.done(),
            res.at_first_line(),
            res.matchers() == matchers_view(matchers@),
    {
        HttpStreamingCodec { done: false, first_line: true, matchers }
    }

    /// The head has ended.
    pub fn headers_done(&self) -> (res: bool)
        ensures
            res == self.done(),
    {
        self.done
    }

    /// After the head has ended, nothing; else as `decode`.
    pub fn decode_eof(&mut self, buf: &mut BytesMut) -> (res: Result<Option<HttpFrame>, std::io::Error>)
        ensures
            codec_step(*old(self), bytes_mut_view(*old(buf)), *final(self), bytes_mut_view(*final(buf)), res),
    {
        if self.done {
            return Ok(None);
        }
        self.decode(buf)
    }

    /// The next line of the head, taken off `src` with its CR LF: the empty
    /// line ends the head; the first line is the routing frame as it is;
    /// later lines are rewritten by the first matcher that applies.  Without
    /// a complete line, or once the head has ended, nothing.
    pub fn decode(&mut self, src: &mut BytesMut) -> (res: Result<Option<HttpFrame>, std::io::Error>)
        ensures
            codec_step(*old(self), bytes_mut_view(*old(src)), *final(self), bytes_mut_view(*final(src)), res),
    {
        let data = bytes_mut_as_slice(src);
        if self.done || data.len() == 0 {
            return Ok(None);
        }
        let found = find_crlf(data);
        proof {
            lemma_first_crlf(data@);
        }
        let ghost s0 = data@;
        match found {
            Some(0) => {
                bytes_mut_advance(src, 2);
                self.done = true;
                let res = Ok(Some(HttpFrame::end_of_headers()));
                assert(frame_of(res) == Some(HttpFrameView { data: Seq::empty(), routing: false, end_of_headers: true }));
                assert(self.matchers() == old(self).matchers());
                res
            },
            Some(pos) => {
                let is_request_line = self.first_line;
                self.first_line = false;
                let line = bytes_mut_freeze(bytes_mut_split_to(src, pos));
                bytes_mut_advance(src, 2);
                assert(bytes_mut_view(*src) =~= s0.skip(pos + 2));
                assert(self.matchers() == old(self).matchers());
                if is_request_line {
                    return Ok(Some(HttpFrame::header(line, true)));
                }
                let replaced = first_rewrite_parallel(&self.matchers, crate::buffers::bytes_as_slice(&line));
                match replaced {
                    Some(bytes) => Ok(Some(HttpFrame::header(bytes, false))),
                    None => Ok(Some(HttpFrame::header(line, false))),
                }
            },
            None => Ok(None),
        }
    }
}

/// The frame a decode step yields, as plain values.
pub open spec fn frame_of(res: Result<Option<HttpFrame>, std::io::Error>) -> Option<HttpFrameView> {
    match res {
        Ok(Some(f)) => Some(f@),
        _ => None,
    }
}

/// One decode step of the codec, from state `c` and buffer `s` to state `c2`
/// and buffer `s2`, yielding `res`.
pub open spec fn codec_step(c: HttpStreamingCodec, s: Seq<u8>, c2: HttpStreamingCodec, s2: Seq<u8>, res: Result<Option<HttpFrame>, std::io::Error>) -> bool {
    &&& res is Ok
    &&& c2.matchers() == c.matchers()
    &&& if c.done() || s.len() == 0 || first_crlf(s) is None {
        &&& frame_of(res) is None
        &&& s2 == s
        &&& c2.done() == c.done() && c2.at_first_line() == c.at_first_line()
    } else if first_crlf(s) == Some(0int) {
        &&& frame_of(res) == Some(HttpFrameView { data: Seq::empty(), routing: false, end_of_headers: true })
        &&& s2 == s.skip(2)
        &&& c2.done() && c2.at_first_line() == c.at_first_line()
    } else {
        let p = first_crlf(s).unwrap();
        let line = s.take(p);
        &&& s2 == s.skip(p + 2)
        &&& !c2.done() && !c2.at_first_line()
        &&& frame_of(res) == Some(HttpFrameView {
            data: if c.at_first_line() {
                line
            } else {
                match first_rewrite(c.matchers(), line) {
                    Some(r) => r,
                    None => line,
                }
            },
            routing: c.at_first_line(),
            end_of_headers: false,
        })
    }
}

} // verus!
