use vstd::prelude::*;
use bytes::BytesMut;

use crate::buffers::{bytes_as_slice, bytes_mut_as_slice, bytes_mut_freeze, bytes_mut_split_to, bytes_mut_view, bytes_view};
use crate::dns_message::slice_subrange;
use crate::lines::{blank_line, find_byte, first_index_of, is_blank_line, lemma_first_index_of, line_content, line_content_len, trim_ows, trim_ows_bounds};
use crate::text::{string_from_utf8_lossy, utf8_lossy};
use crate::ticket::{
    decoded_view, predicate_answers, predicate_callable, BufferedField, FieldView, PassengerDecoder,
    TicketField, TicketView,
};

verus! {

/// A decoder for HTTP/1 request heads: one line per field, up to the empty
/// line that ends the head.
pub struct HttpPassenger<P> {
    past_metadata: bool,
    at_request_line: bool,
    buffer_predicate: P,
}

impl<P: Fn(&[u8]) -> bool> HttpPassenger<P> {
    /// The head has ended; nothing more is decoded.
    pub closed spec fn past_metadata(&self) -> bool {
        self.past_metadata
    }

    /// The next line is the request line.
    pub closed spec fn at_request_line(&self) -> bool {
        self.at_request_line
    }

    /// The predicate that decides which header lines are held back.
    pub closed spec fn predicate(&self) -> P {
        self.buffer_predicate
    }
}

/// The field that a (non-blank) line of the head becomes.  The request line
/// is always held back as an attribute: its text without the line end.  A
/// header line the predicate holds back becomes a header (name before the
/// first colon, value after it without surrounding spaces and tabs), or the
/// raw line when it has no colon; any other line passes through.
pub open spec fn http_line_field(line: Seq<u8>, request_line: bool, buffered: bool) -> TicketView {
    let content = line_content(line);
    if request_line {
        TicketView::Buffered(FieldView::Attribute(utf8_lossy(content)))
    } else if buffered {
        match first_index_of(content, 0x3Au8) {
            Some(c) => TicketView::Buffered(FieldView::Header(
                utf8_lossy(content.take(c)),
                utf8_lossy(trim_ows(content.skip(c + 1))),
            )),
            None => TicketView::Buffered(FieldView::Bytes(line)),
        }
    } else {
        TicketView::Passthrough(line)
    }
}

/// The first line of `src`, up to and including its line feed.
pub open spec fn first_line(src: Seq<u8>) -> Option<Seq<u8>> {
    match first_index_of(src, 0x0Au8) {
        Some(p) => Some(src.take(p + 1)),
        None => None,
    }
}

impl<P: Fn(&[u8]) -> bool> PassengerDecoder<P> for HttpPassenger<P> {
    closed spec fn ready(&self) -> bool {
        predicate_callable(self.buffer_predicate)
    }

    open spec fn idle(&self, src: Seq<u8>) -> bool {
        self.past_metadata() || first_line(src) is None
    }

    /// Once the head has ended, nothing.  Otherwise the first complete line
    /// is taken off: a blank one (only CR and LF) ends the head; any other
    /// becomes a field as `http_line_field` says.  Without a complete line,
    /// nothing.  The predicate stays.
    open spec fn step(&self, src: Seq<u8>, out: Option<TicketView>, next: Self, rest: Seq<u8>) -> bool {
        &&& next.predicate() == self.predicate()
        &&& (self.past_metadata() || first_line(src) is None ==> {
            &&& out is None
            &&& next.past_metadata() == self.past_metadata()
            &&& next.at_request_line() == self.at_request_line()
        })
        &&& (!self.past_metadata() ==> match first_line(src) {
            None => true,
            Some(line) => {
                &&& rest == src.skip(line.len() as int)
                &&& if is_blank_line(line) {
                    &&& out == Some(TicketView::Boundary)
                    &&& next.past_metadata()
                    &&& next.at_request_line() == self.at_request_line()
                } else if self.at_request_line() {
                    &&& out == Some(http_line_field(line, true, false))
                    &&& !next.past_metadata()
                    &&& !next.at_request_line()
                } else {
                    &&& exists|b: bool| predicate_answers(self.predicate(), line, b)
                        && out == Some(http_line_field(line, false, b))
                    &&& !next.past_metadata()
                    &&& !next.at_request_line()
                }
            },
        })
    }

    fn with_predicate(buffer_predicate: P) -> (res: Self)
        ensures
            !res.past_metadata(),
            res.at_request_line(),
            res.predicate() == buffer_predicate,
    {
        HttpPassenger { past_metadata: false, at_request_line: true, buffer_predicate }
    }

    /// One decode step, as `step` says.
    fn decode(&mut self, src: &mut BytesMut) -> (res: Result<Option<TicketField>, std::io::Error>)
    {
        if self.past_metadata {
            return Ok(None);
        }
        let data = bytes_mut_as_slice(src);
        let len = data.len();
        let pos = match find_byte(data, 0x0A) {
            Some(p) => p,
            None => return Ok(None),
        };
        proof {
            lemma_first_index_of(bytes_mut_view(*src), 0x0Au8);
        }
        assert(pos < len);
        let ghost whole = bytes_mut_view(*src);
        let line_bytes = bytes_mut_freeze(bytes_mut_split_to(src, pos + 1));
        let line = bytes_as_slice(&line_bytes);
        let ghost lv = line@;
        assert(lv == whole.take(pos + 1));
        if blank_line(line) {
            self.past_metadata = true;
            return Ok(Some(TicketField::Boundary));
        }
        let n = line_content_len(line);
        let ghost content = line_content(lv);
        if self.at_request_line {
            self.at_request_line = false;
            let attr = string_from_utf8_lossy(slice_subrange(line, 0, n));
            assert(lv.subrange(0, n as int) =~= content);
            return Ok(Some(TicketField::Buffered(BufferedField::Attribute(attr))));
        }
        let buffered = (self.buffer_predicate)(line);
        assert(predicate_answers(old(self).predicate(), lv, buffered));
        if !buffered {
            let res = Ok(Some(TicketField::Passthrough(line_bytes)));
            assert(decoded_view(res) == Some(http_line_field(lv, false, buffered)));
            return res;
        }
        let content_slice = slice_subrange(line, 0, n);
        assert(content_slice@ =~= content);
        match find_byte(content_slice, 0x3A) {
            Some(c) => {
                proof {
                    lemma_first_index_of(content, 0x3Au8);
                }
                let key = string_from_utf8_lossy(slice_subrange(content_slice, 0, c));
                let (a, b) = trim_ows_bounds(content_slice, c + 1, n);
                let value = string_from_utf8_lossy(slice_subrange(content_slice, a, b));
                assert(content.subrange(0, c as int) =~= content.take(c as int));
                assert(content.subrange(c + 1, n as int) =~= content.skip(c + 1));
                let res = Ok(Some(TicketField::Buffered(BufferedField::Header(key, value))));
                assert(decoded_view(res) == Some(http_line_field(lv, false, buffered)));
                res
            },
            None => {
                let res = Ok(Some(TicketField::Buffered(BufferedField::Bytes(line_bytes))));
                assert(decoded_view(res) == Some(http_line_field(lv, false, buffered)));
                res
            },
        }
    }
}

} // verus!
