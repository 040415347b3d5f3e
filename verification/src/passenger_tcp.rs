use vstd::prelude::*;
use bytes::BytesMut;

use crate::buffers::{bytes_as_slice, bytes_mut_as_slice, bytes_mut_freeze, bytes_mut_split, bytes_mut_view, bytes_view};
use crate::ticket::{
    decoded_view, predicate_answers, predicate_callable, BufferedField, FieldView, PassengerDecoder,
    TicketField, TicketView,
};

verus! {

/// A decoder for plain TCP: whatever has arrived is one chunk.
pub struct TcpPassenger<P> {
    buffer_predicate: P,
}

impl<P: Fn(&[u8]) -> bool> TcpPassenger<P> {
    /// The predicate that decides which chunks are held back.
    pub closed spec fn predicate(&self) -> P {
        self.buffer_predicate
    }
}

/// The field a chunk becomes: held back as bytes when the predicate says so,
/// else passed through.
pub open spec fn tcp_field(chunk: Seq<u8>, buffered: bool) -> TicketView {
    if buffered {
        TicketView::Buffered(FieldView::Bytes(chunk))
    } else {
        TicketView::Passthrough(chunk)
    }
}

impl<P: Fn(&[u8]) -> bool> PassengerDecoder<P> for TcpPassenger<P> {
    closed spec fn ready(&self) -> bool {
        predicate_callable(self.buffer_predicate)
    }

    open spec fn idle(&self, src: Seq<u8>) -> bool {
        src.len() == 0
    }

    /// Nothing on an empty buffer; else all of it as one chunk, held back or
    /// passed through as the predicate answers on the chunk.  The predicate
    /// stays.
    open spec fn step(&self, src: Seq<u8>, out: Option<TicketView>, next: Self, rest: Seq<u8>) -> bool {
        &&& next.predicate() == self.predicate()
        &&& (src.len() == 0 ==> out is None)
        &&& (src.len() > 0 ==> {
            &&& rest.len() == 0
            &&& exists|b: bool| predicate_answers(self.predicate(), src, b) && out == Some(tcp_field(src, b))
        })
    }

    fn with_predicate(buffer_predicate: P) -> (res: Self)
        ensures
            res.predicate() == buffer_predicate,
    {
        TcpPassenger { buffer_predicate }
    }

    /// One decode step, as `step` says.
    fn decode(&mut self, src: &mut BytesMut) -> (res: Result<Option<TicketField>, std::io::Error>)
    {
        if bytes_mut_as_slice(src).len() == 0 {
            return Ok(None);
        }
        let chunk = bytes_mut_freeze(bytes_mut_split(src));
        let s = bytes_as_slice(&chunk);
        let buffered = (self.buffer_predicate)(s);
        assert(predicate_answers(self.buffer_predicate, bytes_view(chunk), buffered));
        let ghost cv = bytes_view(chunk);
        let res = if buffered {
            Ok(Some(TicketField::Buffered(BufferedField::Bytes(chunk))))
        } else {
            Ok(Some(TicketField::Passthrough(chunk)))
        };
        assert(decoded_view(res) == Some(tcp_field(cv, buffered)));
        assert(cv == bytes_mut_view(*old(src)));
        assert(bytes_mut_view(*src).len() == 0);
        assert(self.buffer_predicate == old(self).predicate());
        assert(predicate_answers(old(self).predicate(), bytes_mut_view(*old(src)), buffered));
        res
    }
}

} // verus!
