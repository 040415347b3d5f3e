use vstd::prelude::*;
use bytes::{Bytes, BytesMut};

use crate::buffers::{bytes_mut_view, bytes_view};

verus! {

/// A piece of metadata held back for inspection.
#[derive(Debug)]
pub enum BufferedField {
    KeyValue(&'static str, &'static str),
    Header(String, String),
    Attribute(String),
    Bytes(Bytes),
}

/// What a passenger decoder makes of the bytes at the head of a stream.
#[derive(Debug)]
pub enum TicketField {
    /// Held back for inspection.
    Buffered(BufferedField),
    /// Forwarded as it is.
    Passthrough(Bytes),
    /// The metadata is over; what follows is body.
    Boundary,
}

/// A buffered field as plain values.
pub enum FieldView {
    KeyValue(Seq<char>, Seq<char>),
    Header(Seq<char>, Seq<char>),
    Attribute(Seq<char>),
    Bytes(Seq<u8>),
}

/// A ticket field as plain values.
pub enum TicketView {
    Buffered(FieldView),
    Passthrough(Seq<u8>),
    Boundary,
}

impl View for BufferedField {
    type V = FieldView;

    open spec fn view(&self) -> FieldView {
        match self {
            BufferedField::KeyValue(k, v) => FieldView::KeyValue(k@, v@),
            BufferedField::Header(k, v) => FieldView::Header(k@, v@),
            BufferedField::Attribute(a) => FieldView::Attribute(a@),
            BufferedField::Bytes(b) => FieldView::Bytes(bytes_view(*b)),
        }
    }
}

impl View for TicketField {
    type V = TicketView;

    open spec fn view(&self) -> TicketView {
        match self {
            TicketField::Buffered(f) => TicketView::Buffered(f@),
            TicketField::Passthrough(b) => TicketView::Passthrough(bytes_view(*b)),
            TicketField::Boundary => TicketView::Boundary,
        }
    }
}

/// What a decode call returned, as plain values.
pub open spec fn decoded_view(res: Result<Option<TicketField>, std::io::Error>) -> Option<TicketView> {
    match res {
        Ok(Some(f)) => Some(f@),
        _ => None,
    }
}

/// The predicate answered `answer` when called on `bytes`.
pub open spec fn predicate_answers<P: Fn(&[u8]) -> bool>(p: P, bytes: Seq<u8>, answer: bool) -> bool {
    exists|s: &[u8]| s@ == bytes && #[trigger] call_ensures(p, (s,), answer)
}

/// The predicate may be called on any bytes.
pub open spec fn predicate_callable<P: Fn(&[u8]) -> bool>(p: P) -> bool {
    forall|s: &[u8]| #[trigger] call_requires(p, (s,))
}

/// A decoder that splits the head of a stream into ticket fields, deciding
/// with a predicate which ones to hold back.
pub trait PassengerDecoder<P: Fn(&[u8]) -> bool>: Sized {
    /// The decoder may call its predicate on any bytes.
    spec fn ready(&self) -> bool;

    /// The decoder has nothing to take from `src` until more bytes arrive
    /// (or ever, once its metadata is over).
    spec fn idle(&self, src: Seq<u8>) -> bool;

    /// One decode call may go from this decoder and the buffer `src` to the
    /// decoder `next` and the buffer `rest`, yielding `out`.
    spec fn step(&self, src: Seq<u8>, out: Option<TicketView>, next: Self, rest: Seq<u8>) -> bool;

    /// A fresh decoder using `buffer_predicate`.
    fn with_predicate(buffer_predicate: P) -> (res: Self)
        requires
            predicate_callable(buffer_predicate),
        ensures
            res.ready(),
    ;

    /// Takes the next field off the front of `src`, or returns `None` and
    /// leaves it be, idle; never fails.  A field always takes bytes off `src`.
    fn decode(&mut self, src: &mut BytesMut) -> (res: Result<Option<TicketField>, std::io::Error>)
        requires
            old(self).ready(),
        ensures
            final(self).ready(),
            res is Ok,
            res matches Ok(Some(_)) ==> bytes_mut_view(*final(src)).len() < bytes_mut_view(*old(src)).len(),
            res matches Ok(None) ==> bytes_mut_view(*final(src)) == bytes_mut_view(*old(src))
                && final(self).idle(bytes_mut_view(*final(src))),
            old(self).step(bytes_mut_view(*old(src)), decoded_view(res), *final(self), bytes_mut_view(*final(src))),
    ;
}

/// The held-back fields among decoded ones, in order.
pub open spec fn held_back(outs: Seq<TicketView>) -> Seq<FieldView>
    decreases outs.len(),
{
    if outs.len() == 0 {
        Seq::empty()
    } else {
        let r = held_back(outs.drop_last());
        match outs.last() {
            TicketView::Buffered(f) => r.push(f),
            _ => r,
        }
    }
}

/// No boundary among decoded fields.
pub open spec fn no_boundary(outs: Seq<TicketView>) -> bool {
    forall|i: int| 0 <= i < outs.len() ==> !(#[trigger] outs[i] is Boundary)
}

/// Decode calls one after another can go from decoder `d` and buffer `src`
/// to decoder `d_end` and buffer `rest`, yielding the fields `outs`.
pub open spec fn decodes<P: Fn(&[u8]) -> bool, D: PassengerDecoder<P>>(
    d: D,
    src: Seq<u8>,
    outs: Seq<TicketView>,
    d_end: D,
    rest: Seq<u8>,
) -> bool
    decreases outs.len(),
{
    if outs.len() == 0 {
        d_end == d && rest == src
    } else {
        exists|d_mid: D, s_mid: Seq<u8>|
            #![trigger d_mid.step(s_mid, Some(outs.last()), d_end, rest)]
            decodes(d, src, outs.drop_last(), d_mid, s_mid) && d_mid.step(
                s_mid,
                Some(outs.last()),
                d_end,
                rest,
            )
    }
}

} // verus!
