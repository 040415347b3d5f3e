use vstd::prelude::*;
use vstd::string::StringSliceAdditionalSpecFns;
use bytes::BytesMut;

use crate::buffers::bytes_mut_view;
use crate::dns_message::push_slice;
use crate::passenger_http::{first_line, HttpPassenger};
use crate::passenger_tls::{decimal, push_decimal};
use crate::ticket::{decoded_view, decodes, no_boundary, PassengerDecoder, TicketField, TicketView};
use crate::ticket_pipeline::drained;

verus! {

/// The body the development server answers every request with.
pub open spec fn dev_body() -> Seq<u8> {
    "railscale dev server\n".spec_bytes()
}

/// The whole answer of the development server: a `200 OK` with the body's
/// length, closing the connection.
pub open spec fn dev_response() -> Seq<u8> {
    "HTTP/1.1 200 OK\r\nContent-Length: ".spec_bytes() + decimal(dev_body().len()) + "\r\nConnection: close\r\n\r\n".spec_bytes()
        + dev_body()
}

/// Appends the bytes of a text.
pub(crate) fn push_str(buf: &mut Vec<u8>, s: &str)
    ensures
        final(buf)@ == old(buf)@ + s.spec_bytes(),
{
    let b = s.as_bytes();
    push_slice(buf, b, 0, b.len());
    assert(b@.subrange(0, b@.len() as int) =~= b@);
}

/// The answer of the development server, as bytes.
pub fn dev_response_bytes() -> (res: Vec<u8>)
    ensures
        res@ == dev_response(),
{
    let body = "railscale dev server\n";
    let mut res: Vec<u8> = Vec::new();
    push_str(&mut res, "HTTP/1.1 200 OK\r\nContent-Length: ");
    let n = body.as_bytes().len();
    push_decimal(n as u64, &mut res);
    push_str(&mut res, "\r\nConnection: close\r\n\r\n");
    push_str(&mut res, body);
    assert(n == dev_body().len());
    assert(res@ =~= dev_response());
    res
}

/// What the development server does next with a connection.
pub enum DevStep {
    /// Read more bytes.
    NeedMore,
    /// Send these bytes and close.
    Respond(Vec<u8>),
}

/// Decodes the request head bytes that `raw` holds, field by field.  Once
/// the head is complete (a boundary was decoded) the answer is due; until
/// then, when the decoder finds nothing more, more bytes are needed.
pub fn dev_step<P: Fn(&[u8]) -> bool>(decoder: &mut HttpPassenger<P>, raw: &mut BytesMut) -> (res: DevStep)
    requires
        old(decoder).ready(),
    ensures
        final(decoder).ready(),
        final(decoder).predicate() == old(decoder).predicate(),
        bytes_mut_view(*final(raw)).len() <= bytes_mut_view(*old(raw)).len(),
        match res {
            DevStep::Respond(r) => r@ == dev_response() && !old(decoder).past_metadata()
                && final(decoder).past_metadata(),
            DevStep::NeedMore => final(decoder).past_metadata() == old(decoder).past_metadata()
                && (final(decoder).past_metadata() || first_line(bytes_mut_view(*final(raw))) is None),
        },
        res is Respond ==> exists|outs: Seq<TicketView>|
            #[trigger] drained(*old(decoder), bytes_mut_view(*old(raw)), outs, true, *final(decoder),
                bytes_mut_view(*final(raw))),
        res is NeedMore ==> exists|outs: Seq<TicketView>|
            #[trigger] drained(*old(decoder), bytes_mut_view(*old(raw)), outs, false, *final(decoder),
                bytes_mut_view(*final(raw))),
{
    let ghost outs: Seq<TicketView> = Seq::empty();
    loop
        invariant
            decoder.ready(),
            decoder.predicate() == old(decoder).predicate(),
            decoder.past_metadata() == old(decoder).past_metadata(),
            bytes_mut_view(*raw).len() <= bytes_mut_view(*old(raw)).len(),
            decodes(*old(decoder), bytes_mut_view(*old(raw)), outs, *decoder, bytes_mut_view(*raw)),
            no_boundary(outs),
        decreases bytes_mut_view(*raw).len(),
    {
        let ghost was = *decoder;
        let ghost src = bytes_mut_view(*raw);
        let res = decoder.decode(raw);
        let ghost outs2 = match decoded_view(res) {
            Some(v) => outs.push(v),
            None => outs,
        };
        proof {
            if decoded_view(res) is Some {
                assert(outs2.drop_last() =~= outs);
                assert(was.step(src, Some(outs2.last()), *decoder, bytes_mut_view(*raw)));
                assert(decodes(*old(decoder), bytes_mut_view(*old(raw)), outs2, *decoder, bytes_mut_view(*raw)));
            }
        }
        match res {
            Ok(Some(TicketField::Boundary)) => {
                assert(decoded_view(res) == Some(TicketView::Boundary));
                assert(drained(*old(decoder), bytes_mut_view(*old(raw)), outs2, true, *decoder, bytes_mut_view(*raw)));
                return DevStep::Respond(dev_response_bytes());
            },
            Ok(Some(_)) => {
                assert(decoded_view(res) != Some(TicketView::Boundary));
                assert(no_boundary(outs2)) by {
                    assert forall|i: int| 0 <= i < outs2.len() implies !(#[trigger] outs2[i] is Boundary) by {
                        if i < outs.len() {
                            assert(outs2[i] == outs[i]);
                        }
                    }
                }
                proof {
                    outs = outs2;
                }
            },
            _ => {
                assert(decoded_view(res) is None);
                assert(was.step(src, None, *decoder, bytes_mut_view(*raw)));
                assert(drained(*old(decoder), bytes_mut_view(*old(raw)), outs, false, *decoder, bytes_mut_view(*raw)));
                return DevStep::NeedMore;
            },
        }
    }
}

} // verus!
