use vstd::prelude::*;
use bytes::BytesMut;
use core::marker::PhantomData;

use crate::buffers::bytes_mut_view;
use crate::carriage::Stamp;
use crate::ticket::{
    decoded_view, decodes, held_back, no_boundary, predicate_callable, BufferedField, FieldView, PassengerDecoder,
    TicketField, TicketView,
};

verus! {

/// The views of a sequence of buffered fields.
pub open spec fn field_views(fs: Seq<BufferedField>) -> Seq<FieldView> {
    fs.map_values(|f: BufferedField| f@)
}

/// How a run of decoding went: the fields `outs` were decoded from `src`,
/// taking decoder `d` to `d_end` and leaving `rest`.  With `boundary`, the last
/// of them is the boundary and none before it is; otherwise none is one and a
/// last decode call found nothing.
pub open spec fn drained<P: Fn(&[u8]) -> bool, D: PassengerDecoder<P>>(
    d: D,
    src: Seq<u8>,
    outs: Seq<TicketView>,
    boundary: bool,
    d_end: D,
    rest: Seq<u8>,
) -> bool {
    if boundary {
        &&& outs.len() > 0
        &&& outs.last() is Boundary
        &&& no_boundary(outs.drop_last())
        &&& decodes(d, src, outs, d_end, rest)
    } else {
        &&& no_boundary(outs)
        &&& exists|d_mid: D, s_mid: Seq<u8>|
            #![trigger decodes(d, src, outs, d_mid, s_mid)]
            decodes(d, src, outs, d_mid, s_mid) && d_mid.step(s_mid, None, d_end, rest)
    }
}

/// The metadata phase of a carriage: a passenger decoder splits the head of
/// the stream into fields, the held-back ones are kept in order, and the
/// phase ends at the boundary.
pub struct TicketPipeline<P, D> {
    decoder: D,
    buffered_fields: Vec<BufferedField>,
    stamps: Stamp,
    metadata_done: bool,
    predicate: PhantomData<P>,
}

impl<P: Fn(&[u8]) -> bool, D: PassengerDecoder<P>> TicketPipeline<P, D> {
    /// The decoder may be called.
    pub closed spec fn wf(&self) -> bool {
        self.decoder.ready()
    }

    /// The decoder in its present state.
    pub closed spec fn decoder(&self) -> D {
        self.decoder
    }

    /// The fields held back so far, in the order they came.
    pub closed spec fn fields(&self) -> Seq<FieldView> {
        field_views(self.buffered_fields@)
    }

    /// The boundary has been reached.
    pub closed spec fn done(&self) -> bool {
        self.metadata_done
    }

    /// The decoder has nothing to take from `src` until more bytes arrive.
    pub closed spec fn waiting(&self, src: Seq<u8>) -> bool {
        self.decoder.idle(src)
    }

    /// The marks on the stamp.
    pub closed spec fn marks(&self) -> Map<Seq<char>, String> {
        self.stamps.entries@
    }

    /// A pipeline at the start of a stream, with a decoder made from the
    /// predicate, no fields and a blank stamp.
    pub fn new(buffer_predicate: P) -> (res: Self)
        requires
            predicate_callable(buffer_predicate),
        ensures
            res.wf(),
            res.fields() == Seq::<FieldView>::empty(),
            !res.done(),
            res.marks() == Map::<Seq<char>, String>::empty(),
    {
        let res = TicketPipeline {
            decoder: D::with_predicate(buffer_predicate),
            buffered_fields: Vec::new(),
            stamps: Stamp::new(),
            metadata_done: false,
            predicate: PhantomData,
        };
        assert(res.fields() =~= Seq::<FieldView>::empty());
        res
    }

    /// Takes one decoded field: a held-back one is kept, one passed through
    /// is dropped, and the boundary ends the phase.  Returns whether it was
    /// the boundary.
    pub fn accept(&mut self, field: TicketField) -> (boundary: bool)
        ensures
            boundary == (field@ is Boundary),
            final(self).wf() == old(self).wf(),
            final(self).decoder() == old(self).decoder(),
            final(self).marks() == old(self).marks(),
            final(self).done() == (old(self).done() || boundary),
            final(self).fields() == match field@ {
                TicketView::Buffered(f) => old(self).fields().push(f),
                _ => old(self).fields(),
            },
    {
        match field {
            TicketField::Buffered(f) => {
                let ghost v = f@;
                self.buffered_fields.push(f);
                assert(self.fields() =~= old(self).fields().push(v));
                false
            },
            TicketField::Passthrough(_) => false,
            TicketField::Boundary => {
                self.metadata_done = true;
                true
            },
        }
    }

    /// Decodes the fields that `src` holds, one by one, until the boundary
    /// (returns `true`) or until the decoder finds nothing more (`false`).
    /// The held-back ones among the decoded fields are appended, in order, to
    /// those kept before; passed-through ones are dropped.
    pub fn process_available(&mut self, src: &mut BytesMut) -> (boundary: bool)
        requires
            old(self).wf(),
        ensures
            final(self).wf(),
            final(self).marks() == old(self).marks(),
            boundary ==> final(self).done(),
            !boundary ==> final(self).done() == old(self).done() && final(self).waiting(bytes_mut_view(*final(src))),
            old(self).fields().len() <= final(self).fields().len(),
            final(self).fields().take(old(self).fields().len() as int) == old(self).fields(),
            bytes_mut_view(*final(src)).len() <= bytes_mut_view(*old(src)).len(),
            exists|outs: Seq<TicketView>|
                #![trigger held_back(outs)]
                drained(old(self).decoder(), bytes_mut_view(*old(src)), outs, boundary, final(self).decoder(),
                    bytes_mut_view(*final(src)))
                && final(self).fields() == old(self).fields() + held_back(outs),
    {
        let ghost outs: Seq<TicketView> = Seq::empty();
        loop
            invariant
                self.wf(),
                self.marks() == old(self).marks(),
                self.done() == old(self).done(),
                old(self).fields().len() <= self.fields().len(),
                self.fields().take(old(self).fields().len() as int) == old(self).fields(),
                bytes_mut_view(*src).len() <= bytes_mut_view(*old(src)).len(),
                decodes(old(self).decoder, bytes_mut_view(*old(src)), outs, self.decoder, bytes_mut_view(*src)),
                no_boundary(outs),
                self.fields() == old(self).fields() + held_back(outs),
            decreases bytes_mut_view(*src).len(),
        {
            let ghost d1 = self.decoder;
            let ghost s1 = bytes_mut_view(*src);
            let res = self.decoder.decode(src);
            match res {
                Ok(Some(field)) => {
                    let ghost v = field@;
                    let ghost outs2 = outs.push(v);
                    assert(outs2.drop_last() =~= outs);
                    assert(decoded_view(res) == Some(v));
                    assert(d1.step(s1, Some(outs2.last()), self.decoder, bytes_mut_view(*src)));
                    assert(decodes(old(self).decoder, bytes_mut_view(*old(src)), outs2, self.decoder, bytes_mut_view(*src)));
                    if self.accept(field) {
                        assert(held_back(outs2) == held_back(outs));
                        assert(drained(old(self).decoder(), bytes_mut_view(*old(src)), outs2, true, self.decoder(),
                            bytes_mut_view(*src)));
                        assert(self.fields() =~= old(self).fields() + held_back(outs2));
                        return true;
                    }
                    assert(self.fields() =~= old(self).fields() + held_back(outs2));
                    assert(no_boundary(outs2)) by {
                        assert forall|i: int| 0 <= i < outs2.len() implies !(#[trigger] outs2[i] is Boundary) by {
                            if i < outs.len() {
                                assert(outs2[i] == outs[i]);
                            }
                        }
                    }
                    assert(self.fields().take(old(self).fields().len() as int) =~= old(self).fields());
                    proof {
                        outs = outs2;
                    }
                },
                _ => {
                    assert(decoded_view(res) is None);
                    assert(drained(old(self).decoder(), bytes_mut_view(*old(src)), outs, false, self.decoder(),
                        bytes_mut_view(*src)));
                    return false;
                },
            }
        }
    }

    /// The fields held back so far.
    pub fn buffered_fields(&self) -> (res: &[BufferedField])
        ensures
            field_views(res@) == self.fields(),
    {
        self.buffered_fields.as_slice()
    }

    /// The stamp put on the ticket.
    pub fn stamps(&self) -> (res: &Stamp)
        ensures
            res.entries@ == self.marks(),
    {
        &self.stamps
    }
}

} // verus!
