use vstd::prelude::*;
use vstd::string::StringSliceAdditionalSpecFns;

use crate::buffers::{bytes_mut_as_slice, bytes_mut_view};
use crate::carriage_codec::MappedFrame;
use crate::dev_server::push_str;
use crate::passenger_tls::{decimal, push_decimal};

verus! {

/// What a mapped stream has yielded so far: head lines, and body bytes.
pub struct PocTally {
    pub header_count: i32,
    pub body_bytes: usize,
}

impl PocTally {
    /// Nothing seen yet.
    pub fn new() -> (res: Self)
        ensures
            res.header_count == 0,
            res.body_bytes == 0,
    {
        PocTally { header_count: 0, body_bytes: 0 }
    }

    /// Counts one frame: a head line, or a body chunk by its length.
    pub fn on_frame(&mut self, frame: &MappedFrame)
        requires
            match *frame {
                MappedFrame::Header(_) => old(self).header_count < i32::MAX,
                MappedFrame::Body(b) => old(self).body_bytes + bytes_mut_view(b).len() <= usize::MAX,
            },
        ensures
            match *frame {
                MappedFrame::Header(_) => final(self).header_count == old(self).header_count + 1
                    && final(self).body_bytes == old(self).body_bytes,
                MappedFrame::Body(b) => final(self).body_bytes == old(self).body_bytes + bytes_mut_view(b).len()
                    && final(self).header_count == old(self).header_count,
            },
    {
        match frame {
            MappedFrame::Header(_) => {
                self.header_count = self.header_count + 1;
            },
            MappedFrame::Body(b) => {
                self.body_bytes = self.body_bytes + bytes_mut_as_slice(b).len();
            },
        }
    }
}

/// The body of the proof-of-concept answer for `n` head lines.
pub open spec fn poc_body(n: nat) -> Seq<u8> {
    "railscale poc \u{2014} ".spec_bytes() + decimal(n) + " headers parsed\n".spec_bytes()
}

/// The whole proof-of-concept answer: a `200 OK` with the body's length in
/// bytes, closing the connection.
pub open spec fn poc_response(n: nat) -> Seq<u8> {
    "HTTP/1.1 200 OK\r\nContent-Length: ".spec_bytes() + decimal(poc_body(n).len()) + "\r\nConnection: close\r\n\r\n".spec_bytes()
        + poc_body(n)
}

/// The proof-of-concept answer for `header_count` head lines.
pub fn poc_response_bytes(header_count: i32) -> (res: Vec<u8>)
    requires
        header_count >= 0,
    ensures
        res@ == poc_response(header_count as nat),
{
    let mut body: Vec<u8> = Vec::new();
    push_str(&mut body, "railscale poc \u{2014} ");
    push_decimal(header_count as u64, &mut body);
    push_str(&mut body, " headers parsed\n");
    assert(body@ =~= poc_body(header_count as nat));
    let mut res: Vec<u8> = Vec::new();
    push_str(&mut res, "HTTP/1.1 200 OK\r\nContent-Length: ");
    push_decimal(body.len() as u64, &mut res);
    push_str(&mut res, "\r\nConnection: close\r\n\r\n");
    let ghost before = res@;
    let mut i: usize = 0;
    while i < body.len()
        invariant
            i <= body@.len(),
            res@ == before + body@.take(i as int),
        decreases body@.len() - i,
    {
        res.push(body[i]);
        i = i + 1;
        assert(res@ =~= before + body@.take(i as int));
    }
    assert(body@.take(body@.len() as int) =~= body@);
    assert(res@ =~= poc_response(header_count as nat));
    res
}

} // verus!
