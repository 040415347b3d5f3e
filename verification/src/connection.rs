use vstd::prelude::*;

verus! {

/// What a connection has forwarded so far: whether it has been routed to an
/// upstream, how many frames were parsed, and how many bytes went up.
pub struct ConnectionTally {
    pub routed: bool,
    pub frame_count: u64,
    pub passthrough_bytes: u64,
    pub request_bytes: u64,
}

impl ConnectionTally {
    /// A connection before its first frame.
    pub fn new() -> (res: Self)
        ensures
            !res.routed,
            res.frame_count == 0,
            res.passthrough_bytes == 0,
            res.request_bytes == 0,
    {
        ConnectionTally { routed: false, frame_count: 0, passthrough_bytes: 0, request_bytes: 0 }
    }

    /// Counts `len` bytes forwarded as they are.
    pub fn on_passthrough(&mut self, len: u64)
        requires
            old(self).passthrough_bytes + len <= u64::MAX,
            old(self).request_bytes + len <= u64::MAX,
        ensures
            final(self).routed == old(self).routed,
            final(self).frame_count == old(self).frame_count,
            final(self).passthrough_bytes == old(self).passthrough_bytes + len,
            final(self).request_bytes == old(self).request_bytes + len,
    {
        self.passthrough_bytes = self.passthrough_bytes + len;
        self.request_bytes = self.request_bytes + len;
    }

    /// Counts a parsed frame of `len` bytes.  Returns whether the upstream
    /// must be chosen from this frame first: the first routing frame of an
    /// unrouted connection.  The connection is routed from then on.
    pub fn on_parsed(&mut self, len: u64, is_routing: bool) -> (provide: bool)
        requires
            old(self).frame_count < u64::MAX,
            old(self).request_bytes + len <= u64::MAX,
        ensures
            provide == (is_routing && !old(self).routed),
            final(self).routed == (old(self).routed || is_routing),
            final(self).frame_count == old(self).frame_count + 1,
            final(self).passthrough_bytes == old(self).passthrough_bytes,
            final(self).request_bytes == old(self).request_bytes + len,
    {
        self.frame_count = self.frame_count + 1;
        self.request_bytes = self.request_bytes + len;
        if is_routing && !self.routed {
            self.routed = true;
            true
        } else {
            false
        }
    }
}

/// The counts that a request record carries for a connection.
pub struct RequestCounts {
    pub frames: u64,
    pub req_bytes: u64,
    pub resp_bytes: u64,
    pub error: bool,
}

/// The counts recorded for a connection: for one that completed with
/// `(frames, request bytes, response bytes)`, those counts; for one that
/// failed (`None`), zeros and the error flag.
pub fn request_counts(outcome: Option<(u64, u64, u64)>) -> (res: RequestCounts)
    ensures
        match outcome {
            Some((f, q, r)) => res.frames == f && res.req_bytes == q && res.resp_bytes == r && !res.error,
            None => res.frames == 0 && res.req_bytes == 0 && res.resp_bytes == 0 && res.error,
        },
{
    match outcome {
        Some((frames, req_bytes, resp_bytes)) => RequestCounts { frames, req_bytes, resp_bytes, error: false },
        None => RequestCounts { frames: 0, req_bytes: 0, resp_bytes: 0, error: true },
    }
}

} // verus!
