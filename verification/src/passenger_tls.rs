use vstd::prelude::*;
use vstd::string::StringExecFns;
use bytes::BytesMut;

use crate::buffers::{bytes_as_slice, bytes_mut_as_slice, bytes_mut_freeze, bytes_mut_split_to, bytes_mut_view, bytes_view};
use crate::dns_message::{be16, read_be16, slice_subrange};
use crate::text::{string_from_utf8_lossy, utf8_lossy};
use crate::ticket::{
    decoded_view, predicate_answers, predicate_callable, BufferedField, FieldView, PassengerDecoder,
    TicketField, TicketView,
};
use crate::tls_hello::{client_hello_info, info_summary, parse_client_hello, HelloSummary};

verus! {

/// Length of a TLS record header: type, version, length.
pub const TLS_RECORD_HEADER_LEN: usize = 5;

/// Content type of handshake records.
pub const CONTENT_HANDSHAKE: u8 = 22;

/// The decimal digits of `n`, as ASCII bytes.
pub open spec fn decimal(n: nat) -> Seq<u8>
    decreases n,
{
    if n < 10 {
        seq![(48 + n) as u8]
    } else {
        decimal(n / 10) + seq![(48 + n % 10) as u8]
    }
}

/// Appends the decimal digits of `n`.
pub fn push_decimal(n: u64, buf: &mut Vec<u8>)
    ensures
        final(buf)@ == old(buf)@ + decimal(n as nat),
    decreases n,
{
    if n >= 10 {
        push_decimal(n / 10, buf);
    }
    buf.push((48 + n % 10) as u8);
    assert(final(buf)@ =~= old(buf)@ + decimal(n as nat));
}

/// The name of a protocol version.
pub open spec fn version_name(v: u16) -> Seq<char> {
    if v == 0x0300 {
        "ssl3.0"@
    } else if v == 0x0301 {
        "tls1.0"@
    } else if v == 0x0302 {
        "tls1.1"@
    } else if v == 0x0303 {
        "tls1.2"@
    } else if v == 0x0304 {
        "tls1.3"@
    } else {
        "unknown"@
    }
}

fn version_str(v: u16) -> (s: &'static str)
    ensures
        s@ == version_name(v),
{
    if v == 0x0300 {
        "ssl3.0"
    } else if v == 0x0301 {
        "tls1.0"
    } else if v == 0x0302 {
        "tls1.1"
    } else if v == 0x0303 {
        "tls1.2"
    } else if v == 0x0304 {
        "tls1.3"
    } else {
        "unknown"
    }
}

/// The attribute text describing a ClientHello: handshake type, client
/// version, number of cipher suites, and the SNI host name when present.
pub open spec fn hello_text(h: HelloSummary) -> Seq<char> {
    "handshake_type=client_hello client_version="@ + version_name(h.version)
        + " cipher_suite_count="@ + utf8_lossy(decimal((h.cipher_suites_len / 2) as nat))
        + match h.sni {
            Some(host) => " sni="@ + utf8_lossy(host),
            None => Seq::<char>::empty(),
        }
}

/// The field a complete handshake record becomes: held back when the
/// predicate says so (as the ClientHello attribute text when the record holds
/// one, else as its bytes), else passed through.
pub open spec fn tls_record_field(record: Seq<u8>, buffered: bool) -> TicketView {
    if !buffered {
        TicketView::Passthrough(record)
    } else {
        match parse_client_hello(record.skip(5)) {
            Some(h) => TicketView::Buffered(FieldView::Attribute(hello_text(h))),
            None => TicketView::Buffered(FieldView::Bytes(record)),
        }
    }
}

/// The length of the first record of `src` (header included), once its
/// header is complete.
pub open spec fn record_total_len(src: Seq<u8>) -> int {
    5 + be16(src[3], src[4])
}

/// A decoder for TLS: handshake records are fields; the first record of any
/// other type ends the metadata.
pub struct TlsPassenger<P> {
    past_metadata: bool,
    buffer_predicate: P,
}

impl<P: Fn(&[u8]) -> bool> TlsPassenger<P> {
    /// A non-handshake record was met; nothing more is decoded.
    pub closed spec fn past_metadata(&self) -> bool {
        self.past_metadata
    }

    /// The predicate that decides which records are held back.
    pub closed spec fn predicate(&self) -> P {
        self.buffer_predicate
    }
}

/// Builds the attribute text of a ClientHello summary.
fn hello_attribute(p: &[u8], version: u16, cipher_suites_len: u16, sni: Option<(usize, usize)>) -> (res: String)
    requires
        sni matches Some((a, b)) ==> a <= b <= p@.len(),
    ensures
        res@ == hello_text(HelloSummary {
            version,
            cipher_suites_len,
            sni: match sni {
                Some((a, b)) => Some(p@.subrange(a as int, b as int)),
                None => None,
            },
        }),
{
    let mut s = String::new();
    s.append("handshake_type=client_hello client_version=");
    s.append(version_str(version));
    s.append(" cipher_suite_count=");
    let mut digits: Vec<u8> = Vec::new();
    push_decimal((cipher_suites_len / 2) as u64, &mut digits);
    assert(digits@ =~= decimal((cipher_suites_len / 2) as nat));
    let count = string_from_utf8_lossy(digits.as_slice());
    s.append(count.as_str());
    match sni {
        Some((a, b)) => {
            s.append(" sni=");
            let host = string_from_utf8_lossy(slice_subrange(p, a, b));
            s.append(host.as_str());
        },
        None => {},
    }
    assert(s@ =~= hello_text(HelloSummary {
        version,
        cipher_suites_len,
        sni: match sni {
            Some((a, b)) => Some(p@.subrange(a as int, b as int)),
            None => None,
        },
    }));
    s
}

impl<P: Fn(&[u8]) -> bool> PassengerDecoder<P> for TlsPassenger<P> {
    closed spec fn ready(&self) -> bool {
        predicate_callable(self.buffer_predicate)
    }

    open spec fn idle(&self, src: Seq<u8>) -> bool {
        self.past_metadata() || src.len() < 5 || src.len() < record_total_len(src)
    }

    /// Once the metadata is over, nothing.  Without a complete first record,
    /// nothing.  A complete handshake record is taken off and becomes a field
    /// as `tls_record_field` says; a record of another type ends the metadata
    /// and stays in `src`.  The predicate stays.
    open spec fn step(&self, src: Seq<u8>, out: Option<TicketView>, next: Self, rest: Seq<u8>) -> bool {
        &&& next.predicate() == self.predicate()
        &&& if self.past_metadata() || src.len() < 5 || src.len() < record_total_len(src) {
            &&& out is None
            &&& next.past_metadata() == self.past_metadata()
        } else if src[0] != CONTENT_HANDSHAKE {
            &&& out is None
            &&& next.past_metadata()
        } else {
            let record = src.take(record_total_len(src));
            &&& rest == src.skip(record_total_len(src))
            &&& !next.past_metadata()
            &&& exists|b: bool| predicate_answers(self.predicate(), record, b)
                && out == Some(tls_record_field(record, b))
        }
    }

    fn with_predicate(buffer_predicate: P) -> (res: Self)
        ensures
            !res.past_metadata(),
            res.predicate() == buffer_predicate,
    {
        TlsPassenger { past_metadata: false, buffer_predicate }
    }

    /// One decode step, as `step` says.
    fn decode(&mut self, src: &mut BytesMut) -> (res: Result<Option<TicketField>, std::io::Error>)
    {
        if self.past_metadata {
            return Ok(None);
        }
        let data = bytes_mut_as_slice(src);
        let ghost s = data@;
        if data.len() < TLS_RECORD_HEADER_LEN {
            return Ok(None);
        }
        let record_len = read_be16(data[3], data[4]) as usize;
        let total_len = TLS_RECORD_HEADER_LEN + record_len;
        if data.len() < total_len {
            return Ok(None);
        }
        let content_type = data[0];
        if content_type == CONTENT_HANDSHAKE {
            let record = bytes_mut_freeze(bytes_mut_split_to(src, total_len));
            let r = bytes_as_slice(&record);
            let ghost rv = r@;
            assert(rv == s.take(record_total_len(s)));
            let buffered = (self.buffer_predicate)(r);
            assert(predicate_answers(old(self).predicate(), rv, buffered));
            if !buffered {
                let res = Ok(Some(TicketField::Passthrough(record)));
                assert(decoded_view(res) == Some(tls_record_field(rv, buffered)));
                return res;
            }
            match client_hello_info(r, TLS_RECORD_HEADER_LEN) {
                Some(info) => {
                    let attr = hello_attribute(r, info.version, info.cipher_suites_len, info.sni);
                    assert(info_summary(info, rv) == (HelloSummary {
                        version: info.version,
                        cipher_suites_len: info.cipher_suites_len,
                        sni: match info.sni {
                            Some((a, b)) => Some(rv.subrange(a as int, b as int)),
                            None => None,
                        },
                    }));
                    let res = Ok(Some(TicketField::Buffered(BufferedField::Attribute(attr))));
                    assert(decoded_view(res) == Some(tls_record_field(rv, buffered)));
                    return res;
                },
                None => {
                    let res = Ok(Some(TicketField::Buffered(BufferedField::Bytes(record))));
                    assert(decoded_view(res) == Some(tls_record_field(rv, buffered)));
                    return res;
                },
            }
        }
        self.past_metadata = true;
        Ok(None)
    }
}

} // verus!
