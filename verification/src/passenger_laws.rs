use vstd::prelude::*;

use crate::http_codec::{crlf_at, first_crlf, lemma_first_crlf};
use crate::lines::{first_index_of, is_ows, lemma_first_index_of, lemma_prefix_first_index, line_content, trim_ows};
use crate::passenger_http::{first_line, http_line_field};
use crate::text::utf8_lossy;
use crate::ticket::{FieldView, TicketView};
use crate::passenger_tls::record_total_len;

verus! {

/// Bytes that arrive after a complete line change nothing of it: the HTTP
/// passenger takes the same line off the front, and what stays behind is
/// what stayed before followed by the new bytes.
pub proof fn law_http_line_stable(s: Seq<u8>, t: Seq<u8>)
    requires
        first_line(s) is Some,
    ensures
        first_line(s + t) == first_line(s),
        (s + t).skip(first_line(s).unwrap().len() as int) == s.skip(first_line(s).unwrap().len() as int) + t,
{
    lemma_first_index_of(s, 0x0Au8);
    assert((s + t).take(s.len() as int) =~= s);
    lemma_prefix_first_index(s + t, s.len() as int, 0x0Au8);
    let p = first_index_of(s, 0x0Au8).unwrap();
    assert((s + t).take(p + 1) =~= s.take(p + 1));
    assert((s + t).skip(p + 1) =~= s.skip(p + 1) + t);
}

/// While a line is incomplete nothing is taken; once bytes arrive, the first
/// line ends at the first line feed among them, so feeding a head in pieces
/// yields the lines that feeding it whole does.
pub proof fn law_http_line_completes(s: Seq<u8>, t: Seq<u8>)
    requires
        first_line(s) is None,
    ensures
        first_line(s + t) == match first_index_of(t, 0x0Au8) {
            Some(p) => Some(s + t.take(p + 1)),
            None => None,
        },
{
    lemma_first_index_of(s, 0x0Au8);
    lemma_first_index_of(t, 0x0Au8);
    lemma_first_index_of(s + t, 0x0Au8);
    let u = s + t;
    match first_index_of(t, 0x0Au8) {
        Some(p) => {
            assert(u[s.len() + p] == 0x0Au8);
            match first_index_of(u, 0x0Au8) {
                Some(q) => {
                    if q < s.len() {
                        assert(s[q] == u[q]);
                    }
                    if q > s.len() + p {
                        assert(u[s.len() + p] != 0x0Au8);
                    }
                    if q >= s.len() && q < s.len() + p {
                        assert(t[q - s.len()] == u[q]);
                    }
                    assert(q == s.len() + p);
                    assert(u.take(q + 1) =~= s + t.take(p + 1));
                },
                None => {},
            }
        },
        None => {
            match first_index_of(u, 0x0Au8) {
                Some(q) => {
                    if q < s.len() {
                        assert(s[q] == u[q]);
                    } else {
                        assert(t[q - s.len()] == u[q]);
                    }
                },
                None => {},
            }
        },
    }
}

/// Bytes that arrive after a complete TLS record change nothing of it: its
/// type, its length and its bytes stay, and so does what the decoder makes
/// of it.
pub proof fn law_tls_record_stable(s: Seq<u8>, t: Seq<u8>)
    requires
        s.len() >= 5,
        s.len() >= record_total_len(s),
    ensures
        (s + t)[0] == s[0],
        record_total_len(s + t) == record_total_len(s),
        (s + t).take(record_total_len(s)) == s.take(record_total_len(s)),
        (s + t).skip(record_total_len(s)) == s.skip(record_total_len(s)) + t,
{
    let n = record_total_len(s);
    assert((s + t)[3] == s[3] && (s + t)[4] == s[4]);
    assert((s + t).take(n) =~= s.take(n));
    assert((s + t).skip(n) =~= s.skip(n) + t);
}

/// Bytes that arrive after a complete CR LF line change nothing of it: the
/// streaming codec cuts the same line off the front.
pub proof fn law_crlf_line_stable(s: Seq<u8>, t: Seq<u8>)
    requires
        first_crlf(s) is Some,
    ensures
        first_crlf(s + t) == first_crlf(s),
{
    lemma_first_crlf(s);
    lemma_first_crlf(s + t);
    let i = first_crlf(s).unwrap();
    assert(crlf_at(s + t, i));
    match first_crlf(s + t) {
        Some(j) => {
            if j < i {
                assert(crlf_at(s, j));
            }
        },
        None => {},
    }
}

/// Spaces and tabs only.
pub open spec fn all_ows(s: Seq<u8>) -> bool {
    forall|i: int| 0 <= i < s.len() ==> is_ows(#[trigger] s[i])
}

/// Spaces and tabs around a value that neither starts nor ends with one are
/// trimmed off, and nothing else is.
proof fn lemma_trim_around(lead: Seq<u8>, v: Seq<u8>, trail: Seq<u8>)
    requires
        all_ows(lead),
        all_ows(trail),
        v.len() > 0 ==> !is_ows(v[0]) && !is_ows(v.last()),
    ensures
        trim_ows(lead + v + trail) == v,
    decreases lead.len() + trail.len(),
{
    let w = lead + v + trail;
    if lead.len() > 0 {
        assert(w[0] == lead[0]);
        assert(is_ows(lead[0]));
        assert(w.drop_first() =~= lead.drop_first() + v + trail);
        lemma_trim_around(lead.drop_first(), v, trail);
    } else if trail.len() > 0 && v.len() == 0 {
        assert(w =~= trail);
        assert(is_ows(w[0]));
        assert(w.drop_first() =~= lead + v + trail.drop_first());
        lemma_trim_around(lead, v, trail.drop_first());
    } else if trail.len() > 0 {
        assert(w =~= v + trail);
        assert(w[0] == v[0]);
        assert(w.last() == trail.last());
        assert(is_ows(trail[trail.len() - 1]));
        assert(w.drop_last() =~= lead + v + trail.drop_last());
        lemma_trim_around(lead, v, trail.drop_last());
    } else {
        assert(w =~= v);
        if v.len() > 0 {
            assert(w.last() == v.last());
        }
    }
}

/// A held-back header line splits at the colon that ends the field name: for
/// `<name>:<spaces><value><spaces>` and a line end, where the name has no
/// colon, the field is the name and the value without the spaces around it,
/// however many colons the value holds.
pub proof fn law_http_header_split(name: Seq<u8>, lead: Seq<u8>, value: Seq<u8>, trail: Seq<u8>)
    requires
        forall|i: int| 0 <= i < name.len() ==> name[i] != 0x3Au8,
        all_ows(lead),
        all_ows(trail),
        value.len() > 0 ==> !is_ows(value[0]) && !is_ows(value.last()),
    ensures
        http_line_field(name + seq![0x3Au8] + lead + value + trail + seq![13u8, 10u8], false, true)
            == TicketView::Buffered(FieldView::Header(utf8_lossy(name), utf8_lossy(value))),
{
    let content = name + seq![0x3Au8] + lead + value + trail;
    let line = content + seq![13u8, 10u8];
    assert(line.drop_last().drop_last() =~= content);
    assert(line_content(line) == content);
    lemma_first_index_of(content, 0x3Au8);
    assert(content[name.len() as int] == 0x3Au8);
    match first_index_of(content, 0x3Au8) {
        Some(c) => {
            if c < name.len() {
                assert(content[c] == name[c]);
            }
            assert(c == name.len());
        },
        None => {},
    }
    assert(content.take(name.len() as int) =~= name);
    assert(content.skip(name.len() as int + 1) =~= lead + value + trail);
    lemma_trim_around(lead, value, trail);
}

} // verus!
