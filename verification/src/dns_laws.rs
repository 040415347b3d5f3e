use vstd::prelude::*;
use vstd::utf8::encode_utf8;

use crate::dns_message::{
    be16, header_bytes, label_wire, labels_wire, name_walk, name_wire, questions_walk_ends, query_walk_ends,
    spec_parse_header, spec_parse_name, spec_parse_query, spec_parse_question, spec_parse_questions, split_dots,
    u16_be_bytes, walk, DnsHeader, NameWalk, QuestionView,
};

verus! {

/// Decoding the big-endian bytes of a 16-bit value gives the value back.
pub proof fn lemma_be16_roundtrip(v: u16)
    ensures
        be16(u16_be_bytes(v)[0], u16_be_bytes(v)[1]) == v,
{
}

/// Reading back a written header gives the same header, whatever follows it.
pub proof fn law_header_roundtrip(h: DnsHeader, rest: Seq<u8>)
    ensures
        spec_parse_header(header_bytes(h) + rest) == Some(h),
{
    let d = header_bytes(h) + rest;
    lemma_be16_roundtrip(h.id);
    lemma_be16_roundtrip(h.flags);
    lemma_be16_roundtrip(h.qd_count);
    lemma_be16_roundtrip(h.an_count);
    lemma_be16_roundtrip(h.ns_count);
    lemma_be16_roundtrip(h.ar_count);
    assert(d[0] == u16_be_bytes(h.id)[0] && d[1] == u16_be_bytes(h.id)[1]);
    assert(d[2] == u16_be_bytes(h.flags)[0] && d[3] == u16_be_bytes(h.flags)[1]);
    assert(d[4] == u16_be_bytes(h.qd_count)[0] && d[5] == u16_be_bytes(h.qd_count)[1]);
    assert(d[6] == u16_be_bytes(h.an_count)[0] && d[7] == u16_be_bytes(h.an_count)[1]);
    assert(d[8] == u16_be_bytes(h.ns_count)[0] && d[9] == u16_be_bytes(h.ns_count)[1]);
    assert(d[10] == u16_be_bytes(h.ar_count)[0] && d[11] == u16_be_bytes(h.ar_count)[1]);
}

/// Every label is between 1 and 63 bytes long: the lengths that the wire
/// form can carry as a plain label.
pub open spec fn labels_encodable(ls: Seq<Seq<u8>>) -> bool {
    forall|i: int| 0 <= i < ls.len() ==> 1 <= #[trigger] ls[i].len() <= 63
}

/// The wire form of labels, split off at the front.
pub proof fn lemma_labels_wire_front(ls: Seq<Seq<u8>>)
    requires
        ls.len() > 0,
    ensures
        labels_wire(ls) == label_wire(ls[0]) + labels_wire(ls.drop_first()),
    decreases ls.len(),
{
    if ls.len() > 1 {
        lemma_labels_wire_front(ls.drop_last());
        assert(ls.drop_last().drop_first() =~= ls.drop_first().drop_last());
        assert(ls.drop_last()[0] == ls[0]);
        assert(ls.drop_first().last() == ls.last());
    } else {
        assert(ls.drop_last() =~= Seq::<Seq<u8>>::empty());
        assert(ls.drop_first() =~= Seq::<Seq<u8>>::empty());
    }
}

/// Walking over encodable labels followed by a zero byte, without pointers,
/// collects exactly those labels and ends just after the zero.
pub proof fn lemma_walk_labels(data: Seq<u8>, off: int, ls: Seq<Seq<u8>>, acc: Seq<Seq<u8>>, jumps: nat)
    requires
        0 <= off,
        labels_encodable(ls),
        off + labels_wire(ls).len() < data.len(),
        data.subrange(off, off + labels_wire(ls).len()) == labels_wire(ls),
        data[off + labels_wire(ls).len()] == 0,
    ensures
        walk(data, off, false, 0, acc, jumps) == NameWalk::Done(acc + ls, off + labels_wire(ls).len() + 1),
    decreases ls.len(),
{
    if ls.len() == 0 {
        assert(acc + ls =~= acc);
    } else {
        lemma_labels_wire_front(ls);
        let l = ls[0];
        let w = labels_wire(ls);
        let rest = ls.drop_first();
        assert(1 <= l.len() <= 63);
        assert(w[0] == data[off]);
        assert(data[off] == (l.len() % 256) as u8);
        assert(data[off] == l.len());
        assert(data.subrange(off + 1, off + 1 + l.len()) =~= l) by {
            assert forall|k: int| 0 <= k < l.len() implies data.subrange(off + 1, off + 1 + l.len())[k] == l[k] by {
                assert(data[off + 1 + k] == w[1 + k]);
            }
        }
        assert(data.subrange(off + 1 + l.len(), off + 1 + l.len() + labels_wire(rest).len()) =~= labels_wire(rest)) by {
            assert forall|k: int| 0 <= k < labels_wire(rest).len() implies
                data.subrange(off + 1 + l.len(), off + 1 + l.len() + labels_wire(rest).len())[k] == labels_wire(rest)[k] by {
                assert(data[off + 1 + l.len() + k] == w[1 + l.len() + k]);
            }
        }
        assert(labels_encodable(rest)) by {
            assert forall|i: int| 0 <= i < rest.len() implies 1 <= #[trigger] rest[i].len() <= 63 by {
                assert(rest[i] == ls[i + 1]);
            }
        }
        lemma_walk_labels(data, off + 1 + l.len(), rest, acc.push(l), jumps);
        assert(acc.push(l) + rest =~= acc + ls);
    }
}

/// The dot-separated pieces of a name's UTF-8 bytes.
pub open spec fn name_labels(name: Seq<char>) -> Seq<Seq<u8>> {
    split_dots(encode_utf8(name))
}

/// Reading back a written name, wherever it is placed in a message, gives its
/// labels and the offset just past it, provided each label is 1 to 63 bytes.
pub proof fn law_name_roundtrip(name: Seq<char>, before: Seq<u8>, after: Seq<u8>)
    requires
        labels_encodable(name_labels(name)),
    ensures
        name_walk(before + name_wire(name) + after, before.len() as int)
            == NameWalk::Done(name_labels(name), (before.len() + name_wire(name).len()) as int),
{
    let ls = name_labels(name);
    let data = before + name_wire(name) + after;
    let off = before.len() as int;
    let w = labels_wire(ls);
    assert(data.subrange(off, off + w.len()) =~= w) by {
        assert forall|k: int| 0 <= k < w.len() implies data.subrange(off, off + w.len())[k] == w[k] by {
            assert(data[off + k] == name_wire(name)[k]);
        }
    }
    assert(data[off + w.len()] == name_wire(name)[w.len() as int]);
    lemma_walk_labels(data, off, ls, Seq::empty(), data.len());
    assert(Seq::<Seq<u8>>::empty() + ls =~= ls);
}

/// A walk that ends well reads only bytes before the end of the data, so
/// bytes after it, and more allowed jumps, change nothing.
pub proof fn lemma_walk_extend(
    data: Seq<u8>,
    extra: Seq<u8>,
    off: int,
    jumped: bool,
    end: int,
    labels: Seq<Seq<u8>>,
    jumps: nat,
    more: nat,
)
    requires
        walk(data, off, jumped, end, labels, jumps) is Done,
        jumps <= more,
        jumped ==> end >= 0,
    ensures
        walk(data + extra, off, jumped, end, labels, more) == walk(data, off, jumped, end, labels, jumps),
        walk(data, off, jumped, end, labels, jumps) matches NameWalk::Done(_, e) && e >= 0,
    decreases jumps, data.len() - off,
{
    let d2 = data + extra;
    assert(0 <= off < data.len());
    let b = data[off];
    assert(d2[off] == b);
    if b == 0 {
    } else if b >= 0xC0 {
        assert(d2[off + 1] == data[off + 1]);
        let ptr = (b - 0xC0) * 256 + data[off + 1];
        lemma_walk_extend(data, extra, ptr, true, if jumped { end } else { off + 2 }, labels, (jumps - 1) as nat,
            (more - 1) as nat);
    } else {
        assert(d2.subrange(off + 1, off + 1 + b) =~= data.subrange(off + 1, off + 1 + b));
        lemma_walk_extend(data, extra, off + 1 + b, jumped, end, labels.push(data.subrange(off + 1, off + 1 + b)),
            jumps, more);
    }
}

/// A name that reads back from a message reads back the same with bytes
/// appended to the message.
pub proof fn lemma_parse_name_extend(data: Seq<u8>, extra: Seq<u8>, off: int)
    requires
        spec_parse_name(data, off) is Some,
    ensures
        spec_parse_name(data + extra, off) == spec_parse_name(data, off),
        name_walk(data + extra, off) == name_walk(data, off),
        spec_parse_name(data, off).unwrap().1 >= 0,
{
    lemma_walk_extend(data, extra, off, false, 0, Seq::empty(), data.len(), (data + extra).len());
}

/// Questions that read back from a message read back the same, and their
/// walks still end, with bytes appended to the message.
pub proof fn lemma_parse_questions_extend(
    data: Seq<u8>,
    extra: Seq<u8>,
    off: int,
    remaining: nat,
    acc: Seq<QuestionView>,
)
    requires
        spec_parse_questions(data, off, remaining, acc) is Some,
    ensures
        spec_parse_questions(data + extra, off, remaining, acc) == spec_parse_questions(data, off, remaining, acc),
        questions_walk_ends(data + extra, off, remaining),
    decreases remaining,
{
    if remaining > 0 {
        let d2 = data + extra;
        lemma_parse_name_extend(data, extra, off);
        assert(spec_parse_question(data, off) is Some);
        let (name, o) = spec_parse_name(data, off).unwrap();
        assert(d2[o] == data[o] && d2[o + 1] == data[o + 1] && d2[o + 2] == data[o + 2] && d2[o + 3] == data[o + 3]);
        assert(spec_parse_question(d2, off) == spec_parse_question(data, off));
        let (q, next) = spec_parse_question(data, off).unwrap();
        lemma_parse_questions_extend(data, extra, next, (remaining - 1) as nat, acc.push(q));
    }
}

/// Bytes after a query (answer, authority and additional records, or
/// anything else) never change what the query reads back as, and its name
/// walks still end.
pub proof fn law_query_ignores_trailing(data: Seq<u8>, extra: Seq<u8>)
    requires
        spec_parse_query(data) is Some,
    ensures
        spec_parse_query(data + extra) == spec_parse_query(data),
        query_walk_ends(data + extra),
{
    let d2 = data + extra;
    let h = spec_parse_header(data).unwrap();
    assert forall|i: int| 0 <= i < 12 implies d2[i] == data[i] by {}
    assert(spec_parse_header(d2) == spec_parse_header(data));
    lemma_parse_questions_extend(data, extra, 12, h.qd_count as nat, Seq::empty());
}

} // verus!
