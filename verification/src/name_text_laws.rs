use vstd::prelude::*;
use vstd::utf8::{
    decode_first_scalar, decode_utf8, encode_utf8, encode_utf8_decode_utf8, encode_utf8_valid_utf8,
    decode_utf8_split, is_char_boundary, is_char_boundary_iff_not_is_continuation_byte,
    pop_first_scalar, valid_utf8, valid_utf8_split,
};

use crate::dns_laws::{labels_encodable, law_name_roundtrip, name_labels};
use crate::dns_message::{
    name_wire, question_wire, spec_parse_name, spec_parse_question, split_dots,
    u16_be_bytes, lemma_split_dots_nonempty, QuestionView,
};
use crate::dns_laws::lemma_be16_roundtrip;
use crate::text::{join_dots, utf8_lossy};

verus! {

/// A name split into a single piece is that piece.
proof fn lemma_split_single(b: Seq<u8>)
    requires
        split_dots(b).len() == 1,
    ensures
        split_dots(b)[0] == b,
    decreases b.len(),
{
    if b.len() > 0 {
        lemma_split_dots_nonempty(b.drop_last());
        if b.last() != 0x2Eu8 {
            lemma_split_single(b.drop_last());
            assert(b.drop_last().push(b.last()) =~= b);
        }
    }
}

/// A name of several pieces is the name of all but the last, a dot, and the
/// last piece.
proof fn lemma_split_last(b: Seq<u8>) -> (k: int)
    requires
        split_dots(b).len() >= 2,
    ensures
        0 <= k < b.len(),
        b[k] == 0x2Eu8,
        split_dots(b.take(k)) == split_dots(b).drop_last(),
        b.skip(k + 1) == split_dots(b).last(),
    decreases b.len(),
{
    let c = b.drop_last();
    lemma_split_dots_nonempty(c);
    let r = split_dots(c);
    if b.last() == 0x2Eu8 {
        let k = c.len() as int;
        assert(b.take(k) =~= c);
        assert(split_dots(b).drop_last() =~= r);
        assert(b.skip(k + 1) =~= Seq::<u8>::empty());
        k
    } else {
        let k = lemma_split_last(c);
        assert(b.take(k) =~= c.take(k));
        assert(split_dots(b).drop_last() =~= r.drop_last());
        assert(b.skip(k + 1) =~= c.skip(k + 1).push(b.last()));
        k
    }
}

/// The pieces of UTF-8 text split at dots are UTF-8, and their texts joined
/// with dots give the whole text back.
proof fn lemma_split_decode(b: Seq<u8>)
    requires
        valid_utf8(b),
    ensures
        forall|i: int| 0 <= i < split_dots(b).len() ==> valid_utf8(#[trigger] split_dots(b)[i]),
        join_dots(split_dots(b).map_values(|l: Seq<u8>| utf8_lossy(l))) == decode_utf8(b),
    decreases b.len(),
{
    let ps = split_dots(b);
    lemma_split_dots_nonempty(b);
    if ps.len() == 1 {
        lemma_split_single(b);
    } else {
        let k = lemma_split_last(b);
        let prefix = b.take(k);
        let last = b.skip(k + 1);
        let s = b.subrange(k, b.len() as int);
        is_char_boundary_iff_not_is_continuation_byte(b, k);
        assert(is_char_boundary(b, k));
        valid_utf8_split(b, k);
        decode_utf8_split(b, k);
        assert(b.subrange(0, k) =~= prefix);
        assert(s[0] == 0x2Eu8);
        assert(pop_first_scalar(s) =~= last);
        assert((0x2Eu8 & 0x7Fu8) == 0x2Eu8) by (bit_vector);
        assert(decode_first_scalar(s) == 0x2Eu32);
        assert(decode_utf8(s) == seq![decode_first_scalar(s) as char] + decode_utf8(last));
        assert((0x2Eu32 as char) == '.');
        lemma_split_decode(prefix);
        let qs = split_dots(prefix);
        assert(ps =~= qs.push(last));
        assert forall|i: int| 0 <= i < ps.len() implies valid_utf8(#[trigger] ps[i]) by {
            if i < qs.len() {
                assert(ps[i] == qs[i]);
            }
        }
        let f = |l: Seq<u8>| utf8_lossy(l);
        assert(ps.map_values(f).drop_last() =~= qs.map_values(f));
        assert(ps.map_values(f).last() == utf8_lossy(last));
        assert(decode_utf8(b) =~= decode_utf8(prefix) + seq!['.'] + decode_utf8(last));
    }
}

/// Reading back a written name gives the name itself, and the offset just
/// past it, wherever it is placed in a message, provided each dot-separated
/// piece is 1 to 63 bytes.
pub proof fn law_name_text_roundtrip(name: Seq<char>, before: Seq<u8>, after: Seq<u8>)
    requires
        labels_encodable(name_labels(name)),
    ensures
        spec_parse_name(before + name_wire(name) + after, before.len() as int) == Some(
            (name, (before.len() + name_wire(name).len()) as int),
        ),
{
    law_name_roundtrip(name, before, after);
    encode_utf8_valid_utf8(name);
    encode_utf8_decode_utf8(name);
    lemma_split_decode(encode_utf8(name));
}

/// Reading back a written question gives the same question and the offset
/// just past it, wherever it is placed in a message, provided each piece of
/// its name is 1 to 63 bytes.
pub proof fn law_question_roundtrip(q: QuestionView, before: Seq<u8>, after: Seq<u8>)
    requires
        labels_encodable(name_labels(q.name)),
    ensures
        spec_parse_question(before + question_wire(q) + after, before.len() as int) == Some(
            (q, (before.len() + question_wire(q).len()) as int),
        ),
{
    let tail = u16_be_bytes(q.qtype) + u16_be_bytes(q.qclass) + after;
    let data = before + question_wire(q) + after;
    assert(data =~= before + name_wire(q.name) + tail);
    law_name_text_roundtrip(q.name, before, tail);
    let o = (before.len() + name_wire(q.name).len()) as int;
    lemma_be16_roundtrip(q.qtype);
    lemma_be16_roundtrip(q.qclass);
    assert(data[o] == u16_be_bytes(q.qtype)[0] && data[o + 1] == u16_be_bytes(q.qtype)[1]);
    assert(data[o + 2] == u16_be_bytes(q.qclass)[0] && data[o + 3] == u16_be_bytes(q.qclass)[1]);
}

} // verus!
