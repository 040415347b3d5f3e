use vstd::prelude::*;
use vstd::utf8::encode_utf8;

use crate::text::{join_dots, join_with_dots, string_from_utf8_lossy, string_views, utf8_lossy};

verus! {

/// Length in bytes of the fixed DNS message header.
pub const HEADER_LEN: usize = 12;

/// Big-endian value of two bytes.
pub open spec fn be16(hi: u8, lo: u8) -> u16 {
    (hi as int * 256 + lo as int) as u16
}

/// Big-endian encoding of a 16-bit value.
pub open spec fn u16_be_bytes(v: u16) -> Seq<u8> {
    seq![(v / 256) as u8, (v % 256) as u8]
}

/// The fixed 12-byte header of a DNS message.
#[derive(Debug, Clone, Copy, PartialEq, Eq)]
pub struct DnsHeader {
    pub id: u16,
    pub flags: u16,
    pub qd_count: u16,
    pub an_count: u16,
    pub ns_count: u16,
    pub ar_count: u16,
}

/// The encoding of a header: its six fields, each big-endian, in order.
pub open spec fn header_bytes(h: DnsHeader) -> Seq<u8> {
    u16_be_bytes(h.id) + u16_be_bytes(h.flags) + u16_be_bytes(h.qd_count)
        + u16_be_bytes(h.an_count) + u16_be_bytes(h.ns_count) + u16_be_bytes(h.ar_count)
}

/// What a header parse yields: `None` on fewer than twelve bytes, else the six
/// big-endian fields of the first twelve bytes.
pub open spec fn spec_parse_header(data: Seq<u8>) -> Option<DnsHeader> {
    if data.len() < 12 {
        None
    } else {
        Some(DnsHeader {
            id: be16(data[0], data[1]),
            flags: be16(data[2], data[3]),
            qd_count: be16(data[4], data[5]),
            an_count: be16(data[6], data[7]),
            ns_count: be16(data[8], data[9]),
            ar_count: be16(data[10], data[11]),
        })
    }
}

/// Reads a big-endian 16-bit value.
pub fn read_be16(hi: u8, lo: u8) -> (v: u16)
    ensures
        v == be16(hi, lo),
        v as int == hi as int * 256 + lo as int,
{
    (hi as u16) * 256 + (lo as u16)
}

/// Appends the big-endian encoding of `v`.
pub fn push_be16(v: u16, buf: &mut Vec<u8>)
    ensures
        final(buf)@ == old(buf)@ + u16_be_bytes(v),
{
    buf.push((v / 256) as u8);
    buf.push((v % 256) as u8);
    assert(final(buf)@ =~= old(buf)@ + u16_be_bytes(v));
}

impl DnsHeader {
    /// Parses the header at the start of `data`.
    pub fn parse(data: &[u8]) -> (res: Option<Self>)
        ensures
            res == spec_parse_header(data@),
    {
        if data.len() < HEADER_LEN {
            return None;
        }
        Some(DnsHeader {
            id: read_be16(data[0], data[1]),
            flags: read_be16(data[2], data[3]),
            qd_count: read_be16(data[4], data[5]),
            an_count: read_be16(data[6], data[7]),
            ns_count: read_be16(data[8], data[9]),
            ar_count: read_be16(data[10], data[11]),
        })
    }

    /// Appends the encoding of this header to `buf`.
    pub fn write(&self, buf: &mut Vec<u8>)
        ensures
            final(buf)@ == old(buf)@ + header_bytes(*self),
    {
        push_be16(self.id, buf);
        push_be16(self.flags, buf);
        push_be16(self.qd_count, buf);
        push_be16(self.an_count, buf);
        push_be16(self.ns_count, buf);
        push_be16(self.ar_count, buf);
        assert(final(buf)@ =~= old(buf)@ + header_bytes(*self));
    }
}


/// Outcome of following a (possibly compressed) domain name through a message.
pub enum NameWalk {
    /// The name ended: its raw labels, and the offset just past the name's
    /// encoding at the place it started (past the first pointer, if any).
    Done(Seq<Seq<u8>>, int),
    /// The name ran past the end of the data.
    Malformed,
    /// The pointers form a cycle: the walk would never end.
    Endless,
}

/// One step after another of the name walk, from `offset`, with `jumps` pointer
/// jumps still allowed.  `jumped` tells whether a pointer was already followed,
/// `end` is the end offset recorded at the first pointer.
pub open spec fn walk(data: Seq<u8>, offset: int, jumped: bool, end: int, labels: Seq<Seq<u8>>, jumps: nat) -> NameWalk
    decreases jumps, data.len() - offset,
{
    if offset < 0 || offset >= data.len() {
        NameWalk::Malformed
    } else {
        let b = data[offset];
        if b == 0 {
            NameWalk::Done(labels, if jumped { end } else { offset + 1 })
        } else if b >= 0xC0 {
            if offset + 1 >= data.len() {
                NameWalk::Malformed
            } else if jumps == 0 {
                NameWalk::Endless
            } else {
                let ptr = (b - 0xC0) * 256 + data[offset + 1];
                walk(data, ptr, true, if jumped { end } else { offset + 2 }, labels, (jumps - 1) as nat)
            }
        } else if offset + 1 + b > data.len() {
            NameWalk::Malformed
        } else {
            walk(data, offset + 1 + b, jumped, end,
                labels.push(data.subrange(offset + 1, offset + 1 + b)), jumps)
        }
    }
}

/// The walk of the name that starts at `offset`.  Between two pointer jumps
/// the offset only grows; a walk that has taken `data.len()` jumps has met some
/// pointer position twice after its first jump and so repeats forever, which is
/// why that many jumps bound every walk that ends.
pub open spec fn name_walk(data: Seq<u8>, offset: int) -> NameWalk {
    walk(data, offset, false, 0, Seq::empty(), data.len())
}

/// The name walk from `offset` comes to an end (well-formed or not).
pub open spec fn name_walk_ends(data: Seq<u8>, offset: int) -> bool {
    !(name_walk(data, offset) is Endless)
}

/// The text of a name: its labels, each converted as `String::from_utf8_lossy`
/// does, joined with dots.
pub open spec fn name_text(labels: Seq<Seq<u8>>) -> Seq<char> {
    join_dots(labels.map_values(|l: Seq<u8>| utf8_lossy(l)))
}

/// What `parse_name` returns: the name's text and its end offset, or `None`.
pub open spec fn spec_parse_name(data: Seq<u8>, offset: int) -> Option<(Seq<char>, int)> {
    match name_walk(data, offset) {
        NameWalk::Done(labels, end) => Some((name_text(labels), end)),
        _ => None,
    }
}

/// Reads the (possibly compressed) domain name at `offset`: the text of its
/// labels joined by dots, and the offset just after the name where it started.
/// `None` when the name runs past the data.  A name whose pointers form a
/// cycle would be followed forever, so it is left out.
pub fn parse_name(data: &[u8], offset: usize) -> (res: Option<(String, usize)>)
    requires
        name_walk_ends(data@, offset as int),
    ensures
        res is Some <==> spec_parse_name(data@, offset as int) is Some,
        res matches Some(r) ==> spec_parse_name(data@, offset as int) == Some((r.0@, r.1 as int)),
        res matches Some(r) ==> r.1 <= data@.len(),
{
    let ghost start = offset;
    let mut pos = offset;
    let mut labels: Vec<String> = Vec::new();
    let mut jumped = false;
    let mut end_offset: usize = 0;
    let ghost mut raw: Seq<Seq<u8>> = Seq::empty();
    let ghost mut jumps: nat = data@.len();
    loop
        invariant
            start == offset,
            walk(data@, pos as int, jumped, end_offset as int, raw, jumps) == name_walk(data@, start as int),
            !(name_walk(data@, start as int) is Endless),
            labels@.len() == raw.len(),
            forall|i: int| 0 <= i < raw.len() ==> (#[trigger] labels@[i])@ == utf8_lossy(raw[i]),
            end_offset <= data.len(),
        decreases jumps, data@.len() - pos,
    {
        if pos >= data.len() {
            return None;
        }
        let len = data[pos];
        if len == 0 {
            if !jumped {
                end_offset = pos + 1;
            }
            let name = join_with_dots(&labels);
            proof {
                assert(string_views(labels@) =~= raw.map_values(|l: Seq<u8>| utf8_lossy(l)));
            }
            return Some((name, end_offset));
        }
        if len >= 0xC0 {
            if pos + 1 >= data.len() {
                return None;
            }
            let ptr = ((len - 0xC0) as usize) * 256 + data[pos + 1] as usize;
            if !jumped {
                end_offset = pos + 2;
            }
            pos = ptr;
            jumped = true;
            proof {
                jumps = (jumps - 1) as nat;
            }
        } else {
            let l = len as usize;
            if l > data.len() - pos - 1 {
                return None;
            }
            let label = string_from_utf8_lossy(slice_subrange(data, pos + 1, pos + 1 + l));
            labels.push(label);
            proof {
                raw = raw.push(data@.subrange(pos + 1, pos + 1 + l));
            }
            pos = pos + 1 + l;
        }
    }
}


/// `str::split('.')` on the bytes of a name: the pieces between dots, in order
/// (always at least one piece).
pub open spec fn split_dots(b: Seq<u8>) -> Seq<Seq<u8>>
    decreases b.len(),
{
    if b.len() == 0 {
        seq![Seq::<u8>::empty()]
    } else {
        let r = split_dots(b.drop_last());
        if b.last() == 0x2Eu8 {
            r.push(Seq::<u8>::empty())
        } else {
            r.update(r.len() - 1, r.last().push(b.last()))
        }
    }
}

/// `split_dots` always yields at least one piece.
pub proof fn lemma_split_dots_nonempty(b: Seq<u8>)
    ensures
        split_dots(b).len() >= 1,
    decreases b.len(),
{
    if b.len() > 0 {
        lemma_split_dots_nonempty(b.drop_last());
    }
}

/// One label on the wire: its length (as a byte, truncated) then its bytes.
pub open spec fn label_wire(l: Seq<u8>) -> Seq<u8> {
    seq![(l.len() % 256) as u8] + l
}

/// Labels on the wire, one after another.
pub open spec fn labels_wire(ls: Seq<Seq<u8>>) -> Seq<u8>
    decreases ls.len(),
{
    if ls.len() == 0 {
        Seq::empty()
    } else {
        labels_wire(ls.drop_last()) + label_wire(ls.last())
    }
}

/// What `write_name` appends for a name: each dot-separated piece of its UTF-8
/// bytes as a length-prefixed label, then the zero terminator.
pub open spec fn name_wire(name: Seq<char>) -> Seq<u8> {
    labels_wire(split_dots(encode_utf8(name))) + seq![0u8]
}


/// Record type A (host address).
pub const QTYPE_A: u16 = 1;
/// Class IN (Internet).
pub const QCLASS_IN: u16 = 1;

/// A question of a DNS message: the queried name, type and class.
#[derive(Debug, Clone, PartialEq)]
pub struct DnsQuestion {
    pub name: String,
    pub qtype: u16,
    pub qclass: u16,
}

/// A question as plain values.
pub struct QuestionView {
    pub name: Seq<char>,
    pub qtype: u16,
    pub qclass: u16,
}

impl View for DnsQuestion {
    type V = QuestionView;

    open spec fn view(&self) -> QuestionView {
        QuestionView { name: self.name@, qtype: self.qtype, qclass: self.qclass }
    }
}

/// What `DnsQuestion::parse` yields at `offset`: the name, then type and class
/// (big-endian), and the offset after them.
pub open spec fn spec_parse_question(data: Seq<u8>, offset: int) -> Option<(QuestionView, int)> {
    match spec_parse_name(data, offset) {
        None => None,
        Some((name, o)) => if o + 4 > data.len() {
            None
        } else {
            Some((
                QuestionView { name, qtype: be16(data[o], data[o + 1]), qclass: be16(data[o + 2], data[o + 3]) },
                o + 4,
            ))
        },
    }
}

/// A question on the wire: the name, then type and class, big-endian.
pub open spec fn question_wire(q: QuestionView) -> Seq<u8> {
    name_wire(q.name) + u16_be_bytes(q.qtype) + u16_be_bytes(q.qclass)
}

impl DnsQuestion {
    /// Reads the question at `offset`, with the offset just past it.
    pub fn parse(data: &[u8], offset: usize) -> (res: Option<(Self, usize)>)
        requires
            name_walk_ends(data@, offset as int),
        ensures
            res is Some <==> spec_parse_question(data@, offset as int) is Some,
            res matches Some(r) ==> spec_parse_question(data@, offset as int) == Some((r.0@, r.1 as int)),
    {
        let (name, o) = match parse_name(data, offset) {
            Some(r) => r,
            None => return None,
        };
        if o > data.len() || 4 > data.len() - o {
            return None;
        }
        let qtype = read_be16(data[o], data[o + 1]);
        let qclass = read_be16(data[o + 2], data[o + 3]);
        Some((DnsQuestion { name, qtype, qclass }, o + 4))
    }

    /// Appends the wire form of this question to `buf`.
    pub fn write(&self, buf: &mut Vec<u8>)
        ensures
            final(buf)@ == old(buf)@ + question_wire(self@),
    {
        write_name(self.name.as_str(), buf);
        push_be16(self.qtype, buf);
        push_be16(self.qclass, buf);
        assert(final(buf)@ =~= old(buf)@ + question_wire(self@));
    }
}

/// The walks of `remaining` consecutive questions from `offset` all end (the
/// questions parse up to the first one that does not).
pub open spec fn questions_walk_ends(data: Seq<u8>, offset: int, remaining: nat) -> bool
    decreases remaining,
{
    remaining == 0 || (name_walk_ends(data, offset) && match spec_parse_question(data, offset) {
        None => true,
        Some((_, next)) => questions_walk_ends(data, next, (remaining - 1) as nat),
    })
}

/// `remaining` questions read one after another from `offset`, appended to
/// `acc`, with the offset after the last; `None` if one fails.
pub open spec fn spec_parse_questions(data: Seq<u8>, offset: int, remaining: nat, acc: Seq<QuestionView>) -> Option<(Seq<QuestionView>, int)>
    decreases remaining,
{
    if remaining == 0 {
        Some((acc, offset))
    } else {
        match spec_parse_question(data, offset) {
            None => None,
            Some((q, next)) => spec_parse_questions(data, next, (remaining - 1) as nat, acc.push(q)),
        }
    }
}

/// A parsed query message.
#[derive(Debug, Clone)]
pub struct DnsQuery {
    pub header: DnsHeader,
    pub questions: Vec<DnsQuestion>,
    pub raw_len: usize,
}

/// A query as plain values.
pub struct QueryView {
    pub header: DnsHeader,
    pub questions: Seq<QuestionView>,
    pub raw_len: int,
}

impl View for DnsQuery {
    type V = QueryView;

    open spec fn view(&self) -> QueryView {
        QueryView {
            header: self.header,
            questions: self.questions@.map_values(|q: DnsQuestion| q@),
            raw_len: self.raw_len as int,
        }
    }
}

/// Every name walk that parsing the query would start comes to an end.
pub open spec fn query_walk_ends(data: Seq<u8>) -> bool {
    match spec_parse_header(data) {
        None => true,
        Some(h) => questions_walk_ends(data, 12, h.qd_count as nat),
    }
}

/// What `DnsQuery::parse` yields: the header, then `qd_count` questions read
/// one after another from offset 12, and the offset after the last one.
pub open spec fn spec_parse_query(data: Seq<u8>) -> Option<QueryView> {
    match spec_parse_header(data) {
        None => None,
        Some(h) => match spec_parse_questions(data, 12, h.qd_count as nat, Seq::empty()) {
            None => None,
            Some((qs, end)) => Some(QueryView { header: h, questions: qs, raw_len: end }),
        },
    }
}

impl DnsQuery {
    /// Parses a query: its header and its `qd_count` questions.
    pub fn parse(data: &[u8]) -> (res: Option<Self>)
        requires
            query_walk_ends(data@),
        ensures
            res is Some <==> spec_parse_query(data@) is Some,
            res matches Some(q) ==> spec_parse_query(data@) == Some(q@),
    {
        let header = match DnsHeader::parse(data) {
            Some(h) => h,
            None => return None,
        };
        let mut offset = HEADER_LEN;
        let mut questions: Vec<DnsQuestion> = Vec::with_capacity(header.qd_count as usize);
        let count = header.qd_count;
        let mut i: u16 = 0;
        assert(questions@.map_values(|q: DnsQuestion| q@) =~= Seq::<QuestionView>::empty());
        while i < count
            invariant
                i <= count,
                count == header.qd_count,
                spec_parse_header(data@) == Some(header),
                questions_walk_ends(data@, offset as int, (count - i) as nat),
                spec_parse_questions(data@, offset as int, (count - i) as nat, questions@.map_values(|q: DnsQuestion| q@))
                    == spec_parse_questions(data@, 12, count as nat, Seq::empty()),
            decreases count - i,
        {
            let ghost acc = questions@.map_values(|q: DnsQuestion| q@);
            let (q, next) = match DnsQuestion::parse(data, offset) {
                Some(r) => r,
                None => return None,
            };
            questions.push(q);
            offset = next;
            i = i + 1;
            assert(questions@.map_values(|q: DnsQuestion| q@) =~= acc.push(q@));
        }
        Some(DnsQuery { header, questions, raw_len: offset })
    }
}


/// How a name walk ends, without the labels.
pub enum WalkEnd {
    /// The name ended; the offset just past it where it started.
    Done(usize),
    /// The name ran past the end of the data.
    Malformed,
    /// The name's pointers form a cycle.
    Endless,
}

/// Follows the name at `offset` as `parse_name` does, bounding the number of
/// pointer jumps, and tells how the walk ends.
pub fn walk_name(data: &[u8], offset: usize) -> (res: WalkEnd)
    ensures
        match res {
            WalkEnd::Done(end) => name_walk(data@, offset as int) matches NameWalk::Done(_, e) && e == end as int,
            WalkEnd::Malformed => name_walk(data@, offset as int) is Malformed,
            WalkEnd::Endless => name_walk(data@, offset as int) is Endless,
        },
{
    let ghost start = offset;
    let mut pos = offset;
    let mut jumped = false;
    let mut end_offset: usize = 0;
    let ghost mut raw: Seq<Seq<u8>> = Seq::empty();
    let mut jumps: usize = data.len();
    loop
        invariant
            start == offset,
            walk(data@, pos as int, jumped, end_offset as int, raw, jumps as nat) == name_walk(data@, start as int),
            end_offset <= data.len(),
        decreases jumps, data@.len() - pos,
    {
        if pos >= data.len() {
            return WalkEnd::Malformed;
        }
        let len = data[pos];
        if len == 0 {
            if !jumped {
                end_offset = pos + 1;
            }
            return WalkEnd::Done(end_offset);
        }
        if len >= 0xC0 {
            if pos + 1 >= data.len() {
                return WalkEnd::Malformed;
            }
            if jumps == 0 {
                return WalkEnd::Endless;
            }
            let ptr = ((len - 0xC0) as usize) * 256 + data[pos + 1] as usize;
            if !jumped {
                end_offset = pos + 2;
            }
            pos = ptr;
            jumped = true;
            jumps = jumps - 1;
        } else {
            let l = len as usize;
            if l > data.len() - pos - 1 {
                return WalkEnd::Malformed;
            }
            proof {
                raw = raw.push(data@.subrange(pos + 1, pos + 1 + l));
            }
            pos = pos + 1 + l;
        }
    }
}

/// Tells whether every name walk that parsing `data` as a query would start
/// comes to an end, that is whether `DnsQuery::parse` may be called on it.
pub fn query_walk_ends_check(data: &[u8]) -> (res: bool)
    ensures
        res == query_walk_ends(data@),
{
    let header = match DnsHeader::parse(data) {
        Some(h) => h,
        None => return true,
    };
    let count = header.qd_count;
    let mut offset = HEADER_LEN;
    let mut i: u16 = 0;
    while i < count
        invariant
            i <= count,
            count == header.qd_count,
            spec_parse_header(data@) == Some(header),
            offset <= data.len() || i == 0,
            query_walk_ends(data@) == questions_walk_ends(data@, offset as int, (count - i) as nat),
        decreases count - i,
    {
        match walk_name(data, offset) {
            WalkEnd::Endless => return false,
            WalkEnd::Malformed => return true,
            WalkEnd::Done(end) => {
                if end > data.len() || 4 > data.len() - end {
                    return true;
                }
                offset = end + 4;
            },
        }
        i = i + 1;
    }
    true
}

/// A 32-bit value, big-endian.
pub open spec fn u32_be_bytes(v: u32) -> Seq<u8> {
    seq![
        (v / 0x1000000) as u8,
        ((v / 0x10000) % 256) as u8,
        ((v / 0x100) % 256) as u8,
        (v % 256) as u8,
    ]
}

/// Appends the big-endian encoding of `v`.
pub fn push_be32(v: u32, buf: &mut Vec<u8>)
    ensures
        final(buf)@ == old(buf)@ + u32_be_bytes(v),
{
    buf.push((v / 0x1000000) as u8);
    buf.push(((v / 0x10000) % 256) as u8);
    buf.push(((v / 0x100) % 256) as u8);
    buf.push((v % 256) as u8);
    assert(final(buf)@ =~= old(buf)@ + u32_be_bytes(v));
}

/// Flags of an answer: response, recursion desired and available, no error.
pub const FLAGS_ANSWER: u16 = 0x8180;
/// Flags of a name error: response, recursion desired and available, NXDOMAIN.
pub const FLAGS_NXDOMAIN: u16 = 0x8183;

/// The bytes of an A-record answer to `question` of a query with id `id`:
/// header (answer flags, one question, one answer), the question, then the
/// record: name, type A, class IN, `ttl`, length 4, the address.
pub open spec fn a_record_wire(id: u16, question: QuestionView, addr: Seq<u8>, ttl: u32) -> Seq<u8> {
    header_bytes(DnsHeader { id, flags: FLAGS_ANSWER, qd_count: 1, an_count: 1, ns_count: 0, ar_count: 0 })
        + question_wire(question) + name_wire(question.name) + u16_be_bytes(QTYPE_A)
        + u16_be_bytes(QCLASS_IN) + u32_be_bytes(ttl) + u16_be_bytes(4) + addr
}

/// The bytes of a name-error answer to `question` of a query with id `id`:
/// header (NXDOMAIN flags, one question, no answer) and the question.
pub open spec fn nxdomain_wire(id: u16, question: QuestionView) -> Seq<u8> {
    header_bytes(DnsHeader { id, flags: FLAGS_NXDOMAIN, qd_count: 1, an_count: 0, ns_count: 0, ar_count: 0 })
        + question_wire(question)
}

/// Builders of response messages.
pub struct DnsResponse;

impl DnsResponse {
    /// An answer giving `addr` (IPv4, four octets) for `question`, valid for
    /// `ttl` seconds, carrying the query's id.
    pub fn a_record(query: &DnsQuery, question: &DnsQuestion, addr: [u8; 4], ttl: u32) -> (res: Vec<u8>)
        ensures
            res@ == a_record_wire(query.header.id, question@, addr@, ttl),
    {
        let mut buf: Vec<u8> = Vec::with_capacity(64);
        let header = DnsHeader {
            id: query.header.id,
            flags: FLAGS_ANSWER,
            qd_count: 1,
            an_count: 1,
            ns_count: 0,
            ar_count: 0,
        };
        header.write(&mut buf);
        question.write(&mut buf);
        write_name(question.name.as_str(), &mut buf);
        push_be16(QTYPE_A, &mut buf);
        push_be16(QCLASS_IN, &mut buf);
        push_be32(ttl, &mut buf);
        push_be16(4, &mut buf);
        let ghost before = buf@;
        buf.push(addr[0]);
        buf.push(addr[1]);
        buf.push(addr[2]);
        buf.push(addr[3]);
        assert(buf@ =~= before + addr@);
        assert(buf@ =~= a_record_wire(query.header.id, question@, addr@, ttl));
        buf
    }

    /// A name-error answer for `question`, carrying the query's id.
    pub fn nxdomain(query: &DnsQuery, question: &DnsQuestion) -> (res: Vec<u8>)
        ensures
            res@ == nxdomain_wire(query.header.id, question@),
    {
        let mut buf: Vec<u8> = Vec::with_capacity(32);
        let header = DnsHeader {
            id: query.header.id,
            flags: FLAGS_NXDOMAIN,
            qd_count: 1,
            an_count: 0,
            ns_count: 0,
            ar_count: 0,
        };
        header.write(&mut buf);
        question.write(&mut buf);
        assert(buf@ =~= nxdomain_wire(query.header.id, question@));
        buf
    }
}

/// Appends `data[from..to]` to `buf`.
pub fn push_slice(buf: &mut Vec<u8>, data: &[u8], from: usize, to: usize)
    requires
        from <= to <= data@.len(),
    ensures
        final(buf)@ == old(buf)@ + data@.subrange(from as int, to as int),
{
    let mut i = from;
    while i < to
        invariant
            from <= i <= to <= data@.len(),
            buf@ == old(buf)@ + data@.subrange(from as int, i as int),
        decreases to - i,
    {
        buf.push(data[i]);
        i = i + 1;
        assert(buf@ =~= old(buf)@ + data@.subrange(from as int, i as int));
    }
}

/// Writes `name` in wire form: each dot-separated piece as a label (its
/// length as one byte, then its bytes), then a zero byte.
pub fn write_name(name: &str, buf: &mut Vec<u8>)
    ensures
        final(buf)@ == old(buf)@ + name_wire(name@),
{
    let bytes = name.as_bytes();
    let ghost b = bytes@;
    assert(b == encode_utf8(name@));
    let n = bytes.len();
    let mut start: usize = 0;
    let mut i: usize = 0;
    proof {
        assert(b.take(0) =~= Seq::<u8>::empty());
        assert(split_dots(b.take(0)).drop_last() =~= Seq::<Seq<u8>>::empty());
    }
    while i < n
        invariant
            n == b.len(),
            bytes@ == b,
            start <= i <= n,
            split_dots(b.take(i as int)).len() >= 1,
            split_dots(b.take(i as int)).last() == b.subrange(start as int, i as int),
            buf@ == old(buf)@ + labels_wire(split_dots(b.take(i as int)).drop_last()),
        decreases n - i,
    {
        let ghost prev = split_dots(b.take(i as int));
        assert(b.take(i + 1).drop_last() =~= b.take(i as int));
        if bytes[i] == 0x2E {
            let len = i - start;
            buf.push((len % 256) as u8);
            push_slice(buf, bytes, start, i);
            proof {
                assert(split_dots(b.take(i + 1)) == prev.push(Seq::<u8>::empty()));
                assert(prev.push(Seq::<u8>::empty()).drop_last() =~= prev);
                assert(prev =~= prev.drop_last().push(prev.last()));
                assert(labels_wire(prev) == labels_wire(prev.drop_last()) + label_wire(prev.last()));
                assert(buf@ =~= old(buf)@ + labels_wire(prev));
            }
            start = i + 1;
            i = i + 1;
            assert(b.subrange(start as int, i as int) =~= Seq::<u8>::empty());
        } else {
            proof {
                let r = prev.update(prev.len() - 1, prev.last().push(b[i as int]));
                assert(split_dots(b.take(i + 1)) == r);
                assert(r.drop_last() =~= prev.drop_last());
                assert(r.last() =~= b.subrange(start as int, i + 1));
                lemma_split_dots_nonempty(b.take(i + 1));
            }
            i = i + 1;
        }
    }
    let ghost all = split_dots(b);
    assert(b.take(n as int) =~= b);
    let len = n - start;
    buf.push((len % 256) as u8);
    push_slice(buf, bytes, start, n);
    buf.push(0);
    proof {
        assert(all =~= all.drop_last().push(all.last()));
        assert(labels_wire(all) == labels_wire(all.drop_last()) + label_wire(all.last()));
        assert(buf@ =~= old(buf)@ + labels_wire(all) + seq![0u8]);
    }
}

/// The bytes `data[from..to]`.
pub fn slice_subrange(data: &[u8], from: usize, to: usize) -> (res: &[u8])
    requires
        from <= to <= data@.len(),
    ensures
        res@ == data@.subrange(from as int, to as int),
{
    vstd::slice::slice_subrange(data, from, to)
}

} // verus!
