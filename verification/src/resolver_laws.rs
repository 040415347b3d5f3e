use vstd::prelude::*;

use crate::dns_laws::law_header_roundtrip;
use crate::dns_message::{
    a_record_wire, header_bytes, name_wire, nxdomain_wire, question_wire, spec_parse_header,
    spec_parse_query, u16_be_bytes, u32_be_bytes, DnsHeader, QuestionView, FLAGS_ANSWER,
    FLAGS_NXDOMAIN, QCLASS_IN, QTYPE_A,
};
use crate::dns_resolver::{
    choice_for_name, ends_with, first_rule, lowercase, name_prefix, rule_choice, RuleChoice, RuleView, spec_resolve,
    ResolutionView, ResolverView,
};
use vstd::utf8::encode_utf8;
use crate::dns_laws::{labels_encodable, lemma_be16_roundtrip, name_labels};
use crate::dns_message::{be16, spec_parse_name, spec_parse_question};
use crate::name_text_laws::{law_name_text_roundtrip, law_question_roundtrip};

verus! {

/// An A-record answer reads back as a response header carrying the query's
/// id, the answer flags, one question and one answer.
pub proof fn law_a_record_header(id: u16, q: QuestionView, addr: Seq<u8>, ttl: u32)
    ensures
        spec_parse_header(a_record_wire(id, q, addr, ttl)) == Some(
            DnsHeader { id, flags: FLAGS_ANSWER, qd_count: 1, an_count: 1, ns_count: 0, ar_count: 0 },
        ),
{
    let h = DnsHeader { id, flags: FLAGS_ANSWER, qd_count: 1, an_count: 1, ns_count: 0, ar_count: 0 };
    let rest = question_wire(q) + name_wire(q.name) + u16_be_bytes(QTYPE_A) + u16_be_bytes(QCLASS_IN)
        + u32_be_bytes(ttl) + u16_be_bytes(4) + addr;
    assert(a_record_wire(id, q, addr, ttl) =~= header_bytes(h) + rest);
    law_header_roundtrip(h, rest);
}

/// A name-error answer reads back as a response header carrying the query's
/// id, the NXDOMAIN flags, one question and no answer.
pub proof fn law_nxdomain_header(id: u16, q: QuestionView)
    ensures
        spec_parse_header(nxdomain_wire(id, q)) == Some(
            DnsHeader { id, flags: FLAGS_NXDOMAIN, qd_count: 1, an_count: 0, ns_count: 0, ar_count: 0 },
        ),
{
    let h = DnsHeader { id, flags: FLAGS_NXDOMAIN, qd_count: 1, an_count: 0, ns_count: 0, ar_count: 0 };
    law_header_roundtrip(h, question_wire(q));
}

/// Every answer the resolver gives itself carries the id of the query it
/// answers.
pub proof fn law_resolve_keeps_id(r: ResolverView, data: Seq<u8>)
    ensures
        spec_resolve(r, data) matches Ok(ResolutionView::Respond(b)) ==> {
            &&& spec_parse_header(b) is Some
            &&& spec_parse_header(data) is Some
            &&& spec_parse_header(b).unwrap().id == spec_parse_header(data).unwrap().id
        },
{
    if let Some(query) = spec_parse_query(data) {
        if query.questions.len() > 0 {
            let q = query.questions[0];
            law_nxdomain_header(query.header.id, q);
            if let Ok(ResolutionView::Respond(b)) = spec_resolve(r, data) {
                match rule_choice(r, q) {
                    RuleChoice::Rule(i) => {
                        law_a_record_header(query.header.id, q, r.rules[i].addr, r.ttl);
                    },
                    _ => {},
                }
            }
        }
    }
}

/// Names are compared without regard to case: two questions of the same
/// type and class whose names lowercase alike are answered by the same rule
/// (or both by a name error, or both upstream).
pub proof fn law_case_insensitive(r: ResolverView, q1: QuestionView, q2: QuestionView)
    requires
        lowercase(q1.name) == lowercase(q2.name),
        q1.qtype == q2.qtype,
        q1.qclass == q2.qclass,
    ensures
        rule_choice(r, q1) == rule_choice(r, q2),
{
}

/// A name `<p>.<domain>` has the prefix `p`: everything before the dot
/// that starts `.<domain>`, whatever dots `p` holds itself.
pub proof fn law_name_prefix(p: Seq<u8>, domain: Seq<u8>)
    ensures
        name_prefix(p + seq![0x2Eu8] + domain, domain) == Some(p),
        name_prefix(domain, domain) == Some(Seq::<u8>::empty()),
{
    let n = p + seq![0x2Eu8] + domain;
    let suffix = seq![0x2Eu8] + domain;
    assert(n.subrange(n.len() - suffix.len(), n.len() as int) =~= suffix);
    assert(ends_with(n, suffix));
    assert(n.len() != domain.len());
    assert(n.subrange(0, n.len() - suffix.len()) =~= p);
}

/// What `first_rule` finds: a rule with exactly that prefix, with none
/// before it; `None` when no rule has it.
pub proof fn lemma_first_rule_spec(rules: Seq<RuleView>, prefix: Seq<u8>)
    ensures
        first_rule(rules, prefix) matches Some(i) ==> 0 <= i < rules.len()
            && encode_utf8(rules[i].prefix) == prefix
            && forall|j: int| 0 <= j < i ==> encode_utf8(#[trigger] rules[j].prefix) != prefix,
        first_rule(rules, prefix) is None ==> forall|j: int|
            0 <= j < rules.len() ==> encode_utf8(#[trigger] rules[j].prefix) != prefix,
    decreases rules.len(),
{
    if rules.len() > 0 {
        lemma_first_rule_spec(rules.drop_last(), prefix);
        assert forall|j: int| 0 <= j < rules.len() - 1 implies rules.drop_last()[j] == rules[j] by {}
    }
}

/// A name is answered from a rule only when the rule's prefix is the whole
/// part of the name before `.<domain>` (or the name is the domain and the
/// prefix empty), and from the first such rule; a name error only when no
/// rule's prefix is that part.
pub proof fn law_rule_is_whole_prefix(r: ResolverView, name: Seq<char>)
    ensures
        choice_for_name(r, name) matches RuleChoice::Rule(i) ==> {
            &&& 0 <= i < r.rules.len()
            &&& (encode_utf8(name) == encode_utf8(r.rules[i].prefix) + seq![0x2Eu8] + encode_utf8(r.domain)
                || (encode_utf8(name) == encode_utf8(r.domain) && encode_utf8(r.rules[i].prefix).len() == 0))
            &&& forall|j: int| 0 <= j < i ==> encode_utf8(#[trigger] r.rules[j].prefix) != encode_utf8(r.rules[i].prefix)
        },
        choice_for_name(r, name) is NoRule ==> forall|j: int| 0 <= j < r.rules.len() ==>
            encode_utf8(name) != encode_utf8(#[trigger] r.rules[j].prefix) + seq![0x2Eu8] + encode_utf8(r.domain),
{
    let n = encode_utf8(name);
    let d = encode_utf8(r.domain);
    let suffix = seq![0x2Eu8] + d;
    if let Some(p) = name_prefix(n, d) {
        lemma_first_rule_spec(r.rules, p);
        if n != d {
            assert(n =~= p + suffix);
            assert(n =~= p + seq![0x2Eu8] + d);
        }
        if choice_for_name(r, name) is NoRule {
            assert forall|j: int| 0 <= j < r.rules.len() implies
                n != encode_utf8(#[trigger] r.rules[j].prefix) + seq![0x2Eu8] + d by {
                if n == encode_utf8(r.rules[j].prefix) + seq![0x2Eu8] + d {
                    law_name_prefix(encode_utf8(r.rules[j].prefix), d);
                }
            }
        }
    }
}

/// An A-record answer reads back in full: after the header comes the
/// question, and then the answer record, whose owner name is the question's
/// name, followed by type A, class IN, the TTL, the length 4 and the address,
/// which ends the message.
pub proof fn law_a_record_reads_back(id: u16, q: QuestionView, addr: Seq<u8>, ttl: u32)
    requires
        labels_encodable(name_labels(q.name)),
        addr.len() == 4,
    ensures
        ({
            let w = a_record_wire(id, q, addr, ttl);
            let o = 12 + question_wire(q).len() as int;
            &&& spec_parse_question(w, 12) == Some((q, o))
            &&& spec_parse_name(w, o) matches Some((name, e)) && {
                &&& name == q.name
                &&& be16(w[e], w[e + 1]) == QTYPE_A
                &&& be16(w[e + 2], w[e + 3]) == QCLASS_IN
                &&& w.subrange(e + 4, e + 8) == u32_be_bytes(ttl)
                &&& be16(w[e + 8], w[e + 9]) == 4
                &&& w.subrange(e + 10, e + 14) == addr
                &&& w.len() == e + 14
            }
        }),
{
    let h = DnsHeader { id, flags: FLAGS_ANSWER, qd_count: 1, an_count: 1, ns_count: 0, ar_count: 0 };
    let w = a_record_wire(id, q, addr, ttl);
    let tail = u16_be_bytes(QTYPE_A) + u16_be_bytes(QCLASS_IN) + u32_be_bytes(ttl) + u16_be_bytes(4) + addr;
    let hb = header_bytes(h);
    assert(hb.len() == 12);
    assert(w =~= hb + question_wire(q) + (name_wire(q.name) + tail));
    law_question_roundtrip(q, hb, name_wire(q.name) + tail);
    let before = hb + question_wire(q);
    assert(w =~= before + name_wire(q.name) + tail);
    law_name_text_roundtrip(q.name, before, tail);
    let e = (before.len() + name_wire(q.name).len()) as int;
    assert(w.subrange(e, w.len() as int) =~= tail);
    lemma_be16_roundtrip(QTYPE_A);
    lemma_be16_roundtrip(QCLASS_IN);
    lemma_be16_roundtrip(4);
    assert(w[e] == tail[0] && w[e + 1] == tail[1] && w[e + 2] == tail[2] && w[e + 3] == tail[3]);
    assert(w[e + 8] == tail[8] && w[e + 9] == tail[9]);
    assert(w.subrange(e + 4, e + 8) =~= u32_be_bytes(ttl));
    assert(w.subrange(e + 10, e + 14) =~= addr);
}

} // verus!
