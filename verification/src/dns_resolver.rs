use vstd::prelude::*;
use vstd::utf8::encode_utf8;

use crate::dns_message::{
    a_record_wire, nxdomain_wire, query_walk_ends, spec_parse_query, DnsQuery, DnsQuestion, DnsResponse,
    QueryView, QuestionView, QCLASS_IN, QTYPE_A,
};

verus! {

/// What `str::to_lowercase` makes of a text (Unicode lowercase mapping).
pub uninterp spec fn lowercase(s: Seq<char>) -> Seq<char>;

/// `str::to_lowercase`.  Claimed: the result is the named lowercase mapping
/// of the input text and of nothing else; the mapping itself (Unicode's
/// lowercase property) is left unsaid.
#[verifier::external_body]
fn str_to_lowercase(s: &str) -> (res: String)
    ensures
        res@ == lowercase(s@),
{
    s.to_lowercase()
}

/// Address of the upstream resolver that queries outside our domain go to.
#[derive(Debug, Clone, Copy, PartialEq, Eq)]
pub enum UpstreamAddr {
    V4 { octets: [u8; 4], port: u16 },
    V6 { segments: [u16; 8], port: u16, flowinfo: u32, scope_id: u32 },
}

/// A rule: names `<prefix>.<domain>` resolve to `addr`.
pub struct ResolveRule {
    pub prefix: String,
    pub addr: [u8; 4],
}

/// A rule as plain values.
pub struct RuleView {
    pub prefix: Seq<char>,
    pub addr: Seq<u8>,
}

/// Answers A queries for one domain from prefix rules; everything else goes
/// upstream.
pub struct DnsResolver {
    domain: String,
    rules: Vec<ResolveRule>,
    upstream: UpstreamAddr,
    ttl: u32,
}

/// A resolver as plain values.
pub struct ResolverView {
    pub domain: Seq<char>,
    pub rules: Seq<RuleView>,
    pub upstream: UpstreamAddr,
    pub ttl: u32,
}

impl View for DnsResolver {
    type V = ResolverView;

    closed spec fn view(&self) -> ResolverView {
        ResolverView {
            domain: self.domain@,
            rules: self.rules@.map_values(|r: ResolveRule| RuleView { prefix: r.prefix@, addr: r.addr@ }),
            upstream: self.upstream,
            ttl: self.ttl,
        }
    }
}

/// What answers a query.
pub enum Resolution {
    /// This message goes back to the client.
    Respond(Vec<u8>),
    /// The query goes, unchanged, to the upstream resolver, whose reply goes back.
    ForwardUpstream,
}

/// A resolution as plain values.
pub enum ResolutionView {
    Respond(Seq<u8>),
    ForwardUpstream,
}

impl View for Resolution {
    type V = ResolutionView;

    open spec fn view(&self) -> ResolutionView {
        match self {
            Resolution::Respond(v) => ResolutionView::Respond(v@),
            Resolution::ForwardUpstream => ResolutionView::ForwardUpstream,
        }
    }
}

/// Why a query cannot be answered.
#[derive(Debug, Clone, Copy, PartialEq, Eq)]
pub enum ResolveError {
    /// The data is not a well-formed DNS query.
    MalformedQuery,
    /// The query holds no question.
    NoQuestion,
}

/// `a` ends with `b`.
pub open spec fn ends_with(a: Seq<u8>, b: Seq<u8>) -> bool {
    b.len() <= a.len() && a.subrange(a.len() - b.len(), a.len() as int) == b
}

/// The part of a (lowercased, UTF-8) name before `.<domain>`, or the empty
/// text when the name is the domain itself; `None` when the name is outside
/// the domain.
pub open spec fn name_prefix(name: Seq<u8>, domain: Seq<u8>) -> Option<Seq<u8>> {
    let suffix = seq![0x2Eu8] + domain;
    if !ends_with(name, suffix) && name != domain {
        None
    } else if name == domain {
        Some(Seq::empty())
    } else {
        Some(name.subrange(0, name.len() - suffix.len()))
    }
}

/// The index of the first rule whose prefix is `prefix`.
pub open spec fn first_rule(rules: Seq<RuleView>, prefix: Seq<u8>) -> Option<int>
    decreases rules.len(),
{
    if rules.len() == 0 {
        None
    } else {
        match first_rule(rules.drop_last(), prefix) {
            Some(i) => Some(i),
            None => if encode_utf8(rules.last().prefix) == prefix {
                Some(rules.len() - 1)
            } else {
                None
            },
        }
    }
}

/// How a question is answered: upstream, with a name error, or from a rule.
pub enum RuleChoice {
    Upstream,
    NoRule,
    Rule(int),
}

/// The choice for a (lowercased) name: a name `<prefix>.<domain>`, or the
/// domain itself, is answered from the first rule with that prefix, or with a
/// name error when none has it; a name outside the domain goes upstream.
pub open spec fn choice_for_name(r: ResolverView, name: Seq<char>) -> RuleChoice {
    match name_prefix(encode_utf8(name), encode_utf8(r.domain)) {
        None => RuleChoice::Upstream,
        Some(prefix) => match first_rule(r.rules, prefix) {
            Some(i) => RuleChoice::Rule(i),
            None => RuleChoice::NoRule,
        },
    }
}

/// The choice for a question: A/IN questions are decided by their name,
/// lowercased; every other question goes upstream.
pub open spec fn rule_choice(r: ResolverView, q: QuestionView) -> RuleChoice {
    if q.qtype != QTYPE_A || q.qclass != QCLASS_IN {
        RuleChoice::Upstream
    } else {
        choice_for_name(r, lowercase(q.name))
    }
}

/// The answer that a choice makes for question `q` of a parsed query.
pub open spec fn answer_for(r: ResolverView, query: QueryView, q: QuestionView, c: RuleChoice) -> ResolutionView {
    match c {
        RuleChoice::Upstream => ResolutionView::ForwardUpstream,
        RuleChoice::Rule(i) => ResolutionView::Respond(a_record_wire(query.header.id, q, r.rules[i].addr, r.ttl)),
        RuleChoice::NoRule => ResolutionView::Respond(nxdomain_wire(query.header.id, q)),
    }
}

/// The answer for the first question of a parsed query.
pub open spec fn spec_answer(r: ResolverView, query: QueryView, q: QuestionView) -> ResolutionView {
    answer_for(r, query, q, rule_choice(r, q))
}

/// How a resolver answers the message `data`.
pub open spec fn spec_resolve(r: ResolverView, data: Seq<u8>) -> Result<ResolutionView, ResolveError> {
    match spec_parse_query(data) {
        None => Err(ResolveError::MalformedQuery),
        Some(query) => if query.questions.len() == 0 {
            Err(ResolveError::NoQuestion)
        } else {
            Ok(spec_answer(r, query, query.questions[0]))
        },
    }
}

/// `a == b`, byte by byte.
pub fn bytes_eq(a: &[u8], b: &[u8]) -> (res: bool)
    ensures
        res == (a@ == b@),
{
    if a.len() != b.len() {
        return false;
    }
    let mut i: usize = 0;
    while i < a.len()
        invariant
            a@.len() == b@.len(),
            i <= a@.len(),
            a@.take(i as int) == b@.take(i as int),
        decreases a@.len() - i,
    {
        if a[i] != b[i] {
            assert(a@[i as int] != b@[i as int]);
            return false;
        }
        assert(a@.take(i + 1) =~= a@.take(i as int).push(a@[i as int]));
        assert(b@.take(i + 1) =~= b@.take(i as int).push(b@[i as int]));
        i = i + 1;
    }
    assert(a@ =~= a@.take(i as int));
    assert(b@ =~= b@.take(i as int));
    true
}

/// `a` ends with `b`.
pub fn bytes_ends_with(a: &[u8], b: &[u8]) -> (res: bool)
    ensures
        res == ends_with(a@, b@),
{
    if b.len() > a.len() {
        return false;
    }
    let tail = vstd::slice::slice_subrange(a, a.len() - b.len(), a.len());
    bytes_eq(tail, b)
}

impl DnsResolver {
    /// A resolver for `domain` with no rules, forwarding to `upstream`, whose
    /// answers live 60 seconds.
    pub fn new(domain: String, upstream: UpstreamAddr) -> (res: Self)
        ensures
            res@ == (ResolverView { domain: domain@, rules: Seq::empty(), upstream, ttl: 60 }),
    {
        let res = DnsResolver { domain, rules: Vec::new(), upstream, ttl: 60 };
        assert(res@.rules =~= Seq::<RuleView>::empty());
        res
    }

    /// Adds a rule after the existing ones: `<prefix>.<domain>` resolves to `addr`.
    pub fn add_rule(&mut self, prefix: &str, addr: [u8; 4])
        ensures
            final(self)@ == (ResolverView {
                rules: old(self)@.rules.push(RuleView { prefix: prefix@, addr: addr@ }),
                ..old(self)@
            }),
    {
        self.rules.push(ResolveRule { prefix: prefix.to_owned(), addr });
        assert(self@.rules =~= old(self)@.rules.push(RuleView { prefix: prefix@, addr: addr@ }));
    }

    /// The same resolver with answers living `ttl` seconds.
    pub fn with_ttl(self, ttl: u32) -> (res: Self)
        ensures
            res@ == (ResolverView { ttl, ..self@ }),
    {
        let mut r = self;
        r.ttl = ttl;
        r
    }

    /// The upstream resolver.
    pub fn upstream(&self) -> (res: UpstreamAddr)
        ensures
            res == self@.upstream,
    {
        self.upstream
    }

    /// The first rule whose prefix is `prefix`.
    fn find_rule(&self, prefix: &[u8]) -> (res: Option<usize>)
        ensures
            match res {
                Some(i) => first_rule(self@.rules, prefix@) == Some(i as int),
                None => first_rule(self@.rules, prefix@) is None,
            },
    {
        let n = self.rules.len();
        let mut i: usize = 0;
        while i < n
            invariant
                n == self.rules@.len(),
                i <= n,
                first_rule(self@.rules.take(i as int), prefix@) is None,
            decreases n - i,
        {
            let ghost rs = self@.rules.take(i as int + 1);
            assert(rs.drop_last() =~= self@.rules.take(i as int));
            assert(rs.last() == self@.rules[i as int]);
            if bytes_eq(self.rules[i].prefix.as_str().as_bytes(), prefix) {
                proof {
                    lemma_first_rule_prefix(self@.rules, i as int + 1, prefix@);
                }
                return Some(i);
            }
            i = i + 1;
        }
        assert(self@.rules.take(n as int) =~= self@.rules);
        None
    }

    /// Decides how to answer the message `data`: parse it as a query; take its
    /// first question; an A/IN question for a name `<prefix>.<domain>` (or the
    /// domain itself), compared after lowercasing, is answered from the first
    /// rule with that prefix, or with a name error when none has it; any other
    /// question goes upstream.  Data whose name pointers form a cycle would be
    /// followed forever, so it is left out.
    pub fn resolve(&self, data: &[u8]) -> (res: Result<Resolution, ResolveError>)
        requires
            query_walk_ends(data@),
        ensures
            match res {
                Ok(r) => spec_resolve(self@, data@) == Ok::<ResolutionView, ResolveError>(r@),
                Err(e) => spec_resolve(self@, data@) == Err::<ResolutionView, ResolveError>(e),
            },
    {
        let query = match DnsQuery::parse(data) {
            Some(q) => q,
            None => return Err(ResolveError::MalformedQuery),
        };
        if query.questions.len() == 0 {
            return Err(ResolveError::NoQuestion);
        }
        let question = &query.questions[0];
        if question.qtype != QTYPE_A || question.qclass != QCLASS_IN {
            return Ok(Resolution::ForwardUpstream);
        }
        let name = str_to_lowercase(question.name.as_str());
        assert(query@.questions[0] == question@);
        Ok(self.answer_name(&query, question, name.as_str()))
    }

    /// Answers `question` of `query` by the name `name` (the question's name,
    /// lowercased): from the first rule with the name's prefix in the domain,
    /// with a name error when no rule has it, or upstream when the name is
    /// outside the domain.
    pub fn answer_name(&self, query: &DnsQuery, question: &DnsQuestion, name: &str) -> (res: Resolution)
        ensures
            res@ == answer_for(self@, query@, question@, choice_for_name(self@, name@)),
    {
        let nb = name.as_bytes();
        let db = self.domain.as_str().as_bytes();
        let mut suffix: Vec<u8> = Vec::new();
        suffix.push(0x2E);
        let mut k: usize = 0;
        while k < db.len()
            invariant
                k <= db@.len(),
                suffix@ == seq![0x2Eu8] + db@.take(k as int),
            decreases db@.len() - k,
        {
            suffix.push(db[k]);
            k = k + 1;
            assert(suffix@ =~= seq![0x2Eu8] + db@.take(k as int));
        }
        assert(db@.take(db@.len() as int) =~= db@);
        let is_domain = bytes_eq(nb, db);
        if !bytes_ends_with(nb, suffix.as_slice()) && !is_domain {
            return Resolution::ForwardUpstream;
        }
        let ghost nm = encode_utf8(name@);
        assert(nb@ == nm);
        assert(suffix@ == seq![0x2Eu8] + encode_utf8(self@.domain));
        let prefix: &[u8] = if is_domain {
            assert(nb@.subrange(0, 0) =~= Seq::<u8>::empty());
            vstd::slice::slice_subrange(nb, 0, 0)
        } else {
            vstd::slice::slice_subrange(nb, 0, nb.len() - suffix.len())
        };
        assert(name_prefix(nm, encode_utf8(self@.domain)) == Some(prefix@));
        proof {
            lemma_first_rule_bound(self@.rules, prefix@);
        }
        match self.find_rule(prefix) {
            Some(i) => Resolution::Respond(DnsResponse::a_record(query, question, self.rules[i].addr, self.ttl)),
            None => Resolution::Respond(DnsResponse::nxdomain(query, question)),
        }
    }
}

/// The first matching rule is one of the rules.
proof fn lemma_first_rule_bound(rules: Seq<RuleView>, prefix: Seq<u8>)
    ensures
        first_rule(rules, prefix) matches Some(i) ==> 0 <= i < rules.len(),
    decreases rules.len(),
{
    if rules.len() > 0 {
        lemma_first_rule_bound(rules.drop_last(), prefix);
    }
}

/// A rule matches within the first `n` rules and none before `n - 1`: the
/// first match is `n - 1`.
proof fn lemma_first_rule_prefix(rules: Seq<RuleView>, n: int, prefix: Seq<u8>)
    requires
        1 <= n <= rules.len(),
        first_rule(rules.take(n - 1), prefix) is None,
        encode_utf8(rules[n - 1].prefix) == prefix,
    ensures
        first_rule(rules, prefix) == Some(n - 1),
    decreases rules.len(),
{
    assert(rules.take(n).drop_last() =~= rules.take(n - 1));
    if n < rules.len() {
        assert(rules.drop_last().take(n - 1) =~= rules.take(n - 1));
        lemma_first_rule_prefix(rules.drop_last(), n, prefix);
        assert(rules.drop_last().take(n - 1) =~= rules.take(n - 1));
        assert(rules.drop_last().take(n) =~= rules.take(n));
    } else {
        assert(rules.take(n - 1) =~= rules.drop_last());
    }
}

} // verus!
