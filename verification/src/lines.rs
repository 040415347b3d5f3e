use vstd::prelude::*;

verus! {

/// Index of the first byte `b` in `s`.
pub open spec fn first_index_of(s: Seq<u8>, b: u8) -> Option<int>
    decreases s.len(),
{
    if s.len() == 0 {
        None
    } else {
        match first_index_of(s.drop_last(), b) {
            Some(i) => Some(i),
            None => if s.last() == b { Some(s.len() - 1) } else { None },
        }
    }
}

/// Facts that pin down `first_index_of`.
pub proof fn lemma_first_index_of(s: Seq<u8>, b: u8)
    ensures
        first_index_of(s, b) matches Some(i) ==> 0 <= i < s.len() && s[i] == b
            && forall|j: int| 0 <= j < i ==> s[j] != b,
        first_index_of(s, b) is None ==> forall|j: int| 0 <= j < s.len() ==> s[j] != b,
    decreases s.len(),
{
    if s.len() > 0 {
        lemma_first_index_of(s.drop_last(), b);
        assert forall|j: int| 0 <= j < s.len() - 1 implies s.drop_last()[j] == s[j] by {}
    }
}

/// The first index of `b` in `s`, by a left-to-right scan.
pub fn find_byte(s: &[u8], b: u8) -> (res: Option<usize>)
    ensures
        match res {
            Some(i) => first_index_of(s@, b) == Some(i as int),
            None => first_index_of(s@, b) is None,
        },
{
    let mut i: usize = 0;
    while i < s.len()
        invariant
            i <= s@.len(),
            first_index_of(s@.take(i as int), b) is None,
        decreases s@.len() - i,
    {
        assert(s@.take(i + 1).drop_last() =~= s@.take(i as int));
        if s[i] == b {
            proof {
                lemma_prefix_first_index(s@, i as int + 1, b);
            }
            return Some(i);
        }
        i = i + 1;
    }
    assert(s@.take(i as int) =~= s@);
    None
}

/// The first index found in a prefix is the first index in the whole.
pub proof fn lemma_prefix_first_index(s: Seq<u8>, n: int, b: u8)
    requires
        0 <= n <= s.len(),
        first_index_of(s.take(n), b) is Some,
    ensures
        first_index_of(s, b) == first_index_of(s.take(n), b),
    decreases s.len(),
{
    if n < s.len() {
        assert(s.drop_last().take(n) =~= s.take(n));
        lemma_prefix_first_index(s.drop_last(), n, b);
    } else {
        assert(s.take(n) =~= s);
    }
}

/// Every byte is a carriage return or a line feed.
pub open spec fn is_blank_line(l: Seq<u8>) -> bool {
    forall|i: int| 0 <= i < l.len() ==> l[i] == 13u8 || l[i] == 10u8
}

/// Whether every byte is a carriage return or a line feed.
pub fn blank_line(l: &[u8]) -> (res: bool)
    ensures
        res == is_blank_line(l@),
{
    let mut i: usize = 0;
    while i < l.len()
        invariant
            i <= l@.len(),
            forall|j: int| 0 <= j < i ==> l@[j] == 13u8 || l@[j] == 10u8,
        decreases l@.len() - i,
    {
        if l[i] != 13 && l[i] != 10 {
            return false;
        }
        i = i + 1;
    }
    true
}

/// A line without its final line feed and the carriage return before it.
pub open spec fn line_content(l: Seq<u8>) -> Seq<u8> {
    let a = if l.len() > 0 && l.last() == 10u8 { l.drop_last() } else { l };
    if a.len() > 0 && a.last() == 13u8 { a.drop_last() } else { a }
}

/// The length of `line_content(l)`.
pub fn line_content_len(l: &[u8]) -> (n: usize)
    ensures
        n <= l@.len(),
        l@.take(n as int) == line_content(l@),
{
    let mut n = l.len();
    if n > 0 && l[n - 1] == 10 {
        n = n - 1;
    }
    if n > 0 && l[n - 1] == 13 {
        n = n - 1;
    }
    assert(l@.take(l@.len() as int) =~= l@);
    assert(l@.len() > 0 ==> l@.take(l@.len() - 1) =~= l@.drop_last());
    assert(n + 1 <= l@.len() ==> l@.take(n + 1).drop_last() =~= l@.take(n as int));
    n
}

/// Space or horizontal tab.
pub open spec fn is_ows(b: u8) -> bool {
    b == 0x20u8 || b == 0x09u8
}

/// `v` without leading and trailing spaces and tabs.
pub open spec fn trim_ows(v: Seq<u8>) -> Seq<u8>
    decreases v.len(),
{
    if v.len() > 0 && is_ows(v[0]) {
        trim_ows(v.drop_first())
    } else if v.len() > 0 && is_ows(v.last()) {
        trim_ows(v.drop_last())
    } else {
        v
    }
}

/// The bounds of `trim_ows(v[from..to])`.
pub fn trim_ows_bounds(v: &[u8], from: usize, to: usize) -> (res: (usize, usize))
    requires
        from <= to <= v@.len(),
    ensures
        from <= res.0 <= res.1 <= to,
        v@.subrange(res.0 as int, res.1 as int) == trim_ows(v@.subrange(from as int, to as int)),
{
    let mut a = from;
    let mut b = to;
    while a < b && (v[a] == 0x20 || v[a] == 0x09)
        invariant
            from <= a <= b <= to <= v@.len(),
            trim_ows(v@.subrange(a as int, b as int)) == trim_ows(v@.subrange(from as int, to as int)),
        decreases b - a,
    {
        assert(v@.subrange(a as int, b as int).drop_first() =~= v@.subrange(a + 1, b as int));
        a = a + 1;
    }
    while a < b && (v[b - 1] == 0x20 || v[b - 1] == 0x09)
        invariant
            from <= a <= b <= to <= v@.len(),
            a < b ==> !is_ows(v@[a as int]),
            trim_ows(v@.subrange(a as int, b as int)) == trim_ows(v@.subrange(from as int, to as int)),
        decreases b - a,
    {
        assert(v@.subrange(a as int, b as int).drop_last() =~= v@.subrange(a as int, b - 1));
        b = b - 1;
    }
    (a, b)
}

} // verus!
