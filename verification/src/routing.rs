use vstd::prelude::*;
use vstd::utf8::{decode_utf8, valid_utf8};

verus! {

broadcast use vstd::string::axiom_spec_iter;

/// `std::str::from_utf8(bytes).ok()`: the text that the bytes encode, or
/// `None` when they are not UTF-8 (std documents both).
#[verifier::external_body]
fn str_from_utf8(bytes: &[u8]) -> (res: Option<&str>)
    ensures
        res is Some <==> valid_utf8(bytes@),
        res matches Some(s) ==> s@ == decode_utf8(bytes@),
{
    std::str::from_utf8(bytes).ok()
}

/// The characters of a text, in order.
pub fn chars_of(s: &str) -> (res: Vec<char>)
    ensures
        res@ == s@,
{
    let mut out: Vec<char> = Vec::new();
    for c in it: s.chars()
        invariant
            out@ == it.seq().take(it.index() as int),
            it.seq() == s@,
    {
        out.push(c);
    }
    out
}


/// `String::push`: appends one character.
#[verifier::external_body]
fn string_push(s: &mut String, c: char)
    ensures
        final(s)@ == old(s)@.push(c),
{
    s.push(c)
}

/// The characters as a string.
pub fn string_of(cs: &[char]) -> (res: String)
    ensures
        res@ == cs@,
{
    let mut out = String::new();
    for i in 0..cs.len()
        invariant
            out@ == cs@.take(i as int),
    {
        string_push(&mut out, cs[i]);
        assert(cs@.take(i + 1) =~= cs@.take(i as int).push(cs@[i as int]));
    }
    assert(cs@.take(cs@.len() as int) =~= cs@);
    out
}

/// Unicode White_Space: the characters that split a text into words.
pub open spec fn is_space(c: char) -> bool {
    let v = c as u32;
    (9 <= v <= 13) || v == 32 || v == 0x85 || v == 0xA0 || v == 0x1680 || (0x2000 <= v <= 0x200A)
        || v == 0x2028 || v == 0x2029 || v == 0x202F || v == 0x205F || v == 0x3000
}

/// Whether `c` is Unicode White_Space.
pub fn space_char(c: char) -> (res: bool)
    ensures
        res == is_space(c),
{
    let v = c as u32;
    (9 <= v && v <= 13) || v == 32 || v == 0x85 || v == 0xA0 || v == 0x1680 || (0x2000 <= v && v
        <= 0x200A) || v == 0x2028 || v == 0x2029 || v == 0x202F || v == 0x205F || v == 0x3000
}

/// Length of the run of non-space characters at the front of `s`.
pub open spec fn word_len(s: Seq<char>) -> nat
    decreases s.len(),
{
    if s.len() == 0 || is_space(s[0]) {
        0
    } else {
        1 + word_len(s.drop_first())
    }
}

/// A leading run is no longer than the text.
pub proof fn lemma_word_len(s: Seq<char>)
    ensures
        word_len(s) <= s.len(),
        forall|i: int| 0 <= i < word_len(s) ==> !is_space(#[trigger] s[i]),
        word_len(s) < s.len() ==> is_space(s[word_len(s) as int]),
    decreases s.len(),
{
    if s.len() > 0 && !is_space(s[0]) {
        lemma_word_len(s.drop_first());
        assert forall|i: int| 0 <= i < word_len(s) implies !is_space(#[trigger] s[i]) by {
            if i > 0 {
                assert(s[i] == s.drop_first()[i - 1]);
            }
        }
    }
}

/// The words of a text: its maximal runs of non-space characters, in order
/// (what `str::split_whitespace` yields).
pub open spec fn words(s: Seq<char>) -> Seq<Seq<char>>
    decreases s.len(),
{
    if s.len() == 0 {
        seq![]
    } else if is_space(s[0]) {
        words(s.drop_first())
    } else {
        let k = word_len(s);
        proof {
            lemma_word_len(s);
        }
        seq![s.take(k as int)] + words(s.skip(k as int))
    }
}

/// The next word of `cs` at or after `from`, as its start and end.
pub fn next_word(cs: &Vec<char>, from: usize) -> (res: Option<(usize, usize)>)
    requires
        from <= cs@.len(),
    ensures
        match res {
            None => words(cs@.skip(from as int)) == Seq::<Seq<char>>::empty(),
            Some((b, e)) => {
                &&& from <= b < e <= cs@.len()
                &&& words(cs@.skip(from as int)) == seq![cs@.subrange(b as int, e as int)] + words(
                    cs@.skip(e as int),
                )
            },
        },
{
    let n = cs.len();
    let mut b = from;
    while b < n && space_char(cs[b])
        invariant
            from <= b <= n,
            n == cs@.len(),
            words(cs@.skip(from as int)) == words(cs@.skip(b as int)),
        decreases n - b,
    {
        assert(cs@.skip(b as int).drop_first() =~= cs@.skip(b + 1));
        b = b + 1;
    }
    if b == n {
        assert(cs@.skip(b as int).len() == 0);
        return None;
    }
    let mut e = b + 1;
    assert(cs@.skip(b as int).drop_first() =~= cs@.skip(e as int));
    while e < n && !space_char(cs[e])
        invariant
            b < e <= n,
            n == cs@.len(),
            !is_space(cs@[b as int]),
            word_len(cs@.skip(b as int)) == (e - b) + word_len(cs@.skip(e as int)),
        decreases n - e,
    {
        assert(cs@.skip(e as int).drop_first() =~= cs@.skip(e + 1));
        e = e + 1;
    }
    proof {
        let t = cs@.skip(b as int);
        assert(word_len(cs@.skip(e as int)) == 0);
        assert(t.take(e - b) =~= cs@.subrange(b as int, e as int));
        assert(t.skip(e - b) =~= cs@.skip(e as int));
    }
    Some((b, e))
}


/// `://` stands at index `i` of `s`.
pub open spec fn marker_at(s: Seq<char>, i: int) -> bool {
    0 <= i && i + 3 <= s.len() && s[i] == ':' && s[i + 1] == '/' && s[i + 2] == '/'
}

/// The first index at or after `i` where `://` stands.
pub open spec fn marker_from(s: Seq<char>, i: int) -> Option<int>
    decreases s.len() - i,
{
    if i < 0 || i + 3 > s.len() {
        None
    } else if marker_at(s, i) {
        Some(i)
    } else {
        marker_from(s, i + 1)
    }
}

/// Where `marker_from` finds `://`, it stands there, at or after the start.
pub proof fn lemma_marker_from(s: Seq<char>, i: int)
    ensures
        marker_from(s, i) matches Some(k) ==> i <= k && marker_at(s, k),
    decreases s.len() - i,
{
    if 0 <= i && i + 3 <= s.len() && !marker_at(s, i) {
        lemma_marker_from(s, i + 1);
    }
}

/// The first index of `c` in `s`.
pub open spec fn char_index(s: Seq<char>, c: char) -> Option<int>
    decreases s.len(),
{
    if s.len() == 0 {
        None
    } else if s[0] == c {
        Some(0)
    } else {
        match char_index(s.drop_first(), c) {
            Some(i) => Some(i + 1),
            None => None,
        }
    }
}

/// What `char_index` finds: an occurrence of `c`, with none before it;
/// `None` when `c` does not occur.
pub proof fn lemma_char_index(s: Seq<char>, c: char)
    ensures
        char_index(s, c) matches Some(i) ==> 0 <= i < s.len() && s[i] == c
            && forall|j: int| 0 <= j < i ==> s[j] != c,
        char_index(s, c) is None ==> forall|j: int| 0 <= j < s.len() ==> s[j] != c,
    decreases s.len(),
{
    if s.len() > 0 && s[0] != c {
        lemma_char_index(s.drop_first(), c);
        assert forall|j: int| 0 < j < s.len() implies s[j] == s.drop_first()[j - 1] by {}
    }
}

/// Where `://` stands at `k` and nowhere from `i` on before it, the search
/// from `i` finds `k`.
proof fn lemma_marker_found(s: Seq<char>, i: int, k: int)
    requires
        0 <= i <= k,
        marker_at(s, k),
        forall|j: int| i <= j < k ==> !marker_at(s, j),
    ensures
        marker_from(s, i) == Some(k),
    decreases k - i,
{
    if i < k {
        lemma_marker_found(s, i + 1, k);
    }
}

/// Where `://` stands nowhere from `i` up to `m`, the search from `i` finds
/// nothing before `m`.
proof fn lemma_marker_not_before(s: Seq<char>, i: int, m: int)
    requires
        0 <= i,
        forall|j: int| i <= j < m ==> !marker_at(s, j),
    ensures
        marker_from(s, i) matches Some(k) ==> k >= m,
    decreases s.len() - i,
{
    if i + 3 <= s.len() && !marker_at(s, i) {
        lemma_marker_not_before(s, i + 1, m);
    }
}

/// The host of an absolute target `<scheme>://<host>/<path>` is exactly
/// `<host>`: it ends at the first `/` after the scheme, whatever the path
/// holds.  (A host ending in `:` before a path starting with `/` would make a
/// second `://`, which cuts the host there instead.)
pub proof fn law_absolute_target_host(scheme: Seq<char>, host: Seq<char>, path: Seq<char>)
    requires
        forall|i: int| 0 <= i < scheme.len() ==> scheme[i] != ':',
        forall|i: int| 0 <= i < host.len() ==> host[i] != '/',
        host.len() > 0 ==> host.last() != ':',
    ensures
        uri_host(scheme + seq![':', '/', '/'] + host + seq!['/'] + path) == host,
        uri_host(scheme + seq![':', '/', '/'] + host) == host,
{
    lemma_host_after_scheme(scheme, host, seq!['/'] + path);
    assert(scheme + seq![':', '/', '/'] + host + seq!['/'] + path =~= scheme + seq![':', '/', '/'] + host + (seq![
        '/',
    ] + path));
    lemma_host_after_scheme(scheme, host, Seq::empty());
    assert(scheme + seq![':', '/', '/'] + host + Seq::<char>::empty() =~= scheme + seq![':', '/', '/'] + host);
}

/// The host part after `<scheme>://` when what follows the host is empty or
/// starts with `/`.
proof fn lemma_host_after_scheme(scheme: Seq<char>, host: Seq<char>, tail: Seq<char>)
    requires
        forall|i: int| 0 <= i < scheme.len() ==> scheme[i] != ':',
        forall|i: int| 0 <= i < host.len() ==> host[i] != '/',
        host.len() > 0 && tail.len() > 0 ==> host.last() != ':',
        tail.len() > 0 ==> tail[0] == '/',
    ensures
        uri_host(scheme + seq![':', '/', '/'] + host + tail) == host,
{
    let uri = scheme + seq![':', '/', '/'] + host + tail;
    let m = scheme.len() as int;
    assert forall|j: int| 0 <= j < m implies !marker_at(uri, j) by {
        assert(uri[j] == scheme[j]);
    }
    assert(marker_at(uri, m));
    lemma_marker_found(uri, 0, m);
    let rest = uri.skip(m + 3);
    assert(rest =~= host + tail);
    let hl = host.len() as int;
    assert forall|j: int| 0 <= j < hl implies !marker_at(rest, j) by {
        if marker_at(rest, j) {
            if j + 1 < hl {
                assert(rest[j + 1] == host[j + 1]);
            } else {
                assert(rest[j] == host[j]);
                assert(host.last() == host[j]);
            }
        }
    }
    lemma_marker_not_before(rest, 0, hl);
    lemma_marker_from(rest, 0);
    let seg = match marker_from(rest, 0) {
        Some(j) => rest.take(j),
        None => rest,
    };
    assert(seg.len() >= hl);
    assert(seg.take(hl) =~= host);
    lemma_char_index(seg, '/');
    if seg.len() > hl {
        assert(seg[hl] == tail[0]);
        match char_index(seg, '/') {
            Some(k) => {
                if k < hl {
                    assert(seg[k] == host[k]);
                }
                assert(k == hl);
            },
            None => {
                assert(seg[hl] == '/');
            },
        }
    } else {
        assert(seg =~= host);
        match char_index(seg, '/') {
            Some(k) => {
                assert(seg[k] == host[k]);
            },
            None => {},
        }
    }
}

/// `s` without its leading `/` characters.
pub open spec fn trim_slashes(s: Seq<char>) -> Seq<char>
    decreases s.len(),
{
    if s.len() > 0 && s[0] == '/' {
        trim_slashes(s.drop_first())
    } else {
        s
    }
}

/// The host named by a request target: with a scheme (`://`), the text
/// after the first `://` up to the next `://`, cut at its first `/`;
/// without one, the target without its leading slashes.
pub open spec fn uri_host(uri: Seq<char>) -> Seq<char> {
    match marker_from(uri, 0) {
        Some(i) => {
            let rest = uri.skip(i + 3);
            let seg = match marker_from(rest, 0) {
                Some(j) => rest.take(j),
                None => rest,
            };
            match char_index(seg, '/') {
                Some(k) => seg.take(k),
                None => seg,
            }
        },
        None => trim_slashes(uri),
    }
}

/// The upstream host that a request line routes to: the host of its second
/// word, when the line is UTF-8 text of at least two words.
pub open spec fn request_line_host(line: Seq<u8>) -> Option<Seq<char>> {
    if !valid_utf8(line) {
        None
    } else {
        let ws = words(decode_utf8(line));
        if ws.len() >= 2 {
            Some(uri_host(ws[1]))
        } else {
            None
        }
    }
}

/// The first index at or after `from` where `://` stands in `cs[..to]`.
fn find_marker(cs: &Vec<char>, from: usize, to: usize) -> (res: Option<usize>)
    requires
        from <= to <= cs@.len(),
    ensures
        match res {
            Some(i) => from <= i && i + 3 <= to && marker_from(cs@.subrange(from as int, to as int), 0)
                == Some(i - from),
            None => marker_from(cs@.subrange(from as int, to as int), 0) is None,
        },
{
    let ghost s = cs@.subrange(from as int, to as int);
    let mut i = from;
    while i < to && to - i >= 3
        invariant
            from <= i <= to,
            to <= cs@.len(),
            s == cs@.subrange(from as int, to as int),
            marker_from(s, 0) == marker_from(s, i - from),
        decreases to - i,
    {
        if cs[i] == ':' && cs[i + 1] == '/' && cs[i + 2] == '/' {
            assert(marker_at(s, i - from));
            return Some(i);
        }
        assert(!marker_at(s, i - from));
        i = i + 1;
    }
    None
}

/// The first index at or after `from` of `c` in `cs[..to]`.
fn find_char(cs: &Vec<char>, from: usize, to: usize, c: char) -> (res: Option<usize>)
    requires
        from <= to <= cs@.len(),
    ensures
        match res {
            Some(i) => from <= i < to && char_index(cs@.subrange(from as int, to as int), c) == Some(i - from),
            None => char_index(cs@.subrange(from as int, to as int), c) is None,
        },
{
    let mut i = to;
    let mut found: Option<usize> = None;
    while i > from
        invariant
            from <= i <= to,
            to <= cs@.len(),
            match found {
                Some(k) => i <= k < to && char_index(cs@.subrange(i as int, to as int), c) == Some(k - i),
                None => char_index(cs@.subrange(i as int, to as int), c) is None,
            },
        decreases i - from,
    {
        let j = i - 1;
        assert(cs@.subrange(j as int, to as int).drop_first() =~= cs@.subrange(i as int, to as int));
        if cs[j] == c {
            found = Some(j);
        }
        i = j;
    }
    found
}

/// The upstream host that a request line routes to, as `request_line_host`
/// says: the line must be UTF-8 with at least two words.
pub fn extract_host(request_line: &[u8]) -> (res: Option<String>)
    ensures
        match res {
            Some(h) => request_line_host(request_line@) == Some(h@),
            None => request_line_host(request_line@) is None,
        },
{
    let line = match str_from_utf8(request_line) {
        Some(l) => l,
        None => return None,
    };
    let cs = chars_of(line);
    let (_b0, e0) = match next_word(&cs, 0) {
        Some(w) => w,
        None => {
            assert(cs@.skip(0) =~= cs@);
            return None;
        },
    };
    let (b, e) = match next_word(&cs, e0) {
        Some(w) => w,
        None => {
            assert(cs@.skip(0) =~= cs@);
            return None;
        },
    };
    proof {
        assert(cs@.skip(0) =~= cs@);
        let ws = words(cs@);
        assert(ws[1] == cs@.subrange(b as int, e as int));
    }
    let ghost uri = cs@.subrange(b as int, e as int);
    match find_marker(&cs, b, e) {
        Some(i) => {
            proof {
                lemma_marker_from(uri, 0);
            }
            let start = i + 3;
            assert(uri.skip(i - b + 3) =~= cs@.subrange(start as int, e as int));
            let stop = match find_marker(&cs, start, e) {
                Some(j) => {
                    proof {
                        lemma_marker_from(cs@.subrange(start as int, e as int), 0);
                    }
                    assert(cs@.subrange(start as int, e as int).take(j - start) =~= cs@.subrange(
                        start as int,
                        j as int,
                    ));
                    j
                },
                None => e,
            };
            let ghost seg = cs@.subrange(start as int, stop as int);
            let end = match find_char(&cs, start, stop, '/') {
                Some(k) => {
                    assert(seg.take(k - start) =~= cs@.subrange(start as int, k as int));
                    k
                },
                None => stop,
            };
            Some(string_of(slice_chars(&cs, start, end)))
        },
        None => {
            let mut k = b;
            while k < e && cs[k] == '/'
                invariant
                    b <= k <= e,
                    e <= cs@.len(),
                    trim_slashes(uri) == trim_slashes(cs@.subrange(k as int, e as int)),
                decreases e - k,
            {
                assert(cs@.subrange(k as int, e as int).drop_first() =~= cs@.subrange(k + 1, e as int));
                k = k + 1;
            }
            Some(string_of(slice_chars(&cs, k, e)))
        },
    }
}

/// `cs[from..to]`.
fn slice_chars(cs: &Vec<char>, from: usize, to: usize) -> (res: &[char])
    requires
        from <= to <= cs@.len(),
    ensures
        res@ == cs@.subrange(from as int, to as int),
{
    vstd::slice::slice_subrange(cs.as_slice(), from, to)
}

} // verus!
