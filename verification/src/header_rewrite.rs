use vstd::prelude::*;
use bytes::Bytes;
use rayon::iter::{IntoParallelRefIterator, ParallelIterator};

use crate::buffers::{bytes_as_slice, bytes_from_vec, bytes_view};
use crate::dns_message::push_slice;
use crate::lines::{first_index_of, lemma_first_index_of};

verus! {

/// `needle` occurs in `hay` at `i`.
pub open spec fn occurs_at(hay: Seq<u8>, needle: Seq<u8>, i: int) -> bool {
    0 <= i && i + needle.len() <= hay.len() && hay.subrange(i, i + needle.len()) == needle
}

/// `needle` occurs somewhere in `hay`.
pub open spec fn occurs(hay: Seq<u8>, needle: Seq<u8>) -> bool {
    exists|i: int| occurs_at(hay, needle, i)
}

/// `memchr::memmem::find`: the index of the first occurrence of `needle` in
/// `haystack`.  Claimed as its documentation states: `Some(i)` is an
/// occurrence with none before it, `None` means there is none.
#[verifier::external_body]
fn memmem_find(haystack: &[u8], needle: &[u8]) -> (res: Option<usize>)
    ensures
        res matches Some(i) ==> occurs_at(haystack@, needle@, i as int)
            && forall|j: int| 0 <= j < i ==> !occurs_at(haystack@, needle@, j),
        res is None ==> !occurs(haystack@, needle@),
{
    memchr::memmem::find(haystack, needle)
}

/// `memchr::memchr`: the index of the first occurrence of a byte.  Claimed
/// as its documentation states.
#[verifier::external_body]
pub(crate) fn memchr_byte(needle: u8, haystack: &[u8]) -> (res: Option<usize>)
    ensures
        match res {
            Some(i) => first_index_of(haystack@, needle) == Some(i as int),
            None => first_index_of(haystack@, needle) is None,
        },
{
    memchr::memchr(needle, haystack)
}

/// The bytes `": "`.
pub open spec fn colon_space() -> Seq<u8> {
    seq![0x3Au8, 0x20u8]
}

/// A header rewrite: when `needle` occurs in the line and the line has a
/// colon, the line becomes its name (up to the first colon), `": "`, and
/// `value`.
pub open spec fn rewrite(needle: Seq<u8>, value: Seq<u8>, line: Seq<u8>) -> Option<Seq<u8>> {
    if occurs(line, needle) {
        match first_index_of(line, 0x3Au8) {
            Some(c) => Some(line.take(c) + colon_space() + value),
            None => None,
        }
    } else {
        None
    }
}

/// The matchers as plain values: needle and replacement value.
pub open spec fn matchers_view(m: Seq<(Vec<u8>, Bytes)>) -> Seq<(Seq<u8>, Seq<u8>)> {
    m.map_values(|p: (Vec<u8>, Bytes)| (p.0@, bytes_view(p.1)))
}

/// The rewrite of the first matcher that applies to the line.
pub open spec fn first_rewrite(m: Seq<(Seq<u8>, Seq<u8>)>, line: Seq<u8>) -> Option<Seq<u8>>
    decreases m.len(),
{
    if m.len() == 0 {
        None
    } else {
        match first_rewrite(m.drop_last(), line) {
            Some(r) => Some(r),
            None => rewrite(m.last().0, m.last().1, line),
        }
    }
}

/// Applies one matcher to a line, as `rewrite` says.
pub fn rewrite_line(needle: &Vec<u8>, value: &Bytes, line: &[u8]) -> (res: Option<Bytes>)
    ensures
        match res {
            Some(b) => rewrite(needle@, bytes_view(*value), line@) == Some(bytes_view(b)),
            None => rewrite(needle@, bytes_view(*value), line@) is None,
        },
{
    let idx = memmem_find(line, needle.as_slice());
    let sep = memchr_byte(0x3A, line);
    match (idx, sep) {
        (Some(i), Some(c)) => {
            proof {
                lemma_first_index_of(line@, 0x3Au8);
            }
            let mut out: Vec<u8> = Vec::new();
            push_slice(&mut out, line, 0, c);
            out.push(0x3A);
            out.push(0x20);
            let v = bytes_as_slice(value);
            let vl = v.len();
            push_slice(&mut out, v, 0, vl);
            assert(line@.subrange(0, c as int) =~= line@.take(c as int));
            assert(v@.subrange(0, vl as int) =~= v@);
            assert(out@ =~= line@.take(c as int) + colon_space() + bytes_view(*value));
            Some(bytes_from_vec(out))
        },
        _ => None,
    }
}

/// `par_iter().find_map_first(..)` of rayon over the matchers, each mapped by
/// `rewrite_line`.  Claimed as rayon documents it: the result is that of the
/// first matcher, in order, whose mapping is not `None`.
#[verifier::external_body]
pub(crate) fn first_rewrite_parallel(matchers: &Vec<(Vec<u8>, Bytes)>, line: &[u8]) -> (res: Option<Bytes>)
    ensures
        match res {
            Some(b) => first_rewrite(matchers_view(matchers@), line@) == Some(bytes_view(b)),
            None => first_rewrite(matchers_view(matchers@), line@) is None,
        },
{
    matchers.par_iter().find_map_first(|(needle, value)| rewrite_line(needle, value, line))
}

} // verus!
