use vstd::prelude::*;
use vstd::string::StringExecFns;
use vstd::utf8::{decode_utf8, valid_utf8};

verus! {

/// What `String::from_utf8_lossy` makes of bytes that are not UTF-8 (each
/// invalid sequence replaced by U+FFFD).
pub uninterp spec fn lossy_replacement(bytes: Seq<u8>) -> Seq<char>;

/// What `String::from_utf8_lossy` makes of a byte sequence: the text it
/// encodes when it is UTF-8, else the replacement text.
pub open spec fn utf8_lossy(bytes: Seq<u8>) -> Seq<char> {
    if valid_utf8(bytes) {
        decode_utf8(bytes)
    } else {
        lossy_replacement(bytes)
    }
}

/// `String::from_utf8_lossy(bytes).into_owned()`.
/// Claimed: on valid UTF-8 the result is the decoded text (std documents
/// that valid input comes back unchanged); on other input it is the named
/// replacement text of the bytes, which is not spelled out here.
#[verifier::external_body]
pub(crate) fn string_from_utf8_lossy(bytes: &[u8]) -> (s: String)
    ensures
        valid_utf8(bytes@) ==> s@ == decode_utf8(bytes@),
        !valid_utf8(bytes@) ==> s@ == lossy_replacement(bytes@),
{
    String::from_utf8_lossy(bytes).into_owned()
}

/// Texts joined with `.` between consecutive ones.
pub open spec fn join_dots(parts: Seq<Seq<char>>) -> Seq<char>
    decreases parts.len(),
{
    if parts.len() == 0 {
        Seq::empty()
    } else if parts.len() == 1 {
        parts[0]
    } else {
        join_dots(parts.drop_last()) + seq!['.'] + parts.last()
    }
}

/// The views of a vector of strings.
pub open spec fn string_views(v: Seq<String>) -> Seq<Seq<char>> {
    v.map_values(|s: String| s@)
}

/// Joins the strings with `.` between consecutive ones.
pub fn join_with_dots(parts: &Vec<String>) -> (res: String)
    ensures
        res@ == join_dots(string_views(parts@)),
{
    let mut res = String::new();
    let dot = ".";
    proof {
        reveal_strlit(".");
    }
    let n = parts.len();
    for i in 0..n
        invariant
            n == parts@.len(),
            dot@ == seq!['.'],
            res@ == join_dots(string_views(parts@.take(i as int))),
    {
        let ghost before = parts@.take(i as int);
        assert(parts@.take(i + 1).drop_last() =~= before);
        assert(string_views(parts@.take(i + 1)).drop_last() =~= string_views(before));
        if i > 0 {
            res.append(dot);
        } else {
            assert(string_views(before) =~= Seq::<Seq<char>>::empty());
        }
        res.append(parts[i].as_str());
    }
    assert(parts@.take(n as int) =~= parts@);
    res
}

} // verus!
