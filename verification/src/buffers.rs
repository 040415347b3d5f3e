use vstd::prelude::*;
use bytes::{Buf, Bytes, BytesMut};

verus! {

#[verifier::external_type_specification]
#[verifier::external_body]
pub struct ExBytes(Bytes);

#[verifier::external_type_specification]
#[verifier::external_body]
pub struct ExBytesMut(BytesMut);

#[verifier::external_type_specification]
#[verifier::external_body]
pub struct ExIoError(std::io::Error);

/// The bytes that a `Bytes` handle holds.
pub uninterp spec fn bytes_view(b: Bytes) -> Seq<u8>;

/// The bytes that a `BytesMut` buffer holds.
pub uninterp spec fn bytes_mut_view(b: BytesMut) -> Seq<u8>;

/// `<Bytes as Deref>::deref`: the held bytes as a slice.
#[verifier::external_body]
pub(crate) fn bytes_as_slice(b: &Bytes) -> (s: &[u8])
    ensures
        s@ == bytes_view(*b),
{
    &b[..]
}

/// `<BytesMut as Deref>::deref`: the held bytes as a slice.
#[verifier::external_body]
pub(crate) fn bytes_mut_as_slice(b: &BytesMut) -> (s: &[u8])
    ensures
        s@ == bytes_mut_view(*b),
{
    &b[..]
}

/// `BytesMut::split_to`: the first `at` bytes move to the returned buffer,
/// the rest stay (it panics when `at` exceeds the length).
#[verifier::external_body]
pub(crate) fn bytes_mut_split_to(b: &mut BytesMut, at: usize) -> (res: BytesMut)
    requires
        at <= bytes_mut_view(*old(b)).len(),
    ensures
        bytes_mut_view(res) == bytes_mut_view(*old(b)).take(at as int),
        bytes_mut_view(*final(b)) == bytes_mut_view(*old(b)).skip(at as int),
{
    b.split_to(at)
}

/// `BytesMut::split`: all bytes move to the returned buffer, which leaves
/// `b` empty.
#[verifier::external_body]
pub(crate) fn bytes_mut_split(b: &mut BytesMut) -> (res: BytesMut)
    ensures
        bytes_mut_view(res) == bytes_mut_view(*old(b)),
        bytes_mut_view(*final(b)) == Seq::<u8>::empty(),
{
    b.split()
}

/// `<BytesMut as Buf>::advance`: drops the first `cnt` bytes (it panics when
/// `cnt` exceeds the length).
#[verifier::external_body]
pub(crate) fn bytes_mut_advance(b: &mut BytesMut, cnt: usize)
    requires
        cnt <= bytes_mut_view(*old(b)).len(),
    ensures
        bytes_mut_view(*final(b)) == bytes_mut_view(*old(b)).skip(cnt as int),
{
    b.advance(cnt)
}

/// `BytesMut::freeze`: the same bytes, as an immutable handle.
#[verifier::external_body]
pub(crate) fn bytes_mut_freeze(b: BytesMut) -> (res: Bytes)
    ensures
        bytes_view(res) == bytes_mut_view(b),
{
    b.freeze()
}

/// `<Bytes as From<Vec<u8>>>::from`: a handle holding the vector's bytes.
#[verifier::external_body]
pub(crate) fn bytes_from_vec(v: Vec<u8>) -> (res: Bytes)
    ensures
        bytes_view(res) == v@,
{
    Bytes::from(v)
}

/// `<Bytes as Clone>::clone`: another handle on the same bytes.
#[verifier::external_body]
pub(crate) fn bytes_clone(b: &Bytes) -> (res: Bytes)
    ensures
        bytes_view(res) == bytes_view(*b),
{
    b.clone()
}

/// `Bytes::new`: an empty handle.
#[verifier::external_body]
pub(crate) fn bytes_new() -> (res: Bytes)
    ensures
        bytes_view(res) == Seq::<u8>::empty(),
{
    Bytes::new()
}

} // verus!
