//! What the library relies on of the `bytes` crate: the contents of its two buffer types and
//! the effect of the calls that are made on them.

use bytes::{Buf, BufMut, Bytes, BytesMut};
use vstd::prelude::*;

verus! {

#[verifier::external_type_specification]
#[verifier::external_body]
pub struct ExBytes(bytes::Bytes);

#[verifier::external_type_specification]
#[verifier::external_body]
pub struct ExBytesMut(bytes::BytesMut);

/// The bytes that a `Bytes` holds.
pub uninterp spec fn contents(b: Bytes) -> Seq<u8>;

/// The bytes that a `BytesMut` holds.
pub uninterp spec fn contents_mut(b: BytesMut) -> Seq<u8>;

/// `Bytes::copy_from_slice`: a new buffer that holds the bytes of the slice.
pub assume_specification[ bytes::Bytes::copy_from_slice ](data: &[u8]) -> (r: bytes::Bytes)
    ensures
        contents(r) == data@,
;

/// `Bytes::len`: the number of bytes held.
pub assume_specification[ bytes::Bytes::len ](b: &bytes::Bytes) -> (r: usize)
    ensures
        r == contents(*b).len(),
;

/// `BytesMut::len`: the number of bytes held.
pub assume_specification[ bytes::BytesMut::len ](b: &bytes::BytesMut) -> (r: usize)
    ensures
        r == contents_mut(*b).len(),
;

/// `BytesMut::with_capacity`: an empty buffer. A capacity over `isize::MAX` would panic.
pub assume_specification[ bytes::BytesMut::with_capacity ](capacity: usize) -> (r: bytes::BytesMut)
    requires
        capacity <= isize::MAX,
    ensures
        contents_mut(r) == Seq::<u8>::empty(),
;

/// `BytesMut::freeze`: the same bytes, from now on unchangeable.
pub assume_specification[ bytes::BytesMut::freeze ](b: bytes::BytesMut) -> (r: bytes::Bytes)
    ensures
        contents(r) == contents_mut(b),
;

/// `BytesMut::split`: hands all the bytes out and leaves the buffer empty.
pub assume_specification[ bytes::BytesMut::split ](b: &mut bytes::BytesMut) -> (r: bytes::BytesMut)
    ensures
        contents_mut(r) == contents_mut(*old(b)),
        contents_mut(*final(b)) == Seq::<u8>::empty(),
;

/// `BytesMut::split_to`: hands the first `at` bytes out and keeps the others. An index behind
/// the end would panic.
pub assume_specification[ bytes::BytesMut::split_to ](
    b: &mut bytes::BytesMut,
    at: usize,
) -> (r: bytes::BytesMut)
    requires
        at <= contents_mut(*old(b)).len(),
    ensures
        contents_mut(r) == contents_mut(*old(b)).take(at as int),
        contents_mut(*final(b)) == contents_mut(*old(b)).skip(at as int),
;

/// `Bytes::from` of a vector: the same bytes.
#[verifier::external_body]
pub(crate) fn bytes_from_vec(data: Vec<u8>) -> (r: Bytes)
    ensures
        contents(r) == data@,
{
    Bytes::from(data)
}

/// `Bytes::slice` with an open end: the bytes from `start` on. A start behind the end would
/// panic.
#[verifier::external_body]
pub(crate) fn bytes_slice_from(b: &Bytes, start: usize) -> (r: Bytes)
    requires
        start <= contents(*b).len(),
    ensures
        contents(r) == contents(*b).skip(start as int),
{
    b.slice(start..)
}

/// `BytesMut` as a slice, by its `Deref`.
#[verifier::external_body]
pub(crate) fn bytes_mut_as_slice(b: &BytesMut) -> (r: &[u8])
    ensures
        r@ == contents_mut(*b),
{
    b
}

/// `BytesMut` as a slice that can be written to, by its `DerefMut`: replaces one byte.
#[verifier::external_body]
pub(crate) fn bytes_mut_set(b: &mut BytesMut, at: usize, value: u8)
    requires
        at < contents_mut(*old(b)).len(),
    ensures
        contents_mut(*final(b)) == contents_mut(*old(b)).update(at as int, value),
{
    b[at] = value;
}

/// `Buf::advance` on a `BytesMut`: drops the first `count` bytes. More than it holds would
/// panic.
#[verifier::external_body]
pub(crate) fn bytes_mut_advance(b: &mut BytesMut, count: usize)
    requires
        count <= contents_mut(*old(b)).len(),
    ensures
        contents_mut(*final(b)) == contents_mut(*old(b)).skip(count as int),
{
    b.advance(count)
}

/// `BufMut::put_slice` on a `BytesMut`: appends the bytes of the slice. A buffer over
/// `isize::MAX` bytes could not be allocated.
#[verifier::external_body]
pub(crate) fn bytes_mut_put_slice(b: &mut BytesMut, data: &[u8])
    requires
        contents_mut(*old(b)).len() + data@.len() <= isize::MAX,
    ensures
        contents_mut(*final(b)) == contents_mut(*old(b)) + data@,
{
    b.put_slice(data)
}

/// `BufMut::put_u8` on a `BytesMut`: appends one byte. A buffer over `isize::MAX` bytes could
/// not be allocated.
#[verifier::external_body]
pub(crate) fn bytes_mut_put_u8(b: &mut BytesMut, n: u8)
    requires
        contents_mut(*old(b)).len() + 1 <= isize::MAX,
    ensures
        contents_mut(*final(b)) == contents_mut(*old(b)).push(n),
{
    b.put_u8(n)
}

} // verus!
