//! The trusted boundary to the `bytes` crate: the connection buffer is a
//! `bytes::BytesMut` and an extracted frame a `bytes::Bytes`. Each wrapper
//! states, over the two content views, what the called method does; nothing
//! else in the crate touches the two types directly.

use vstd::prelude::*;

verus! {

#[verifier::external_type_specification]
#[verifier::external_body]
pub struct ExBytesMut(bytes::BytesMut);

#[verifier::external_type_specification]
#[verifier::external_body]
pub struct ExBytes(bytes::Bytes);

/// The bytes a `bytes::BytesMut` holds, front to back.
pub uninterp spec fn bm_view(b: bytes::BytesMut) -> Seq<u8>;

/// The bytes a `bytes::Bytes` holds, front to back.
pub uninterp spec fn bytes_view(b: bytes::Bytes) -> Seq<u8>;

/// Relies on `BytesMut::with_capacity`: the new buffer contains no data.
#[verifier::external_body]
pub(crate) fn bm_with_capacity(capacity: usize) -> (b: bytes::BytesMut)
    ensures
        bm_view(b) == Seq::<u8>::empty(),
{
    bytes::BytesMut::with_capacity(capacity)
}

/// Relies on `BytesMut::len`: the number of bytes contained in the buffer.
#[verifier::external_body]
pub(crate) fn bm_len(b: &bytes::BytesMut) -> (n: usize)
    ensures
        n == bm_view(*b).len(),
{
    b.len()
}

/// Relies on `BytesMut::capacity`: the number of bytes the buffer can hold
/// without reallocating, never less than its length.
#[verifier::external_body]
pub(crate) fn bm_capacity(b: &bytes::BytesMut) -> (n: usize)
    ensures
        n >= bm_view(*b).len(),
{
    b.capacity()
}

/// Relies on `BytesMut`'s `AsRef<[u8]>`: a view of the contained bytes.
#[verifier::external_body]
pub(crate) fn bm_as_slice(b: &bytes::BytesMut) -> (s: &[u8])
    ensures
        s@ == bm_view(*b),
{
    b.as_ref()
}

/// Relies on `BytesMut::extend_from_slice`: appends the slice to the back of
/// the buffer.
#[verifier::external_body]
pub(crate) fn bm_extend(b: &mut bytes::BytesMut, data: &[u8])
    requires
        bm_view(*old(b)).len() + data@.len() <= usize::MAX,
    ensures
        bm_view(*final(b)) == bm_view(*old(b)) + data@,
{
    b.extend_from_slice(data)
}

/// Relies on `BytesMut::reserve`: grows the spare capacity without touching
/// the contained bytes; panics only when the new capacity overflows `usize`.
#[verifier::external_body]
pub(crate) fn bm_reserve(b: &mut bytes::BytesMut, additional: usize)
    requires
        bm_view(*old(b)).len() + additional <= usize::MAX,
    ensures
        bm_view(*final(b)) == bm_view(*old(b)),
{
    b.reserve(additional)
}

/// Relies on `BytesMut::split_to`: the first `at` bytes are moved out, the
/// rest stay behind in order; panics only when `at` exceeds the length.
#[verifier::external_body]
pub(crate) fn bm_split_to(b: &mut bytes::BytesMut, at: usize) -> (front: bytes::BytesMut)
    requires
        at <= bm_view(*old(b)).len(),
    ensures
        bm_view(front) == bm_view(*old(b)).subrange(0, at as int),
        bm_view(*final(b)) == bm_view(*old(b)).subrange(at as int, bm_view(*old(b)).len() as int),
{
    b.split_to(at)
}

/// Relies on `BytesMut::freeze`: converts the buffer into an immutable
/// `Bytes` holding the same bytes.
#[verifier::external_body]
pub(crate) fn bm_freeze(b: bytes::BytesMut) -> (frozen: bytes::Bytes)
    ensures
        bytes_view(frozen) == bm_view(b),
{
    b.freeze()
}

} // verus!
