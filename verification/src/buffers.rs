//! The `bytes` crate's buffers as the transport uses them: what each holds is
//! named as a byte sequence, and every call the verified code makes is a
//! wrapper whose contract says what the call does to that sequence.

use vstd::prelude::*;

use bytes::{Bytes, BytesMut};

verus! {

#[verifier::external_type_specification]
#[verifier::external_body]
pub struct ExBytes(bytes::Bytes);

#[verifier::external_type_specification]
#[verifier::external_body]
pub struct ExBytesMut(bytes::BytesMut);

/// The bytes an immutable `Bytes` view holds.
pub uninterp spec fn bytes_view(bytes: Bytes) -> Seq<u8>;

/// The bytes a growable `BytesMut` buffer holds.
pub uninterp spec fn bytes_mut_view(buffer: BytesMut) -> Seq<u8>;

/// `BytesMut::with_capacity`: an empty buffer. The allocation panics above
/// `isize::MAX` bytes, so the capacity is bounded by that.
#[verifier::external_body]
pub(crate) fn bytes_mut_with_capacity(capacity: usize) -> (buffer: BytesMut)
    requires
        capacity <= isize::MAX,
    ensures
        bytes_mut_view(buffer) == Seq::<u8>::empty(),
{
    BytesMut::with_capacity(capacity)
}

/// `BytesMut::extend_from_slice`: appends `data`. Growth past `isize::MAX`
/// bytes panics, so the final length is bounded by that.
#[verifier::external_body]
pub(crate) fn bytes_mut_extend(buffer: &mut BytesMut, data: &[u8])
    requires
        bytes_mut_view(*old(buffer)).len() + data@.len() <= isize::MAX,
    ensures
        bytes_mut_view(*final(buffer)) == bytes_mut_view(*old(buffer)) + data@,
{
    buffer.extend_from_slice(data)
}

/// `BytesMut::freeze`: the same bytes as an immutable `Bytes`.
#[verifier::external_body]
pub(crate) fn bytes_mut_freeze(buffer: BytesMut) -> (bytes: Bytes)
    ensures
        bytes_view(bytes) == bytes_mut_view(buffer),
{
    buffer.freeze()
}

/// `Bytes::copy_from_slice`: a `Bytes` holding a copy of `data`.
#[verifier::external_body]
pub(crate) fn bytes_copy_from_slice(data: &[u8]) -> (bytes: Bytes)
    ensures
        bytes_view(bytes) == data@,
{
    Bytes::copy_from_slice(data)
}

/// `<Bytes as Deref>::deref`: the held bytes as a slice.
#[verifier::external_body]
pub(crate) fn bytes_as_slice(bytes: &Bytes) -> (slice: &[u8])
    ensures
        slice@ == bytes_view(*bytes),
{
    bytes.as_ref()
}

/// `Bytes::slice` over `start..end`, which panics outside the held bytes:
/// a view of that subrange.
#[verifier::external_body]
pub(crate) fn bytes_slice(bytes: &Bytes, start: usize, end: usize) -> (part: Bytes)
    requires
        start <= end <= bytes_view(*bytes).len(),
    ensures
        bytes_view(part) == bytes_view(*bytes).subrange(start as int, end as int),
{
    bytes.slice(start..end)
}

} // verus!
