//! A peer connection's receive and transmit buffer: bytes's `BytesMut`,
//! declared to Verus as an opaque type whose contents are named, with the
//! few operations the framing layer relies on.

use vstd::prelude::*;

verus! {

#[verifier::external_type_specification]
#[verifier::external_body]
pub struct ExBytesMut(bytes::BytesMut);

/// The bytes a buffer holds, front to back.
pub uninterp spec fn bytes_view(b: bytes::BytesMut) -> Seq<u8>;

/// Relies on `BytesMut::len`: how many bytes the buffer holds.
#[verifier::external_body]
pub fn buf_len(b: &bytes::BytesMut) -> (n: usize)
    ensures
        n == bytes_view(*b).len(),
{
    b.len()
}

/// Relies on `BytesMut`'s deref to `[u8]`: the held bytes as a slice,
/// front to back.
#[verifier::external_body]
pub fn buf_slice(b: &bytes::BytesMut) -> (s: &[u8])
    ensures
        s@ == bytes_view(*b),
{
    b
}

/// Relies on `BytesMut::split_to`: the first `at` bytes leave the buffer
/// and are returned; `at` beyond the length would panic, so it is ruled
/// out.
#[verifier::external_body]
pub fn buf_split_to(b: &mut bytes::BytesMut, at: usize) -> (front: bytes::BytesMut)
    requires
        at <= bytes_view(*old(b)).len(),
    ensures
        bytes_view(front) == bytes_view(*old(b)).subrange(0, at as int),
        bytes_view(*final(b)) == bytes_view(*old(b)).skip(at as int),
{
    b.split_to(at)
}

/// Relies on `BytesMut::extend_from_slice`: the slice's bytes are
/// appended at the back.
#[verifier::external_body]
pub fn buf_extend(b: &mut bytes::BytesMut, s: &[u8])
    ensures
        bytes_view(*final(b)) == bytes_view(*old(b)) + s@,
{
    b.extend_from_slice(s)
}

} // verus!
