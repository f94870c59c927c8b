//! The accumulation buffer that the framing layer consumes from.
//!
//! The buffer type is `bytes::BytesMut`, the same growable byte buffer the
//! connection pumps read socket data into. Verification sees it through
//! [`buf_view`], the sequence of bytes it currently contains, and through
//! the small trusted wrappers below, whose contracts state what the `bytes`
//! crate documents for each operation.

use vstd::prelude::*;
use bytes::BytesMut;

verus! {

#[verifier::external_type_specification]
#[verifier::external_body]
pub struct ExBytesMut(BytesMut);

/// The bytes a `BytesMut` currently contains: its elements `[0, len)`.
pub uninterp spec fn buf_view(b: BytesMut) -> Seq<u8>;

/// Relies on `bytes::BytesMut::len`: the number of bytes the buffer contains.
#[verifier::external_body]
pub(crate) fn buf_len(b: &BytesMut) -> (r: usize)
    ensures
        r == buf_view(*b).len(),
{
    b.len()
}

/// Relies on `bytes::BytesMut`'s `Deref` to `[u8]` (the contained bytes)
/// together with slice indexing.
#[verifier::external_body]
pub(crate) fn buf_byte_at(b: &BytesMut, i: usize) -> (r: u8)
    requires
        i < buf_view(*b).len(),
    ensures
        r == buf_view(*b)[i as int],
{
    b[i]
}

/// Relies on `bytes::BytesMut::split_to`: afterwards `self` contains the
/// elements `[at, len)` and the returned buffer the elements `[0, at)`;
/// it panics when `at > len`, which the precondition rules out.
#[verifier::external_body]
pub(crate) fn buf_split_to(b: &mut BytesMut, at: usize) -> (r: BytesMut)
    requires
        at <= buf_view(*old(b)).len(),
    ensures
        buf_view(r) == buf_view(*old(b)).take(at as int),
        buf_view(*final(b)) == buf_view(*old(b)).skip(at as int),
{
    b.split_to(at)
}

/// Relies on `bytes::BytesMut`'s `Deref` to `[u8]` (the contained bytes)
/// together with `slice::to_vec`.
#[verifier::external_body]
pub(crate) fn buf_to_vec(b: &BytesMut) -> (r: Vec<u8>)
    ensures
        r@ == buf_view(*b),
{
    b.to_vec()
}

} // verus!
