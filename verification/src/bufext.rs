//! Trusted view of `bytes::BytesMut`, the codec's byte buffer, and of
//! std's UTF-8 validity check. Each wrapper's contract restates what the
//! crate's source shows of the one call its body makes.

use vstd::prelude::*;

verus! {

#[verifier::external_type_specification]
#[verifier::external_body]
pub struct ExBytesMut(bytes::BytesMut);

/// The bytes a `BytesMut` holds, in order.
pub uninterp spec fn buf_bytes(b: bytes::BytesMut) -> Seq<u8>;

/// Relies on BytesMut::new: it makes an empty buffer.
#[verifier::external_body]
pub fn buf_new() -> (r: bytes::BytesMut)
    ensures
        buf_bytes(r) == Seq::<u8>::empty(),
{
    bytes::BytesMut::new()
}

/// Relies on BytesMut::len: it returns the number of bytes held.
#[verifier::external_body]
pub fn buf_len(b: &bytes::BytesMut) -> (r: usize)
    ensures
        r == buf_bytes(*b).len(),
{
    b.len()
}

/// Relies on BytesMut::split_to: afterwards `b` holds the bytes from `at`
/// on and the returned buffer holds the first `at` bytes. It panics when
/// `at` exceeds the length, so that case is excluded.
#[verifier::external_body]
pub fn buf_split_to(b: &mut bytes::BytesMut, at: usize) -> (r: bytes::BytesMut)
    requires
        at <= buf_bytes(*old(b)).len(),
    ensures
        buf_bytes(r) == buf_bytes(*old(b)).take(at as int),
        buf_bytes(*final(b)) == buf_bytes(*old(b)).skip(at as int),
{
    b.split_to(at)
}

/// Relies on BytesMut's deref to a byte slice and on slice::to_vec: the
/// copy holds the same bytes.
#[verifier::external_body]
pub fn buf_to_vec(b: &bytes::BytesMut) -> (r: Vec<u8>)
    ensures
        r@ == buf_bytes(*b),
{
    b[..].to_vec()
}

/// Relies on BytesMut::extend_from_slice: it appends the slice's bytes.
#[verifier::external_body]
pub fn buf_extend(b: &mut bytes::BytesMut, s: &Vec<u8>)
    ensures
        buf_bytes(*final(b)) == buf_bytes(*old(b)) + s@,
{
    b.extend_from_slice(&s[..])
}

/// Whether a byte sequence is well-formed UTF-8.
pub uninterp spec fn is_utf8(s: Seq<u8>) -> bool;

/// Relies on std::str::from_utf8: it returns Ok exactly on well-formed
/// UTF-8 input, and its answer depends on the bytes alone.
#[verifier::external_body]
pub fn utf8_ok(b: &Vec<u8>) -> (r: bool)
    ensures
        r == is_utf8(b@),
{
    std::str::from_utf8(&b[..]).is_ok()
}

} // verus!
