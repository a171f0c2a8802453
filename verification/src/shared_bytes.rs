//! Byte buffers that are shared between the subscribers of a PTY: `bytes::Bytes`.
use bytes::Bytes;
use vstd::prelude::*;

verus! {

/// A cheaply clonable, immutable byte buffer. What it holds is named by `held_bytes`.
#[verifier::external_type_specification]
#[verifier::external_body]
pub struct ExBytes(bytes::Bytes);

/// The bytes that a buffer holds.
pub uninterp spec fn held_bytes(b: bytes::Bytes) -> Seq<u8>;

/// `bytes::Bytes::new` gives a buffer that holds nothing.
pub assume_specification[ bytes::Bytes::new ]() -> (b: bytes::Bytes)
    ensures
        held_bytes(b) == Seq::<u8>::empty(),
;

/// `bytes::Bytes::len` counts the bytes that are held.
pub assume_specification[ bytes::Bytes::len ](b: &bytes::Bytes) -> (n: usize)
    ensures
        n == held_bytes(*b).len(),
;

/// `Clone` for `bytes::Bytes`: both buffers hold the same bytes.
pub assume_specification[ <bytes::Bytes as Clone>::clone ](b: &bytes::Bytes) -> (copy: bytes::Bytes)
    ensures
        held_bytes(copy) == held_bytes(*b),
;

/// `From<Vec<u8>>` for `bytes::Bytes`: the buffer holds the elements of the vector.
#[verifier::external_body]
pub(crate) fn bytes_from_vec(v: Vec<u8>) -> (b: Bytes)
    ensures
        held_bytes(b) == v@,
{
    Bytes::from(v)
}

/// `bytes::Bytes::slice` with a half-open range: the buffer holds that part of the other, which
/// must lie within it.
#[verifier::external_body]
pub(crate) fn bytes_slice(b: &Bytes, from: usize, to: usize) -> (part: Bytes)
    requires
        from <= to <= held_bytes(*b).len(),
    ensures
        held_bytes(part) == held_bytes(*b).subrange(from as int, to as int),
{
    b.slice(from..to)
}

/// `Deref` of `bytes::Bytes` to a slice: the slice holds the bytes of the buffer.
#[verifier::external_body]
pub(crate) fn bytes_as_slice(b: &Bytes) -> (s: &[u8])
    ensures
        s@ == held_bytes(*b),
{
    b
}

/// Copies the bytes that a buffer holds.
pub(crate) fn bytes_to_vec(b: &Bytes) -> (v: Vec<u8>)
    ensures
        v@ == held_bytes(*b),
{
    let mut v: Vec<u8> = Vec::new();
    crate::text::push_bytes(&mut v, bytes_as_slice(b));
    assert(v@ =~= held_bytes(*b));
    v
}

} // verus!
