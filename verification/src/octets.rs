//! Shared byte buffers, as `hyper` hands them out and takes them.

use hyper::body::Bytes;
use vstd::prelude::*;

verus! {

/// `hyper::body::Bytes`, a byte buffer that is cheap to clone.
#[verifier::external_type_specification]
#[verifier::external_body]
pub struct ExBytes(hyper::body::Bytes);

/// The bytes that a buffer holds, in order.
pub uninterp spec fn octets(bytes: Bytes) -> Seq<u8>;

/// `<Bytes as Deref>::deref`: the bytes that the buffer holds, as a slice.
#[verifier::external_body]
pub(crate) fn as_slice(bytes: &Bytes) -> (slice: &[u8])
    ensures
        slice@ == octets(*bytes),
{
    &**bytes
}

/// `<Bytes as From<Vec<u8>>>::from`: a buffer that takes over the vector's bytes
/// as they are.
#[verifier::external_body]
pub(crate) fn from_vec(vec: Vec<u8>) -> (bytes: Bytes)
    ensures
        octets(bytes) == vec@,
{
    Bytes::from(vec)
}

/// `<Bytes as Clone>::clone`: a second handle on the same bytes.
#[verifier::external_body]
pub(crate) fn share(bytes: &Bytes) -> (res: Bytes)
    ensures
        octets(res) == octets(*bytes),
{
    bytes.clone()
}

} // verus!
