//! The bytes that a message carries.
use bytes::Bytes;
use vstd::prelude::*;

verus! {

/// `bytes::Bytes`: a cheaply shared, immutable run of bytes.
#[verifier::external_type_specification]
#[verifier::external_body]
pub struct ExBytes(Bytes);

/// The bytes that a `Bytes` holds.
pub uninterp spec fn bytes_held(data: Bytes) -> Seq<u8>;

/// `Bytes::from(Vec<u8>)`: holds the bytes of the vector.
#[verifier::external_body]
pub(crate) fn bytes_from_vec(v: Vec<u8>) -> (data: Bytes)
    ensures
        bytes_held(data) == v@,
{
    Bytes::from(v)
}

/// `<[u8]>::to_vec` on what a `Bytes` derefs to: a copy of the bytes held.
#[verifier::external_body]
pub(crate) fn bytes_to_vec(data: &Bytes) -> (v: Vec<u8>)
    ensures
        v@ == bytes_held(*data),
{
    data.to_vec()
}

/// `Bytes::clone`: another handle on the same bytes.
#[verifier::external_body]
pub(crate) fn bytes_clone(data: &Bytes) -> (copy: Bytes)
    ensures
        bytes_held(copy) == bytes_held(*data),
{
    data.clone()
}

/// `Bytes::len`: how many bytes are held.
#[verifier::external_body]
pub(crate) fn bytes_len(data: &Bytes) -> (len: usize)
    ensures
        len == bytes_held(*data).len(),
{
    data.len()
}

} // verus!
