//! The event buffers that travel over the pipeline's edges.

use vstd::prelude::*;

verus! {

/// `bytes::Bytes`: a cheaply cloned, immutable byte buffer.
#[verifier::external_type_specification]
#[verifier::external_body]
pub struct ExBytes(bytes::Bytes);

/// The bytes a buffer holds.
pub uninterp spec fn content(buffer: bytes::Bytes) -> Seq<u8>;

/// `bytes::Bytes::from(Vec<u8>)`: the buffer takes over the vector and holds
/// the very bytes of it.
#[verifier::external_body]
pub(crate) fn buffer_of(data: Vec<u8>) -> (buffer: bytes::Bytes)
    ensures
        content(buffer) == data@,
{
    bytes::Bytes::from(data)
}

/// `<bytes::Bytes as AsRef<[u8]>>::as_ref`: the whole buffer as a slice.
#[verifier::external_body]
pub(crate) fn bytes_of(buffer: &bytes::Bytes) -> (data: &[u8])
    ensures
        data@ == content(*buffer),
{
    buffer.as_ref()
}

} // verus!
