//! Return buffers are carried in `bytes::Bytes`, a cheaply cloneable
//! shared byte buffer. The type is opaque to verification; these wrappers
//! state exactly what each relied-on operation does to its contents.

use vstd::prelude::*;

verus! {

#[verifier::external_type_specification]
#[verifier::external_body]
pub struct ExBytes(bytes::Bytes);

/// The bytes a `bytes::Bytes` buffer holds, in order.
pub uninterp spec fn bytes_seq(b: bytes::Bytes) -> Seq<u8>;

/// Relies on `bytes::Bytes::new`: the empty buffer.
#[verifier::external_body]
pub fn bytes_new() -> (r: bytes::Bytes)
    ensures
        bytes_seq(r) == Seq::<u8>::empty(),
{
    bytes::Bytes::new()
}

/// Relies on `bytes::Bytes::copy_from_slice`: copies the slice's bytes.
#[verifier::external_body]
pub fn bytes_copy_from_slice(s: &[u8]) -> (r: bytes::Bytes)
    ensures
        bytes_seq(r) == s@,
{
    bytes::Bytes::copy_from_slice(s)
}

/// Relies on `bytes::Bytes::len`: the number of bytes held.
#[verifier::external_body]
pub fn bytes_len(b: &bytes::Bytes) -> (r: usize)
    ensures
        r == bytes_seq(*b).len(),
{
    b.len()
}

} // verus!
