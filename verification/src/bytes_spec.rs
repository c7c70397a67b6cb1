//! What is relied on of the `bytes` crate.

use vstd::prelude::*;

verus! {

/// The buffer type `bytes::Bytes`; nothing inside it is visible.
#[verifier::external_type_specification]
#[verifier::external_body]
pub struct ExBytes(bytes::Bytes);

/// The bytes that a buffer holds.
pub uninterp spec fn bytes_content(b: bytes::Bytes) -> Seq<u8>;

/// `bytes::Bytes::len` gives the number of bytes that the buffer holds.
pub assume_specification[ bytes::Bytes::len ](b: &bytes::Bytes) -> (n: usize)
    ensures
        n == bytes_content(*b).len(),
;

/// Dereferencing a `bytes::Bytes` gives a slice of the bytes that the buffer holds.
pub assume_specification[ <bytes::Bytes as core::ops::Deref>::deref ](b: &bytes::Bytes) -> (s:
    &[u8])
    ensures
        s@ == bytes_content(*b),
;

} // verus!
