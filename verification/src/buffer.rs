use vstd::prelude::*;

use bytes::Bytes;

verus! {

// `bytes::Bytes` is the reference-counted, cheaply sliceable byte buffer
// that column chunks hold. The type is opaque to the verifier, so its
// contents are named by `bytes_view` and every operation the library uses
// goes through a wrapper whose contract states how it acts on that view.
#[verifier::external_type_specification]
#[verifier::external_body]
pub struct ExBytes(Bytes);

/// The byte sequence a `Bytes` buffer holds.
pub uninterp spec fn bytes_view(b: Bytes) -> Seq<u8>;

/// Relies on `<Bytes as From<Vec<u8>>>::from`: the buffer takes over the
/// vector's bytes unchanged.
#[verifier::external_body]
pub fn bytes_from_vec(v: Vec<u8>) -> (r: Bytes)
    ensures
        bytes_view(r) == v@,
{
    Bytes::from(v)
}

/// Relies on `Bytes::len`: the number of bytes the buffer holds.
#[verifier::external_body]
pub fn bytes_len(b: &Bytes) -> (r: usize)
    ensures
        r == bytes_view(*b).len(),
{
    b.len()
}

/// Relies on `Bytes::slice`: an O(1) handle onto the bytes at
/// `[start, end)` of the same buffer; panics outside `0 <= start <= end
/// <= len`, which the precondition rules out.
#[verifier::external_body]
pub fn bytes_slice(b: &Bytes, start: usize, end: usize) -> (r: Bytes)
    requires
        start <= end,
        end <= bytes_view(*b).len(),
    ensures
        bytes_view(r) == bytes_view(*b).subrange(start as int, end as int),
{
    b.slice(start..end)
}

/// Relies on `<Bytes as Clone>::clone`: a second handle onto the same
/// bytes.
#[verifier::external_body]
pub fn bytes_clone(b: &Bytes) -> (r: Bytes)
    ensures
        bytes_view(r) == bytes_view(*b),
{
    b.clone()
}

} // verus!
