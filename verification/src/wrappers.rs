//! The trusted boundary to the outside crates: `bytes::Bytes` as an
//! opaque byte container, and one checked integer cast.  Everything else
//! in this crate is verified against the contracts stated here.

use vstd::prelude::*;

verus! {

#[verifier::external_type_specification]
#[verifier::external_body]
pub struct ExBytes(bytes::Bytes);

/// The byte sequence a `bytes::Bytes` value holds.
pub uninterp spec fn bytes_view(b: bytes::Bytes) -> Seq<u8>;

/// Relies on `<Bytes as AsRef<[u8]>>::as_ref`: a `Bytes` value hands out
/// exactly the byte slice it holds.
#[verifier::external_body]
pub(crate) fn bytes_as_slice(b: &bytes::Bytes) -> (s: &[u8])
    ensures
        s@ == bytes_view(*b),
{
    b.as_ref()
}

/// Relies on `<Bytes as From<Vec<u8>>>::from`: conversion keeps the bytes
/// unchanged.
#[verifier::external_body]
pub(crate) fn bytes_from_vec(v: Vec<u8>) -> (b: bytes::Bytes)
    ensures
        bytes_view(b) == v@,
{
    bytes::Bytes::from(v)
}

/// Relies on `<Bytes as Clone>::clone`: a clone shares exactly the same
/// bytes.
pub assume_specification[ <bytes::Bytes as Clone>::clone ](b: &bytes::Bytes) -> (r: bytes::Bytes)
    ensures
        bytes_view(r) == bytes_view(*b),
;

/// Relies on `checked_int_cast`'s `as_usize_checked` for `u64`: the cast
/// succeeds, unchanged, exactly when the value fits a `usize`.
#[verifier::external_body]
pub(crate) fn u64_to_usize(x: u64) -> (r: Option<usize>)
    ensures
        x <= usize::MAX ==> r == Some(x as usize),
        x > usize::MAX ==> r is None,
{
    checked_int_cast::CheckedIntCast::as_usize_checked(x)
}

} // verus!
