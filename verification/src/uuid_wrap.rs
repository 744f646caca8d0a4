//! Trusted bridge to the `uuid` crate.
//!
//! The report is broadcast as a sixteen-byte identifier; building that
//! identifier is the one place where the library calls an outside crate.

use vstd::prelude::*;

verus! {

#[verifier::external_type_specification]
#[verifier::external_body]
pub struct ExUuid(uuid::Uuid);

/// The sixteen bytes a `Uuid` value holds.
pub uninterp spec fn uuid_bytes(u: uuid::Uuid) -> Seq<u8>;

/// Relies on `uuid::Uuid::from_bytes`, which stores the supplied bytes
/// verbatim; `uuid::Uuid::as_bytes` hands the same bytes back.
#[verifier::external_body]
pub(crate) fn uuid_from_bytes(bytes: [u8; 16]) -> (r: uuid::Uuid)
    ensures
        uuid_bytes(r) == bytes@,
{
    uuid::Uuid::from_bytes(bytes)
}

} // verus!
