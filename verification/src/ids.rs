//! Identifiers of files and chunk records.
//!
//! Chunk records carry opaque unique identifiers; the store only ever
//! generates and copies them, it never reads anything out of them.

use vstd::prelude::*;

verus! {

/// The identifier type of files and chunk records.
#[verifier::external_type_specification]
#[verifier::external_body]
pub struct ExUuid(uuid::Uuid);

/// Relies on uuid::Uuid::new_v4: a freshly generated random identifier.
/// Nothing is assumed of its value.
#[verifier::external_body]
pub(crate) fn new_uuid() -> uuid::Uuid {
    uuid::Uuid::new_v4()
}

} // verus!
