//! Generation of fresh row identifiers.

use vstd::prelude::*;

verus! {

/// Relies on uuid::Uuid::new_v4 for id generation: a freshly drawn random
/// 128-bit identifier. Randomness promises nothing — in particular not
/// uniqueness, which the store checks for itself. Note that new_v4 reads
/// the operating system's random source and aborts the process if that
/// source fails, so in an environment without one this call — not the
/// library's own logic — can panic.
#[verifier::external_body]
pub(crate) fn fresh_uuid() -> u128 {
    uuid::Uuid::new_v4().as_u128()
}

} // verus!
