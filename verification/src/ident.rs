//! Identifier generation. Entities are keyed by opaque 128-bit tokens.

use vstd::prelude::*;

verus! {

/// Relies on uuid::Uuid::new_v4: draws a fresh random version-4 UUID.
/// Nothing can be promised of a random value, so callers check for
/// themselves whatever they need of it.
#[verifier::external_body]
pub fn fresh_id() -> u128 {
    uuid::Uuid::new_v4().as_u128()
}

} // verus!
