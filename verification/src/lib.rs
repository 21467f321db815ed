//! Block-admission and state-transition core of a slot-based, ticket-driven
//! blockchain client.
//!
//! Given a candidate block, the library decides whether the block is
//! admissible against the current chain state and, if so, applies it to
//! produce the next state. It covers the block importer, the CoreTime
//! ledger and the chain state with its ticket accounting. Wire decoding,
//! persistent storage and transport stay outside the library.

pub mod codec;
pub mod coretime;
pub mod importer;
mod jsonval;
pub mod schema;
pub mod state;

pub use importer::Importer;
pub use schema::OpaqueHash;

use vstd::prelude::*;

verus! {

/// A fixed 32-byte identifier built from a byte slice; succeeds exactly when
/// the slice holds 32 bytes.
///
/// Relies on `<[u8; 32] as TryFrom<&[u8]>>::try_from`, which succeeds exactly
/// on slices of length 32 and copies the bytes unchanged.
#[verifier::external_body]
pub(crate) fn bytes32_from_slice(v: &[u8]) -> (r: Option<[u8; 32]>)
    ensures
        match r {
            Some(a) => v@.len() == 32 && a@ == v@,
            None => v@.len() != 32,
        },
{
    <[u8; 32]>::try_from(v).ok()
}

} // verus!
