//! A compact binary-delta library: given a base byte sequence and a target
//! byte sequence, a patch is an ordered stream of control records that
//! reconstructs the target from the base.  This crate defines the wire
//! format (variable-length integers and control records), the encoder that
//! serializes an operation sequence, and the applier that replays a patch
//! against a base, together with proofs that the two sides are inverses
//! and that truncated streams are rejected.

use vstd::prelude::*;

pub mod varint;
pub mod control;
pub mod apply;
pub mod laws;
pub mod engine;

verus! {

/// The errors the delta engine can report.
///
/// `TruncatedInteger` is the integer codec's error: the input ended before a
/// terminating varint byte was seen.  `CorruptPatch` is the record layer's
/// error: end-of-input or malformed data anywhere inside a record other than
/// the structural start of a new record.  `VerificationMismatch` reports a
/// digest disagreement during the round-trip self check.
#[derive(Clone, Copy, Debug, PartialEq, Eq, Structural)]
pub enum PatchError {
    TruncatedInteger,
    CorruptPatch,
    VerificationMismatch,
}

} // verus!
