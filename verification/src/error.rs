use vstd::prelude::*;

verus! {

/// The single failure the serialization engine can report.
///
/// Conversion of attribute values is total by construction, so the only
/// runtime failure left is the output sink rejecting an append. It is fatal
/// to the current top-level write: traversal stops at once and the error is
/// handed to the caller unchanged.
#[derive(Clone, Copy, Debug, PartialEq, Eq, Structural)]
pub enum Error {
    /// The append-only output sink refused or failed a write.
    SinkWriteFailure,
}

} // verus!
