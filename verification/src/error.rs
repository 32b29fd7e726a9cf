//! The client's error taxonomy: protocol errors carry the remote's
//! error code; the rest name the failing layer.

use vstd::prelude::*;
use crate::splinter::DecodeErr;
use crate::volume_state::StorageErr;

verus! {

/// The error codes the remote returns in its error envelope.
#[derive(Clone, Copy, Debug, PartialEq, Eq, Structural)]
pub enum GraftErrCode {
    /// The requested snapshot was garbage-collected or never existed.
    SnapshotMissing,
    /// The pushed commit was rejected.
    CommitRejected,
    /// Any other server-side failure.
    ServerErr,
}

/// A failure of a client operation.
#[derive(Clone, Copy, Debug, PartialEq, Eq, Structural)]
pub enum ClientErr {
    /// The remote answered with an error envelope.
    GraftErr(GraftErrCode),
    /// The transport failed before an answer arrived.
    HttpErr,
    /// The remote's answer did not decode.
    ProtobufDecodeErr,
    /// An offset set in an answer did not parse.
    SplinterParseErr(DecodeErr),
    /// Local storage failed.
    StorageErr(StorageErr),
    /// A local input or output operation failed.
    IoErr,
}

impl ClientErr {
    /// Whether the error is the remote reporting a missing snapshot,
    /// which ends the pull cycle.
    pub fn is_snapshot_missing(&self) -> (r: bool)
        ensures
            r == (*self == ClientErr::GraftErr(GraftErrCode::SnapshotMissing)),
    {
        match self {
            ClientErr::GraftErr(GraftErrCode::SnapshotMissing) => true,
            _ => false,
        }
    }

    /// Whether the error is the remote rejecting a commit, which marks
    /// the volume's status.
    pub fn is_commit_rejected(&self) -> (r: bool)
        ensures
            r == (*self == ClientErr::GraftErr(GraftErrCode::CommitRejected)),
    {
        match self {
            ClientErr::GraftErr(GraftErrCode::CommitRejected) => true,
            _ => false,
        }
    }
}

} // verus!
