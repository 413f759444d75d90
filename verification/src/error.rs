//! How a slot can end, and how a range can fail.

use crate::primitives::Hash256;
use vstd::prelude::*;

verus! {

/// Whether a failure may go away by itself.
#[derive(Clone, Copy, Debug, PartialEq, Eq, Structural)]
pub enum ErrorKind {
    /// A connection failure, a timeout or a server-side error: worth
    /// another attempt.
    Transient,
    /// A refused request, a malformed answer or inconsistent data: another
    /// attempt would end the same way.
    Permanent,
}

/// The outside calls that the pipeline asks for.
#[derive(Clone, Copy, Debug, PartialEq, Eq, Structural)]
pub enum Call {
    GetBlockHeader,
    HandleReorgedSlot,
    GetBlock,
    GetBlockWithTxs,
    GetBlobs,
    Index,
}

/// Why a slot was left without being indexed, though nothing went wrong.
#[derive(Clone, Copy, Debug, PartialEq, Eq, Structural)]
pub enum SkipReason {
    NoBeaconBlock,
    NoExecutionPayload,
    NoBlobCommitments,
    NoSidecar,
    EmptySidecar,
}

impl SkipReason {
    /// The reason in words.
    pub open spec fn text(self) -> Seq<char> {
        match self {
            SkipReason::NoBeaconBlock => "no beacon block"@,
            SkipReason::NoExecutionPayload => "no execution payload"@,
            SkipReason::NoBlobCommitments => "no blob commitments"@,
            SkipReason::NoSidecar => "no sidecar"@,
            SkipReason::EmptySidecar => "empty sidecar"@,
        }
    }

    /// The reason in words, for a log.
    pub fn reason(self) -> (reason: &'static str)
        ensures
            reason@ == self.text(),
    {
        match self {
            SkipReason::NoBeaconBlock => "no beacon block",
            SkipReason::NoExecutionPayload => "no execution payload",
            SkipReason::NoBlobCommitments => "no blob commitments",
            SkipReason::NoSidecar => "no sidecar",
            SkipReason::EmptySidecar => "empty sidecar",
        }
    }
}

/// Why the processing of a slot failed.
#[derive(Clone, Copy, Debug, PartialEq, Eq)]
pub enum SlotProcessingError {
    /// An outside call failed.
    ClientError { call: Call, kind: ErrorKind },
    /// The execution node has no block with the hash that the beacon block
    /// names.
    ExecutionBlockNotFound { block_hash: Hash256 },
    /// The beacon block carries blob commitments, but no transaction of the
    /// execution block declares a blob.
    BlocksMismatch,
    /// The execution block has no number.
    MissingBlockNumber { block_hash: Hash256 },
    /// A blob-carrying transaction has no recipient.
    MissingRecipient { tx_hash: Hash256 },
    /// Two items of the sidecar have the same versioned hash.
    DuplicateVersionedHash { versioned_hash: Hash256 },
    /// The sidecar holds no blob for the versioned hash at position `index`
    /// of the transaction `tx_hash`.
    SidecarNotFound { tx_hash: Hash256, index: usize, versioned_hash: Hash256 },
}

impl SlotProcessingError {
    /// A failed call is as lasting as the caller found it; inconsistent or
    /// incomplete data is permanent.
    pub open spec fn spec_kind(self) -> ErrorKind {
        match self {
            SlotProcessingError::ClientError { kind, .. } => kind,
            _ => ErrorKind::Permanent,
        }
    }

    /// The failure in words, without the values that it carries.
    pub open spec fn text(self) -> Seq<char> {
        match self {
            SlotProcessingError::ClientError { .. } => "call failed"@,
            SlotProcessingError::ExecutionBlockNotFound { .. } => "execution block not found"@,
            SlotProcessingError::BlocksMismatch => "beacon/execution mismatch"@,
            SlotProcessingError::MissingBlockNumber { .. } => "execution block without number"@,
            SlotProcessingError::MissingRecipient { .. } => "blob transaction without recipient"@,
            SlotProcessingError::DuplicateVersionedHash { .. } => "versioned hash twice in sidecar"@,
            SlotProcessingError::SidecarNotFound { .. } => "sidecar missing for blob of tx"@,
        }
    }

    /// The failure in words, for a log.
    pub fn reason(self) -> (reason: &'static str)
        ensures
            reason@ == self.text(),
    {
        match self {
            SlotProcessingError::ClientError { .. } => "call failed",
            SlotProcessingError::ExecutionBlockNotFound { .. } => "execution block not found",
            SlotProcessingError::BlocksMismatch => "beacon/execution mismatch",
            SlotProcessingError::MissingBlockNumber { .. } => "execution block without number",
            SlotProcessingError::MissingRecipient { .. } => "blob transaction without recipient",
            SlotProcessingError::DuplicateVersionedHash { .. } => "versioned hash twice in sidecar",
            SlotProcessingError::SidecarNotFound { .. } => "sidecar missing for blob of tx",
        }
    }

    /// Whether another attempt may succeed.
    #[verifier::when_used_as_spec(spec_kind)]
    pub fn kind(self) -> (kind: ErrorKind)
        ensures
            kind == self.spec_kind(),
    {
        match self {
            SlotProcessingError::ClientError { kind, .. } => kind,
            _ => ErrorKind::Permanent,
        }
    }
}

/// How the processing of a slot ended.
#[derive(Clone, Copy, Debug, PartialEq, Eq)]
pub enum Outcome {
    /// The entities of the slot were submitted and accepted.
    Indexed,
    /// There was nothing to index.
    Skipped(SkipReason),
    Failed(SlotProcessingError),
}

/// Why the processing of a range of slots was given up.
#[derive(Clone, Copy, Debug, PartialEq, Eq)]
pub enum SlotsProcessorError {
    /// The slot `failed_slot` could not be processed.
    FailedSlotsProcessing {
        initial_slot: u32,
        final_slot: u32,
        failed_slot: u32,
        error: SlotProcessingError,
    },
    /// The last processed slot could not be recorded.
    FailedSlotUpdate { slot: u32, kind: ErrorKind },
}

} // verus!
