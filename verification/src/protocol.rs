//! The conversation between the processor and whoever performs its outside
//! calls: the processor asks with a `Request`, and is told what came of it
//! with a `Response`.

use crate::beacon::{blob_views, Blob, BlobView, Block, BlockHeader, BlockId, BlockView};
use crate::entities::{SlotEntities, SlotEntitiesView};
use crate::error::{ErrorKind, Outcome, SlotProcessingError, SlotsProcessorError};
use crate::execution::{ExecutionBlock, ExecutionBlockView};
use crate::primitives::Hash256;
use core::time::Duration;
use vstd::prelude::*;

verus! {

/// An outside call that the processor asks for.
#[derive(Debug, PartialEq, Eq)]
pub enum Request {
    /// Fetch the header of a beacon block.
    GetBlockHeader(BlockId),
    /// Tell the downstream indexer that the chain was reorganised at a slot.
    HandleReorgedSlot(u32),
    /// Fetch a beacon block.
    GetBlock(BlockId),
    /// Fetch the execution block with this hash, with its transactions.
    GetBlockWithTxs(Hash256),
    /// Fetch the blob sidecar of a beacon block.
    GetBlobs(BlockId),
    /// Submit the entities of a slot to the downstream indexer, all at once.
    Index(SlotEntities),
    /// Ask the retry policy how long to wait before the next attempt.
    NextBackoff,
    /// Wait for `delay`, then try `slot` again; `error` is why the last
    /// attempt failed.
    Sleep { slot: u32, delay: Duration, error: SlotProcessingError },
    /// Record this slot with the downstream indexer as the last one
    /// processed.
    UpdateSlot(u32),
}

/// What came of the call that the processor asked for last.
#[derive(Debug, PartialEq, Eq)]
pub enum Response {
    /// The header, or `None` where the beacon node has none.
    BlockHeader(Option<BlockHeader>),
    /// The downstream indexer took note of the reorganisation.
    ReorgHandled,
    /// The beacon block, or `None` where the beacon node has none.
    Block(Option<Block>),
    /// The execution block, or `None` where the execution node has none.
    BlockWithTxs(Option<ExecutionBlock>),
    /// The sidecar, or `None` where the beacon node has none.
    Blobs(Option<Vec<Blob>>),
    /// The downstream indexer accepted the entities.
    Indexed,
    /// The delay that the retry policy allows, or `None` where it allows no
    /// further attempt.
    Backoff(Option<Duration>),
    /// The wait is over.
    Resumed,
    /// The downstream indexer recorded the slot.
    SlotUpdated,
    /// The end of a slot was taken note of; the range may go on.
    Continue,
    /// The call failed.
    Failed(ErrorKind),
}

/// What the processor wants next.
#[derive(Debug, PartialEq, Eq)]
pub enum Step {
    /// Perform this call, and hand the response to `advance`.
    Call(Request),
    /// An attempt at a slot has ended. Within a range the processor waits
    /// for `Response::Continue`; a slot processed by itself is done.
    SlotDone { slot: u32, outcome: Outcome },
    /// The range is done.
    RangeDone(Result<(), SlotsProcessorError>),
    /// The response did not answer the outstanding request. The processor
    /// has dropped what it was doing.
    Fatal,
}

/// A request as a mathematical value.
pub enum RequestView {
    GetBlockHeader(BlockId),
    HandleReorgedSlot(u32),
    GetBlock(BlockId),
    GetBlockWithTxs(Hash256),
    GetBlobs(BlockId),
    Index(SlotEntitiesView),
    NextBackoff,
    Sleep { slot: u32, delay: Duration, error: SlotProcessingError },
    UpdateSlot(u32),
}

/// A response as a mathematical value.
pub enum ResponseView {
    BlockHeader(Option<BlockHeader>),
    ReorgHandled,
    Block(Option<BlockView>),
    BlockWithTxs(Option<ExecutionBlockView>),
    Blobs(Option<Seq<BlobView>>),
    Indexed,
    Backoff(Option<Duration>),
    Resumed,
    SlotUpdated,
    Continue,
    Failed(ErrorKind),
}

/// A step as a mathematical value.
pub enum StepView {
    Call(RequestView),
    SlotDone { slot: u32, outcome: Outcome },
    RangeDone(Result<(), SlotsProcessorError>),
    Fatal,
}

impl View for Request {
    type V = RequestView;

    open spec fn view(&self) -> RequestView {
        match *self {
            Request::GetBlockHeader(id) => RequestView::GetBlockHeader(id),
            Request::HandleReorgedSlot(slot) => RequestView::HandleReorgedSlot(slot),
            Request::GetBlock(id) => RequestView::GetBlock(id),
            Request::GetBlockWithTxs(hash) => RequestView::GetBlockWithTxs(hash),
            Request::GetBlobs(id) => RequestView::GetBlobs(id),
            Request::Index(entities) => RequestView::Index(entities@),
            Request::NextBackoff => RequestView::NextBackoff,
            Request::Sleep { slot, delay, error } => RequestView::Sleep { slot, delay, error },
            Request::UpdateSlot(slot) => RequestView::UpdateSlot(slot),
        }
    }
}

impl View for Response {
    type V = ResponseView;

    open spec fn view(&self) -> ResponseView {
        match *self {
            Response::BlockHeader(header) => ResponseView::BlockHeader(header),
            Response::ReorgHandled => ResponseView::ReorgHandled,
            Response::Block(block) => ResponseView::Block(
                match block {
                    Some(block) => Some(block@),
                    None => None,
                },
            ),
            Response::BlockWithTxs(block) => ResponseView::BlockWithTxs(
                match block {
                    Some(block) => Some(block@),
                    None => None,
                },
            ),
            Response::Blobs(blobs) => ResponseView::Blobs(
                match blobs {
                    Some(blobs) => Some(blob_views(blobs@)),
                    None => None,
                },
            ),
            Response::Indexed => ResponseView::Indexed,
            Response::Backoff(delay) => ResponseView::Backoff(delay),
            Response::Resumed => ResponseView::Resumed,
            Response::SlotUpdated => ResponseView::SlotUpdated,
            Response::Continue => ResponseView::Continue,
            Response::Failed(kind) => ResponseView::Failed(kind),
        }
    }
}

impl View for Step {
    type V = StepView;

    open spec fn view(&self) -> StepView {
        match *self {
            Step::Call(request) => StepView::Call(request@),
            Step::SlotDone { slot, outcome } => StepView::SlotDone { slot, outcome },
            Step::RangeDone(result) => StepView::RangeDone(result),
            Step::Fatal => StepView::Fatal,
        }
    }
}

} // verus!
