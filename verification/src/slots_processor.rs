//! The processor of slots: the pipeline that one slot runs through, the
//! detector of reorganisations, and the driver that takes a range of slots
//! through the pipeline in order.
//!
//! The processor performs no outside call itself. It says with a `Step`
//! what is to be done next, and is told with a `Response` what came of it.

use crate::assembly::{assemble, slot_entities};
use crate::beacon::{BlobView, Block, BlockBodyView, BlockHeader, BlockId, BlockView, HeadBlockEventData};
use crate::correlator::{declarations, tx_hash_to_versioned_hashes};
use crate::error::{Call, ErrorKind, Outcome, SkipReason, SlotProcessingError, SlotsProcessorError};
use crate::execution::{ExecutionBlock, ExecutionBlockView};
use crate::primitives::Hash256;
use crate::protocol::{Request, RequestView, Response, ResponseView, Step, StepView};
use core::time::Duration;
use vstd::prelude::*;
use vstd::std_specs::convert::FromSpecImpl;

verus! {

/// A beacon block as the detector of reorganisations remembers it.
#[derive(Clone, Copy, Debug, PartialEq, Eq)]
pub struct BlockData {
    pub root: Hash256,
    pub slot: u32,
}

impl From<BlockHeader> for BlockData {
    fn from(block_header: BlockHeader) -> (data: BlockData) {
        BlockData { root: block_header.root, slot: block_header.header.message.slot }
    }
}

impl FromSpecImpl<BlockHeader> for BlockData {
    open spec fn obeys_from_spec() -> bool {
        true
    }

    open spec fn from_spec(block_header: BlockHeader) -> BlockData {
        BlockData { root: block_header.root, slot: block_header.header.message.slot }
    }
}

impl From<HeadBlockEventData> for BlockData {
    fn from(event_data: HeadBlockEventData) -> (data: BlockData) {
        BlockData { root: event_data.block, slot: event_data.slot }
    }
}

impl FromSpecImpl<HeadBlockEventData> for BlockData {
    open spec fn obeys_from_spec() -> bool {
        true
    }

    open spec fn from_spec(event_data: HeadBlockEventData) -> BlockData {
        BlockData { root: event_data.block, slot: event_data.slot }
    }
}

/// A closed range of slots with a direction: from `initial_slot` up to
/// `final_slot`, or down to it where `initial_slot` is the greater.
#[derive(Clone, Copy, Debug, PartialEq, Eq)]
pub struct SlotRange {
    pub initial_slot: u32,
    pub final_slot: u32,
}

impl SlotRange {
    /// A range that runs upwards is watched for reorganisations; one that
    /// runs downwards fills in history and is not.
    pub open spec fn spec_detects_reorgs(self) -> bool {
        self.initial_slot <= self.final_slot
    }

    /// The slot that comes after `slot` in the range, if `slot` is not the
    /// last.
    pub open spec fn spec_following(self, slot: u32) -> Option<u32> {
        if self.initial_slot <= self.final_slot {
            if slot < self.final_slot {
                Some((slot + 1) as u32)
            } else {
                None
            }
        } else {
            if slot > self.final_slot {
                Some((slot - 1) as u32)
            } else {
                None
            }
        }
    }

    /// Whether `slot` lies between the two ends of the range.
    pub open spec fn contains(self, slot: u32) -> bool {
        if self.initial_slot <= self.final_slot {
            self.initial_slot <= slot <= self.final_slot
        } else {
            self.final_slot <= slot <= self.initial_slot
        }
    }

    /// Whether the slots of the range are watched for reorganisations.
    #[verifier::when_used_as_spec(spec_detects_reorgs)]
    pub fn detects_reorgs(self) -> (detects: bool)
        ensures
            detects == self.spec_detects_reorgs(),
    {
        self.initial_slot <= self.final_slot
    }

    /// The slot to process after `slot`.
    #[verifier::when_used_as_spec(spec_following)]
    pub fn following(self, slot: u32) -> (next: Option<u32>)
        ensures
            next == self.spec_following(slot),
    {
        if self.initial_slot <= self.final_slot {
            if slot < self.final_slot {
                Some(slot + 1)
            } else {
                None
            }
        } else {
            if slot > self.final_slot {
                Some(slot - 1)
            } else {
                None
            }
        }
    }
}

/// Where the processor stands: what it has asked for and not yet heard of.
#[derive(Debug, PartialEq, Eq)]
enum Stage {
    Idle,
    AwaitingHeader { slot: u32 },
    AwaitingReorgAck { slot: u32, header: BlockData },
    AwaitingBlock { slot: u32 },
    AwaitingExecutionBlock { slot: u32, block_hash: Hash256 },
    AwaitingBlobs { slot: u32, block_hash: Hash256, execution_block: ExecutionBlock },
    AwaitingIndexAck { slot: u32 },
    SlotFinished { slot: u32, outcome: Outcome },
    AwaitingBackoff { slot: u32, error: SlotProcessingError },
    Sleeping { slot: u32 },
    AwaitingSlotUpdate { slot: u32, failure: Option<(u32, SlotProcessingError)> },
}

/// Where the processor stands, as a mathematical value.
pub enum StageView {
    /// Nothing is in progress.
    Idle,
    /// The header of `slot` was asked for, to look for a reorganisation.
    AwaitingHeader { slot: u32 },
    /// A reorganisation was found at `slot` and reported downstream;
    /// `header` is what the detector will remember once that is done.
    AwaitingReorgAck { slot: u32, header: BlockData },
    /// The beacon block of `slot` was asked for.
    AwaitingBlock { slot: u32 },
    /// The execution block that the beacon block names was asked for.
    AwaitingExecutionBlock { slot: u32, block_hash: Hash256 },
    /// The sidecar of `slot` was asked for.
    AwaitingBlobs { slot: u32, block_hash: Hash256, execution_block: ExecutionBlockView },
    /// The entities of `slot` were submitted.
    AwaitingIndexAck { slot: u32 },
    /// An attempt at `slot` within a range has ended and was announced.
    SlotFinished { slot: u32, outcome: Outcome },
    /// An attempt at `slot` failed for a passing reason; the retry policy
    /// was asked for a delay.
    AwaitingBackoff { slot: u32, error: SlotProcessingError },
    /// The next attempt at `slot` waits for its delay to pass.
    Sleeping { slot: u32 },
    /// `slot` was sent downstream as the last one processed. `failure` holds
    /// the slot that failed and why, where the range is being given up.
    AwaitingSlotUpdate { slot: u32, failure: Option<(u32, SlotProcessingError)> },
}

impl View for Stage {
    type V = StageView;

    closed spec fn view(&self) -> StageView {
        match *self {
            Stage::Idle => StageView::Idle,
            Stage::AwaitingHeader { slot } => StageView::AwaitingHeader { slot },
            Stage::AwaitingReorgAck { slot, header } => StageView::AwaitingReorgAck {
                slot,
                header,
            },
            Stage::AwaitingBlock { slot } => StageView::AwaitingBlock { slot },
            Stage::AwaitingExecutionBlock { slot, block_hash } => StageView::AwaitingExecutionBlock {
                slot,
                block_hash,
            },
            Stage::AwaitingBlobs { slot, block_hash, execution_block } => StageView::AwaitingBlobs {
                slot,
                block_hash,
                execution_block: execution_block@,
            },
            Stage::AwaitingIndexAck { slot } => StageView::AwaitingIndexAck { slot },
            Stage::SlotFinished { slot, outcome } => StageView::SlotFinished { slot, outcome },
            Stage::AwaitingBackoff { slot, error } => StageView::AwaitingBackoff { slot, error },
            Stage::Sleeping { slot } => StageView::Sleeping { slot },
            Stage::AwaitingSlotUpdate { slot, failure } => StageView::AwaitingSlotUpdate {
                slot,
                failure,
            },
        }
    }
}

/// The slot that is being processed at a stage.
pub open spec fn stage_slot(stage: StageView) -> Option<u32> {
    match stage {
        StageView::AwaitingHeader { slot } => Some(slot),
        StageView::AwaitingReorgAck { slot, .. } => Some(slot),
        StageView::AwaitingBlock { slot } => Some(slot),
        StageView::AwaitingExecutionBlock { slot, .. } => Some(slot),
        StageView::AwaitingBlobs { slot, .. } => Some(slot),
        StageView::AwaitingIndexAck { slot } => Some(slot),
        StageView::SlotFinished { slot, .. } => Some(slot),
        StageView::AwaitingBackoff { slot, .. } => Some(slot),
        StageView::Sleeping { slot } => Some(slot),
        _ => None,
    }
}

/// The processor as a mathematical value.
pub struct ProcessorState {
    /// The last beacon block that the detector of reorganisations saw.
    pub last_block: Option<BlockData>,
    /// The range that is being processed, if a range is.
    pub range: Option<SlotRange>,
    pub stage: StageView,
}

impl ProcessorState {
    /// The same processor at another stage.
    pub open spec fn at(self, stage: StageView) -> ProcessorState {
        ProcessorState { last_block: self.last_block, range: self.range, stage }
    }

    /// The same processor after the detector has seen `block`.
    pub open spec fn having_seen(self, block: BlockData) -> ProcessorState {
        ProcessorState { last_block: Some(block), range: self.range, stage: self.stage }
    }

    /// The same processor with nothing in progress.
    pub open spec fn at_rest(self) -> ProcessorState {
        ProcessorState { last_block: self.last_block, range: None, stage: StageView::Idle }
    }
}

/// The first request of an attempt at `slot`: the header, where
/// reorganisations are looked for, else the beacon block.
pub open spec fn begin_slot(state: ProcessorState, slot: u32, detect_reorgs: bool) -> (
    ProcessorState,
    StepView,
) {
    if detect_reorgs {
        (
            state.at(StageView::AwaitingHeader { slot }),
            StepView::Call(RequestView::GetBlockHeader(BlockId::Slot(slot))),
        )
    } else {
        (
            state.at(StageView::AwaitingBlock { slot }),
            StepView::Call(RequestView::GetBlock(BlockId::Slot(slot))),
        )
    }
}

/// The end of an attempt at `slot`. A slot processed by itself is done; in
/// a range the processor waits to be told to go on.
pub open spec fn finish_slot(state: ProcessorState, slot: u32, outcome: Outcome) -> (
    ProcessorState,
    StepView,
) {
    match state.range {
        None => (state.at_rest(), StepView::SlotDone { slot, outcome }),
        Some(_) => (
            state.at(StageView::SlotFinished { slot, outcome }),
            StepView::SlotDone { slot, outcome },
        ),
    }
}

/// What the failure of a range is reported as.
pub open spec fn range_failure(range: SlotRange, failed_slot: u32, error: SlotProcessingError)
    -> SlotsProcessorError {
    SlotsProcessorError::FailedSlotsProcessing {
        initial_slot: range.initial_slot,
        final_slot: range.final_slot,
        failed_slot,
        error,
    }
}

/// Gives the range up at `slot`: the slot before it is recorded as the last
/// one processed, and then the failure is reported. Before slot 0 there is no
/// slot to record.
pub open spec fn abort_range(
    state: ProcessorState,
    range: SlotRange,
    slot: u32,
    error: SlotProcessingError,
) -> (ProcessorState, StepView) {
    if slot > 0 {
        (
            state.at(
                StageView::AwaitingSlotUpdate {
                    slot: (slot - 1) as u32,
                    failure: Some((slot, error)),
                },
            ),
            StepView::Call(RequestView::UpdateSlot((slot - 1) as u32)),
        )
    } else {
        (state.at_rest(), StepView::RangeDone(Err(range_failure(range, slot, error))))
    }
}

/// Drops whatever is in progress.
pub open spec fn fatal(state: ProcessorState) -> (ProcessorState, StepView) {
    (state.at_rest(), StepView::Fatal)
}

/// Whether the body of a beacon block names at least one blob commitment.
pub open spec fn has_commitments(body: BlockBodyView) -> bool {
    match body.blob_kzg_commitments {
        Some(commitments) => commitments.len() > 0,
        None => false,
    }
}

/// The detector of reorganisations, on the header of `slot`. Without a
/// header nothing changes. A header whose parent is not the block seen last
/// shows a reorganisation, which is reported downstream first. The header
/// then becomes the block seen last, and the slot goes on to its beacon
/// block.
pub open spec fn on_header(state: ProcessorState, slot: u32, header: Option<BlockHeader>) -> (
    ProcessorState,
    StepView,
) {
    match header {
        None => begin_slot(state, slot, false),
        Some(header) => {
            let seen = BlockData { root: header.root, slot: header.header.message.slot };
            match state.last_block {
                Some(last) if header.header.message.parent_root != last.root => (
                    state.at(StageView::AwaitingReorgAck { slot, header: seen }),
                    StepView::Call(RequestView::HandleReorgedSlot(slot)),
                ),
                _ => begin_slot(state.having_seen(seen), slot, false),
            }
        },
    }
}

/// The beacon block of `slot` has arrived, or is known not to exist.
pub open spec fn on_block(state: ProcessorState, slot: u32, block: Option<BlockView>) -> (
    ProcessorState,
    StepView,
) {
    match block {
        None => finish_slot(state, slot, Outcome::Skipped(SkipReason::NoBeaconBlock)),
        Some(block) => match block.message.body.execution_payload {
            None => finish_slot(state, slot, Outcome::Skipped(SkipReason::NoExecutionPayload)),
            Some(payload) => if !has_commitments(block.message.body) {
                finish_slot(state, slot, Outcome::Skipped(SkipReason::NoBlobCommitments))
            } else {
                (
                    state.at(
                        StageView::AwaitingExecutionBlock { slot, block_hash: payload.block_hash },
                    ),
                    StepView::Call(RequestView::GetBlockWithTxs(payload.block_hash)),
                )
            },
        },
    }
}

/// The execution block has arrived, or is known not to exist. A block in
/// which no transaction declares a blob contradicts the beacon block.
pub open spec fn on_execution_block(
    state: ProcessorState,
    slot: u32,
    block_hash: Hash256,
    block: Option<ExecutionBlockView>,
) -> (ProcessorState, StepView) {
    match block {
        None => finish_slot(
            state,
            slot,
            Outcome::Failed(SlotProcessingError::ExecutionBlockNotFound { block_hash }),
        ),
        Some(block) => if declarations(block.transactions).len() == 0 {
            finish_slot(state, slot, Outcome::Failed(SlotProcessingError::BlocksMismatch))
        } else {
            (
                state.at(StageView::AwaitingBlobs { slot, block_hash, execution_block: block }),
                StepView::Call(RequestView::GetBlobs(BlockId::Slot(slot))),
            )
        },
    }
}

/// The sidecar has arrived, or is known not to exist. From a sidecar with
/// items the entities are built and submitted, all or none.
pub open spec fn on_blobs(
    state: ProcessorState,
    slot: u32,
    block_hash: Hash256,
    execution_block: ExecutionBlockView,
    blobs: Option<Seq<BlobView>>,
) -> (ProcessorState, StepView) {
    match blobs {
        None => finish_slot(state, slot, Outcome::Skipped(SkipReason::NoSidecar)),
        Some(blobs) => if blobs.len() == 0 {
            finish_slot(state, slot, Outcome::Skipped(SkipReason::EmptySidecar))
        } else {
            match slot_entities(slot, block_hash, execution_block, blobs) {
                Ok(entities) => (
                    state.at(StageView::AwaitingIndexAck { slot }),
                    StepView::Call(RequestView::Index(entities)),
                ),
                Err(error) => finish_slot(state, slot, Outcome::Failed(error)),
            }
        },
    }
}

/// The range goes on after an attempt at `slot`. After a slot that was
/// indexed or skipped comes the next slot, or, after the last, the record of
/// the final slot. A failure that may pass is put to the retry policy; any
/// other ends the range.
pub open spec fn on_continue(state: ProcessorState, slot: u32, outcome: Outcome) -> (
    ProcessorState,
    StepView,
) {
    match state.range {
        None => fatal(state),
        Some(range) => match outcome {
            Outcome::Failed(error) => if error.spec_kind() == ErrorKind::Transient {
                (
                    state.at(StageView::AwaitingBackoff { slot, error }),
                    StepView::Call(RequestView::NextBackoff),
                )
            } else {
                abort_range(state, range, slot, error)
            },
            _ => match range.spec_following(slot) {
                Some(next) => begin_slot(state, next, range.spec_detects_reorgs()),
                None => (
                    state.at(
                        StageView::AwaitingSlotUpdate { slot: range.final_slot, failure: None },
                    ),
                    StepView::Call(RequestView::UpdateSlot(range.final_slot)),
                ),
            },
        },
    }
}

/// The retry policy has answered: wait and try again, or give up.
pub open spec fn on_backoff(
    state: ProcessorState,
    slot: u32,
    error: SlotProcessingError,
    delay: Option<Duration>,
) -> (ProcessorState, StepView) {
    match state.range {
        None => fatal(state),
        Some(range) => match delay {
            Some(delay) => (
                state.at(StageView::Sleeping { slot }),
                StepView::Call(RequestView::Sleep { slot, delay, error }),
            ),
            None => abort_range(state, range, slot, error),
        },
    }
}

/// The wait is over: the slot is tried again from the start.
pub open spec fn on_resumed(state: ProcessorState, slot: u32) -> (ProcessorState, StepView) {
    match state.range {
        None => fatal(state),
        Some(range) => begin_slot(state, slot, range.spec_detects_reorgs()),
    }
}

/// The record of the last slot was made, or could not be made. Either way
/// the range is over.
pub open spec fn on_slot_update(
    state: ProcessorState,
    slot: u32,
    failure: Option<(u32, SlotProcessingError)>,
    recorded: Result<(), ErrorKind>,
) -> (ProcessorState, StepView) {
    match state.range {
        None => fatal(state),
        Some(range) => match recorded {
            Err(kind) => (
                state.at_rest(),
                StepView::RangeDone(Err(SlotsProcessorError::FailedSlotUpdate { slot, kind })),
            ),
            Ok(()) => match failure {
                Some((failed_slot, error)) => (
                    state.at_rest(),
                    StepView::RangeDone(Err(range_failure(range, failed_slot, error))),
                ),
                None => (state.at_rest(), StepView::RangeDone(Ok(()))),
            },
        },
    }
}

/// The outside call of the pipeline that a stage waits for, and the slot
/// that it is made for.
pub open spec fn outstanding_call(stage: StageView) -> Option<(Call, u32)> {
    match stage {
        StageView::AwaitingHeader { slot } => Some((Call::GetBlockHeader, slot)),
        StageView::AwaitingReorgAck { slot, .. } => Some((Call::HandleReorgedSlot, slot)),
        StageView::AwaitingBlock { slot } => Some((Call::GetBlock, slot)),
        StageView::AwaitingExecutionBlock { slot, .. } => Some((Call::GetBlockWithTxs, slot)),
        StageView::AwaitingBlobs { slot, .. } => Some((Call::GetBlobs, slot)),
        StageView::AwaitingIndexAck { slot } => Some((Call::Index, slot)),
        _ => None,
    }
}

/// What the processor does with a response: the state it moves to, and the
/// step it asks for. A response that does not answer the request that is
/// outstanding is fatal.
pub open spec fn react(state: ProcessorState, response: ResponseView) -> (ProcessorState, StepView) {
    match (state.stage, response) {
        (StageView::AwaitingHeader { slot }, ResponseView::BlockHeader(header)) => on_header(
            state,
            slot,
            header,
        ),
        (StageView::AwaitingReorgAck { slot, header }, ResponseView::ReorgHandled) => begin_slot(
            state.having_seen(header),
            slot,
            false,
        ),
        (StageView::AwaitingBlock { slot }, ResponseView::Block(block)) => on_block(
            state,
            slot,
            block,
        ),
        (
            StageView::AwaitingExecutionBlock { slot, block_hash },
            ResponseView::BlockWithTxs(block),
        ) => on_execution_block(state, slot, block_hash, block),
        (
            StageView::AwaitingBlobs { slot, block_hash, execution_block },
            ResponseView::Blobs(blobs),
        ) => on_blobs(state, slot, block_hash, execution_block, blobs),
        (StageView::AwaitingIndexAck { slot }, ResponseView::Indexed) => finish_slot(
            state,
            slot,
            Outcome::Indexed,
        ),
        (StageView::SlotFinished { slot, outcome }, ResponseView::Continue) => on_continue(
            state,
            slot,
            outcome,
        ),
        (StageView::AwaitingBackoff { slot, error }, ResponseView::Backoff(delay)) => on_backoff(
            state,
            slot,
            error,
            delay,
        ),
        (StageView::Sleeping { slot }, ResponseView::Resumed) => on_resumed(state, slot),
        (StageView::AwaitingSlotUpdate { slot, failure }, ResponseView::SlotUpdated) => {
            on_slot_update(state, slot, failure, Ok(()))
        },
        (StageView::AwaitingSlotUpdate { slot, failure }, ResponseView::Failed(kind)) => {
            on_slot_update(state, slot, failure, Err(kind))
        },
        (stage, ResponseView::Failed(kind)) => match outstanding_call(stage) {
            Some((call, slot)) => finish_slot(
                state,
                slot,
                Outcome::Failed(SlotProcessingError::ClientError { call, kind }),
            ),
            None => fatal(state),
        },
        _ => fatal(state),
    }
}

/// The start of one slot by itself.
pub open spec fn start_slot(state: ProcessorState, slot: u32, detect_reorgs: bool) -> (
    ProcessorState,
    StepView,
) {
    begin_slot(state.at_rest(), slot, detect_reorgs)
}

/// The start of a range, at its initial slot.
pub open spec fn start_range(state: ProcessorState, initial_slot: u32, final_slot: u32) -> (
    ProcessorState,
    StepView,
) {
    let range = SlotRange { initial_slot, final_slot };
    begin_slot(
        ProcessorState {
            last_block: state.last_block,
            range: Some(range),
            stage: StageView::Idle,
        },
        initial_slot,
        range.spec_detects_reorgs(),
    )
}

/// Processes slots, one by one or a range at a time. It remembers the last
/// beacon block that it saw, to notice when the chain is reorganised.
#[derive(Debug, PartialEq, Eq)]
pub struct SlotsProcessor {
    last_block: Option<BlockData>,
    range: Option<SlotRange>,
    stage: Stage,
}

impl View for SlotsProcessor {
    type V = ProcessorState;

    closed spec fn view(&self) -> ProcessorState {
        ProcessorState { last_block: self.last_block, range: self.range, stage: self.stage@ }
    }
}

impl SlotsProcessor {
    /// A processor that has seen no block and has nothing in progress.
    pub fn new() -> (processor: SlotsProcessor)
        ensures
            processor@ == (ProcessorState {
                last_block: None,
                range: None,
                stage: StageView::Idle,
            }),
    {
        SlotsProcessor { last_block: None, range: None, stage: Stage::Idle }
    }

    /// The last beacon block that the detector of reorganisations saw.
    pub fn get_last_block(&self) -> (last_block: Option<BlockData>)
        ensures
            last_block == self@.last_block,
    {
        self.last_block
    }

    /// The range that is being processed, if a range is.
    pub fn range(&self) -> (range: Option<SlotRange>)
        ensures
            range == self@.range,
    {
        self.range
    }

    /// The slot that is being processed, if one is.
    pub fn current_slot(&self) -> (slot: Option<u32>)
        ensures
            slot == stage_slot(self@.stage),
    {
        match self.stage {
            Stage::AwaitingHeader { slot } => Some(slot),
            Stage::AwaitingReorgAck { slot, .. } => Some(slot),
            Stage::AwaitingBlock { slot } => Some(slot),
            Stage::AwaitingExecutionBlock { slot, .. } => Some(slot),
            Stage::AwaitingBlobs { slot, .. } => Some(slot),
            Stage::AwaitingIndexAck { slot } => Some(slot),
            Stage::SlotFinished { slot, .. } => Some(slot),
            Stage::AwaitingBackoff { slot, .. } => Some(slot),
            Stage::Sleeping { slot } => Some(slot),
            _ => None,
        }
    }

    /// Whether nothing is in progress.
    pub fn is_idle(&self) -> (idle: bool)
        ensures
            idle == (self@.stage is Idle),
    {
        match self.stage {
            Stage::Idle => true,
            _ => false,
        }
    }

    /// Starts on `slot` by itself, with or without a look for a
    /// reorganisation first, and says what to do first. Whatever was in
    /// progress is dropped. The slot ends with `Step::SlotDone`.
    pub fn process_slot(&mut self, slot: u32, enable_reorg_detection: bool) -> (step: Step)
        ensures
            (final(self)@, step@) == start_slot(old(self)@, slot, enable_reorg_detection),
    {
        self.range = None;
        self.begin(slot, enable_reorg_detection)
    }

    /// Starts on the closed range from `initial_slot` to `final_slot`, and
    /// says what to do first. Where `initial_slot` is the greater, the range
    /// is processed downwards and without a look for reorganisations.
    /// Whatever was in progress is dropped. The range ends with
    /// `Step::RangeDone`.
    pub fn process_slots(&mut self, initial_slot: u32, final_slot: u32) -> (step: Step)
        ensures
            (final(self)@, step@) == start_range(old(self)@, initial_slot, final_slot),
    {
        let range = SlotRange { initial_slot, final_slot };
        self.range = Some(range);
        self.begin(initial_slot, range.detects_reorgs())
    }

    /// Takes the response to the call that was asked for last, and says what
    /// to do next.
    pub fn advance(&mut self, response: Response) -> (step: Step)
        ensures
            (final(self)@, step@) == react(old(self)@, response@),
    {
        let mut stage = Stage::Idle;
        core::mem::swap(&mut self.stage, &mut stage);
        match (stage, response) {
            (Stage::AwaitingHeader { slot }, Response::BlockHeader(header)) => self.header_fetched(
                slot,
                header,
            ),
            (Stage::AwaitingReorgAck { slot, header }, Response::ReorgHandled) => {
                self.last_block = Some(header);
                self.begin(slot, false)
            },
            (Stage::AwaitingBlock { slot }, Response::Block(block)) => self.block_fetched(
                slot,
                block,
            ),
            (
                Stage::AwaitingExecutionBlock { slot, block_hash },
                Response::BlockWithTxs(block),
            ) => self.execution_block_fetched(slot, block_hash, block),
            (
                Stage::AwaitingBlobs { slot, block_hash, execution_block },
                Response::Blobs(blobs),
            ) => match blobs {
                None => self.finish(slot, Outcome::Skipped(SkipReason::NoSidecar)),
                Some(blobs) => if blobs.len() == 0 {
                    self.finish(slot, Outcome::Skipped(SkipReason::EmptySidecar))
                } else {
                    match assemble(slot, block_hash, &execution_block, blobs) {
                        Ok(entities) => {
                            self.stage = Stage::AwaitingIndexAck { slot };
                            Step::Call(Request::Index(entities))
                        },
                        Err(error) => self.finish(slot, Outcome::Failed(error)),
                    }
                },
            },
            (Stage::AwaitingIndexAck { slot }, Response::Indexed) => self.finish(
                slot,
                Outcome::Indexed,
            ),
            (Stage::SlotFinished { slot, outcome }, Response::Continue) => self.go_on(
                slot,
                outcome,
            ),
            (Stage::AwaitingBackoff { slot, error }, Response::Backoff(delay)) => {
                match self.range {
                    None => self.halt(),
                    Some(range) => match delay {
                        Some(delay) => {
                            self.stage = Stage::Sleeping { slot };
                            Step::Call(Request::Sleep { slot, delay, error })
                        },
                        None => self.abort(range, slot, error),
                    },
                }
            },
            (Stage::Sleeping { slot }, Response::Resumed) => match self.range {
                None => self.halt(),
                Some(range) => self.begin(slot, range.detects_reorgs()),
            },
            (Stage::AwaitingSlotUpdate { slot, failure }, Response::SlotUpdated) => {
                self.slot_update_done(slot, failure, Ok(()))
            },
            (Stage::AwaitingSlotUpdate { slot, failure }, Response::Failed(kind)) => {
                self.slot_update_done(slot, failure, Err(kind))
            },
            (stage, Response::Failed(kind)) => {
                let outstanding = match stage {
                    Stage::AwaitingHeader { slot } => Some((Call::GetBlockHeader, slot)),
                    Stage::AwaitingReorgAck { slot, .. } => Some((Call::HandleReorgedSlot, slot)),
                    Stage::AwaitingBlock { slot } => Some((Call::GetBlock, slot)),
                    Stage::AwaitingExecutionBlock { slot, .. } => Some(
                        (Call::GetBlockWithTxs, slot),
                    ),
                    Stage::AwaitingBlobs { slot, .. } => Some((Call::GetBlobs, slot)),
                    Stage::AwaitingIndexAck { slot } => Some((Call::Index, slot)),
                    _ => None,
                };
                match outstanding {
                    Some((call, slot)) => self.finish(
                        slot,
                        Outcome::Failed(SlotProcessingError::ClientError { call, kind }),
                    ),
                    None => self.halt(),
                }
            },
            _ => self.halt(),
        }
    }

    fn begin(&mut self, slot: u32, detect_reorgs: bool) -> (step: Step)
        ensures
            (final(self)@, step@) == begin_slot(old(self)@, slot, detect_reorgs),
    {
        if detect_reorgs {
            self.stage = Stage::AwaitingHeader { slot };
            Step::Call(Request::GetBlockHeader(BlockId::Slot(slot)))
        } else {
            self.stage = Stage::AwaitingBlock { slot };
            Step::Call(Request::GetBlock(BlockId::Slot(slot)))
        }
    }

    fn finish(&mut self, slot: u32, outcome: Outcome) -> (step: Step)
        ensures
            (final(self)@, step@) == finish_slot(old(self)@, slot, outcome),
    {
        match self.range {
            None => {
                self.stage = Stage::Idle;
            },
            Some(_) => {
                self.stage = Stage::SlotFinished { slot, outcome };
            },
        }
        Step::SlotDone { slot, outcome }
    }

    fn abort(&mut self, range: SlotRange, slot: u32, error: SlotProcessingError) -> (step: Step)
        ensures
            (final(self)@, step@) == abort_range(old(self)@, range, slot, error),
    {
        if slot > 0 {
            self.stage = Stage::AwaitingSlotUpdate { slot: slot - 1, failure: Some((slot, error)) };
            Step::Call(Request::UpdateSlot(slot - 1))
        } else {
            self.range = None;
            self.stage = Stage::Idle;
            Step::RangeDone(
                Err(
                    SlotsProcessorError::FailedSlotsProcessing {
                        initial_slot: range.initial_slot,
                        final_slot: range.final_slot,
                        failed_slot: slot,
                        error,
                    },
                ),
            )
        }
    }

    fn halt(&mut self) -> (step: Step)
        ensures
            (final(self)@, step@) == fatal(old(self)@),
    {
        self.range = None;
        self.stage = Stage::Idle;
        Step::Fatal
    }

    fn header_fetched(&mut self, slot: u32, header: Option<BlockHeader>) -> (step: Step)
        ensures
            (final(self)@, step@) == on_header(old(self)@, slot, header),
    {
        match header {
            None => self.begin(slot, false),
            Some(header) => {
                let seen = BlockData::from(header);
                let reorganised = match self.last_block {
                    Some(last) => header.header.message.parent_root != last.root,
                    None => false,
                };
                if reorganised {
                    self.stage = Stage::AwaitingReorgAck { slot, header: seen };
                    Step::Call(Request::HandleReorgedSlot(slot))
                } else {
                    self.last_block = Some(seen);
                    self.begin(slot, false)
                }
            },
        }
    }

    fn block_fetched(&mut self, slot: u32, block: Option<Block>) -> (step: Step)
        ensures
            (final(self)@, step@) == on_block(
                old(self)@,
                slot,
                match block {
                    Some(block) => Some(block@),
                    None => None,
                },
            ),
    {
        let block = match block {
            Some(block) => block,
            None => {
                return self.finish(slot, Outcome::Skipped(SkipReason::NoBeaconBlock));
            },
        };
        let payload = match block.message.body.execution_payload {
            Some(payload) => payload,
            None => {
                return self.finish(slot, Outcome::Skipped(SkipReason::NoExecutionPayload));
            },
        };
        let has_kzg_blob_commitments = match &block.message.body.blob_kzg_commitments {
            Some(commitments) => commitments.len() > 0,
            None => false,
        };
        if !has_kzg_blob_commitments {
            return self.finish(slot, Outcome::Skipped(SkipReason::NoBlobCommitments));
        }
        self.stage = Stage::AwaitingExecutionBlock { slot, block_hash: payload.block_hash };
        Step::Call(Request::GetBlockWithTxs(payload.block_hash))
    }

    fn execution_block_fetched(
        &mut self,
        slot: u32,
        block_hash: Hash256,
        block: Option<ExecutionBlock>,
    ) -> (step: Step)
        ensures
            (final(self)@, step@) == on_execution_block(
                old(self)@,
                slot,
                block_hash,
                match block {
                    Some(block) => Some(block@),
                    None => None,
                },
            ),
    {
        match block {
            None => self.finish(
                slot,
                Outcome::Failed(SlotProcessingError::ExecutionBlockNotFound { block_hash }),
            ),
            Some(block) => {
                if tx_hash_to_versioned_hashes(&block).is_empty() {
                    self.finish(slot, Outcome::Failed(SlotProcessingError::BlocksMismatch))
                } else {
                    self.stage = Stage::AwaitingBlobs { slot, block_hash, execution_block: block };
                    Step::Call(Request::GetBlobs(BlockId::Slot(slot)))
                }
            },
        }
    }

    fn go_on(&mut self, slot: u32, outcome: Outcome) -> (step: Step)
        ensures
            (final(self)@, step@) == on_continue(old(self)@, slot, outcome),
    {
        let range = match self.range {
            Some(range) => range,
            None => {
                return self.halt();
            },
        };
        match outcome {
            Outcome::Failed(error) => match error.kind() {
                ErrorKind::Transient => {
                    self.stage = Stage::AwaitingBackoff { slot, error };
                    Step::Call(Request::NextBackoff)
                },
                ErrorKind::Permanent => self.abort(range, slot, error),
            },
            _ => match range.following(slot) {
                Some(next) => self.begin(next, range.detects_reorgs()),
                None => {
                    self.stage = Stage::AwaitingSlotUpdate {
                        slot: range.final_slot,
                        failure: None,
                    };
                    Step::Call(Request::UpdateSlot(range.final_slot))
                },
            },
        }
    }

    fn slot_update_done(
        &mut self,
        slot: u32,
        failure: Option<(u32, SlotProcessingError)>,
        recorded: Result<(), ErrorKind>,
    ) -> (step: Step)
        ensures
            (final(self)@, step@) == on_slot_update(old(self)@, slot, failure, recorded),
    {
        let range = match self.range {
            Some(range) => range,
            None => {
                return self.halt();
            },
        };
        self.range = None;
        self.stage = Stage::Idle;
        match recorded {
            Err(kind) => Step::RangeDone(Err(SlotsProcessorError::FailedSlotUpdate { slot, kind })),
            Ok(()) => match failure {
                Some((failed_slot, error)) => Step::RangeDone(
                    Err(
                        SlotsProcessorError::FailedSlotsProcessing {
                            initial_slot: range.initial_slot,
                            final_slot: range.final_slot,
                            failed_slot,
                            error,
                        },
                    ),
                ),
                None => Step::RangeDone(Ok(())),
            },
        }
    }
}

} // verus!
