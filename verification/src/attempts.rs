//! What holds of every attempt at a slot, in whatever run it stands: what is
//! submitted, and when a slot is skipped.

use crate::assembly::{
    lemma_block_entity, lemma_blobs_are_declared, lemma_blobs_match_their_commitments,
    slot_entities,
};
use crate::beacon::{BlockId, ExecutionPayload};
use crate::correlator::spec_versioned_hash;
use crate::entities::SlotEntitiesView;
use crate::error::{Outcome, SkipReason, SlotProcessingError};
use crate::primitives::Hash256;
use crate::protocol::{RequestView, ResponseView, StepView};
use crate::runs::{is_index, lemma_step_at, state_from, steps_from};
use crate::slots_processor::{has_commitments, react, ProcessorState, StageView};
use vstd::prelude::*;

verus! {

/// What an attempt holds in hand at each stage: the requests that led to
/// the stage, and the responses that it has kept.
pub open spec fn attempt_invariant(
    state: ProcessorState,
    responses: Seq<ResponseView>,
    steps: Seq<StepView>,
) -> bool {
    let n = responses.len() as int;
    &&& steps.len() == n + 1
    &&& match state.stage {
        StageView::AwaitingBlock { slot } => steps[n] == StepView::Call(
            RequestView::GetBlock(BlockId::Slot(slot)),
        ),
        StageView::AwaitingExecutionBlock { slot, block_hash } => {
            &&& n >= 1
            &&& steps[n - 1] == StepView::Call(RequestView::GetBlock(BlockId::Slot(slot)))
            &&& steps[n] == StepView::Call(RequestView::GetBlockWithTxs(block_hash))
            &&& names_block(responses[n - 1], block_hash)
        },
        StageView::AwaitingBlobs { slot, block_hash, execution_block } => {
            &&& n >= 2
            &&& steps[n - 2] == StepView::Call(RequestView::GetBlock(BlockId::Slot(slot)))
            &&& steps[n - 1] == StepView::Call(RequestView::GetBlockWithTxs(block_hash))
            &&& steps[n] == StepView::Call(RequestView::GetBlobs(BlockId::Slot(slot)))
            &&& names_block(responses[n - 2], block_hash)
            &&& responses[n - 1] == ResponseView::BlockWithTxs(Some(execution_block))
        },
        StageView::AwaitingIndexAck { slot } => {
            &&& steps[n] matches StepView::Call(RequestView::Index(entities))
            &&& entities.block.slot == slot
        },
        _ => true,
    }
}

/// The response is a beacon block with blob commitments whose execution
/// payload names the block `block_hash`.
pub open spec fn names_block(response: ResponseView, block_hash: Hash256) -> bool {
    response matches ResponseView::Block(Some(block)) && has_commitments(block.message.body)
        && block.message.body.execution_payload == Some(ExecutionPayload { block_hash })
}

/// Every run keeps the invariant of its attempts.
proof fn lemma_attempt_invariant(
    origin: ProcessorState,
    slot: u32,
    detect_reorgs: bool,
    responses: Seq<ResponseView>,
)
    ensures
        attempt_invariant(
            state_from(origin, slot, detect_reorgs, responses),
            responses,
            steps_from(origin, slot, detect_reorgs, responses),
        ),
    decreases responses.len(),
{
    if responses.len() > 0 {
        let shorter = responses.drop_last();
        lemma_attempt_invariant(origin, slot, detect_reorgs, shorter);
        let state = state_from(origin, slot, detect_reorgs, shorter);
        if let StageView::AwaitingBlobs { slot: current, block_hash, execution_block } =
            state.stage {
            if let ResponseView::Blobs(Some(sidecar)) = responses.last() {
                lemma_block_entity(current, block_hash, execution_block, sidecar);
            }
        }
    }
}

/// Whatever is submitted is all that the slot has to submit, built from the
/// three answers received just before: the beacon block, the execution block
/// fetched by the hash that the beacon block names, and the sidecar. The
/// block entity bears that hash. Nothing else enters: the same three answers
/// for the same slot give the same entities, whatever the processor has been
/// through.
pub proof fn lemma_submission(
    origin: ProcessorState,
    slot: u32,
    detect_reorgs: bool,
    responses: Seq<ResponseView>,
    k: int,
)
    requires
        0 <= k < responses.len(),
        is_index(steps_from(origin, slot, detect_reorgs, responses)[k + 1]),
    ensures
        ({
            let steps = steps_from(origin, slot, detect_reorgs, responses);
            let entities = steps[k + 1]->Call_0->Index_0;
            &&& k >= 2
            &&& steps[k - 2] == StepView::Call(
                RequestView::GetBlock(BlockId::Slot(entities.block.slot)),
            )
            &&& steps[k - 1] == StepView::Call(RequestView::GetBlockWithTxs(entities.block.hash))
            &&& steps[k] == StepView::Call(
                RequestView::GetBlobs(BlockId::Slot(entities.block.slot)),
            )
            &&& names_block(responses[k - 2], entities.block.hash)
            &&& responses[k - 1] matches ResponseView::BlockWithTxs(Some(execution_block))
            &&& responses[k] matches ResponseView::Blobs(Some(sidecar))
            &&& slot_entities(
                entities.block.slot,
                entities.block.hash,
                execution_block,
                sidecar,
            ) == Ok::<SlotEntitiesView, SlotProcessingError>(entities)
        }),
{
    let earlier = responses.subrange(0, k);
    lemma_step_at(origin, slot, detect_reorgs, responses, k);
    lemma_attempt_invariant(origin, slot, detect_reorgs, earlier);
    let state = state_from(origin, slot, detect_reorgs, earlier);
    let before = steps_from(origin, slot, detect_reorgs, earlier);
    let steps = steps_from(origin, slot, detect_reorgs, responses);
    if let StageView::AwaitingBlobs { slot: current, block_hash, execution_block } = state.stage {
        if let ResponseView::Blobs(Some(sidecar)) = responses[k] {
            lemma_block_entity(current, block_hash, execution_block, sidecar);
        }
        assert(before[k] == steps[k]);
        assert(before[k - 1] == steps[k - 1]);
        assert(before[k - 2] == steps[k - 2]);
        assert(earlier[k - 1] == responses[k - 1]);
        assert(earlier[k - 2] == responses[k - 2]);
    }
}

/// A slot is skipped for one reason only, which says what was missing; and
/// from the request for its beacon block to the skip the attempt has only
/// fetched: nothing was submitted.
pub proof fn lemma_skipped_slot(
    origin: ProcessorState,
    slot: u32,
    detect_reorgs: bool,
    responses: Seq<ResponseView>,
    k: int,
)
    requires
        0 <= k < responses.len(),
        steps_from(origin, slot, detect_reorgs, responses)[k + 1] matches StepView::SlotDone {
            outcome: Outcome::Skipped(_),
            ..
        },
    ensures
        ({
            let steps = steps_from(origin, slot, detect_reorgs, responses);
            let skipped = steps[k + 1]->SlotDone_slot;
            let fetch_block = StepView::Call(RequestView::GetBlock(BlockId::Slot(skipped)));
            let fetch_blobs = StepView::Call(RequestView::GetBlobs(BlockId::Slot(skipped)));
            match steps[k + 1]->SlotDone_outcome->Skipped_0 {
                SkipReason::NoBeaconBlock => {
                    &&& steps[k] == fetch_block
                    &&& responses[k] == ResponseView::Block(None)
                },
                SkipReason::NoExecutionPayload => {
                    &&& steps[k] == fetch_block
                    &&& responses[k] matches ResponseView::Block(Some(block))
                    &&& block.message.body.execution_payload.is_none()
                },
                SkipReason::NoBlobCommitments => {
                    &&& steps[k] == fetch_block
                    &&& responses[k] matches ResponseView::Block(Some(block))
                    &&& block.message.body.execution_payload.is_some()
                    &&& !has_commitments(block.message.body)
                },
                SkipReason::NoSidecar => {
                    &&& k >= 2
                    &&& steps[k - 2] == fetch_block
                    &&& steps[k - 1] matches StepView::Call(RequestView::GetBlockWithTxs(_))
                    &&& steps[k] == fetch_blobs
                    &&& responses[k] == ResponseView::Blobs(None)
                },
                SkipReason::EmptySidecar => {
                    &&& k >= 2
                    &&& steps[k - 2] == fetch_block
                    &&& steps[k - 1] matches StepView::Call(RequestView::GetBlockWithTxs(_))
                    &&& steps[k] == fetch_blobs
                    &&& responses[k] matches ResponseView::Blobs(Some(sidecar))
                    &&& sidecar.len() == 0
                },
            }
        }),
{
    let earlier = responses.subrange(0, k);
    lemma_step_at(origin, slot, detect_reorgs, responses, k);
    lemma_attempt_invariant(origin, slot, detect_reorgs, earlier);
}

/// What is missing decides how the slot ends: without a beacon block, an
/// execution payload, blob commitments, or a sidecar with items, the slot is
/// skipped for that reason.
pub proof fn lemma_skip_reasons(state: ProcessorState, response: ResponseView)
    ensures
        state.stage matches StageView::AwaitingBlock { slot } ==> (
        response matches ResponseView::Block(block) ==> (match block {
            None => react(state, response).1 == StepView::SlotDone {
                slot,
                outcome: Outcome::Skipped(SkipReason::NoBeaconBlock),
            },
            Some(block) => {
                &&& block.message.body.execution_payload.is_none() ==> react(state, response).1
                    == StepView::SlotDone {
                    slot,
                    outcome: Outcome::Skipped(SkipReason::NoExecutionPayload),
                }
                &&& block.message.body.execution_payload.is_some() && !has_commitments(
                    block.message.body,
                ) ==> react(state, response).1 == StepView::SlotDone {
                    slot,
                    outcome: Outcome::Skipped(SkipReason::NoBlobCommitments),
                }
            },
        })),
        state.stage matches StageView::AwaitingBlobs { slot, .. } ==> (
        response matches ResponseView::Blobs(blobs) ==> (match blobs {
            None => react(state, response).1 == StepView::SlotDone {
                slot,
                outcome: Outcome::Skipped(SkipReason::NoSidecar),
            },
            Some(blobs) => blobs.len() == 0 ==> react(state, response).1 == StepView::SlotDone {
                slot,
                outcome: Outcome::Skipped(SkipReason::EmptySidecar),
            },
        })),
{
}

/// A slot is reported as indexed only when its entities were submitted
/// just before and the downstream indexer accepted them.
pub proof fn lemma_indexed_slot(
    origin: ProcessorState,
    slot: u32,
    detect_reorgs: bool,
    responses: Seq<ResponseView>,
    k: int,
)
    requires
        0 <= k < responses.len(),
        steps_from(origin, slot, detect_reorgs, responses)[k + 1] matches StepView::SlotDone {
            outcome: Outcome::Indexed,
            ..
        },
    ensures
        ({
            let steps = steps_from(origin, slot, detect_reorgs, responses);
            &&& steps[k] matches StepView::Call(RequestView::Index(entities))
            &&& entities.block.slot == steps[k + 1]->SlotDone_slot
            &&& responses[k] == ResponseView::Indexed
        }),
{
    let earlier = responses.subrange(0, k);
    lemma_step_at(origin, slot, detect_reorgs, responses, k);
    lemma_attempt_invariant(origin, slot, detect_reorgs, earlier);
}

/// A slot that is processed again on the same answers is submitted as it
/// was before: two submissions that follow the same request for a beacon
/// block and the same three answers are equal, in whatever runs they stand.
pub proof fn lemma_reprocessing_submits_the_same(
    origin: ProcessorState,
    slot: u32,
    detect_reorgs: bool,
    responses: Seq<ResponseView>,
    k: int,
    other_origin: ProcessorState,
    other_slot: u32,
    other_detect_reorgs: bool,
    other_responses: Seq<ResponseView>,
    j: int,
)
    requires
        2 <= k < responses.len(),
        2 <= j < other_responses.len(),
        is_index(steps_from(origin, slot, detect_reorgs, responses)[k + 1]),
        is_index(steps_from(other_origin, other_slot, other_detect_reorgs, other_responses)[j + 1]),
        steps_from(origin, slot, detect_reorgs, responses)[k - 2] == steps_from(
            other_origin,
            other_slot,
            other_detect_reorgs,
            other_responses,
        )[j - 2],
        responses[k - 2] == other_responses[j - 2],
        responses[k - 1] == other_responses[j - 1],
        responses[k] == other_responses[j],
    ensures
        steps_from(origin, slot, detect_reorgs, responses)[k + 1] == steps_from(
            other_origin,
            other_slot,
            other_detect_reorgs,
            other_responses,
        )[j + 1],
{
    lemma_submission(origin, slot, detect_reorgs, responses, k);
    lemma_submission(other_origin, other_slot, other_detect_reorgs, other_responses, j);
}

/// Every blob that is submitted bears the versioned hash of its own
/// commitment, and stands in the sidecar that was received.
pub proof fn lemma_submitted_blobs_match_their_commitments(
    origin: ProcessorState,
    slot: u32,
    detect_reorgs: bool,
    responses: Seq<ResponseView>,
    k: int,
)
    requires
        0 <= k < responses.len(),
        is_index(steps_from(origin, slot, detect_reorgs, responses)[k + 1]),
    ensures
        ({
            let entities = steps_from(origin, slot, detect_reorgs, responses)[k
                + 1]->Call_0->Index_0;
            &&& responses[k] matches ResponseView::Blobs(Some(sidecar))
            &&& forall|n: int|
                0 <= n < entities.blobs.len() ==> {
                    let blob = #[trigger] entities.blobs[n];
                    &&& blob.versioned_hash == spec_versioned_hash(blob.commitment)
                    &&& exists|i: int|
                        0 <= i < sidecar.len() && (#[trigger] sidecar[i]).kzg_commitment
                            == blob.commitment && sidecar[i].blob == blob.data
                }
        }),
{
    lemma_submission(origin, slot, detect_reorgs, responses, k);
    let entities = steps_from(origin, slot, detect_reorgs, responses)[k + 1]->Call_0->Index_0;
    if let ResponseView::BlockWithTxs(Some(block)) = responses[k - 1] {
        if let ResponseView::Blobs(Some(sidecar)) = responses[k] {
            lemma_blobs_match_their_commitments(
                entities.block.slot,
                entities.block.hash,
                block,
                sidecar,
            );
            let built = slot_entities(entities.block.slot, entities.block.hash, block, sidecar);
            assert forall|n: int| 0 <= n < entities.blobs.len() implies {
                let blob = #[trigger] entities.blobs[n];
                &&& blob.versioned_hash == spec_versioned_hash(blob.commitment)
                &&& exists|i: int|
                    0 <= i < sidecar.len() && (#[trigger] sidecar[i]).kzg_commitment
                        == blob.commitment && sidecar[i].blob == blob.data
            } by {
                assert(built->Ok_0.blobs[n] == entities.blobs[n]);
            }
        }
    }
}

/// Every blob that is submitted names a transaction of the execution block
/// that was received, which declares the blob's versioned hash at the
/// position that the blob bears as its index.
pub proof fn lemma_submitted_blobs_are_declared(
    origin: ProcessorState,
    slot: u32,
    detect_reorgs: bool,
    responses: Seq<ResponseView>,
    k: int,
)
    requires
        0 <= k < responses.len(),
        is_index(steps_from(origin, slot, detect_reorgs, responses)[k + 1]),
    ensures
        ({
            let entities = steps_from(origin, slot, detect_reorgs, responses)[k
                + 1]->Call_0->Index_0;
            &&& k >= 1
            &&& responses[k - 1] matches ResponseView::BlockWithTxs(Some(block))
            &&& forall|n: int|
                0 <= n < entities.blobs.len() ==> {
                    let blob = #[trigger] entities.blobs[n];
                    exists|j: int|
                        {
                            &&& 0 <= j < block.transactions.len()
                            &&& (#[trigger] block.transactions[j]).hash == blob.tx_hash
                            &&& 0 <= blob.index < block.transactions[j].blob_versioned_hashes.len()
                            &&& block.transactions[j].blob_versioned_hashes[blob.index]
                                == blob.versioned_hash
                        }
                }
        }),
{
    lemma_submission(origin, slot, detect_reorgs, responses, k);
    let entities = steps_from(origin, slot, detect_reorgs, responses)[k + 1]->Call_0->Index_0;
    if let ResponseView::BlockWithTxs(Some(block)) = responses[k - 1] {
        if let ResponseView::Blobs(Some(sidecar)) = responses[k] {
            lemma_blobs_are_declared(entities.block.slot, entities.block.hash, block, sidecar);
            let built = slot_entities(entities.block.slot, entities.block.hash, block, sidecar);
            assert forall|n: int| 0 <= n < entities.blobs.len() implies {
                let blob = #[trigger] entities.blobs[n];
                exists|j: int|
                    {
                        &&& 0 <= j < block.transactions.len()
                        &&& (#[trigger] block.transactions[j]).hash == blob.tx_hash
                        &&& 0 <= blob.index < block.transactions[j].blob_versioned_hashes.len()
                        &&& block.transactions[j].blob_versioned_hashes[blob.index]
                            == blob.versioned_hash
                    }
            } by {
                assert(built->Ok_0.blobs[n] == entities.blobs[n]);
            }
        }
    }
}

} // verus!
