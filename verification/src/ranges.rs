//! What holds of every range of slots: the order in which its slots are
//! processed, that each of them is, and what is recorded at the end.

use crate::assembly::lemma_block_entity;
use crate::beacon::BlockId;
use crate::error::{ErrorKind, Outcome, SlotProcessingError, SlotsProcessorError};
use crate::protocol::{RequestView, ResponseView, StepView};
use crate::runs::{is_index, is_update_slot, lemma_run_len, lemma_step_at, run, step_slot};
use crate::slots_processor::{
    react, stage_slot, start_range, ProcessorState, SlotRange, StageView,
};
use vstd::prelude::*;

verus! {

/// All the steps of a range: the first one, which `process_slots` asks for,
/// and one for each response.
pub open spec fn range_steps(
    prior: ProcessorState,
    initial_slot: u32,
    final_slot: u32,
    responses: Seq<ResponseView>,
) -> Seq<StepView> {
    let (started, first) = start_range(prior, initial_slot, final_slot);
    seq![first] + run(started, responses).1
}

/// The state in which a range is after `responses`.
pub open spec fn range_state(
    prior: ProcessorState,
    initial_slot: u32,
    final_slot: u32,
    responses: Seq<ResponseView>,
) -> ProcessorState {
    run(start_range(prior, initial_slot, final_slot).0, responses).0
}

/// None of the steps asks for a slot to be recorded.
pub open spec fn records_nothing(steps: Seq<StepView>) -> bool {
    forall|i: int| 0 <= i < steps.len() ==> !is_update_slot(#[trigger] steps[i])
}

/// What holds between the state of a range and the steps so far. While
/// slots are being processed, no slot has been recorded. Once a slot is sent
/// to be recorded, that request is the last step and the only one of its
/// kind; the slot is the final slot of a range that went through, and the
/// slot before the one that failed of a range that is being given up.
pub open spec fn range_invariant(range: SlotRange, state: ProcessorState, steps: Seq<StepView>)
    -> bool {
    match state.stage {
        StageView::Idle => state.range.is_none(),
        StageView::AwaitingSlotUpdate { slot, failure } => {
            &&& state.range == Some(range)
            &&& steps.len() > 0
            &&& steps.last() == StepView::Call(RequestView::UpdateSlot(slot))
            &&& records_nothing(steps.drop_last())
            &&& match failure {
                None => slot == range.final_slot,
                Some((failed_slot, _)) => failed_slot > 0 && slot == failed_slot - 1,
            }
        },
        _ => state.range == Some(range) && records_nothing(steps),
    }
}

/// One more response keeps the invariant of a range.
proof fn lemma_range_step(
    range: SlotRange,
    state: ProcessorState,
    steps: Seq<StepView>,
    response: ResponseView,
)
    requires
        range_invariant(range, state, steps),
    ensures
        range_invariant(range, react(state, response).0, steps.push(react(state, response).1)),
{
    let step = react(state, response).1;
    let grown = steps.push(step);
    if !(state.stage is Idle) && !(state.stage is AwaitingSlotUpdate) {
        if !is_update_slot(step) {
            assert forall|i: int| 0 <= i < grown.len() implies !is_update_slot(
                #[trigger] grown[i],
            ) by {}
        }
    }
}

/// Every range keeps its invariant.
pub proof fn lemma_range_invariant(
    prior: ProcessorState,
    initial_slot: u32,
    final_slot: u32,
    responses: Seq<ResponseView>,
)
    ensures
        range_invariant(
            SlotRange { initial_slot, final_slot },
            range_state(prior, initial_slot, final_slot, responses),
            range_steps(prior, initial_slot, final_slot, responses),
        ),
    decreases responses.len(),
{
    let range = SlotRange { initial_slot, final_slot };
    if responses.len() > 0 {
        let shorter = responses.drop_last();
        lemma_range_invariant(prior, initial_slot, final_slot, shorter);
        let state = range_state(prior, initial_slot, final_slot, shorter);
        let steps = range_steps(prior, initial_slot, final_slot, shorter);
        lemma_range_step(range, state, steps, responses.last());
    }
}

/// The steps of a range after one more response.
proof fn lemma_range_steps_grow(
    prior: ProcessorState,
    initial_slot: u32,
    final_slot: u32,
    responses: Seq<ResponseView>,
)
    requires
        responses.len() > 0,
    ensures
        ({
            let state = range_state(prior, initial_slot, final_slot, responses.drop_last());
            let steps = range_steps(prior, initial_slot, final_slot, responses.drop_last());
            &&& range_steps(prior, initial_slot, final_slot, responses) == steps.push(
                react(state, responses.last()).1,
            )
            &&& range_state(prior, initial_slot, final_slot, responses) == react(
                state,
                responses.last(),
            ).0
            &&& steps.len() == responses.len()
        }),
{
    let state = range_state(prior, initial_slot, final_slot, responses.drop_last());
    let steps = range_steps(prior, initial_slot, final_slot, responses.drop_last());
    lemma_run_len(start_range(prior, initial_slot, final_slot).0, responses.drop_last());
    assert(range_steps(prior, initial_slot, final_slot, responses) =~= steps.push(
        react(state, responses.last()).1,
    ));
}

/// A range that goes through records its final slot as the last one
/// processed: once, as its last request, and so after every submission.
pub proof fn lemma_completed_range_records_final_slot(
    prior: ProcessorState,
    initial_slot: u32,
    final_slot: u32,
    responses: Seq<ResponseView>,
)
    requires
        range_steps(prior, initial_slot, final_slot, responses).last() == StepView::RangeDone(
            Ok(()),
        ),
    ensures
        ({
            let steps = range_steps(prior, initial_slot, final_slot, responses);
            let n = steps.len();
            &&& n >= 3
            &&& steps[n - 2] == StepView::Call(RequestView::UpdateSlot(final_slot))
            &&& forall|i: int| 0 <= i < n && is_update_slot(#[trigger] steps[i]) ==> i == n - 2
            &&& forall|i: int| 0 <= i < n && is_index(#[trigger] steps[i]) ==> i < n - 2
        }),
{
    let steps = range_steps(prior, initial_slot, final_slot, responses);
    if responses.len() > 0 {
        let shorter = responses.drop_last();
        let before = range_steps(prior, initial_slot, final_slot, shorter);
        lemma_range_invariant(prior, initial_slot, final_slot, shorter);
        lemma_range_steps_grow(prior, initial_slot, final_slot, responses);
        assert forall|i: int| 0 <= i < steps.len() && is_update_slot(
            #[trigger] steps[i],
        ) implies i == steps.len() - 2 by {
            if i < steps.len() - 2 {
                assert(before.drop_last()[i] == steps[i]);
            }
        }
    }
}

/// A range that is given up at a slot after slot 0 records the slot before
/// the one that failed, as its last request before it reports the failure,
/// and records no other slot.
pub proof fn lemma_aborted_range_records_previous_slot(
    prior: ProcessorState,
    initial_slot: u32,
    final_slot: u32,
    responses: Seq<ResponseView>,
    failed_slot: u32,
    error: SlotProcessingError,
)
    requires
        failed_slot > 0,
        range_steps(prior, initial_slot, final_slot, responses).last() == StepView::RangeDone(
            Err(
                SlotsProcessorError::FailedSlotsProcessing {
                    initial_slot,
                    final_slot,
                    failed_slot,
                    error,
                },
            ),
        ),
    ensures
        ({
            let steps = range_steps(prior, initial_slot, final_slot, responses);
            let n = steps.len();
            &&& n >= 3
            &&& steps[n - 2] == StepView::Call(RequestView::UpdateSlot((failed_slot - 1) as u32))
            &&& forall|i: int| 0 <= i < n && is_update_slot(#[trigger] steps[i]) ==> i == n - 2
        }),
{
    let steps = range_steps(prior, initial_slot, final_slot, responses);
    if responses.len() > 0 {
        let shorter = responses.drop_last();
        let before = range_steps(prior, initial_slot, final_slot, shorter);
        lemma_range_invariant(prior, initial_slot, final_slot, shorter);
        lemma_range_steps_grow(prior, initial_slot, final_slot, responses);
        assert forall|i: int| 0 <= i < steps.len() && is_update_slot(
            #[trigger] steps[i],
        ) implies i == steps.len() - 2 by {
            if i < steps.len() - 2 {
                assert(before.drop_last()[i] == steps[i]);
            }
        }
    }
}

/// A range ends only after a slot was sent to be recorded, unless it is
/// slot 0 that fails, before which there is none. Where the record could not
/// be made, that is what the range reports.
pub proof fn lemma_range_ends_after_record(
    prior: ProcessorState,
    initial_slot: u32,
    final_slot: u32,
    responses: Seq<ResponseView>,
)
    requires
        range_steps(prior, initial_slot, final_slot, responses).last() is RangeDone,
    ensures
        ({
            let steps = range_steps(prior, initial_slot, final_slot, responses);
            let n = steps.len();
            match steps.last()->RangeDone_0 {
                Ok(()) => steps[n - 2] == StepView::Call(RequestView::UpdateSlot(final_slot)),
                Err(SlotsProcessorError::FailedSlotUpdate { slot, .. }) => steps[n - 2]
                    == StepView::Call(RequestView::UpdateSlot(slot)),
                Err(SlotsProcessorError::FailedSlotsProcessing { failed_slot, .. }) => failed_slot
                    == 0 || steps[n - 2] == StepView::Call(
                    RequestView::UpdateSlot((failed_slot - 1) as u32),
                ),
            }
        }),
{
    let steps = range_steps(prior, initial_slot, final_slot, responses);
    if responses.len() == 0 {
        assert(steps =~= seq![start_range(prior, initial_slot, final_slot).1]);
    } else {
        let shorter = responses.drop_last();
        let before = range_steps(prior, initial_slot, final_slot, shorter);
        lemma_range_invariant(prior, initial_slot, final_slot, shorter);
        lemma_range_steps_grow(prior, initial_slot, final_slot, responses);
        assert(steps[steps.len() - 2] == before.last());
    }
}

/// In the direction of the range, `a` does not come after `b`.
pub open spec fn not_after(range: SlotRange, a: u32, b: u32) -> bool {
    if range.spec_detects_reorgs() {
        a <= b
    } else {
        a >= b
    }
}

/// The step belongs to the look for a reorganisation.
pub open spec fn looks_for_reorg(step: StepView) -> bool {
    step matches StepView::Call(RequestView::GetBlockHeader(_)) || step matches StepView::Call(
        RequestView::HandleReorgedSlot(_),
    )
}

/// The steps of a range keep to the range and to its direction.
pub open spec fn in_order(range: SlotRange, steps: Seq<StepView>) -> bool {
    &&& forall|i: int|
        0 <= i < steps.len() ==> (step_slot(#[trigger] steps[i]) matches Some(slot)
            ==> range.contains(slot))
    &&& forall|i: int, j: int|
        0 <= i <= j < steps.len() ==> (step_slot(#[trigger] steps[i]) matches Some(a) ==> (
        step_slot(#[trigger] steps[j]) matches Some(b) ==> not_after(range, a, b)))
    &&& !range.spec_detects_reorgs() ==> forall|i: int|
        0 <= i < steps.len() ==> !looks_for_reorg(#[trigger] steps[i])
    &&& range.spec_detects_reorgs() ==> forall|i: int|
        0 <= i < steps.len() ==> follows_the_look(steps, i)
}

/// Where the step at position `i` asks for a beacon block, the step before
/// it belongs to the look for a reorganisation at the same slot.
pub open spec fn follows_the_look(steps: Seq<StepView>, i: int) -> bool {
    steps[i] matches StepView::Call(RequestView::GetBlock(_)) ==> i >= 1
        && looks_for_reorg(steps[i - 1]) && step_slot(steps[i - 1]) == step_slot(steps[i])
}

/// What holds between the state of a range and the steps so far, as to the
/// order of the slots: the steps are in order, the slot in progress lies in
/// the range, and no step is about a later slot.
pub open spec fn order_invariant(range: SlotRange, state: ProcessorState, steps: Seq<StepView>)
    -> bool {
    &&& in_order(range, steps)
    &&& state.stage is Idle ==> state.range.is_none()
    &&& !(state.stage is Idle) ==> state.range == Some(range)
    &&& stage_slot(state.stage) matches Some(current) ==> {
        &&& range.contains(current)
        &&& forall|i: int|
            0 <= i < steps.len() ==> (step_slot(#[trigger] steps[i]) matches Some(slot)
                ==> not_after(range, slot, current))
    }
    &&& !range.spec_detects_reorgs() ==> !(state.stage is AwaitingHeader) && !(state.stage
        is AwaitingReorgAck)
    &&& state.stage matches StageView::AwaitingHeader { slot } ==> steps.len() > 0
        && steps.last() == StepView::Call(RequestView::GetBlockHeader(BlockId::Slot(slot)))
    &&& state.stage matches StageView::AwaitingReorgAck { slot, .. } ==> steps.len() > 0
        && steps.last() == StepView::Call(RequestView::HandleReorgedSlot(slot))
}

/// One more response keeps the order.
proof fn lemma_order_step(
    range: SlotRange,
    state: ProcessorState,
    steps: Seq<StepView>,
    response: ResponseView,
)
    requires
        order_invariant(range, state, steps),
    ensures
        order_invariant(range, react(state, response).0, steps.push(react(state, response).1)),
{
    let (after, step) = react(state, response);
    let grown = steps.push(step);
    if let StageView::AwaitingBlobs { slot, block_hash, execution_block } = state.stage {
        if let ResponseView::Blobs(Some(blobs)) = response {
            lemma_block_entity(slot, block_hash, execution_block, blobs);
        }
    }
    assert forall|i: int| 0 <= i < grown.len() implies (step_slot(
        #[trigger] grown[i],
    ) matches Some(slot) ==> range.contains(slot)) by {}
    assert forall|i: int, j: int| 0 <= i <= j < grown.len() implies (step_slot(
        #[trigger] grown[i],
    ) matches Some(a) ==> (step_slot(#[trigger] grown[j]) matches Some(b) ==> not_after(
        range,
        a,
        b,
    ))) by {}
    if !range.spec_detects_reorgs() {
        assert forall|i: int| 0 <= i < grown.len() implies !looks_for_reorg(
            #[trigger] grown[i],
        ) by {}
    } else {
        assert forall|i: int| 0 <= i < grown.len() implies follows_the_look(grown, i) by {
            if i < steps.len() {
                assert(follows_the_look(steps, i));
            }
        }
    }
    if let Some(current) = stage_slot(after.stage) {
        assert forall|i: int| 0 <= i < grown.len() implies (step_slot(
            #[trigger] grown[i],
        ) matches Some(slot) ==> not_after(range, slot, current)) by {}
    }
}

/// Every range keeps its slots in order.
pub proof fn lemma_order_invariant(
    prior: ProcessorState,
    initial_slot: u32,
    final_slot: u32,
    responses: Seq<ResponseView>,
)
    ensures
        order_invariant(
            SlotRange { initial_slot, final_slot },
            range_state(prior, initial_slot, final_slot, responses),
            range_steps(prior, initial_slot, final_slot, responses),
        ),
    decreases responses.len(),
{
    let range = SlotRange { initial_slot, final_slot };
    if responses.len() > 0 {
        let shorter = responses.drop_last();
        lemma_order_invariant(prior, initial_slot, final_slot, shorter);
        let state = range_state(prior, initial_slot, final_slot, shorter);
        let steps = range_steps(prior, initial_slot, final_slot, shorter);
        lemma_order_step(range, state, steps, responses.last());
        lemma_range_steps_grow(prior, initial_slot, final_slot, responses);
    }
}

/// A range from a slot to itself processes that slot and no other, and
/// looks for a reorganisation first: its first request is for the header of
/// the slot, every step that is about a slot is about that one, and no
/// beacon block is asked for before the slot was looked at for a
/// reorganisation.
pub proof fn lemma_single_slot_range(
    prior: ProcessorState,
    slot: u32,
    responses: Seq<ResponseView>,
)
    ensures
        ({
            let steps = range_steps(prior, slot, slot, responses);
            &&& steps[0] == StepView::Call(RequestView::GetBlockHeader(BlockId::Slot(slot)))
            &&& forall|i: int|
                0 <= i < steps.len() ==> (step_slot(#[trigger] steps[i]) matches Some(other)
                    ==> other == slot)
            &&& forall|i: int| 0 <= i < steps.len() ==> follows_the_look(steps, i)
        }),
{
    lemma_order_invariant(prior, slot, slot, responses);
}

/// A range whose initial slot is the greater is processed downwards, from
/// its initial slot, within its two ends, and without any look for a
/// reorganisation.
pub proof fn lemma_reverse_range(
    prior: ProcessorState,
    initial_slot: u32,
    final_slot: u32,
    responses: Seq<ResponseView>,
)
    requires
        initial_slot > final_slot,
    ensures
        ({
            let steps = range_steps(prior, initial_slot, final_slot, responses);
            &&& steps[0] == StepView::Call(RequestView::GetBlock(BlockId::Slot(initial_slot)))
            &&& forall|i: int| 0 <= i < steps.len() ==> !looks_for_reorg(#[trigger] steps[i])
            &&& forall|i: int|
                0 <= i < steps.len() ==> (step_slot(#[trigger] steps[i]) matches Some(slot)
                    ==> final_slot <= slot <= initial_slot)
            &&& forall|i: int, j: int|
                0 <= i <= j < steps.len() ==> (step_slot(#[trigger] steps[i]) matches Some(a) ==> (
                step_slot(#[trigger] steps[j]) matches Some(b) ==> a >= b))
        }),
{
    lemma_order_invariant(prior, initial_slot, final_slot, responses);
}

/// A range whose initial slot is not the greater is processed upwards, from
/// its initial slot, within its two ends, and no beacon block is asked for
/// before the slot was looked at for a reorganisation.
pub proof fn lemma_forward_range(
    prior: ProcessorState,
    initial_slot: u32,
    final_slot: u32,
    responses: Seq<ResponseView>,
)
    requires
        initial_slot <= final_slot,
    ensures
        ({
            let steps = range_steps(prior, initial_slot, final_slot, responses);
            &&& steps[0] == StepView::Call(
                RequestView::GetBlockHeader(BlockId::Slot(initial_slot)),
            )
            &&& forall|i: int|
                0 <= i < steps.len() ==> (step_slot(#[trigger] steps[i]) matches Some(slot)
                    ==> initial_slot <= slot <= final_slot)
            &&& forall|i: int, j: int|
                0 <= i <= j < steps.len() ==> (step_slot(#[trigger] steps[i]) matches Some(a) ==> (
                step_slot(#[trigger] steps[j]) matches Some(b) ==> a <= b))
            &&& forall|i: int| 0 <= i < steps.len() ==> follows_the_look(steps, i)
        }),
{
    lemma_order_invariant(prior, initial_slot, final_slot, responses);
}

/// The step reports that an attempt at `slot` ended without a failure: the
/// slot was indexed, or skipped.
pub open spec fn ends_well(step: StepView, slot: u32) -> bool {
    step matches StepView::SlotDone { slot: done, outcome } && done == slot && !(outcome
        is Failed)
}

/// Among the steps, an attempt at `slot` ended without a failure.
pub open spec fn went_through(steps: Seq<StepView>, slot: u32) -> bool {
    exists|i: int| 0 <= i < steps.len() && ends_well(#[trigger] steps[i], slot)
}

/// In the direction of the range, `a` is a slot of the range that comes
/// before `b`.
pub open spec fn comes_before(range: SlotRange, a: u32, b: u32) -> bool {
    range.contains(a) && not_after(range, a, b) && a != b
}

/// What holds between the state of a range and the steps so far, as to the
/// slots that are done: every slot before the one in progress went through,
/// and every slot of the range once the final slot is sent to be recorded.
pub open spec fn coverage_invariant(range: SlotRange, state: ProcessorState, steps: Seq<StepView>)
    -> bool {
    match state.stage {
        StageView::Idle => true,
        StageView::AwaitingSlotUpdate { failure, .. } => failure.is_none() ==> forall|slot: u32|
            range.contains(slot) ==> #[trigger] went_through(steps, slot),
        StageView::SlotFinished { slot: current, outcome } => {
            &&& forall|slot: u32|
                comes_before(range, slot, current) ==> #[trigger] went_through(steps, slot)
            &&& !(outcome is Failed) ==> went_through(steps, current)
        },
        stage => forall|slot: u32|
            comes_before(range, slot, stage_slot(stage).unwrap()) ==> #[trigger] went_through(
                steps,
                slot,
            ),
    }
}

/// What went through still did after one more step.
proof fn lemma_went_through_grows(steps: Seq<StepView>, step: StepView, slot: u32)
    requires
        went_through(steps, slot),
    ensures
        went_through(steps.push(step), slot),
{
    let i = choose|i: int| 0 <= i < steps.len() && ends_well(#[trigger] steps[i], slot);
    assert(ends_well(steps.push(step)[i], slot));
}

/// One more response keeps count of the slots that are done.
proof fn lemma_coverage_step(
    range: SlotRange,
    state: ProcessorState,
    steps: Seq<StepView>,
    response: ResponseView,
)
    requires
        order_invariant(range, state, steps),
        coverage_invariant(range, state, steps),
    ensures
        coverage_invariant(range, react(state, response).0, steps.push(react(state, response).1)),
{
    let step = react(state, response).1;
    let grown = steps.push(step);
    assert forall|slot: u32| went_through(steps, slot) implies went_through(grown, slot) by {
        lemma_went_through_grows(steps, step, slot);
    }
    if let StepView::SlotDone { slot, outcome } = step {
        if !(outcome is Failed) {
            assert(ends_well(grown[steps.len() as int], slot));
        }
    }
}

/// Every range keeps count of the slots that are done.
proof fn lemma_coverage_invariant(
    prior: ProcessorState,
    initial_slot: u32,
    final_slot: u32,
    responses: Seq<ResponseView>,
)
    ensures
        coverage_invariant(
            SlotRange { initial_slot, final_slot },
            range_state(prior, initial_slot, final_slot, responses),
            range_steps(prior, initial_slot, final_slot, responses),
        ),
    decreases responses.len(),
{
    let range = SlotRange { initial_slot, final_slot };
    if responses.len() > 0 {
        let shorter = responses.drop_last();
        lemma_coverage_invariant(prior, initial_slot, final_slot, shorter);
        lemma_order_invariant(prior, initial_slot, final_slot, shorter);
        let state = range_state(prior, initial_slot, final_slot, shorter);
        let steps = range_steps(prior, initial_slot, final_slot, shorter);
        lemma_coverage_step(range, state, steps, responses.last());
        lemma_range_steps_grow(prior, initial_slot, final_slot, responses);
    }
}

/// In a range that goes through, every slot between its two ends was
/// indexed or skipped.
pub proof fn lemma_completed_range_covers_every_slot(
    prior: ProcessorState,
    initial_slot: u32,
    final_slot: u32,
    responses: Seq<ResponseView>,
    slot: u32,
)
    requires
        range_steps(prior, initial_slot, final_slot, responses).last() == StepView::RangeDone(
            Ok(()),
        ),
        (SlotRange { initial_slot, final_slot }).contains(slot),
    ensures
        went_through(range_steps(prior, initial_slot, final_slot, responses), slot),
{
    let steps = range_steps(prior, initial_slot, final_slot, responses);
    if responses.len() > 0 {
        let shorter = responses.drop_last();
        let before = range_steps(prior, initial_slot, final_slot, shorter);
        lemma_coverage_invariant(prior, initial_slot, final_slot, shorter);
        lemma_range_invariant(prior, initial_slot, final_slot, shorter);
        lemma_range_steps_grow(prior, initial_slot, final_slot, responses);
        lemma_went_through_grows(before, steps.last(), slot);
    }
}

/// The state from which a range starts: the processor as it was, with the
/// range set and nothing in progress.
pub open spec fn range_origin(prior: ProcessorState, initial_slot: u32, final_slot: u32)
    -> ProcessorState {
    ProcessorState {
        last_block: prior.last_block,
        range: Some(SlotRange { initial_slot, final_slot }),
        stage: StageView::Idle,
    }
}

/// What holds between the state of a range and the steps so far, as to
/// failures: the end of an attempt was announced when the processor waits to
/// go on, and only a failure that may pass is put to the retry policy.
pub open spec fn retry_invariant(state: ProcessorState, steps: Seq<StepView>) -> bool {
    let n = steps.len() as int;
    match state.stage {
        StageView::SlotFinished { slot, outcome } => n >= 1 && steps[n - 1]
            == (StepView::SlotDone { slot, outcome }),
        StageView::AwaitingBackoff { slot, error } => {
            &&& n >= 2
            &&& steps[n - 2] == (StepView::SlotDone { slot, outcome: Outcome::Failed(error) })
            &&& steps[n - 1] == StepView::Call(RequestView::NextBackoff)
            &&& error.spec_kind() == ErrorKind::Transient
        },
        _ => true,
    }
}

/// Every range keeps the invariant of its failures.
proof fn lemma_retry_invariant(
    prior: ProcessorState,
    initial_slot: u32,
    final_slot: u32,
    responses: Seq<ResponseView>,
)
    ensures
        retry_invariant(
            range_state(prior, initial_slot, final_slot, responses),
            range_steps(prior, initial_slot, final_slot, responses),
        ),
        range_steps(prior, initial_slot, final_slot, responses).len() == responses.len() + 1,
    decreases responses.len(),
{
    if responses.len() > 0 {
        let shorter = responses.drop_last();
        lemma_retry_invariant(prior, initial_slot, final_slot, shorter);
        lemma_range_steps_grow(prior, initial_slot, final_slot, responses);
    } else {
        assert(range_steps(prior, initial_slot, final_slot, responses).len() == 1);
    }
}

/// The steps of a range up to a response, and the step that answers it.
proof fn lemma_range_step_at(
    prior: ProcessorState,
    initial_slot: u32,
    final_slot: u32,
    responses: Seq<ResponseView>,
    k: int,
)
    requires
        0 <= k < responses.len(),
    ensures
        ({
            let earlier = responses.subrange(0, k);
            let state = range_state(prior, initial_slot, final_slot, earlier);
            let steps = range_steps(prior, initial_slot, final_slot, responses);
            &&& steps.len() == responses.len() + 1
            &&& steps[k + 1] == react(state, responses[k]).1
            &&& steps.subrange(0, k + 1) == range_steps(prior, initial_slot, final_slot, earlier)
        }),
{
    let range = SlotRange { initial_slot, final_slot };
    lemma_step_at(
        range_origin(prior, initial_slot, final_slot),
        initial_slot,
        range.spec_detects_reorgs(),
        responses,
        k,
    );
}

/// A wait before another attempt follows only on a failure that may pass:
/// the attempt at the slot was announced as failed for that reason, the
/// retry policy was asked, and it granted the delay of the wait.
pub proof fn lemma_only_passing_failures_are_retried(
    prior: ProcessorState,
    initial_slot: u32,
    final_slot: u32,
    responses: Seq<ResponseView>,
    k: int,
)
    requires
        0 <= k < responses.len(),
        range_steps(prior, initial_slot, final_slot, responses)[k + 1] matches StepView::Call(
            RequestView::Sleep { .. },
        ),
    ensures
        ({
            let steps = range_steps(prior, initial_slot, final_slot, responses);
            &&& steps[k + 1] matches StepView::Call(RequestView::Sleep { slot, delay, error })
            &&& error.spec_kind() == ErrorKind::Transient
            &&& k >= 1
            &&& steps[k - 1] == (StepView::SlotDone { slot, outcome: Outcome::Failed(error) })
            &&& steps[k] == StepView::Call(RequestView::NextBackoff)
            &&& responses[k] == ResponseView::Backoff(Some(delay))
        }),
{
    let earlier = responses.subrange(0, k);
    lemma_range_step_at(prior, initial_slot, final_slot, responses, k);
    lemma_retry_invariant(prior, initial_slot, final_slot, earlier);
    lemma_order_invariant(prior, initial_slot, final_slot, earlier);
    let before = range_steps(prior, initial_slot, final_slot, earlier);
    let steps = range_steps(prior, initial_slot, final_slot, responses);
    assert(before[k] == steps[k]);
    if k >= 1 {
        assert(before[k - 1] == steps[k - 1]);
    }
}

/// A failure that will not pass ends the range at once: when the range is
/// told to go on after it, the slot before is sent to be recorded, or, at
/// slot 0, the failure is reported.
pub proof fn lemma_lasting_failure_ends_the_range(
    prior: ProcessorState,
    initial_slot: u32,
    final_slot: u32,
    responses: Seq<ResponseView>,
    k: int,
)
    requires
        0 <= k < responses.len(),
        range_steps(prior, initial_slot, final_slot, responses)[k] matches StepView::SlotDone {
            outcome: Outcome::Failed(error),
            ..
        } && error.spec_kind() == ErrorKind::Permanent,
        responses[k] == ResponseView::Continue,
    ensures
        ({
            let steps = range_steps(prior, initial_slot, final_slot, responses);
            let slot = steps[k]->SlotDone_slot;
            let error = steps[k]->SlotDone_outcome->Failed_0;
            steps[k + 1] == if slot > 0 {
                StepView::Call(RequestView::UpdateSlot((slot - 1) as u32))
            } else {
                StepView::RangeDone(
                    Err(
                        SlotsProcessorError::FailedSlotsProcessing {
                            initial_slot,
                            final_slot,
                            failed_slot: slot,
                            error,
                        },
                    ),
                )
            }
        }),
{
    let earlier = responses.subrange(0, k);
    lemma_range_step_at(prior, initial_slot, final_slot, responses, k);
    lemma_retry_invariant(prior, initial_slot, final_slot, earlier);
    lemma_order_invariant(prior, initial_slot, final_slot, earlier);
    let before = range_steps(prior, initial_slot, final_slot, earlier);
    let state = range_state(prior, initial_slot, final_slot, earlier);
    assert(before[k] == range_steps(prior, initial_slot, final_slot, responses)[k]);
    assert(state.stage is SlotFinished) by {
        lemma_done_is_awaited(prior, initial_slot, final_slot, earlier);
    }
}

/// Where the last step of a range announces the end of an attempt, the
/// processor waits to be told to go on.
proof fn lemma_done_is_awaited(
    prior: ProcessorState,
    initial_slot: u32,
    final_slot: u32,
    responses: Seq<ResponseView>,
)
    requires
        range_steps(prior, initial_slot, final_slot, responses).last() is SlotDone,
    ensures
        range_state(prior, initial_slot, final_slot, responses).stage is SlotFinished,
{
    if responses.len() > 0 {
        let shorter = responses.drop_last();
        lemma_range_steps_grow(prior, initial_slot, final_slot, responses);
        lemma_order_invariant(prior, initial_slot, final_slot, shorter);
    }
}

} // verus!
