//! Runs of the processor: the steps that follow from a sequence of
//! responses.

use crate::beacon::BlockId;
use crate::protocol::{RequestView, ResponseView, StepView};
use crate::slots_processor::{begin_slot, react, ProcessorState};
use vstd::prelude::*;

verus! {

/// The state that the processor reaches from `state`, and the steps that it
/// asks for on the way, when it is handed `responses` one after the other.
pub open spec fn run(state: ProcessorState, responses: Seq<ResponseView>) -> (
    ProcessorState,
    Seq<StepView>,
)
    decreases responses.len(),
{
    if responses.len() == 0 {
        (state, seq![])
    } else {
        let (before, steps) = run(state, responses.drop_last());
        let (after, step) = react(before, responses.last());
        (after, steps.push(step))
    }
}

/// The step asks for a slot to be recorded as the last one processed.
pub open spec fn is_update_slot(step: StepView) -> bool {
    step matches StepView::Call(RequestView::UpdateSlot(_))
}

/// The step submits entities to the downstream indexer.
pub open spec fn is_index(step: StepView) -> bool {
    step matches StepView::Call(RequestView::Index(_))
}

/// A run asks for one step for each response.
pub proof fn lemma_run_len(state: ProcessorState, responses: Seq<ResponseView>)
    ensures
        run(state, responses).1.len() == responses.len(),
    decreases responses.len(),
{
    if responses.len() > 0 {
        lemma_run_len(state, responses.drop_last());
    }
}

/// The slot that a step is about, where it is about one.
pub open spec fn step_slot(step: StepView) -> Option<u32> {
    match step {
        StepView::Call(RequestView::GetBlockHeader(BlockId::Slot(slot))) => Some(slot),
        StepView::Call(RequestView::HandleReorgedSlot(slot)) => Some(slot),
        StepView::Call(RequestView::GetBlock(BlockId::Slot(slot))) => Some(slot),
        StepView::Call(RequestView::GetBlobs(BlockId::Slot(slot))) => Some(slot),
        StepView::Call(RequestView::Index(entities)) => Some(entities.block.slot),
        StepView::Call(RequestView::Sleep { slot, .. }) => Some(slot),
        StepView::SlotDone { slot, .. } => Some(slot),
        _ => None,
    }
}

/// All the steps of a run that begins with an attempt at `slot`: the first
/// request, and one step for each response. Both a slot processed by itself
/// and a range begin so: `start_slot` and `start_range` are `begin_slot` on
/// a state of their own.
pub open spec fn steps_from(
    origin: ProcessorState,
    slot: u32,
    detect_reorgs: bool,
    responses: Seq<ResponseView>,
) -> Seq<StepView> {
    let (started, first) = begin_slot(origin, slot, detect_reorgs);
    seq![first] + run(started, responses).1
}

/// The state of such a run after `responses`.
pub open spec fn state_from(
    origin: ProcessorState,
    slot: u32,
    detect_reorgs: bool,
    responses: Seq<ResponseView>,
) -> ProcessorState {
    run(begin_slot(origin, slot, detect_reorgs).0, responses).0
}

/// The run up to a response, and the step that answers it.
pub proof fn lemma_step_at(
    origin: ProcessorState,
    slot: u32,
    detect_reorgs: bool,
    responses: Seq<ResponseView>,
    k: int,
)
    requires
        0 <= k < responses.len(),
    ensures
        ({
            let earlier = responses.subrange(0, k);
            let state = state_from(origin, slot, detect_reorgs, earlier);
            let steps = steps_from(origin, slot, detect_reorgs, responses);
            &&& steps.len() == responses.len() + 1
            &&& steps[k + 1] == react(state, responses[k]).1
            &&& steps.subrange(0, k + 1) == steps_from(origin, slot, detect_reorgs, earlier)
        }),
    decreases responses.len(),
{
    let started = begin_slot(origin, slot, detect_reorgs).0;
    let steps = steps_from(origin, slot, detect_reorgs, responses);
    let shorter = responses.drop_last();
    lemma_run_len(started, responses);
    lemma_run_len(started, shorter);
    if k == responses.len() - 1 {
        assert(responses.subrange(0, k) == shorter);
        assert(steps.subrange(0, k + 1) =~= steps_from(origin, slot, detect_reorgs, shorter));
    } else {
        lemma_step_at(origin, slot, detect_reorgs, shorter, k);
        assert(shorter.subrange(0, k) == responses.subrange(0, k));
        assert(steps.subrange(0, k + 1) =~= steps_from(
            origin,
            slot,
            detect_reorgs,
            shorter,
        ).subrange(0, k + 1));
    }
}

} // verus!
