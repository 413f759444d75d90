//! The processor of slots under a retry policy: an attempt that fails for a
//! passing reason is made again after the delay that the policy grants, for
//! as long as the policy grants one.

use crate::error::SlotsProcessorError;
use crate::protocol::{Request, RequestView, Response, ResponseView, Step, StepView};
use crate::retry::{build_backoff, next_backoff, reset_backoff};
use crate::slots_processor::{
    react, start_range, ProcessorState, SlotsProcessor, StageView,
};
use core::time::Duration;
use vstd::prelude::*;

verus! {

/// The delay around which the first retry of a slot waits, in seconds.
pub const INITIAL_INTERVAL_SECS: u32 = 2;

/// The time after which a slot is not tried again, in seconds.
pub const MAX_ELAPSED_SECS: u64 = 60;

/// How a slot is retried: with delays that grow exponentially from around
/// `initial_interval_secs`, until `max_elapsed_secs` have passed since the
/// first attempt.
#[derive(Clone, Copy, Debug, PartialEq, Eq)]
pub struct SlotProcessorOptions {
    pub initial_interval_secs: u32,
    pub max_elapsed_secs: u64,
}

impl Default for SlotProcessorOptions {
    fn default() -> (options: SlotProcessorOptions)
        ensures
            options == (SlotProcessorOptions {
                initial_interval_secs: INITIAL_INTERVAL_SECS,
                max_elapsed_secs: MAX_ELAPSED_SECS,
            }),
    {
        SlotProcessorOptions {
            initial_interval_secs: INITIAL_INTERVAL_SECS,
            max_elapsed_secs: MAX_ELAPSED_SECS,
        }
    }
}

/// What comes of a step of the inner processor once the retry policy has
/// had its say: a question for the policy is answered with some delay, or
/// with none, and the processor has gone on from there; any other step
/// stands as it is.
pub open spec fn settled(
    asked: (ProcessorState, StepView),
    result: (ProcessorState, StepView),
) -> bool {
    if asked.1 == StepView::Call(RequestView::NextBackoff) {
        exists|delay: Option<Duration>| result == #[trigger] react(asked.0, ResponseView::Backoff(delay))
    } else {
        result == asked
    }
}

/// Processes ranges of slots, and retries a slot that fails for a passing
/// reason.
#[derive(Debug)]
pub struct SlotProcessor {
    options: SlotProcessorOptions,
    backoff: backoff::ExponentialBackoff,
    slots: SlotsProcessor,
    armed_for: Option<u32>,
}

impl View for SlotProcessor {
    type V = ProcessorState;

    closed spec fn view(&self) -> ProcessorState {
        self.slots@
    }
}

impl SlotProcessor {
    /// The options that the processor was made with.
    pub closed spec fn spec_options(&self) -> SlotProcessorOptions {
        self.options
    }

    /// A processor with the given options, or with the usual ones: a first
    /// delay of about 2 seconds, and 60 seconds for all attempts at a slot.
    /// It has seen no block and has nothing in progress.
    pub fn try_init(options: Option<SlotProcessorOptions>) -> (processor: Result<
        SlotProcessor,
        SlotsProcessorError,
    >)
        ensures
            processor matches Ok(processor) && processor@ == (ProcessorState {
                last_block: None,
                range: None,
                stage: StageView::Idle,
            }) && processor.spec_options() == (match options {
                Some(options) => options,
                None => SlotProcessorOptions {
                    initial_interval_secs: INITIAL_INTERVAL_SECS,
                    max_elapsed_secs: MAX_ELAPSED_SECS,
                },
            }),
    {
        let options = match options {
            Some(options) => options,
            None => SlotProcessorOptions::default(),
        };
        Ok(
            SlotProcessor {
                options,
                backoff: build_backoff(options.initial_interval_secs, options.max_elapsed_secs),
                slots: SlotsProcessor::new(),
                armed_for: None,
            },
        )
    }

    /// The options that the processor was made with.
    #[verifier::when_used_as_spec(spec_options)]
    pub fn options(&self) -> (options: SlotProcessorOptions)
        ensures
            options == self.spec_options(),
    {
        self.options
    }

    /// The processor of slots within.
    pub fn slots(&self) -> (slots: &SlotsProcessor)
        ensures
            slots@ == self@,
    {
        &self.slots
    }

    /// Starts on the closed range from `initial_slot` to `final_slot`, and
    /// says what to do first. Where `initial_slot` is the greater, the range
    /// is processed downwards and without a look for reorganisations.
    pub fn process_slots(&mut self, initial_slot: u32, final_slot: u32) -> (step: Step)
        ensures
            (final(self)@, step@) == start_range(old(self)@, initial_slot, final_slot),
            final(self).spec_options() == old(self).spec_options(),
    {
        let step = self.slots.process_slots(initial_slot, final_slot);
        reset_backoff(&mut self.backoff);
        self.armed_for = Some(initial_slot);
        step
    }

    /// Starts on one slot: the range from `slot` to itself.
    pub fn process_slot(&mut self, slot: u32) -> (step: Step)
        ensures
            (final(self)@, step@) == start_range(old(self)@, slot, slot),
            final(self).spec_options() == old(self).spec_options(),
    {
        self.process_slots(slot, slot)
    }

    /// Takes the response to the call that was asked for last, and says what
    /// to do next. Where the processor within has a question for the retry
    /// policy, the policy is asked here, and the answer is handed on: the
    /// step is then to wait, or what follows from giving the range up. The
    /// policy starts counting anew with the first attempt at each slot.
    pub fn advance(&mut self, response: Response) -> (step: Step)
        ensures
            settled(react(old(self)@, response@), (final(self)@, step@)),
            step@ != StepView::Call(RequestView::NextBackoff),
            final(self).spec_options() == old(self).spec_options(),
    {
        let ghost asked = react(old(self)@, response@);
        let step = self.slots.advance(response);
        let step = match step {
            Step::Call(Request::NextBackoff) => {
                let delay = next_backoff(&mut self.backoff);
                let step = self.slots.advance(Response::Backoff(delay));
                assert((self.slots@, step@) == react(asked.0, ResponseView::Backoff(delay)));
                step
            },
            step => step,
        };
        match self.slots.current_slot() {
            Some(slot) => {
                let armed = match self.armed_for {
                    Some(armed_for) => armed_for == slot,
                    None => false,
                };
                if !armed {
                    reset_backoff(&mut self.backoff);
                    self.armed_for = Some(slot);
                }
            },
            None => {},
        }
        step
    }
}

} // verus!
