use blob_indexer::beacon::BlockId;
use blob_indexer::error::{
    Call, ErrorKind, Outcome, SkipReason, SlotProcessingError, SlotsProcessorError,
};
use blob_indexer::protocol::{Request, Response, Step};
use blob_indexer::slot_processor::{
    SlotProcessor, SlotProcessorOptions, INITIAL_INTERVAL_SECS, MAX_ELAPSED_SECS,
};
use std::time::Duration;

fn timeout() -> SlotProcessingError {
    SlotProcessingError::ClientError { call: Call::GetBlock, kind: ErrorKind::Transient }
}

#[test]
fn the_usual_policy_starts_at_two_seconds_and_gives_up_after_sixty() {
    assert_eq!(INITIAL_INTERVAL_SECS, 2);
    assert_eq!(MAX_ELAPSED_SECS, 60);
    assert_eq!(
        SlotProcessorOptions::default(),
        SlotProcessorOptions { initial_interval_secs: 2, max_elapsed_secs: 60 }
    );
    let processor = SlotProcessor::try_init(None).unwrap();
    assert_eq!(processor.options(), SlotProcessorOptions::default());
    assert!(processor.slots().is_idle());
    assert_eq!(processor.slots().get_last_block(), None);
}

#[test]
fn given_options_are_kept() {
    let options = SlotProcessorOptions { initial_interval_secs: 7, max_elapsed_secs: 11 };
    let processor = SlotProcessor::try_init(Some(options)).unwrap();
    assert_eq!(processor.options(), options);
}

#[test]
fn a_timeout_is_followed_by_a_wait_of_about_the_initial_interval() {
    let mut processor = SlotProcessor::try_init(None).unwrap();
    assert_eq!(
        processor.process_slots(5, 3),
        Step::Call(Request::GetBlock(BlockId::Slot(5)))
    );
    assert_eq!(
        processor.advance(Response::Failed(ErrorKind::Transient)),
        Step::SlotDone { slot: 5, outcome: Outcome::Failed(timeout()) }
    );
    match processor.advance(Response::Continue) {
        Step::Call(Request::Sleep { slot, delay, error }) => {
            assert_eq!(slot, 5);
            assert_eq!(error, timeout());
            assert!(delay >= Duration::from_secs(1), "{:?}", delay);
            assert!(delay <= Duration::from_millis(3001), "{:?}", delay);
        }
        other => panic!("{:?}", other),
    }
    assert_eq!(
        processor.advance(Response::Resumed),
        Step::Call(Request::GetBlock(BlockId::Slot(5)))
    );
}

#[test]
fn waits_grow_from_one_attempt_to_the_next() {
    let options = SlotProcessorOptions { initial_interval_secs: 4, max_elapsed_secs: 3600 };
    let mut processor = SlotProcessor::try_init(Some(options)).unwrap();
    processor.process_slot(8);
    let mut low = 2.0f64;
    let mut high = 6.001f64;
    for _ in 0..4 {
        assert_eq!(
            processor.advance(Response::BlockHeader(None)),
            Step::Call(Request::GetBlock(BlockId::Slot(8)))
        );
        processor.advance(Response::Failed(ErrorKind::Transient));
        match processor.advance(Response::Continue) {
            Step::Call(Request::Sleep { slot: 8, delay, .. }) => {
                assert!(delay.as_secs_f64() >= low, "{:?}", delay);
                assert!(delay.as_secs_f64() <= high, "{:?}", delay);
            }
            other => panic!("{:?}", other),
        }
        assert_eq!(
            processor.advance(Response::Resumed),
            Step::Call(Request::GetBlockHeader(BlockId::Slot(8)))
        );
        low *= 1.5;
        high *= 1.5;
    }
}

#[test]
fn the_policy_counts_anew_for_each_slot() {
    let options = SlotProcessorOptions { initial_interval_secs: 4, max_elapsed_secs: 3600 };
    let mut processor = SlotProcessor::try_init(Some(options)).unwrap();
    processor.process_slots(9, 8);
    for slot in [9, 8] {
        for _ in 0..2 {
            processor.advance(Response::Failed(ErrorKind::Transient));
            match processor.advance(Response::Continue) {
                Step::Call(Request::Sleep { .. }) => {}
                other => panic!("{:?}", other),
            }
            processor.advance(Response::Resumed);
        }
        processor.advance(Response::Failed(ErrorKind::Transient));
        match processor.advance(Response::Continue) {
            Step::Call(Request::Sleep { slot: waiting, delay, .. }) => {
                assert_eq!(waiting, slot);
                assert!(delay >= Duration::from_millis(4500), "{:?}", delay);
            }
            other => panic!("{:?}", other),
        }
        processor.advance(Response::Resumed);
        assert_eq!(
            processor.advance(Response::Block(None)),
            Step::SlotDone { slot, outcome: Outcome::Skipped(SkipReason::NoBeaconBlock) }
        );
        if slot == 9 {
            assert_eq!(
                processor.advance(Response::Continue),
                Step::Call(Request::GetBlock(BlockId::Slot(8)))
            );
            processor.advance(Response::Failed(ErrorKind::Transient));
            match processor.advance(Response::Continue) {
                Step::Call(Request::Sleep { slot: 8, delay, .. }) => {
                    assert!(delay <= Duration::from_millis(6001), "{:?}", delay);
                }
                other => panic!("{:?}", other),
            }
            processor.advance(Response::Resumed);
        }
    }
    assert_eq!(processor.advance(Response::Continue), Step::Call(Request::UpdateSlot(8)));
    assert_eq!(processor.advance(Response::SlotUpdated), Step::RangeDone(Ok(())));
}

#[test]
fn a_policy_without_time_grants_no_retry() {
    let options = SlotProcessorOptions { initial_interval_secs: 2, max_elapsed_secs: 0 };
    let mut processor = SlotProcessor::try_init(Some(options)).unwrap();
    processor.process_slots(5, 3);
    processor.advance(Response::Failed(ErrorKind::Transient));
    assert_eq!(processor.advance(Response::Continue), Step::Call(Request::UpdateSlot(4)));
    assert_eq!(
        processor.advance(Response::SlotUpdated),
        Step::RangeDone(Err(SlotsProcessorError::FailedSlotsProcessing {
            initial_slot: 5,
            final_slot: 3,
            failed_slot: 5,
            error: timeout(),
        }))
    );
    assert!(processor.slots().is_idle());
}

#[test]
fn a_lasting_failure_is_not_put_to_the_policy() {
    let mut processor = SlotProcessor::try_init(None).unwrap();
    processor.process_slots(5, 3);
    processor.advance(Response::Failed(ErrorKind::Permanent));
    assert_eq!(processor.advance(Response::Continue), Step::Call(Request::UpdateSlot(4)));
}

#[test]
fn one_slot_is_the_range_from_it_to_itself() {
    let mut processor = SlotProcessor::try_init(None).unwrap();
    assert_eq!(
        processor.process_slot(77),
        Step::Call(Request::GetBlockHeader(BlockId::Slot(77)))
    );
    processor.advance(Response::BlockHeader(None));
    assert_eq!(
        processor.advance(Response::Block(None)),
        Step::SlotDone { slot: 77, outcome: Outcome::Skipped(SkipReason::NoBeaconBlock) }
    );
    assert_eq!(processor.advance(Response::Continue), Step::Call(Request::UpdateSlot(77)));
    assert_eq!(processor.advance(Response::SlotUpdated), Step::RangeDone(Ok(())));
}

#[test]
fn an_answer_for_the_policy_from_outside_is_fatal() {
    let mut processor = SlotProcessor::try_init(None).unwrap();
    processor.process_slots(5, 3);
    processor.advance(Response::Failed(ErrorKind::Transient));
    assert_eq!(processor.advance(Response::Backoff(None)), Step::Fatal);
}
