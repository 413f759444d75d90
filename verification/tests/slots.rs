use blob_indexer::beacon::{
    Blob, Block, BlockBody, BlockHeader, BlockHeaderMessage, BlockId, BlockMessage,
    ExecutionPayload, InnerBlockHeader,
};
use blob_indexer::correlator::versioned_hash;
use blob_indexer::entities::{BlobEntity, BlockEntity, SlotEntities, TransactionEntity};
use blob_indexer::error::{Call, ErrorKind, Outcome, SkipReason, SlotProcessingError};
use blob_indexer::execution::{ExecutionBlock, ExecutionTransaction};
use blob_indexer::primitives::{Address, Hash256, Uint256};
use blob_indexer::protocol::{Request, Response, Step};
use blob_indexer::slots_processor::{BlockData, SlotsProcessor};
use std::time::Duration;

fn hash(byte: u8) -> Hash256 {
    Hash256 { bytes: [byte; 32] }
}

fn commitment() -> Vec<u8> {
    vec![0xc0; 48]
}

fn beacon_block(slot: u32, payload: Option<u8>, commitments: Option<Vec<Vec<u8>>>) -> Block {
    Block {
        message: BlockMessage {
            slot,
            body: BlockBody {
                execution_payload: payload.map(|b| ExecutionPayload { block_hash: hash(b) }),
                blob_kzg_commitments: commitments,
            },
            parent_root: hash(0),
        },
    }
}

fn full_block(slot: u32) -> Block {
    beacon_block(slot, Some(0xaa), Some(vec![commitment()]))
}

fn execution_block(declared: Vec<Hash256>) -> ExecutionBlock {
    ExecutionBlock {
        hash: Some(hash(0xaa)),
        number: Some(900),
        timestamp: Uint256 { limbs: [1700000000, 0, 0, 0] },
        transactions: vec![ExecutionTransaction {
            hash: hash(0x77),
            from: Address { bytes: [1; 20] },
            to: Some(Address { bytes: [2; 20] }),
            blob_versioned_hashes: declared,
        }],
    }
}

fn sidecar() -> Vec<Blob> {
    vec![Blob { index: "0".to_string(), kzg_commitment: commitment(), blob: vec![0xb0; 16] }]
}

fn entities(slot: u32) -> SlotEntities {
    SlotEntities {
        block: BlockEntity {
            hash: hash(0xaa),
            slot,
            number: 900,
            timestamp: Uint256 { limbs: [1700000000, 0, 0, 0] },
        },
        transactions: vec![TransactionEntity {
            hash: hash(0x77),
            block_number: 900,
            from: Address { bytes: [1; 20] },
            to: Address { bytes: [2; 20] },
        }],
        blobs: vec![BlobEntity {
            versioned_hash: versioned_hash(&commitment()),
            commitment: commitment(),
            data: vec![0xb0; 16],
            index: 0,
            tx_hash: hash(0x77),
        }],
    }
}

fn header(root: u8, parent_root: u8, slot: u32) -> BlockHeader {
    BlockHeader {
        root: hash(root),
        header: InnerBlockHeader {
            message: BlockHeaderMessage { parent_root: hash(parent_root), slot },
        },
    }
}

fn done(slot: u32, outcome: Outcome) -> Step {
    Step::SlotDone { slot, outcome }
}

fn skipped(slot: u32, reason: SkipReason) -> Step {
    done(slot, Outcome::Skipped(reason))
}

fn failed(slot: u32, error: SlotProcessingError) -> Step {
    done(slot, Outcome::Failed(error))
}

#[test]
fn a_new_processor_is_at_rest() {
    let processor = SlotsProcessor::new();
    assert!(processor.is_idle());
    assert_eq!(processor.get_last_block(), None);
    assert_eq!(processor.range(), None);
    assert_eq!(processor.current_slot(), None);
}

#[test]
fn a_slot_with_one_blob_is_indexed() {
    let mut processor = SlotsProcessor::new();
    assert_eq!(
        processor.process_slot(100, false),
        Step::Call(Request::GetBlock(BlockId::Slot(100)))
    );
    assert_eq!(processor.current_slot(), Some(100));
    assert_eq!(
        processor.advance(Response::Block(Some(full_block(100)))),
        Step::Call(Request::GetBlockWithTxs(hash(0xaa)))
    );
    assert_eq!(
        processor.advance(Response::BlockWithTxs(Some(execution_block(vec![versioned_hash(
            &commitment()
        )])))),
        Step::Call(Request::GetBlobs(BlockId::Slot(100)))
    );
    assert_eq!(
        processor.advance(Response::Blobs(Some(sidecar()))),
        Step::Call(Request::Index(entities(100)))
    );
    assert!(!processor.is_idle());
    assert_eq!(processor.advance(Response::Indexed), done(100, Outcome::Indexed));
    assert!(processor.is_idle());
    assert_eq!(processor.current_slot(), None);
}

#[test]
fn a_slot_without_a_beacon_block_is_skipped() {
    let mut processor = SlotsProcessor::new();
    processor.process_slot(5, false);
    assert_eq!(processor.advance(Response::Block(None)), skipped(5, SkipReason::NoBeaconBlock));
    assert!(processor.is_idle());
}

#[test]
fn a_slot_without_an_execution_payload_is_skipped() {
    let mut processor = SlotsProcessor::new();
    processor.process_slot(5, false);
    assert_eq!(
        processor.advance(Response::Block(Some(beacon_block(5, None, Some(vec![commitment()]))))),
        skipped(5, SkipReason::NoExecutionPayload)
    );
    assert!(processor.is_idle());
}

#[test]
fn a_slot_without_commitments_is_skipped() {
    let mut processor = SlotsProcessor::new();
    processor.process_slot(5, false);
    assert_eq!(
        processor.advance(Response::Block(Some(beacon_block(5, Some(0xaa), None)))),
        skipped(5, SkipReason::NoBlobCommitments)
    );
    assert!(processor.is_idle());
}

#[test]
fn a_slot_with_an_empty_list_of_commitments_is_skipped() {
    let mut processor = SlotsProcessor::new();
    processor.process_slot(5, false);
    assert_eq!(
        processor.advance(Response::Block(Some(beacon_block(5, Some(0xaa), Some(vec![]))))),
        skipped(5, SkipReason::NoBlobCommitments)
    );
}

#[test]
fn a_block_without_payload_and_without_commitments_has_no_payload() {
    let mut processor = SlotsProcessor::new();
    processor.process_slot(5, false);
    assert_eq!(
        processor.advance(Response::Block(Some(beacon_block(5, None, None)))),
        skipped(5, SkipReason::NoExecutionPayload)
    );
}

fn at_sidecar(slot: u32) -> SlotsProcessor {
    let mut processor = SlotsProcessor::new();
    processor.process_slot(slot, false);
    processor.advance(Response::Block(Some(full_block(slot))));
    let step = processor.advance(Response::BlockWithTxs(Some(execution_block(vec![
        versioned_hash(&commitment()),
    ]))));
    assert_eq!(step, Step::Call(Request::GetBlobs(BlockId::Slot(slot))));
    processor
}

#[test]
fn a_slot_without_a_sidecar_is_skipped() {
    let mut processor = at_sidecar(6);
    assert_eq!(processor.advance(Response::Blobs(None)), skipped(6, SkipReason::NoSidecar));
    assert!(processor.is_idle());
}

#[test]
fn a_slot_with_an_empty_sidecar_is_skipped() {
    let mut processor = at_sidecar(6);
    assert_eq!(
        processor.advance(Response::Blobs(Some(vec![]))),
        skipped(6, SkipReason::EmptySidecar)
    );
    assert!(processor.is_idle());
}

#[test]
fn a_missing_execution_block_fails_the_slot() {
    let mut processor = SlotsProcessor::new();
    processor.process_slot(7, false);
    processor.advance(Response::Block(Some(full_block(7))));
    let step = processor.advance(Response::BlockWithTxs(None));
    let error = SlotProcessingError::ExecutionBlockNotFound { block_hash: hash(0xaa) };
    assert_eq!(step, failed(7, error));
    assert_eq!(error.kind(), ErrorKind::Permanent);
}

#[test]
fn an_execution_block_without_blob_transactions_fails_the_slot() {
    let mut processor = SlotsProcessor::new();
    processor.process_slot(7, false);
    processor.advance(Response::Block(Some(full_block(7))));
    let step = processor.advance(Response::BlockWithTxs(Some(execution_block(vec![]))));
    assert_eq!(step, failed(7, SlotProcessingError::BlocksMismatch));
    assert_eq!(SlotProcessingError::BlocksMismatch.kind(), ErrorKind::Permanent);
    assert!(processor.is_idle());
}

#[test]
fn a_sidecar_that_lacks_a_declared_blob_fails_the_slot() {
    let mut processor = SlotsProcessor::new();
    processor.process_slot(7, false);
    processor.advance(Response::Block(Some(full_block(7))));
    processor.advance(Response::BlockWithTxs(Some(execution_block(vec![
        versioned_hash(&commitment()),
        hash(0x55),
    ]))));
    let step = processor.advance(Response::Blobs(Some(sidecar())));
    assert_eq!(
        step,
        failed(
            7,
            SlotProcessingError::SidecarNotFound {
                tx_hash: hash(0x77),
                index: 1,
                versioned_hash: hash(0x55),
            }
        )
    );
}

#[test]
fn a_failed_call_fails_the_slot_with_its_kind() {
    let calls = [Call::GetBlock, Call::GetBlockWithTxs, Call::GetBlobs, Call::Index];
    for (progress, call) in calls.iter().enumerate() {
        for kind in [ErrorKind::Transient, ErrorKind::Permanent] {
            let mut processor = SlotsProcessor::new();
            processor.process_slot(9, false);
            if progress >= 1 {
                processor.advance(Response::Block(Some(full_block(9))));
            }
            if progress >= 2 {
                processor.advance(Response::BlockWithTxs(Some(execution_block(vec![
                    versioned_hash(&commitment()),
                ]))));
            }
            if progress >= 3 {
                processor.advance(Response::Blobs(Some(sidecar())));
            }
            let error = SlotProcessingError::ClientError { call: *call, kind };
            assert_eq!(processor.advance(Response::Failed(kind)), failed(9, error));
            assert_eq!(error.kind(), kind);
            assert!(processor.is_idle());
        }
    }
}

#[test]
fn the_first_header_is_remembered() {
    let mut processor = SlotsProcessor::new();
    assert_eq!(
        processor.process_slot(10, true),
        Step::Call(Request::GetBlockHeader(BlockId::Slot(10)))
    );
    assert_eq!(
        processor.advance(Response::BlockHeader(Some(header(0xa0, 0x99, 10)))),
        Step::Call(Request::GetBlock(BlockId::Slot(10)))
    );
    assert_eq!(processor.get_last_block(), Some(BlockData { root: hash(0xa0), slot: 10 }));
}

#[test]
fn a_header_that_follows_the_last_block_shows_no_reorganisation() {
    let mut processor = SlotsProcessor::new();
    processor.process_slot(10, true);
    processor.advance(Response::BlockHeader(Some(header(0xa0, 0x99, 10))));
    processor.advance(Response::Block(None));
    processor.process_slot(11, true);
    assert_eq!(
        processor.advance(Response::BlockHeader(Some(header(0xa1, 0xa0, 11)))),
        Step::Call(Request::GetBlock(BlockId::Slot(11)))
    );
    assert_eq!(processor.get_last_block(), Some(BlockData { root: hash(0xa1), slot: 11 }));
}

#[test]
fn a_header_with_another_parent_shows_a_reorganisation() {
    let mut processor = SlotsProcessor::new();
    processor.process_slot(10, true);
    processor.advance(Response::BlockHeader(Some(header(0xa0, 0x99, 10))));
    processor.advance(Response::Block(None));
    processor.process_slot(11, true);
    assert_eq!(
        processor.advance(Response::BlockHeader(Some(header(0xb1, 0xb0, 11)))),
        Step::Call(Request::HandleReorgedSlot(11))
    );
    assert_eq!(processor.get_last_block(), Some(BlockData { root: hash(0xa0), slot: 10 }));
    assert_eq!(
        processor.advance(Response::ReorgHandled),
        Step::Call(Request::GetBlock(BlockId::Slot(11)))
    );
    assert_eq!(processor.get_last_block(), Some(BlockData { root: hash(0xb1), slot: 11 }));
}

#[test]
fn a_missing_header_changes_nothing() {
    let mut processor = SlotsProcessor::new();
    processor.process_slot(10, true);
    processor.advance(Response::BlockHeader(Some(header(0xa0, 0x99, 10))));
    processor.advance(Response::Block(None));
    processor.process_slot(11, true);
    assert_eq!(
        processor.advance(Response::BlockHeader(None)),
        Step::Call(Request::GetBlock(BlockId::Slot(11)))
    );
    assert_eq!(processor.get_last_block(), Some(BlockData { root: hash(0xa0), slot: 10 }));
}

#[test]
fn a_reorganisation_that_cannot_be_reported_fails_the_slot() {
    let mut processor = SlotsProcessor::new();
    processor.process_slot(10, true);
    processor.advance(Response::BlockHeader(Some(header(0xa0, 0x99, 10))));
    processor.advance(Response::Block(None));
    processor.process_slot(11, true);
    processor.advance(Response::BlockHeader(Some(header(0xb1, 0xb0, 11))));
    assert_eq!(
        processor.advance(Response::Failed(ErrorKind::Transient)),
        failed(
            11,
            SlotProcessingError::ClientError {
                call: Call::HandleReorgedSlot,
                kind: ErrorKind::Transient,
            }
        )
    );
    assert_eq!(processor.get_last_block(), Some(BlockData { root: hash(0xa0), slot: 10 }));
}

#[test]
fn a_header_that_cannot_be_fetched_fails_the_slot() {
    let mut processor = SlotsProcessor::new();
    processor.process_slot(10, true);
    assert_eq!(
        processor.advance(Response::Failed(ErrorKind::Permanent)),
        failed(
            10,
            SlotProcessingError::ClientError {
                call: Call::GetBlockHeader,
                kind: ErrorKind::Permanent,
            }
        )
    );
    assert_eq!(processor.get_last_block(), None);
}

#[test]
fn without_detection_no_header_is_asked_for() {
    let mut processor = SlotsProcessor::new();
    assert_eq!(processor.process_slot(3, false), Step::Call(Request::GetBlock(BlockId::Slot(3))));
    processor.advance(Response::Block(None));
    assert_eq!(processor.get_last_block(), None);
}

#[test]
fn a_response_that_answers_nothing_is_fatal() {
    let mut processor = SlotsProcessor::new();
    assert_eq!(processor.advance(Response::Indexed), Step::Fatal);
    assert_eq!(processor.advance(Response::Failed(ErrorKind::Transient)), Step::Fatal);
    processor.process_slot(3, false);
    assert_eq!(processor.advance(Response::Blobs(None)), Step::Fatal);
    assert!(processor.is_idle());
    processor.process_slots(3, 4);
    assert_eq!(processor.advance(Response::Block(None)), Step::Fatal);
    assert!(processor.is_idle());
    assert_eq!(processor.range(), None);
    processor.process_slot(3, false);
    processor.advance(Response::Block(None));
    assert_eq!(processor.advance(Response::Continue), Step::Fatal);
    processor.process_slot(3, false);
    assert_eq!(processor.advance(Response::Backoff(Some(Duration::from_secs(1)))), Step::Fatal);
    processor.process_slot(3, false);
    assert_eq!(processor.advance(Response::Resumed), Step::Fatal);
    processor.process_slot(3, false);
    assert_eq!(processor.advance(Response::SlotUpdated), Step::Fatal);
}

fn answer(request: &Request) -> Response {
    match request {
        Request::GetBlockHeader(_) => Response::BlockHeader(Some(header(0xa0, 0x99, 100))),
        Request::HandleReorgedSlot(_) => Response::ReorgHandled,
        Request::GetBlock(_) => Response::Block(Some(full_block(100))),
        Request::GetBlockWithTxs(_) => {
            Response::BlockWithTxs(Some(execution_block(vec![versioned_hash(&commitment())])))
        }
        Request::GetBlobs(_) => Response::Blobs(Some(sidecar())),
        other => panic!("{:?}", other),
    }
}

fn submission(processor: &mut SlotsProcessor, detect_reorgs: bool) -> (Step, Vec<Step>) {
    let mut before = vec![];
    let mut step = processor.process_slot(100, detect_reorgs);
    loop {
        let response = match &step {
            Step::Call(Request::Index(_)) => return (step, before),
            Step::Call(request) => answer(request),
            other => panic!("{:?}", other),
        };
        before.push(step);
        step = processor.advance(response);
    }
}

#[test]
fn a_slot_processed_again_is_submitted_as_before() {
    let mut watching = SlotsProcessor::new();
    let (first, before_first) = submission(&mut watching, true);
    assert_eq!(watching.advance(Response::Indexed), done(100, Outcome::Indexed));
    let (second, before_second) = submission(&mut watching, true);
    assert_eq!(watching.advance(Response::Indexed), done(100, Outcome::Indexed));
    let mut filling = SlotsProcessor::new();
    let (third, before_third) = submission(&mut filling, false);
    assert_eq!(first, Step::Call(Request::Index(entities(100))));
    assert_eq!(second, first);
    assert_eq!(third, first);
    assert_eq!(before_first.len(), 4);
    assert_eq!(before_second.len(), 5);
    assert_eq!(before_second[1], Step::Call(Request::HandleReorgedSlot(100)));
    assert_eq!(before_third.len(), 3);
}

#[test]
fn a_skip_has_its_reason_in_words() {
    assert_eq!(SkipReason::NoBeaconBlock.reason(), "no beacon block");
    assert_eq!(SkipReason::NoExecutionPayload.reason(), "no execution payload");
    assert_eq!(SkipReason::NoBlobCommitments.reason(), "no blob commitments");
    assert_eq!(SkipReason::NoSidecar.reason(), "no sidecar");
    assert_eq!(SkipReason::EmptySidecar.reason(), "empty sidecar");
}

#[test]
fn a_failure_has_its_reason_in_words() {
    let h = hash(1);
    let failures = [
        (
            SlotProcessingError::ClientError { call: Call::Index, kind: ErrorKind::Transient },
            "call failed",
        ),
        (
            SlotProcessingError::ExecutionBlockNotFound { block_hash: h },
            "execution block not found",
        ),
        (SlotProcessingError::BlocksMismatch, "beacon/execution mismatch"),
        (
            SlotProcessingError::MissingBlockNumber { block_hash: h },
            "execution block without number",
        ),
        (SlotProcessingError::MissingRecipient { tx_hash: h }, "blob transaction without recipient"),
        (
            SlotProcessingError::DuplicateVersionedHash { versioned_hash: h },
            "versioned hash twice in sidecar",
        ),
        (
            SlotProcessingError::SidecarNotFound { tx_hash: h, index: 3, versioned_hash: h },
            "sidecar missing for blob of tx",
        ),
    ];
    for (failure, reason) in failures {
        assert_eq!(failure.reason(), reason);
    }
}

#[test]
fn nothing_is_submitted_for_a_slot_that_cannot_be_assembled() {
    let mut processor = SlotsProcessor::new();
    let mut steps = vec![processor.process_slot(7, false)];
    steps.push(processor.advance(Response::Block(Some(full_block(7)))));
    let mut without_number = execution_block(vec![versioned_hash(&commitment())]);
    without_number.number = None;
    steps.push(processor.advance(Response::BlockWithTxs(Some(without_number))));
    steps.push(processor.advance(Response::Blobs(Some(sidecar()))));
    assert_eq!(
        steps[3],
        failed(7, SlotProcessingError::MissingBlockNumber { block_hash: hash(0xaa) })
    );
    for step in &steps {
        assert!(!matches!(step, Step::Call(Request::Index(_))));
    }
    assert!(processor.is_idle());
}
