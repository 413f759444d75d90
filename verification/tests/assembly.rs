use blob_indexer::assembly::{assemble, create_blob_entities, create_transaction_entities};
use blob_indexer::beacon::Blob;
use blob_indexer::correlator::{tx_hash_to_versioned_hashes, versioned_hash, versioned_hash_to_blob};
use blob_indexer::entities::{BlobEntity, BlockEntity, SlotEntities, TransactionEntity};
use blob_indexer::error::{ErrorKind, SlotProcessingError};
use blob_indexer::execution::{ExecutionBlock, ExecutionTransaction};
use blob_indexer::primitives::{Address, Hash256, Uint256};

fn hash(byte: u8) -> Hash256 {
    Hash256 { bytes: [byte; 32] }
}

fn address(byte: u8) -> Address {
    Address { bytes: [byte; 20] }
}

fn commitment(n: u8) -> Vec<u8> {
    vec![n; 48]
}

fn item(n: u8) -> Blob {
    Blob { index: n.to_string(), kzg_commitment: commitment(n), blob: vec![n, n, n] }
}

fn declares(tx_hash: u8, commitments: &[u8]) -> ExecutionTransaction {
    ExecutionTransaction {
        hash: hash(tx_hash),
        from: address(tx_hash),
        to: Some(address(0xee)),
        blob_versioned_hashes: commitments.iter().map(|n| versioned_hash(&commitment(*n))).collect(),
    }
}

fn block(transactions: Vec<ExecutionTransaction>) -> ExecutionBlock {
    ExecutionBlock {
        hash: Some(hash(0xaa)),
        number: Some(4242),
        timestamp: Uint256 { limbs: [1700000012, 0, 0, 0] },
        transactions,
    }
}

fn blob_entity(n: u8, index: usize, tx_hash: u8) -> BlobEntity {
    BlobEntity {
        versioned_hash: versioned_hash(&commitment(n)),
        commitment: commitment(n),
        data: vec![n, n, n],
        index,
        tx_hash: hash(tx_hash),
    }
}

fn transaction_entity(tx_hash: u8) -> TransactionEntity {
    TransactionEntity {
        hash: hash(tx_hash),
        block_number: 4242,
        from: address(tx_hash),
        to: address(0xee),
    }
}

#[test]
fn one_transaction_with_one_blob() {
    let assembled = assemble(100, hash(0xaa), &block(vec![declares(7, &[1])]), vec![item(1)]);
    assert_eq!(
        assembled,
        Ok(SlotEntities {
            block: BlockEntity {
                hash: hash(0xaa),
                slot: 100,
                number: 4242,
                timestamp: Uint256 { limbs: [1700000012, 0, 0, 0] },
            },
            transactions: vec![transaction_entity(7)],
            blobs: vec![blob_entity(1, 0, 7)],
        })
    );
}

#[test]
fn the_block_entity_bears_the_hash_that_was_asked_for() {
    let mut execution_block = block(vec![declares(7, &[1])]);
    execution_block.hash = Some(hash(0xbb));
    let assembled = assemble(5, hash(0xaa), &execution_block, vec![item(1)]).unwrap();
    assert_eq!(assembled.block.hash, hash(0xaa));
    execution_block.hash = None;
    let assembled = assemble(5, hash(0xaa), &execution_block, vec![item(1)]).unwrap();
    assert_eq!(assembled.block.hash, hash(0xaa));
    assert_eq!(assembled.block.slot, 5);
}

#[test]
fn blobs_are_numbered_within_their_transaction() {
    let execution_block = block(vec![
        declares(1, &[3, 4]),
        declares(9, &[]),
        declares(2, &[1]),
        declares(3, &[5, 2, 6]),
    ]);
    let sidecar = vec![item(1), item(2), item(3), item(4), item(5), item(6)];
    let assembled = assemble(8, hash(0xaa), &execution_block, sidecar).unwrap();
    assert_eq!(
        assembled.transactions,
        vec![transaction_entity(1), transaction_entity(2), transaction_entity(3)]
    );
    assert_eq!(
        assembled.blobs,
        vec![
            blob_entity(3, 0, 1),
            blob_entity(4, 1, 1),
            blob_entity(1, 0, 2),
            blob_entity(5, 0, 3),
            blob_entity(2, 1, 3),
            blob_entity(6, 2, 3),
        ]
    );
}

#[test]
fn every_blob_bears_the_versioned_hash_of_its_commitment() {
    let execution_block = block(vec![declares(1, &[3, 4]), declares(2, &[1])]);
    let assembled =
        assemble(8, hash(0xaa), &execution_block, vec![item(1), item(3), item(4)]).unwrap();
    assert_eq!(assembled.blobs.len(), 3);
    for blob in &assembled.blobs {
        assert_eq!(versioned_hash(&blob.commitment), blob.versioned_hash);
        let tx = execution_block.transactions.iter().find(|tx| tx.hash == blob.tx_hash).unwrap();
        assert_eq!(tx.blob_versioned_hashes[blob.index], blob.versioned_hash);
    }
}

#[test]
fn a_blob_declared_twice_is_submitted_twice() {
    let execution_block = block(vec![declares(1, &[3]), declares(2, &[3, 3])]);
    let assembled = assemble(8, hash(0xaa), &execution_block, vec![item(3)]).unwrap();
    assert_eq!(
        assembled.blobs,
        vec![blob_entity(3, 0, 1), blob_entity(3, 0, 2), blob_entity(3, 1, 2)]
    );
}

#[test]
fn an_item_that_nobody_declares_is_left_out() {
    let execution_block = block(vec![declares(1, &[3])]);
    let assembled = assemble(8, hash(0xaa), &execution_block, vec![item(9), item(3)]).unwrap();
    assert_eq!(assembled.blobs, vec![blob_entity(3, 0, 1)]);
}

#[test]
fn assembling_again_gives_the_same() {
    let execution_block = block(vec![declares(1, &[3, 4]), declares(2, &[1])]);
    let sidecar = vec![item(4), item(1), item(3)];
    let once = assemble(8, hash(0xaa), &execution_block, sidecar.clone());
    let again = assemble(8, hash(0xaa), &execution_block, sidecar);
    assert!(once.is_ok());
    assert_eq!(once, again);
}

#[test]
fn a_block_without_a_number_is_refused() {
    let mut execution_block = block(vec![declares(7, &[1])]);
    execution_block.number = None;
    let error = assemble(100, hash(0xaa), &execution_block, vec![item(1)]).unwrap_err();
    assert_eq!(error, SlotProcessingError::MissingBlockNumber { block_hash: hash(0xaa) });
    assert_eq!(error.kind(), ErrorKind::Permanent);
}

#[test]
fn a_blob_transaction_without_a_recipient_is_refused() {
    let mut without = declares(2, &[2]);
    without.to = None;
    let mut also_without = declares(3, &[3]);
    also_without.to = None;
    let execution_block = block(vec![declares(1, &[1]), without, also_without]);
    let error =
        assemble(100, hash(0xaa), &execution_block, vec![item(1), item(2), item(3)]).unwrap_err();
    assert_eq!(error, SlotProcessingError::MissingRecipient { tx_hash: hash(2) });
    assert_eq!(error.kind(), ErrorKind::Permanent);
}

#[test]
fn a_plain_transaction_needs_no_recipient() {
    let mut creation = declares(2, &[]);
    creation.to = None;
    let execution_block = block(vec![creation, declares(1, &[1])]);
    let assembled = assemble(100, hash(0xaa), &execution_block, vec![item(1)]).unwrap();
    assert_eq!(assembled.transactions, vec![transaction_entity(1)]);
}

#[test]
fn a_sidecar_with_a_repeated_commitment_is_refused() {
    let execution_block = block(vec![declares(1, &[1])]);
    let error =
        assemble(100, hash(0xaa), &execution_block, vec![item(1), item(2), item(2)]).unwrap_err();
    assert_eq!(
        error,
        SlotProcessingError::DuplicateVersionedHash {
            versioned_hash: versioned_hash(&commitment(2))
        }
    );
    assert_eq!(error.kind(), ErrorKind::Permanent);
}

#[test]
fn a_declared_hash_without_a_blob_is_reported_with_its_place() {
    let execution_block = block(vec![declares(1, &[1]), declares(2, &[2, 5, 6]), declares(3, &[7])]);
    let error = assemble(100, hash(0xaa), &execution_block, vec![item(1), item(2)]).unwrap_err();
    assert_eq!(
        error,
        SlotProcessingError::SidecarNotFound {
            tx_hash: hash(2),
            index: 1,
            versioned_hash: versioned_hash(&commitment(5)),
        }
    );
    assert_eq!(error.kind(), ErrorKind::Permanent);
}

#[test]
fn the_checks_are_made_in_order() {
    let mut without = declares(2, &[2]);
    without.to = None;
    let mut execution_block = block(vec![without]);
    execution_block.number = None;
    let sidecar = vec![item(1), item(1)];
    assert_eq!(
        assemble(1, hash(0xaa), &execution_block, sidecar.clone()),
        Err(SlotProcessingError::MissingBlockNumber { block_hash: hash(0xaa) })
    );
    execution_block.number = Some(1);
    assert_eq!(
        assemble(1, hash(0xaa), &execution_block, sidecar.clone()),
        Err(SlotProcessingError::MissingRecipient { tx_hash: hash(2) })
    );
    execution_block.transactions[0].to = Some(address(1));
    assert_eq!(
        assemble(1, hash(0xaa), &execution_block, sidecar),
        Err(SlotProcessingError::DuplicateVersionedHash {
            versioned_hash: versioned_hash(&commitment(1))
        })
    );
    assert_eq!(
        assemble(1, hash(0xaa), &execution_block, vec![item(1)]),
        Err(SlotProcessingError::SidecarNotFound {
            tx_hash: hash(2),
            index: 0,
            versioned_hash: versioned_hash(&commitment(2)),
        })
    );
}

#[test]
fn transaction_entities_follow_the_declarations() {
    let execution_block = block(vec![declares(1, &[1]), declares(2, &[]), declares(3, &[2])]);
    let declared = tx_hash_to_versioned_hashes(&execution_block);
    assert_eq!(
        create_transaction_entities(&execution_block, &declared, 4242),
        Ok(vec![transaction_entity(1), transaction_entity(3)])
    );
    let nothing = tx_hash_to_versioned_hashes(&block(vec![]));
    assert_eq!(create_transaction_entities(&execution_block, &nothing, 4242), Ok(vec![]));
}

#[test]
fn blob_entities_follow_the_declarations() {
    let execution_block = block(vec![declares(1, &[1, 2]), declares(3, &[3])]);
    let declared = tx_hash_to_versioned_hashes(&execution_block);
    let filed = versioned_hash_to_blob(vec![item(3), item(2), item(1)]).unwrap();
    assert_eq!(
        create_blob_entities(&declared, &filed),
        Ok(vec![blob_entity(1, 0, 1), blob_entity(2, 1, 1), blob_entity(3, 0, 3)])
    );
    let short = versioned_hash_to_blob(vec![item(1), item(2)]).unwrap();
    assert_eq!(
        create_blob_entities(&declared, &short),
        Err(SlotProcessingError::SidecarNotFound {
            tx_hash: hash(3),
            index: 0,
            versioned_hash: versioned_hash(&commitment(3)),
        })
    );
}
