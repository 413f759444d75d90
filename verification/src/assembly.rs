//! Builds what is submitted for a slot from the execution block and the
//! sidecar.

use crate::beacon::{blob_views, Blob, BlobView};
use crate::correlator::{
    blobs_by_versioned_hash, declarations, entry_position, first_repeat, lemma_declarations,
    sidecar_hashes, spec_versioned_hash, tx_hash_to_versioned_hashes, versioned_hash_to_blob,
    BlobsByVersionedHash, TxVersionedHashes,
};
use crate::entities::{
    BlobEntity, BlobEntityView, BlockEntity, SlotEntities, SlotEntitiesView, TransactionEntity,
};
use crate::error::SlotProcessingError;
use crate::execution::{ExecutionBlock, ExecutionBlockView, ExecutionTransactionView};
use crate::primitives::Hash256;
use vstd::prelude::*;

verus! {

/// The blob entities as mathematical values.
pub open spec fn blob_entity_views(blobs: Seq<BlobEntity>) -> Seq<BlobEntityView> {
    blobs.map_values(|b: BlobEntity| b@)
}

/// The entities of the blob-carrying transactions of a block, in block
/// order: one for each transaction whose hash has an entry. The first such
/// transaction without a recipient makes the block unusable.
pub open spec fn transaction_entities(
    transactions: Seq<ExecutionTransactionView>,
    entries: Seq<(Hash256, Seq<Hash256>)>,
    block_number: u64,
) -> Result<Seq<TransactionEntity>, SlotProcessingError>
    decreases transactions.len(),
{
    if transactions.len() == 0 {
        Ok(seq![])
    } else {
        match transaction_entities(transactions.drop_last(), entries, block_number) {
            Err(error) => Err(error),
            Ok(earlier) => {
                let tx = transactions.last();
                if entry_position(entries, tx.hash).is_none() {
                    Ok(earlier)
                } else {
                    match tx.to {
                        None => Err(SlotProcessingError::MissingRecipient { tx_hash: tx.hash }),
                        Some(to) => Ok(
                            earlier.push(
                                TransactionEntity {
                                    hash: tx.hash,
                                    block_number,
                                    from: tx.from,
                                    to,
                                },
                            ),
                        ),
                    }
                }
            },
        }
    }
}

/// The first position of `versioned_hashes` whose hash has no blob filed
/// under it.
pub open spec fn first_missing(
    versioned_hashes: Seq<Hash256>,
    filed: Map<Hash256, BlobView>,
) -> Option<int>
    decreases versioned_hashes.len(),
{
    if versioned_hashes.len() == 0 {
        None
    } else {
        match first_missing(versioned_hashes.drop_last(), filed) {
            Some(i) => Some(i),
            None => if filed.dom().contains(versioned_hashes.last()) {
                None
            } else {
                Some(versioned_hashes.len() - 1)
            },
        }
    }
}

/// The entity of the blob that a transaction declares at position `i`.
pub open spec fn tx_blob(
    tx_hash: Hash256,
    versioned_hashes: Seq<Hash256>,
    i: int,
    filed: Map<Hash256, BlobView>,
) -> BlobEntityView {
    BlobEntityView {
        versioned_hash: versioned_hashes[i],
        commitment: filed[versioned_hashes[i]].kzg_commitment,
        data: filed[versioned_hashes[i]].blob,
        index: i,
        tx_hash,
    }
}

/// The entities of the blobs of one transaction, in the order in which the
/// transaction declares them.
pub open spec fn tx_blobs(
    tx_hash: Hash256,
    versioned_hashes: Seq<Hash256>,
    filed: Map<Hash256, BlobView>,
) -> Seq<BlobEntityView> {
    Seq::new(versioned_hashes.len(), |i: int| tx_blob(tx_hash, versioned_hashes, i, filed))
}

/// The entities of all blobs: transaction by transaction in the order of
/// the entries, and within a transaction in the order declared. The first
/// declared hash without a blob makes the sidecar unusable.
pub open spec fn blob_entities(
    entries: Seq<(Hash256, Seq<Hash256>)>,
    filed: Map<Hash256, BlobView>,
) -> Result<Seq<BlobEntityView>, SlotProcessingError>
    decreases entries.len(),
{
    if entries.len() == 0 {
        Ok(seq![])
    } else {
        match blob_entities(entries.drop_last(), filed) {
            Err(error) => Err(error),
            Ok(earlier) => {
                let (tx_hash, versioned_hashes) = entries.last();
                match first_missing(versioned_hashes, filed) {
                    Some(i) => Err(
                        SlotProcessingError::SidecarNotFound {
                            tx_hash,
                            index: i as usize,
                            versioned_hash: versioned_hashes[i],
                        },
                    ),
                    None => Ok(earlier + tx_blobs(tx_hash, versioned_hashes, filed)),
                }
            },
        }
    }
}

/// What is submitted for a slot, given the hash that the beacon block names,
/// the execution block fetched by that hash, and the sidecar. The checks are
/// made in this order: the block has a number; each blob-carrying
/// transaction has a recipient; no versioned hash occurs twice in the
/// sidecar; each declared hash has a blob.
pub open spec fn slot_entities(
    slot: u32,
    block_hash: Hash256,
    block: ExecutionBlockView,
    sidecar: Seq<BlobView>,
) -> Result<SlotEntitiesView, SlotProcessingError> {
    let entries = declarations(block.transactions);
    match block.number {
        None => Err(SlotProcessingError::MissingBlockNumber { block_hash }),
        Some(number) => match transaction_entities(block.transactions, entries, number) {
            Err(error) => Err(error),
            Ok(transactions) => match first_repeat(sidecar_hashes(sidecar)) {
                Some(j) => Err(
                    SlotProcessingError::DuplicateVersionedHash {
                        versioned_hash: sidecar_hashes(sidecar)[j],
                    },
                ),
                None => match blob_entities(entries, blobs_by_versioned_hash(sidecar)) {
                    Err(error) => Err(error),
                    Ok(blobs) => Ok(
                        SlotEntitiesView {
                            block: BlockEntity {
                                hash: block_hash,
                                slot,
                                number,
                                timestamp: block.timestamp,
                            },
                            transactions,
                            blobs,
                        },
                    ),
                },
            },
        },
    }
}

/// A failure on a prefix of the transactions is the failure on all of them.
proof fn lemma_transactions_fail_early(
    transactions: Seq<ExecutionTransactionView>,
    entries: Seq<(Hash256, Seq<Hash256>)>,
    block_number: u64,
    n: int,
)
    requires
        0 <= n <= transactions.len(),
        transaction_entities(transactions.subrange(0, n), entries, block_number).is_err(),
    ensures
        transaction_entities(transactions, entries, block_number) == transaction_entities(
            transactions.subrange(0, n),
            entries,
            block_number,
        ),
    decreases transactions.len() - n,
{
    if n == transactions.len() {
        assert(transactions.subrange(0, n) == transactions);
    } else {
        assert(transactions.subrange(0, n + 1).drop_last() == transactions.subrange(0, n));
        lemma_transactions_fail_early(transactions, entries, block_number, n + 1);
    }
}

/// A hash missing from a prefix is the first hash missing from the whole.
proof fn lemma_missing_early(versioned_hashes: Seq<Hash256>, filed: Map<Hash256, BlobView>, n: int)
    requires
        0 <= n <= versioned_hashes.len(),
        first_missing(versioned_hashes.subrange(0, n), filed).is_some(),
    ensures
        first_missing(versioned_hashes, filed) == first_missing(
            versioned_hashes.subrange(0, n),
            filed,
        ),
    decreases versioned_hashes.len() - n,
{
    if n == versioned_hashes.len() {
        assert(versioned_hashes.subrange(0, n) == versioned_hashes);
    } else {
        assert(versioned_hashes.subrange(0, n + 1).drop_last() == versioned_hashes.subrange(0, n));
        lemma_missing_early(versioned_hashes, filed, n + 1);
    }
}

/// A failure on a prefix of the entries is the failure on all of them.
proof fn lemma_blobs_fail_early(
    entries: Seq<(Hash256, Seq<Hash256>)>,
    filed: Map<Hash256, BlobView>,
    n: int,
)
    requires
        0 <= n <= entries.len(),
        blob_entities(entries.subrange(0, n), filed).is_err(),
    ensures
        blob_entities(entries, filed) == blob_entities(entries.subrange(0, n), filed),
    decreases entries.len() - n,
{
    if n == entries.len() {
        assert(entries.subrange(0, n) == entries);
    } else {
        assert(entries.subrange(0, n + 1).drop_last() == entries.subrange(0, n));
        lemma_blobs_fail_early(entries, filed, n + 1);
    }
}

/// Builds the entities of the transactions that have an entry in
/// `declared`, in block order.
pub fn create_transaction_entities(
    execution_block: &ExecutionBlock,
    declared: &TxVersionedHashes,
    block_number: u64,
) -> (created: Result<Vec<TransactionEntity>, SlotProcessingError>)
    ensures
        match created {
            Ok(entities) => transaction_entities(
                execution_block@.transactions,
                declared.entries(),
                block_number,
            ) == Ok::<Seq<TransactionEntity>, SlotProcessingError>(entities@),
            Err(error) => transaction_entities(
                execution_block@.transactions,
                declared.entries(),
                block_number,
            ) == Err::<Seq<TransactionEntity>, SlotProcessingError>(error),
        },
{
    let ghost transactions = execution_block@.transactions;
    let ghost entries = declared.entries();
    let mut entities: Vec<TransactionEntity> = Vec::new();
    let mut k: usize = 0;
    while k < execution_block.transactions.len()
        invariant
            k <= execution_block.transactions.len(),
            transactions == execution_block@.transactions,
            entries == declared.entries(),
            transaction_entities(transactions.subrange(0, k as int), entries, block_number) == Ok::<
                Seq<TransactionEntity>,
                SlotProcessingError,
            >(entities@),
        decreases execution_block.transactions.len() - k,
    {
        let tx = &execution_block.transactions[k];
        let ghost prefix = transactions.subrange(0, k + 1);
        assert(prefix.drop_last() == transactions.subrange(0, k as int));
        if declared.contains_key(&tx.hash) {
            match tx.to {
                None => {
                    proof {
                        lemma_transactions_fail_early(transactions, entries, block_number, k + 1);
                    }
                    return Err(SlotProcessingError::MissingRecipient { tx_hash: tx.hash });
                },
                Some(to) => {
                    entities.push(
                        TransactionEntity { hash: tx.hash, block_number, from: tx.from, to },
                    );
                },
            }
        }
        k += 1;
    }
    assert(transactions.subrange(0, k as int) == transactions);
    Ok(entities)
}

/// Builds the entities of the blobs that the entries of `declared` name,
/// each with the blob filed under its versioned hash.
pub fn create_blob_entities(declared: &TxVersionedHashes, filed: &BlobsByVersionedHash) -> (created:
    Result<Vec<BlobEntity>, SlotProcessingError>)
    ensures
        match created {
            Ok(entities) => blob_entities(declared.entries(), filed@) == Ok::<
                Seq<BlobEntityView>,
                SlotProcessingError,
            >(blob_entity_views(entities@)),
            Err(error) => blob_entities(declared.entries(), filed@) == Err::<
                Seq<BlobEntityView>,
                SlotProcessingError,
            >(error),
        },
{
    let ghost entries = declared.entries();
    let mut entities: Vec<BlobEntity> = Vec::new();
    let mut k: usize = 0;
    assert(blob_entity_views(entities@) =~= seq![]);
    while k < declared.len()
        invariant
            k <= entries.len(),
            entries == declared.entries(),
            blob_entities(entries.subrange(0, k as int), filed@) == Ok::<
                Seq<BlobEntityView>,
                SlotProcessingError,
            >(blob_entity_views(entities@)),
        decreases entries.len() - k,
    {
        let entry = declared.entry(k);
        let ghost prefix = entries.subrange(0, k + 1);
        let ghost earlier = blob_entity_views(entities@);
        let ghost versioned_hashes = entry.versioned_hashes@;
        assert(prefix.drop_last() == entries.subrange(0, k as int));
        let mut i: usize = 0;
        while i < entry.versioned_hashes.len()
            invariant
                i <= entry.versioned_hashes.len(),
                k < entries.len(),
                entries == declared.entries(),
                versioned_hashes == entry.versioned_hashes@,
                prefix == entries.subrange(0, k + 1),
                prefix.last() == (entry.tx_hash, versioned_hashes),
                blob_entities(prefix.drop_last(), filed@) == Ok::<
                    Seq<BlobEntityView>,
                    SlotProcessingError,
                >(earlier),
                first_missing(versioned_hashes.subrange(0, i as int), filed@).is_none(),
                blob_entity_views(entities@) == earlier + tx_blobs(
                    entry.tx_hash,
                    versioned_hashes,
                    filed@,
                ).subrange(0, i as int),
            decreases entry.versioned_hashes.len() - i,
        {
            let versioned_hash = entry.versioned_hashes[i];
            let ghost checked = versioned_hashes.subrange(0, i + 1);
            assert(checked.drop_last() == versioned_hashes.subrange(0, i as int));
            match filed.get(&versioned_hash) {
                None => {
                    proof {
                        lemma_missing_early(versioned_hashes, filed@, i + 1);
                        lemma_blobs_fail_early(entries, filed@, k + 1);
                    }
                    return Err(
                        SlotProcessingError::SidecarNotFound {
                            tx_hash: entry.tx_hash,
                            index: i,
                            versioned_hash,
                        },
                    );
                },
                Some(blob) => {
                    let ghost before = blob_entity_views(entities@);
                    let entity = BlobEntity {
                        versioned_hash,
                        commitment: blob.kzg_commitment.clone(),
                        data: blob.blob.clone(),
                        index: i,
                        tx_hash: entry.tx_hash,
                    };
                    entities.push(entity);
                    assert(blob_entity_views(entities@) =~= before.push(entity@));
                },
            }
            i += 1;
        }
        assert(versioned_hashes.subrange(0, i as int) == versioned_hashes);
        assert(tx_blobs(entry.tx_hash, versioned_hashes, filed@).subrange(0, i as int) == tx_blobs(
            entry.tx_hash,
            versioned_hashes,
            filed@,
        ));
        k += 1;
    }
    assert(entries.subrange(0, k as int) == entries);
    Ok(entities)
}

/// Builds what is submitted for a slot: the block under the hash that the
/// beacon block names, the transactions that declare versioned hashes, and
/// for each declared hash the blob of the sidecar that stands behind it.
pub fn assemble(
    slot: u32,
    block_hash: Hash256,
    execution_block: &ExecutionBlock,
    sidecar: Vec<Blob>,
) -> (assembled: Result<SlotEntities, SlotProcessingError>)
    ensures
        match assembled {
            Ok(entities) => slot_entities(slot, block_hash, execution_block@, blob_views(sidecar@))
                == Ok::<SlotEntitiesView, SlotProcessingError>(entities@),
            Err(error) => slot_entities(slot, block_hash, execution_block@, blob_views(sidecar@))
                == Err::<SlotEntitiesView, SlotProcessingError>(error),
        },
{
    let number = match execution_block.number {
        Some(number) => number,
        None => {
            return Err(SlotProcessingError::MissingBlockNumber { block_hash });
        },
    };
    let declared = tx_hash_to_versioned_hashes(execution_block);
    let transactions = match create_transaction_entities(execution_block, &declared, number) {
        Ok(transactions) => transactions,
        Err(error) => {
            return Err(error);
        },
    };
    let filed = match versioned_hash_to_blob(sidecar) {
        Ok(filed) => filed,
        Err(error) => {
            return Err(error);
        },
    };
    let blobs = match create_blob_entities(&declared, &filed) {
        Ok(blobs) => blobs,
        Err(error) => {
            return Err(error);
        },
    };
    Ok(
        SlotEntities {
            block: BlockEntity {
                hash: block_hash,
                slot,
                number,
                timestamp: execution_block.timestamp,
            },
            transactions,
            blobs,
        },
    )
}

/// Where no hash is missing, every hash has a blob filed under it.
proof fn lemma_none_missing(versioned_hashes: Seq<Hash256>, filed: Map<Hash256, BlobView>)
    requires
        first_missing(versioned_hashes, filed).is_none(),
    ensures
        forall|i: int|
            0 <= i < versioned_hashes.len() ==> filed.dom().contains(#[trigger] versioned_hashes[i]),
    decreases versioned_hashes.len(),
{
    if versioned_hashes.len() > 0 {
        let shorter = versioned_hashes.drop_last();
        lemma_none_missing(shorter, filed);
        assert forall|i: int| 0 <= i < versioned_hashes.len() implies filed.dom().contains(
            #[trigger] versioned_hashes[i],
        ) by {
            if i < shorter.len() {
                assert(shorter[i] == versioned_hashes[i]);
            }
        }
    }
}

/// `blob` is the entity of a blob that one of the entries declares and for
/// which a blob is filed.
pub open spec fn is_declared_blob(
    entries: Seq<(Hash256, Seq<Hash256>)>,
    filed: Map<Hash256, BlobView>,
    blob: BlobEntityView,
) -> bool {
    exists|a: int, i: int|
        0 <= a < entries.len() && 0 <= i < entries[a].1.len() && filed.dom().contains(
            entries[a].1[i],
        ) && blob == #[trigger] tx_blob(entries[a].0, entries[a].1, i, filed)
}

/// Every blob entity comes from an entry and from a blob filed under the
/// hash that the entry declares.
proof fn lemma_blob_entities_members(
    entries: Seq<(Hash256, Seq<Hash256>)>,
    filed: Map<Hash256, BlobView>,
)
    ensures
        blob_entities(entries, filed) matches Ok(blobs) ==> forall|n: int|
            0 <= n < blobs.len() ==> is_declared_blob(entries, filed, #[trigger] blobs[n]),
    decreases entries.len(),
{
    if entries.len() > 0 {
        let shorter = entries.drop_last();
        lemma_blob_entities_members(shorter, filed);
        if let Ok(blobs) = blob_entities(entries, filed) {
            let earlier = blob_entities(shorter, filed).unwrap();
            lemma_none_missing(entries.last().1, filed);
            assert forall|n: int| 0 <= n < blobs.len() implies is_declared_blob(
                entries,
                filed,
                #[trigger] blobs[n],
            ) by {
                if n < earlier.len() {
                    let (a, i) = choose|a: int, i: int|
                        0 <= a < shorter.len() && 0 <= i < shorter[a].1.len()
                            && filed.dom().contains(shorter[a].1[i]) && earlier[n]
                            == #[trigger] tx_blob(shorter[a].0, shorter[a].1, i, filed);
                    assert(blobs[n] == tx_blob(entries[a].0, entries[a].1, i, filed));
                } else {
                    let a = entries.len() - 1;
                    let i = n - earlier.len();
                    assert(blobs[n] == tx_blob(entries[a].0, entries[a].1, i, filed));
                }
            }
        }
    }
}

/// The block entity carries the hash that the beacon block names, and the
/// slot.
pub proof fn lemma_block_entity(
    slot: u32,
    block_hash: Hash256,
    block: ExecutionBlockView,
    sidecar: Seq<BlobView>,
)
    ensures
        slot_entities(slot, block_hash, block, sidecar) matches Ok(entities) ==> entities.block.hash
            == block_hash && entities.block.slot == slot && block.number == Some(
            entities.block.number,
        ),
{
}

/// Each blob entity carries the versioned hash of its own commitment, and
/// the commitment and the data of one item of the sidecar.
pub proof fn lemma_blobs_match_their_commitments(
    slot: u32,
    block_hash: Hash256,
    block: ExecutionBlockView,
    sidecar: Seq<BlobView>,
)
    ensures
        slot_entities(slot, block_hash, block, sidecar) matches Ok(entities) ==> forall|n: int|
            0 <= n < entities.blobs.len() ==> {
                let blob = #[trigger] entities.blobs[n];
                &&& blob.versioned_hash == spec_versioned_hash(blob.commitment)
                &&& exists|k: int|
                    0 <= k < sidecar.len() && (#[trigger] sidecar[k]).kzg_commitment
                        == blob.commitment && sidecar[k].blob == blob.data
            },
{
    if let Ok(entities) = slot_entities(slot, block_hash, block, sidecar) {
        let entries = declarations(block.transactions);
        let filed = blobs_by_versioned_hash(sidecar);
        lemma_blob_entities_members(entries, filed);
        assert forall|n: int| 0 <= n < entities.blobs.len() implies {
            let blob = #[trigger] entities.blobs[n];
            &&& blob.versioned_hash == spec_versioned_hash(blob.commitment)
            &&& exists|k: int|
                0 <= k < sidecar.len() && (#[trigger] sidecar[k]).kzg_commitment
                    == blob.commitment && sidecar[k].blob == blob.data
        } by {
            let blob = entities.blobs[n];
            let (a, i) = choose|a: int, i: int|
                0 <= a < entries.len() && 0 <= i < entries[a].1.len() && filed.dom().contains(
                    entries[a].1[i],
                ) && blob == #[trigger] tx_blob(entries[a].0, entries[a].1, i, filed);
            let k = sidecar_hashes(sidecar).index_of(entries[a].1[i]);
            assert(sidecar[k].kzg_commitment == blob.commitment);
        }
    }
}

/// Each blob entity names a transaction of the block which declares the
/// blob's versioned hash, and the index of the entity is a position at
/// which that transaction declares it.
pub proof fn lemma_blobs_are_declared(
    slot: u32,
    block_hash: Hash256,
    block: ExecutionBlockView,
    sidecar: Seq<BlobView>,
)
    ensures
        slot_entities(slot, block_hash, block, sidecar) matches Ok(entities) ==> forall|n: int|
            0 <= n < entities.blobs.len() ==> {
                let blob = #[trigger] entities.blobs[n];
                exists|j: int|
                    {
                        &&& 0 <= j < block.transactions.len()
                        &&& (#[trigger] block.transactions[j]).hash == blob.tx_hash
                        &&& 0 <= blob.index < block.transactions[j].blob_versioned_hashes.len()
                        &&& block.transactions[j].blob_versioned_hashes[blob.index]
                            == blob.versioned_hash
                    }
            },
{
    if let Ok(entities) = slot_entities(slot, block_hash, block, sidecar) {
        let entries = declarations(block.transactions);
        let filed = blobs_by_versioned_hash(sidecar);
        lemma_blob_entities_members(entries, filed);
        lemma_declarations(block.transactions);
        assert forall|n: int| 0 <= n < entities.blobs.len() implies {
            let blob = #[trigger] entities.blobs[n];
            exists|j: int|
                {
                    &&& 0 <= j < block.transactions.len()
                    &&& (#[trigger] block.transactions[j]).hash == blob.tx_hash
                    &&& 0 <= blob.index < block.transactions[j].blob_versioned_hashes.len()
                    &&& block.transactions[j].blob_versioned_hashes[blob.index]
                        == blob.versioned_hash
                }
        } by {
            let blob = entities.blobs[n];
            let (a, i) = choose|a: int, i: int|
                0 <= a < entries.len() && 0 <= i < entries[a].1.len() && filed.dom().contains(
                    entries[a].1[i],
                ) && blob == #[trigger] tx_blob(entries[a].0, entries[a].1, i, filed);
            let entry = entries[a];
            let j = choose|j: int|
                0 <= j < block.transactions.len() && (#[trigger] block.transactions[j]).hash
                    == entry.0 && block.transactions[j].blob_versioned_hashes == entry.1;
            assert(block.transactions[j].hash == blob.tx_hash);
        }
    }
}

} // verus!
