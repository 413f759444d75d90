//! What is handed to the downstream indexer for one slot.

use crate::primitives::{Address, Hash256, Uint256};
use vstd::prelude::*;

verus! {

/// The execution block of a slot.
#[derive(Clone, Copy, Debug, PartialEq, Eq)]
pub struct BlockEntity {
    pub hash: Hash256,
    pub slot: u32,
    pub number: u64,
    pub timestamp: Uint256,
}

/// A transaction that carries blobs.
#[derive(Clone, Copy, Debug, PartialEq, Eq)]
pub struct TransactionEntity {
    pub hash: Hash256,
    pub block_number: u64,
    pub from: Address,
    pub to: Address,
}

/// A blob. `index` is the position of the blob's versioned hash among those
/// that the transaction `tx_hash` declares.
#[derive(Clone, Debug, PartialEq, Eq)]
pub struct BlobEntity {
    pub versioned_hash: Hash256,
    pub commitment: Vec<u8>,
    pub data: Vec<u8>,
    pub index: usize,
    pub tx_hash: Hash256,
}

/// A blob entity as a mathematical value.
pub struct BlobEntityView {
    pub versioned_hash: Hash256,
    pub commitment: Seq<u8>,
    pub data: Seq<u8>,
    pub index: int,
    pub tx_hash: Hash256,
}

impl View for BlobEntity {
    type V = BlobEntityView;

    open spec fn view(&self) -> BlobEntityView {
        BlobEntityView {
            versioned_hash: self.versioned_hash,
            commitment: self.commitment@,
            data: self.data@,
            index: self.index as int,
            tx_hash: self.tx_hash,
        }
    }
}

/// What is submitted for one slot: the block, its blob-carrying
/// transactions in block order, and their blobs.
#[derive(Clone, Debug, PartialEq, Eq)]
pub struct SlotEntities {
    pub block: BlockEntity,
    pub transactions: Vec<TransactionEntity>,
    pub blobs: Vec<BlobEntity>,
}

/// The entities of a slot as a mathematical value.
pub struct SlotEntitiesView {
    pub block: BlockEntity,
    pub transactions: Seq<TransactionEntity>,
    pub blobs: Seq<BlobEntityView>,
}

impl View for SlotEntities {
    type V = SlotEntitiesView;

    open spec fn view(&self) -> SlotEntitiesView {
        SlotEntitiesView {
            block: self.block,
            transactions: self.transactions@,
            blobs: self.blobs@.map_values(|b: BlobEntity| b@),
        }
    }
}

} // verus!
