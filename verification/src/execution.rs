//! What the execution node returns: a block with its transactions.

use crate::primitives::{Address, Hash256, Uint256};
use vstd::prelude::*;

verus! {

/// A transaction of an execution block. `blob_versioned_hashes` holds the
/// versioned hashes that the transaction declares, in its own order; it is
/// empty for a transaction that carries no blob.
#[derive(Clone, Debug, PartialEq, Eq)]
pub struct ExecutionTransaction {
    pub hash: Hash256,
    pub from: Address,
    pub to: Option<Address>,
    pub blob_versioned_hashes: Vec<Hash256>,
}

/// An execution block with its transactions, in block order.
#[derive(Clone, Debug, PartialEq, Eq)]
pub struct ExecutionBlock {
    pub hash: Option<Hash256>,
    pub number: Option<u64>,
    pub timestamp: Uint256,
    pub transactions: Vec<ExecutionTransaction>,
}

/// A transaction as a mathematical value.
pub struct ExecutionTransactionView {
    pub hash: Hash256,
    pub from: Address,
    pub to: Option<Address>,
    pub blob_versioned_hashes: Seq<Hash256>,
}

/// An execution block as a mathematical value.
pub struct ExecutionBlockView {
    pub hash: Option<Hash256>,
    pub number: Option<u64>,
    pub timestamp: Uint256,
    pub transactions: Seq<ExecutionTransactionView>,
}

impl View for ExecutionTransaction {
    type V = ExecutionTransactionView;

    open spec fn view(&self) -> ExecutionTransactionView {
        ExecutionTransactionView {
            hash: self.hash,
            from: self.from,
            to: self.to,
            blob_versioned_hashes: self.blob_versioned_hashes@,
        }
    }
}

impl View for ExecutionBlock {
    type V = ExecutionBlockView;

    open spec fn view(&self) -> ExecutionBlockView {
        ExecutionBlockView {
            hash: self.hash,
            number: self.number,
            timestamp: self.timestamp,
            transactions: self.transactions@.map_values(|t: ExecutionTransaction| t@),
        }
    }
}

} // verus!
