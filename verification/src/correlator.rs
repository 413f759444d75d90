//! Ties the commitments of a sidecar to the transactions that declare them:
//! the versioned hash of a commitment, the hashes that each transaction
//! declares, and the blob that stands behind each hash.

use crate::beacon::{blob_views, Blob, BlobView};
use crate::error::SlotProcessingError;
use crate::execution::{ExecutionBlock, ExecutionTransactionView};
use crate::hashing::{sha256, sha256_digest};
use crate::primitives::Hash256;
use vstd::prelude::*;

verus! {

/// The version byte of a versioned hash that stands for a KZG commitment.
pub const BLOB_COMMITMENT_VERSION_KZG: u8 = 0x01;

/// The bytes of the versioned hash made from a 32-byte digest: the version
/// byte, then the last 31 bytes of the digest.
pub open spec fn versioned_hash_bytes(digest: Seq<u8>) -> Seq<u8> {
    seq![BLOB_COMMITMENT_VERSION_KZG] + digest.subrange(1, 32)
}

/// The versioned hash of a KZG commitment.
pub open spec fn spec_versioned_hash(commitment: Seq<u8>) -> Hash256 {
    Hash256::of_bytes(versioned_hash_bytes(sha256(commitment)))
}

/// Puts the version byte in front of a digest, in place of its first byte.
pub fn versioned_hash_of_digest(digest: [u8; 32]) -> (hash: Hash256)
    ensures
        hash.bytes@ == versioned_hash_bytes(digest@),
        hash == Hash256::of_bytes(versioned_hash_bytes(digest@)),
{
    let mut bytes = digest;
    bytes[0] = BLOB_COMMITMENT_VERSION_KZG;
    let hash = Hash256 { bytes };
    proof {
        assert(hash.bytes@ =~= versioned_hash_bytes(digest@));
        hash.lemma_of_bytes();
    }
    hash
}

/// Computes the versioned hash of a KZG commitment: the SHA-256 digest of
/// the commitment, with the version byte in place of its first byte.
pub fn versioned_hash(commitment: &[u8]) -> (hash: Hash256)
    ensures
        hash == spec_versioned_hash(commitment@),
        hash.bytes@ == versioned_hash_bytes(sha256(commitment@)),
{
    versioned_hash_of_digest(sha256_digest(commitment))
}

/// Equal commitments have equal versioned hashes.
pub proof fn lemma_versioned_hash_is_determined(commitment: Seq<u8>, other: Seq<u8>)
    requires
        commitment == other,
    ensures
        spec_versioned_hash(commitment) == spec_versioned_hash(other),
{
}

/// The versioned hashes that one transaction declares.
#[derive(Clone, Debug, PartialEq, Eq)]
pub struct TxBlobHashes {
    pub tx_hash: Hash256,
    pub versioned_hashes: Vec<Hash256>,
}

impl View for TxBlobHashes {
    type V = (Hash256, Seq<Hash256>);

    open spec fn view(&self) -> (Hash256, Seq<Hash256>) {
        (self.tx_hash, self.versioned_hashes@)
    }
}

/// The position of the entry for `tx_hash`, if there is one.
pub open spec fn entry_position(entries: Seq<(Hash256, Seq<Hash256>)>, tx_hash: Hash256) -> Option<
    int,
> {
    if exists|i: int| 0 <= i < entries.len() && entries[i].0 == tx_hash {
        Some(choose|i: int| 0 <= i < entries.len() && entries[i].0 == tx_hash)
    } else {
        None
    }
}

/// No transaction hash has two entries.
pub open spec fn distinct_keys(entries: Seq<(Hash256, Seq<Hash256>)>) -> bool {
    forall|i: int, j: int|
        0 <= i < entries.len() && 0 <= j < entries.len() && entries[i].0 == entries[j].0 ==> i
            == j
}

/// Records that `tx_hash` declares `versioned_hashes`: in place of what was
/// recorded for it before, or else behind the other entries.
pub open spec fn record(
    entries: Seq<(Hash256, Seq<Hash256>)>,
    tx_hash: Hash256,
    versioned_hashes: Seq<Hash256>,
) -> Seq<(Hash256, Seq<Hash256>)> {
    match entry_position(entries, tx_hash) {
        Some(i) => entries.update(i, (tx_hash, versioned_hashes)),
        None => entries.push((tx_hash, versioned_hashes)),
    }
}

/// What the transactions of a block declare: one entry for each hash of a
/// transaction that declares at least one versioned hash. The entries stand
/// in the order in which their transactions first occur in the block; where
/// several transactions have the same hash, the last declaration holds.
pub open spec fn declarations(transactions: Seq<ExecutionTransactionView>) -> Seq<
    (Hash256, Seq<Hash256>),
>
    decreases transactions.len(),
{
    if transactions.len() == 0 {
        seq![]
    } else {
        let earlier = declarations(transactions.drop_last());
        let tx = transactions.last();
        if tx.blob_versioned_hashes.len() == 0 {
            earlier
        } else {
            record(earlier, tx.hash, tx.blob_versioned_hashes)
        }
    }
}

/// The entries as a map from transaction hash to the hashes declared.
pub open spec fn entries_map(entries: Seq<(Hash256, Seq<Hash256>)>) -> Map<
    Hash256,
    Seq<Hash256>,
> {
    Map::new(
        |tx_hash: Hash256| entry_position(entries, tx_hash).is_some(),
        |tx_hash: Hash256| entries[entry_position(entries, tx_hash).unwrap()].1,
    )
}

/// Recording keeps the keys distinct.
pub proof fn lemma_record_distinct(
    entries: Seq<(Hash256, Seq<Hash256>)>,
    tx_hash: Hash256,
    versioned_hashes: Seq<Hash256>,
)
    requires
        distinct_keys(entries),
    ensures
        distinct_keys(record(entries, tx_hash, versioned_hashes)),
{
}

/// Every entry of `declarations` has its own transaction hash, holds at
/// least one versioned hash, and is what some transaction of the block
/// declares.
pub proof fn lemma_declarations(transactions: Seq<ExecutionTransactionView>)
    ensures
        distinct_keys(declarations(transactions)),
        forall|i: int|
            0 <= i < declarations(transactions).len() ==> {
                let entry = #[trigger] declarations(transactions)[i];
                &&& entry.1.len() > 0
                &&& exists|j: int|
                    0 <= j < transactions.len() && (#[trigger] transactions[j]).hash == entry.0
                        && transactions[j].blob_versioned_hashes == entry.1
            },
    decreases transactions.len(),
{
    if transactions.len() > 0 {
        let shorter = transactions.drop_last();
        let earlier = declarations(shorter);
        let tx = transactions.last();
        lemma_declarations(shorter);
        lemma_record_distinct(earlier, tx.hash, tx.blob_versioned_hashes);
        let now = declarations(transactions);
        assert forall|i: int| 0 <= i < now.len() implies {
            let entry = #[trigger] now[i];
            &&& entry.1.len() > 0
            &&& exists|j: int|
                0 <= j < transactions.len() && (#[trigger] transactions[j]).hash == entry.0
                    && transactions[j].blob_versioned_hashes == entry.1
        } by {
            let entry = now[i];
            if i < earlier.len() && entry == earlier[i] {
                let j = choose|j: int|
                    0 <= j < shorter.len() && (#[trigger] shorter[j]).hash == entry.0
                        && shorter[j].blob_versioned_hashes == entry.1;
                assert(transactions[j] == shorter[j]);
            }
        }
    }
}

/// A transaction hash has an entry just when a transaction with that hash
/// declares at least one versioned hash.
pub proof fn lemma_declared_keys(transactions: Seq<ExecutionTransactionView>, tx_hash: Hash256)
    ensures
        entry_position(declarations(transactions), tx_hash).is_some() <==> exists|j: int|
            0 <= j < transactions.len() && (#[trigger] transactions[j]).hash == tx_hash
                && transactions[j].blob_versioned_hashes.len() > 0,
    decreases transactions.len(),
{
    if transactions.len() > 0 {
        let shorter = transactions.drop_last();
        let earlier = declarations(shorter);
        let tx = transactions.last();
        lemma_declared_keys(shorter, tx_hash);
        let now = declarations(transactions);
        if entry_position(now, tx_hash).is_some() {
            let i = entry_position(now, tx_hash).unwrap();
            if i < earlier.len() && earlier[i].0 == tx_hash {
                let j = choose|j: int|
                    0 <= j < shorter.len() && (#[trigger] shorter[j]).hash == tx_hash
                        && shorter[j].blob_versioned_hashes.len() > 0;
                assert(transactions[j] == shorter[j]);
            }
        }
        if exists|j: int|
            0 <= j < transactions.len() && (#[trigger] transactions[j]).hash == tx_hash
                && transactions[j].blob_versioned_hashes.len() > 0 {
            let j = choose|j: int|
                0 <= j < transactions.len() && (#[trigger] transactions[j]).hash == tx_hash
                    && transactions[j].blob_versioned_hashes.len() > 0;
            if j < shorter.len() {
                assert(shorter[j] == transactions[j]);
                let i = entry_position(earlier, tx_hash).unwrap();
                assert(now[i].0 == tx_hash);
            } else {
                let grown = record(earlier, tx.hash, tx.blob_versioned_hashes);
                match entry_position(earlier, tx_hash) {
                    Some(i) => {
                        assert(grown[i].0 == tx_hash);
                    },
                    None => {
                        assert(grown[earlier.len() as int].0 == tx_hash);
                    },
                }
            }
        }
    }
}

/// What is recorded for a transaction hash is what the last transaction
/// with that hash to declare versioned hashes declares.
pub proof fn lemma_last_declaration_holds(
    transactions: Seq<ExecutionTransactionView>,
    tx_hash: Hash256,
    j: int,
)
    requires
        0 <= j < transactions.len(),
        transactions[j].hash == tx_hash,
        transactions[j].blob_versioned_hashes.len() > 0,
        forall|k: int|
            j < k < transactions.len() && (#[trigger] transactions[k]).hash == tx_hash
                ==> transactions[k].blob_versioned_hashes.len() == 0,
    ensures
        entries_map(declarations(transactions)).dom().contains(tx_hash),
        entries_map(declarations(transactions))[tx_hash] == transactions[j].blob_versioned_hashes,
    decreases transactions.len(),
{
    let shorter = transactions.drop_last();
    let earlier = declarations(shorter);
    let tx = transactions.last();
    lemma_declarations(shorter);
    lemma_declarations(transactions);
    let now = declarations(transactions);
    if j == transactions.len() - 1 {
        match entry_position(earlier, tx_hash) {
            Some(i) => {
                assert(now[i] == (tx_hash, tx.blob_versioned_hashes));
            },
            None => {
                assert(now[earlier.len() as int] == (tx_hash, tx.blob_versioned_hashes));
            },
        }
    } else {
        assert forall|k: int|
            j < k < shorter.len() && (#[trigger] shorter[k]).hash
                == tx_hash implies shorter[k].blob_versioned_hashes.len() == 0 by {}
        lemma_last_declaration_holds(shorter, tx_hash, j);
        let i = entry_position(earlier, tx_hash).unwrap();
        if tx.blob_versioned_hashes.len() > 0 {
            assert(now[i] == earlier[i]);
        }
    }
}

/// The transaction at position `j` has the hash `tx_hash` and declares
/// versioned hashes.
pub open spec fn declares(
    transactions: Seq<ExecutionTransactionView>,
    j: int,
    tx_hash: Hash256,
) -> bool {
    0 <= j < transactions.len() && transactions[j].hash == tx_hash
        && transactions[j].blob_versioned_hashes.len() > 0
}

/// Some transaction with the hash `first` declares versioned hashes before
/// any transaction with the hash `second` does.
pub open spec fn declares_before(
    transactions: Seq<ExecutionTransactionView>,
    first: Hash256,
    second: Hash256,
) -> bool {
    exists|j: int|
        #[trigger] declares(transactions, j, first) && forall|k: int|
            #[trigger] declares(transactions, k, second) ==> j < k
}

/// The entries stand in the order in which the block first names their
/// transactions.
pub proof fn lemma_declarations_in_block_order(
    transactions: Seq<ExecutionTransactionView>,
    a: int,
    b: int,
)
    requires
        0 <= a < b < declarations(transactions).len(),
    ensures
        declares_before(
            transactions,
            declarations(transactions)[a].0,
            declarations(transactions)[b].0,
        ),
    decreases transactions.len(),
{
    let now = declarations(transactions);
    let shorter = transactions.drop_last();
    let earlier = declarations(shorter);
    let tx = transactions.last();
    let last = transactions.len() - 1;
    let first = now[a].0;
    let second = now[b].0;
    lemma_declarations(shorter);
    lemma_declared_keys(shorter, tx.hash);
    lemma_declared_keys(shorter, second);
    assert forall|k: int| k < last && declares(transactions, k, second) implies declares(
        shorter,
        k,
        second,
    ) by {}
    if b < earlier.len() {
        lemma_declarations_in_block_order(shorter, a, b);
        let j = choose|j: int|
            #[trigger] declares(shorter, j, first) && forall|k: int|
                #[trigger] declares(shorter, k, second) ==> j < k;
        assert(declares(transactions, j, first));
        assert forall|k: int| #[trigger] declares(transactions, k, second) implies j < k by {}
    } else {
        let j = choose|j: int|
            0 <= j < shorter.len() && (#[trigger] shorter[j]).hash == earlier[a].0
                && shorter[j].blob_versioned_hashes == earlier[a].1;
        assert(declares(transactions, j, first));
        assert forall|k: int| #[trigger] declares(transactions, k, second) implies j < k by {}
    }
}

/// The entries as mathematical values.
pub open spec fn entry_views(entries: Seq<TxBlobHashes>) -> Seq<(Hash256, Seq<Hash256>)> {
    entries.map_values(|e: TxBlobHashes| e@)
}

/// Where the entry for `tx_hash` stands among `entries`.
fn find_entry(entries: &Vec<TxBlobHashes>, tx_hash: &Hash256) -> (position: Option<usize>)
    ensures
        match position {
            Some(i) => i < entries@.len() && entry_views(entries@)[i as int].0 == *tx_hash,
            None => entry_position(entry_views(entries@), *tx_hash).is_none(),
        },
        distinct_keys(entry_views(entries@)) ==> (position matches Some(i) ==> entry_position(
            entry_views(entries@),
            *tx_hash,
        ) == Some(i as int)),
{
    let mut i: usize = 0;
    while i < entries.len()
        invariant
            i <= entries.len(),
            forall|j: int| 0 <= j < i ==> entry_views(entries@)[j].0 != *tx_hash,
        decreases entries.len() - i,
    {
        if entries[i].tx_hash == *tx_hash {
            assert(entry_views(entries@)[i as int].0 == *tx_hash);
            return Some(i);
        }
        i += 1;
    }
    None
}

/// The versioned hashes that the transactions of a block declare, by
/// transaction hash, in the order in which the block first names each
/// transaction.
#[derive(Debug, PartialEq, Eq)]
pub struct TxVersionedHashes {
    entries: Vec<TxBlobHashes>,
}

impl TxVersionedHashes {
    /// The entries, in order.
    pub closed spec fn entries(&self) -> Seq<(Hash256, Seq<Hash256>)> {
        entry_views(self.entries@)
    }

    /// No transaction hash has two entries.
    #[verifier::type_invariant]
    pub closed spec fn wf(&self) -> bool {
        distinct_keys(entry_views(self.entries@))
    }

    /// The number of transactions that declare versioned hashes.
    pub fn len(&self) -> (n: usize)
        ensures
            n == self.entries().len(),
    {
        self.entries.len()
    }

    /// Whether no transaction declares a versioned hash.
    pub fn is_empty(&self) -> (empty: bool)
        ensures
            empty == (self.entries().len() == 0),
    {
        self.entries.len() == 0
    }

    /// The entry at a position.
    pub fn entry(&self, i: usize) -> (entry: &TxBlobHashes)
        requires
            i < self.entries().len(),
        ensures
            entry@ == self.entries()[i as int],
    {
        &self.entries[i]
    }

    /// Where the entry for `tx_hash` stands, if there is one.
    pub fn position(&self, tx_hash: &Hash256) -> (position: Option<usize>)
        ensures
            match position {
                Some(i) => i < self.entries().len() && entry_position(self.entries(), *tx_hash)
                    == Some(i as int),
                None => entry_position(self.entries(), *tx_hash).is_none(),
            },
    {
        proof {
            use_type_invariant(self);
        }
        find_entry(&self.entries, tx_hash)
    }

    /// Whether a transaction with this hash declares versioned hashes.
    pub fn contains_key(&self, tx_hash: &Hash256) -> (found: bool)
        ensures
            found == entry_position(self.entries(), *tx_hash).is_some(),
            found == self@.dom().contains(*tx_hash),
    {
        self.position(tx_hash).is_some()
    }

    /// What is declared for `tx_hash`, if anything is.
    pub fn get(&self, tx_hash: &Hash256) -> (versioned_hashes: Option<&Vec<Hash256>>)
        ensures
            match versioned_hashes {
                Some(versioned_hashes) => self@.dom().contains(*tx_hash) && self@[*tx_hash]
                    == versioned_hashes@,
                None => !self@.dom().contains(*tx_hash),
            },
    {
        match self.position(tx_hash) {
            Some(i) => Some(&self.entries[i].versioned_hashes),
            None => None,
        }
    }
}

impl View for TxVersionedHashes {
    type V = Map<Hash256, Seq<Hash256>>;

    open spec fn view(&self) -> Map<Hash256, Seq<Hash256>> {
        entries_map(self.entries())
    }
}

/// Collects, for each transaction of the block that declares versioned
/// hashes, the hashes in the order declared. The result is empty where no
/// transaction declares any.
pub fn tx_hash_to_versioned_hashes(execution_block: &ExecutionBlock) -> (declared:
    TxVersionedHashes)
    ensures
        declared.entries() == declarations(execution_block@.transactions),
        declared@ == entries_map(declarations(execution_block@.transactions)),
{
    let mut entries: Vec<TxBlobHashes> = Vec::new();
    let ghost transactions = execution_block@.transactions;
    let mut k: usize = 0;
    assert(transactions.subrange(0, 0) =~= seq![]);
    assert(entry_views(entries@) =~= seq![]);
    while k < execution_block.transactions.len()
        invariant
            k <= execution_block.transactions.len(),
            transactions == execution_block@.transactions,
            entry_views(entries@) == declarations(transactions.subrange(0, k as int)),
            distinct_keys(entry_views(entries@)),
        decreases execution_block.transactions.len() - k,
    {
        let tx = &execution_block.transactions[k];
        let ghost before = entry_views(entries@);
        let ghost prefix = transactions.subrange(0, k + 1);
        assert(prefix.drop_last() == transactions.subrange(0, k as int));
        assert(prefix.last() == tx@);
        if tx.blob_versioned_hashes.len() > 0 {
            let entry = TxBlobHashes {
                tx_hash: tx.hash,
                versioned_hashes: tx.blob_versioned_hashes.clone(),
            };
            assert(entry@ == (tx@.hash, tx@.blob_versioned_hashes));
            match find_entry(&entries, &tx.hash) {
                Some(i) => {
                    entries.set(i, entry);
                    assert(entry_views(entries@) =~= before.update(i as int, entry@));
                },
                None => {
                    entries.push(entry);
                    assert(entry_views(entries@) =~= before.push(entry@));
                },
            }
            proof {
                lemma_record_distinct(before, tx@.hash, tx@.blob_versioned_hashes);
            }
        }
        k += 1;
    }
    assert(transactions.subrange(0, k as int) == transactions);
    TxVersionedHashes { entries }
}

/// The versioned hashes of the items of a sidecar, item by item.
pub open spec fn sidecar_hashes(items: Seq<BlobView>) -> Seq<Hash256> {
    items.map_values(|item: BlobView| spec_versioned_hash(item.kzg_commitment))
}

/// The first position that holds a hash which an earlier position holds too.
pub open spec fn first_repeat(hashes: Seq<Hash256>) -> Option<int>
    decreases hashes.len(),
{
    if hashes.len() == 0 {
        None
    } else {
        match first_repeat(hashes.drop_last()) {
            Some(j) => Some(j),
            None => if hashes.drop_last().contains(hashes.last()) {
                Some(hashes.len() - 1)
            } else {
                None
            },
        }
    }
}

/// A sequence has a repeat just when some hash occurs in it twice, and the
/// first repeat is a position of the sequence.
pub proof fn lemma_first_repeat(hashes: Seq<Hash256>)
    ensures
        first_repeat(hashes).is_none() <==> hashes.no_duplicates(),
        first_repeat(hashes) matches Some(j) ==> 0 < j < hashes.len() && hashes.subrange(
            0,
            j,
        ).contains(hashes[j]) && hashes.subrange(0, j).no_duplicates(),
    decreases hashes.len(),
{
    if hashes.len() > 0 {
        let shorter = hashes.drop_last();
        lemma_first_repeat(shorter);
        match first_repeat(shorter) {
            Some(j) => {
                assert(shorter.subrange(0, j) == hashes.subrange(0, j));
                let i = choose|i: int| 0 <= i < j && shorter.subrange(0, j)[i] == shorter[j];
                assert(hashes[i] == hashes[j]);
            },
            None => {
                if shorter.contains(hashes.last()) {
                    let i = choose|i: int| 0 <= i < shorter.len() && shorter[i] == hashes.last();
                    assert(hashes.subrange(0, hashes.len() - 1) == shorter);
                } else {
                    assert forall|i: int, j: int|
                        0 <= i < hashes.len() && 0 <= j < hashes.len() && i != j implies hashes[i]
                        != hashes[j] by {
                        if i < shorter.len() && j < shorter.len() {
                            assert(shorter[i] != shorter[j]);
                        } else if i < shorter.len() {
                            assert(shorter[i] == hashes[i]);
                        } else {
                            assert(shorter[j] == hashes[j]);
                        }
                    }
                }
            },
        }
    }
}

/// The blob behind each versioned hash of a sidecar.
pub open spec fn blobs_by_versioned_hash(items: Seq<BlobView>) -> Map<Hash256, BlobView> {
    Map::new(
        |hash: Hash256| sidecar_hashes(items).contains(hash),
        |hash: Hash256| items[sidecar_hashes(items).index_of(hash)],
    )
}

/// Where `hash` first stands among `hashes`.
fn find_hash(hashes: &Vec<Hash256>, hash: &Hash256) -> (position: Option<usize>)
    ensures
        match position {
            Some(i) => i < hashes@.len() && hashes@[i as int] == *hash,
            None => !hashes@.contains(*hash),
        },
{
    let mut i: usize = 0;
    while i < hashes.len()
        invariant
            i <= hashes.len(),
            forall|j: int| 0 <= j < i ==> hashes@[j] != *hash,
        decreases hashes.len() - i,
    {
        if hashes[i] == *hash {
            return Some(i);
        }
        i += 1;
    }
    None
}

/// The items of a sidecar, to be found by versioned hash.
#[derive(Debug, PartialEq, Eq)]
pub struct BlobsByVersionedHash {
    hashes: Vec<Hash256>,
    blobs: Vec<Blob>,
}

impl BlobsByVersionedHash {
    /// The items, in the order of the sidecar.
    pub closed spec fn items(&self) -> Seq<BlobView> {
        blob_views(self.blobs@)
    }

    /// Each item is filed under the versioned hash of its commitment, and no
    /// two items under the same hash.
    #[verifier::type_invariant]
    pub closed spec fn wf(&self) -> bool {
        &&& self.hashes@ == sidecar_hashes(self.items())
        &&& self.hashes@.no_duplicates()
    }

    /// The number of items.
    pub fn len(&self) -> (n: usize)
        ensures
            n == self.items().len(),
    {
        proof {
            use_type_invariant(self);
        }
        self.hashes.len()
    }

    /// The item whose commitment has this versioned hash.
    pub fn get(&self, versioned_hash: &Hash256) -> (blob: Option<&Blob>)
        ensures
            match blob {
                Some(blob) => self@.dom().contains(*versioned_hash) && self@[*versioned_hash]
                    == blob@,
                None => !self@.dom().contains(*versioned_hash),
            },
    {
        proof {
            use_type_invariant(self);
        }
        match find_hash(&self.hashes, versioned_hash) {
            Some(i) => {
                proof {
                    let hashes = sidecar_hashes(self.items());
                    let k = hashes.index_of(*versioned_hash);
                    assert(hashes[k] == hashes[i as int]);
                }
                Some(&self.blobs[i])
            },
            None => None,
        }
    }
}

impl View for BlobsByVersionedHash {
    type V = Map<Hash256, BlobView>;

    closed spec fn view(&self) -> Map<Hash256, BlobView> {
        blobs_by_versioned_hash(self.items())
    }
}

/// Files each item of a sidecar under the versioned hash of its commitment.
/// Two items with the same versioned hash make the sidecar malformed: the
/// hash of the first item that repeats an earlier one is reported.
pub fn versioned_hash_to_blob(blobs: Vec<Blob>) -> (filed: Result<
    BlobsByVersionedHash,
    SlotProcessingError,
>)
    ensures
        match filed {
            Ok(filed) => {
                &&& first_repeat(sidecar_hashes(blob_views(blobs@))).is_none()
                &&& filed.items() == blob_views(blobs@)
                &&& filed@ == blobs_by_versioned_hash(blob_views(blobs@))
            },
            Err(error) => {
                &&& first_repeat(sidecar_hashes(blob_views(blobs@))) matches Some(j)
                &&& error == SlotProcessingError::DuplicateVersionedHash {
                    versioned_hash: sidecar_hashes(blob_views(blobs@))[j],
                }
            },
        },
{
    let ghost all = sidecar_hashes(blob_views(blobs@));
    let mut hashes: Vec<Hash256> = Vec::new();
    let mut k: usize = 0;
    while k < blobs.len()
        invariant
            k <= blobs.len(),
            all == sidecar_hashes(blob_views(blobs@)),
            hashes@ == all.subrange(0, k as int),
            first_repeat(hashes@).is_none(),
        decreases blobs.len() - k,
    {
        let hash = versioned_hash(blobs[k].kzg_commitment.as_slice());
        assert(hash == all[k as int]);
        let ghost grown = all.subrange(0, k + 1);
        assert(grown.drop_last() == hashes@);
        assert(grown.last() == hash);
        if find_hash(&hashes, &hash).is_some() {
            proof {
                assert(first_repeat(grown) == Some(k as int));
                lemma_repeat_of_prefix(all, k + 1);
            }
            return Err(SlotProcessingError::DuplicateVersionedHash { versioned_hash: hash });
        }
        hashes.push(hash);
        k += 1;
    }
    assert(all.subrange(0, k as int) == all);
    proof {
        lemma_first_repeat(all);
    }
    Ok(BlobsByVersionedHash { hashes, blobs })
}

/// The first repeat of a prefix is the first repeat of the whole.
proof fn lemma_repeat_of_prefix(hashes: Seq<Hash256>, n: int)
    requires
        0 <= n <= hashes.len(),
        first_repeat(hashes.subrange(0, n)).is_some(),
    ensures
        first_repeat(hashes) == first_repeat(hashes.subrange(0, n)),
    decreases hashes.len() - n,
{
    if n == hashes.len() {
        assert(hashes.subrange(0, n) == hashes);
    } else {
        assert(hashes.subrange(0, n + 1).drop_last() == hashes.subrange(0, n));
        lemma_repeat_of_prefix(hashes, n + 1);
    }
}

} // verus!
