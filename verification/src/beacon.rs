//! What the beacon node returns: blocks, headers and blob sidecars, and the
//! identifiers by which they are asked for.

use crate::decimal::{
    decimal_digits, lemma_decimal_digits, lemma_parse_of_digits, parse_decimal, parse_u32,
    push_decimal,
};
use crate::primitives::Hash256;
use vstd::prelude::*;
use vstd::string::*;

verus! {

/// Names a beacon block: the head, the last finalized block, or the block
/// of a slot.
#[derive(Clone, Copy, Debug, PartialEq, Eq)]
pub enum BlockId {
    Head,
    Finalized,
    Slot(u32),
}

/// An event stream of the beacon node.
#[derive(Clone, Copy, Debug, PartialEq, Eq)]
pub enum Topic {
    Head,
    FinalizedCheckpoint,
}

/// Whether two strings hold the same characters.
fn same_text(a: &str, b: &str) -> (same: bool)
    ensures
        same == (a@ == b@),
{
    let n = a.unicode_len();
    if n != b.unicode_len() {
        return false;
    }
    let mut i: usize = 0;
    while i < n
        invariant
            i <= n,
            n == a@.len(),
            n == b@.len(),
            forall|j: int| 0 <= j < i ==> a@[j] == b@[j],
        decreases n - i,
    {
        if a.get_char(i) != b.get_char(i) {
            return false;
        }
        i += 1;
    }
    assert(a@ =~= b@);
    true
}

impl BlockId {
    /// How the identifier is written in a request.
    pub open spec fn text(self) -> Seq<char> {
        match self {
            BlockId::Head => "head"@,
            BlockId::Finalized => "finalized"@,
            BlockId::Slot(slot) => decimal_digits(slot as nat),
        }
    }

    /// The identifier that a text denotes, if it denotes one.
    pub open spec fn parse(text: Seq<char>) -> Option<BlockId> {
        if text == "head"@ {
            Some(BlockId::Head)
        } else if text == "finalized"@ {
            Some(BlockId::Finalized)
        } else {
            match parse_u32(text) {
                Some(slot) => Some(BlockId::Slot(slot)),
                None => None,
            }
        }
    }

    /// Writes the identifier as a request carries it: `head`, `finalized`,
    /// or the slot in decimal.
    pub fn to_string(&self) -> (text: String)
        ensures
            text@ == self.text(),
    {
        match self {
            BlockId::Head => String::from_str("head"),
            BlockId::Finalized => String::from_str("finalized"),
            BlockId::Slot(slot) => {
                let mut text = String::new();
                push_decimal(*slot, &mut text);
                text
            },
        }
    }

    /// Reads an identifier: `head`, `finalized`, or a slot in decimal.
    /// Any other text is refused with a message that says what was expected.
    pub fn from_str(s: &str) -> (id: Result<BlockId, String>)
        ensures
            match id {
                Ok(id) => BlockId::parse(s@) == Some(id),
                Err(message) => BlockId::parse(s@).is_none() && message@
                    == "Invalid block ID. Expected 'head', 'finalized' or a number."@,
            },
    {
        if same_text(s, "head") {
            Ok(BlockId::Head)
        } else if same_text(s, "finalized") {
            Ok(BlockId::Finalized)
        } else {
            match parse_decimal(s) {
                Some(slot) => Ok(BlockId::Slot(slot)),
                None => Err(
                    String::from_str("Invalid block ID. Expected 'head', 'finalized' or a number."),
                ),
            }
        }
    }
}

/// An identifier is read back from what it is written as.
pub proof fn lemma_block_id_round_trip(id: BlockId)
    ensures
        BlockId::parse(id.text()) == Some(id),
{
    reveal_strlit("head");
    reveal_strlit("finalized");
    match id {
        BlockId::Head => {},
        BlockId::Finalized => {},
        BlockId::Slot(slot) => {
            lemma_decimal_digits(slot as nat);
            lemma_parse_of_digits(slot);
        },
    }
}

impl Topic {
    /// The name of the stream.
    pub open spec fn text(self) -> Seq<char> {
        match self {
            Topic::Head => "head"@,
            Topic::FinalizedCheckpoint => "finalized_checkpoint"@,
        }
    }

    /// The name under which the beacon node offers the stream.
    pub fn name(&self) -> (name: String)
        ensures
            name@ == self.text(),
    {
        match self {
            Topic::Head => String::from_str("head"),
            Topic::FinalizedCheckpoint => String::from_str("finalized_checkpoint"),
        }
    }
}

/// The execution payload of a beacon block, as far as the pipeline reads it.
#[derive(Clone, Copy, Debug, PartialEq, Eq)]
pub struct ExecutionPayload {
    pub block_hash: Hash256,
}

/// The body of a beacon block: the execution payload and the KZG
/// commitments of the blobs that the block carries, where it has them.
#[derive(Clone, Debug, PartialEq, Eq)]
pub struct BlockBody {
    pub execution_payload: Option<ExecutionPayload>,
    pub blob_kzg_commitments: Option<Vec<Vec<u8>>>,
}

#[derive(Clone, Debug, PartialEq, Eq)]
pub struct BlockMessage {
    pub slot: u32,
    pub body: BlockBody,
    pub parent_root: Hash256,
}

/// A beacon block.
#[derive(Clone, Debug, PartialEq, Eq)]
pub struct Block {
    pub message: BlockMessage,
}

/// One item of a blob sidecar: its index within the block as the node wrote
/// it, the KZG commitment, and the blob itself.
#[derive(Clone, Debug, PartialEq, Eq)]
pub struct Blob {
    pub index: String,
    pub kzg_commitment: Vec<u8>,
    pub blob: Vec<u8>,
}

#[derive(Clone, Copy, Debug, PartialEq, Eq)]
pub struct BlockHeaderMessage {
    pub parent_root: Hash256,
    pub slot: u32,
}

#[derive(Clone, Copy, Debug, PartialEq, Eq)]
pub struct InnerBlockHeader {
    pub message: BlockHeaderMessage,
}

/// The header of a beacon block, with the root of the block.
#[derive(Clone, Copy, Debug, PartialEq, Eq)]
pub struct BlockHeader {
    pub root: Hash256,
    pub header: InnerBlockHeader,
}

/// What a `head` event announces.
#[derive(Clone, Copy, Debug, PartialEq, Eq)]
pub struct HeadBlockEventData {
    pub slot: u32,
    pub block: Hash256,
}

/// A beacon block body as a mathematical value.
pub struct BlockBodyView {
    pub execution_payload: Option<ExecutionPayload>,
    pub blob_kzg_commitments: Option<Seq<Seq<u8>>>,
}

pub struct BlockMessageView {
    pub slot: u32,
    pub body: BlockBodyView,
    pub parent_root: Hash256,
}

/// A beacon block as a mathematical value.
pub struct BlockView {
    pub message: BlockMessageView,
}

/// A sidecar item as a mathematical value.
pub struct BlobView {
    pub index: Seq<char>,
    pub kzg_commitment: Seq<u8>,
    pub blob: Seq<u8>,
}

impl View for BlockBody {
    type V = BlockBodyView;

    open spec fn view(&self) -> BlockBodyView {
        BlockBodyView {
            execution_payload: self.execution_payload,
            blob_kzg_commitments: match self.blob_kzg_commitments {
                Some(commitments) => Some(commitments@.map_values(|c: Vec<u8>| c@)),
                None => None,
            },
        }
    }
}

impl View for BlockMessage {
    type V = BlockMessageView;

    open spec fn view(&self) -> BlockMessageView {
        BlockMessageView { slot: self.slot, body: self.body@, parent_root: self.parent_root }
    }
}

impl View for Block {
    type V = BlockView;

    open spec fn view(&self) -> BlockView {
        BlockView { message: self.message@ }
    }
}

impl View for Blob {
    type V = BlobView;

    open spec fn view(&self) -> BlobView {
        BlobView { index: self.index@, kzg_commitment: self.kzg_commitment@, blob: self.blob@ }
    }
}

/// The items of a sidecar as mathematical values.
pub open spec fn blob_views(blobs: Seq<Blob>) -> Seq<BlobView> {
    blobs.map_values(|b: Blob| b@)
}

} // verus!
