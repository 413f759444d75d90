use blob_indexer::beacon::{BlockHeader, BlockHeaderMessage, BlockId, HeadBlockEventData, InnerBlockHeader, Topic};
use blob_indexer::decimal::{parse_decimal, push_decimal};
use blob_indexer::primitives::Hash256;
use blob_indexer::slots_processor::BlockData;

const INVALID: &str = "Invalid block ID. Expected 'head', 'finalized' or a number.";

#[test]
fn block_id_is_written_as_requests_carry_it() {
    assert_eq!(BlockId::Head.to_string(), "head");
    assert_eq!(BlockId::Finalized.to_string(), "finalized");
    assert_eq!(BlockId::Slot(0).to_string(), "0");
    assert_eq!(BlockId::Slot(7).to_string(), "7");
    assert_eq!(BlockId::Slot(10).to_string(), "10");
    assert_eq!(BlockId::Slot(1234567).to_string(), "1234567");
    assert_eq!(BlockId::Slot(u32::MAX).to_string(), "4294967295");
}

#[test]
fn block_id_is_read_from_its_names() {
    assert_eq!(BlockId::from_str("head"), Ok(BlockId::Head));
    assert_eq!(BlockId::from_str("finalized"), Ok(BlockId::Finalized));
}

#[test]
fn block_id_is_read_from_a_slot() {
    assert_eq!(BlockId::from_str("0"), Ok(BlockId::Slot(0)));
    assert_eq!(BlockId::from_str("100"), Ok(BlockId::Slot(100)));
    assert_eq!(BlockId::from_str("4294967295"), Ok(BlockId::Slot(u32::MAX)));
    assert_eq!(BlockId::from_str("+5"), Ok(BlockId::Slot(5)));
    assert_eq!(BlockId::from_str("007"), Ok(BlockId::Slot(7)));
    assert_eq!(BlockId::from_str("00000000000000000000000000000012"), Ok(BlockId::Slot(12)));
}

#[test]
fn block_id_refuses_other_text() {
    for text in [
        "", "+", "-", "-1", "4294967296", "99999999999999999999", "12a", "a12", "1 2", " 12",
        "12 ", "Head", "HEAD", "headd", "finalised", "0x10", "1.5", "++1", "+-1", "１２", "12é",
    ] {
        assert_eq!(BlockId::from_str(text), Err(INVALID.to_string()), "{:?}", text);
    }
}

#[test]
fn block_id_reads_what_it_writes() {
    for id in [
        BlockId::Head,
        BlockId::Finalized,
        BlockId::Slot(0),
        BlockId::Slot(9),
        BlockId::Slot(10),
        BlockId::Slot(99999),
        BlockId::Slot(u32::MAX),
    ] {
        assert_eq!(BlockId::from_str(&id.to_string()), Ok(id));
    }
}

#[test]
fn decimal_reads_as_the_standard_library_does() {
    for text in [
        "0", "1", "42", "+42", "0042", "4294967295", "4294967296", "", "+", "-0", "-", "4 2",
        "42x", "x", "+0", "000", "18446744073709551616", "٣",
    ] {
        assert_eq!(parse_decimal(text), text.parse::<u32>().ok(), "{:?}", text);
    }
}

#[test]
fn decimal_writes_as_the_standard_library_does() {
    for n in [0u32, 1, 9, 10, 11, 99, 100, 101, 65535, 1000000, 4294967295] {
        let mut out = String::from("slot ");
        push_decimal(n, &mut out);
        assert_eq!(out, format!("slot {}", n));
    }
}

#[test]
fn topic_has_the_name_of_its_stream() {
    assert_eq!(Topic::Head.name(), "head");
    assert_eq!(Topic::FinalizedCheckpoint.name(), "finalized_checkpoint");
}

#[test]
fn block_data_is_taken_from_a_header() {
    let root = Hash256 { bytes: [0xaa; 32] };
    let parent_root = Hash256 { bytes: [0xbb; 32] };
    let header = BlockHeader {
        root,
        header: InnerBlockHeader { message: BlockHeaderMessage { parent_root, slot: 77 } },
    };
    assert_eq!(BlockData::from(header), BlockData { root, slot: 77 });
}

#[test]
fn block_data_is_taken_from_a_head_event() {
    let block = Hash256 { bytes: [0xcc; 32] };
    let event = HeadBlockEventData { slot: 78, block };
    assert_eq!(BlockData::from(event), BlockData { root: block, slot: 78 });
}

#[test]
fn hashes_are_equal_when_their_bytes_are() {
    let a = Hash256 { bytes: [1; 32] };
    let mut bytes = [1u8; 32];
    assert_eq!(a, Hash256 { bytes });
    bytes[31] = 2;
    assert_ne!(a, Hash256 { bytes });
    bytes[31] = 1;
    bytes[0] = 0;
    assert_ne!(a, Hash256 { bytes });
}
