use blob_indexer::beacon::Blob;
use blob_indexer::correlator::{
    tx_hash_to_versioned_hashes, versioned_hash, versioned_hash_of_digest, versioned_hash_to_blob,
    BLOB_COMMITMENT_VERSION_KZG,
};
use blob_indexer::error::SlotProcessingError;
use blob_indexer::execution::{ExecutionBlock, ExecutionTransaction};
use blob_indexer::primitives::{Address, Hash256, Uint256};

fn hash(byte: u8) -> Hash256 {
    Hash256 { bytes: [byte; 32] }
}

fn hex32(text: &str) -> [u8; 32] {
    let mut bytes = [0u8; 32];
    for i in 0..32 {
        bytes[i] = u8::from_str_radix(&text[2 * i..2 * i + 2], 16).unwrap();
    }
    bytes
}

fn transaction(tx_hash: u8, versioned_hashes: Vec<Hash256>) -> ExecutionTransaction {
    ExecutionTransaction {
        hash: hash(tx_hash),
        from: Address { bytes: [0x0f; 20] },
        to: Some(Address { bytes: [0x70; 20] }),
        blob_versioned_hashes: versioned_hashes,
    }
}

fn block(transactions: Vec<ExecutionTransaction>) -> ExecutionBlock {
    ExecutionBlock {
        hash: Some(hash(0xaa)),
        number: Some(17),
        timestamp: Uint256 { limbs: [1700000000, 0, 0, 0] },
        transactions,
    }
}

fn blob(commitment: &[u8], data: u8) -> Blob {
    Blob { index: "0".to_string(), kzg_commitment: commitment.to_vec(), blob: vec![data; 8] }
}

#[test]
fn version_byte_is_one() {
    assert_eq!(BLOB_COMMITMENT_VERSION_KZG, 1);
}

#[test]
fn versioned_hash_of_the_empty_commitment() {
    let expected = hex32("01b0c44298fc1c149afbf4c8996fb92427ae41e4649b934ca495991b7852b855");
    assert_eq!(versioned_hash(&[]), Hash256 { bytes: expected });
}

#[test]
fn versioned_hash_of_three_bytes() {
    let expected = hex32("017816bf8f01cfea414140de5dae2223b00361a396177a9cb410ff61f20015ad");
    assert_eq!(versioned_hash(b"abc"), Hash256 { bytes: expected });
}

#[test]
fn versioned_hash_of_a_commitment_of_48_bytes() {
    let commitment = [0u8; 48];
    let hashed = versioned_hash(&commitment);
    assert_eq!(hashed.bytes[0], 1);
    assert_ne!(&hashed.bytes[..], &commitment[..32]);
    assert_eq!(hashed, versioned_hash(&commitment));
    assert_ne!(hashed, versioned_hash(&[0u8; 47]));
}

#[test]
fn versioned_hash_keeps_the_last_31_bytes_of_the_digest() {
    let mut digest = [0u8; 32];
    for i in 0..32 {
        digest[i] = 0xf0 + (i as u8 % 16);
    }
    let hashed = versioned_hash_of_digest(digest);
    assert_eq!(hashed.bytes[0], 0x01);
    assert_eq!(hashed.bytes[1..], digest[1..]);
}

#[test]
fn no_declarations_in_a_block_without_transactions() {
    let declared = tx_hash_to_versioned_hashes(&block(vec![]));
    assert!(declared.is_empty());
    assert_eq!(declared.len(), 0);
    assert!(!declared.contains_key(&hash(1)));
}

#[test]
fn no_declarations_where_no_transaction_carries_a_blob() {
    let declared =
        tx_hash_to_versioned_hashes(&block(vec![transaction(1, vec![]), transaction(2, vec![])]));
    assert!(declared.is_empty());
    assert!(!declared.contains_key(&hash(1)));
    assert_eq!(declared.position(&hash(2)), None);
}

#[test]
fn declarations_stand_in_block_order() {
    let declared = tx_hash_to_versioned_hashes(&block(vec![
        transaction(3, vec![hash(0x31), hash(0x32)]),
        transaction(9, vec![]),
        transaction(1, vec![hash(0x11)]),
        transaction(2, vec![hash(0x21), hash(0x22), hash(0x23)]),
    ]));
    assert_eq!(declared.len(), 3);
    assert!(!declared.is_empty());
    assert_eq!(declared.entry(0).tx_hash, hash(3));
    assert_eq!(declared.entry(0).versioned_hashes, vec![hash(0x31), hash(0x32)]);
    assert_eq!(declared.entry(1).tx_hash, hash(1));
    assert_eq!(declared.entry(1).versioned_hashes, vec![hash(0x11)]);
    assert_eq!(declared.entry(2).tx_hash, hash(2));
    assert_eq!(declared.entry(2).versioned_hashes, vec![hash(0x21), hash(0x22), hash(0x23)]);
    assert!(declared.contains_key(&hash(1)));
    assert!(declared.contains_key(&hash(2)));
    assert!(declared.contains_key(&hash(3)));
    assert!(!declared.contains_key(&hash(9)));
    assert_eq!(declared.position(&hash(1)), Some(1));
    assert_eq!(declared.get(&hash(3)), Some(&vec![hash(0x31), hash(0x32)]));
    assert_eq!(declared.get(&hash(2)), Some(&vec![hash(0x21), hash(0x22), hash(0x23)]));
    assert_eq!(declared.get(&hash(9)), None);
}

#[test]
fn a_later_declaration_replaces_an_earlier_one_in_its_place() {
    let declared = tx_hash_to_versioned_hashes(&block(vec![
        transaction(1, vec![hash(0x11)]),
        transaction(2, vec![hash(0x21)]),
        transaction(1, vec![hash(0x12), hash(0x13)]),
        transaction(2, vec![]),
    ]));
    assert_eq!(declared.len(), 2);
    assert_eq!(declared.entry(0).tx_hash, hash(1));
    assert_eq!(declared.entry(0).versioned_hashes, vec![hash(0x12), hash(0x13)]);
    assert_eq!(declared.entry(1).tx_hash, hash(2));
    assert_eq!(declared.entry(1).versioned_hashes, vec![hash(0x21)]);
}

#[test]
fn blobs_are_found_by_versioned_hash() {
    let filed = versioned_hash_to_blob(vec![blob(b"one", 1), blob(b"two", 2), blob(b"three", 3)])
        .unwrap();
    assert_eq!(filed.len(), 3);
    assert_eq!(filed.get(&versioned_hash(b"two")), Some(&blob(b"two", 2)));
    assert_eq!(filed.get(&versioned_hash(b"one")), Some(&blob(b"one", 1)));
    assert_eq!(filed.get(&versioned_hash(b"three")), Some(&blob(b"three", 3)));
    assert_eq!(filed.get(&versioned_hash(b"four")), None);
    assert_eq!(filed.get(&hash(0)), None);
}

#[test]
fn an_empty_sidecar_files_nothing() {
    let filed = versioned_hash_to_blob(vec![]).unwrap();
    assert_eq!(filed.len(), 0);
    assert_eq!(filed.get(&versioned_hash(b"one")), None);
}

#[test]
fn two_items_with_one_commitment_are_refused() {
    let filed = versioned_hash_to_blob(vec![
        blob(b"one", 1),
        blob(b"two", 2),
        blob(b"three", 3),
        blob(b"two", 4),
        blob(b"one", 5),
    ]);
    assert_eq!(
        filed,
        Err(SlotProcessingError::DuplicateVersionedHash { versioned_hash: versioned_hash(b"two") })
    );
}
