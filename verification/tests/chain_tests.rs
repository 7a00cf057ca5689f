use latticed::block::Block;
use latticed::chain::Blockchain;

#[test]
fn test_genesis_block_exists() {
    let chain = Blockchain::new();
    assert_eq!(chain.blocks.len(), 1);
    assert_eq!(chain.blocks[0].data, "genesis");
}

#[test]
fn test_chain_grows_on_append() {
    let mut chain = Blockchain::new();
    chain.append("event one".to_string());
    chain.append("event two".to_string());
    assert_eq!(chain.blocks.len(), 3);
}

#[test]
fn test_valid_chain_passes() {
    let mut chain = Blockchain::new();
    chain.append("/etc/passwd accessed".to_string());
    assert!(chain.is_valid());
}

#[test]
fn test_tampered_data_fails() {
    let mut chain = Blockchain::new();
    chain.append("legit event".to_string());
    chain.blocks[1].data = "tampered".to_string();
    assert!(!chain.is_valid());
}

#[test]
fn test_tampered_hash_fails() {
    let mut chain = Blockchain::new();
    chain.append("legit event".to_string());
    chain.blocks[1].hash = "a".repeat(64);
    assert!(!chain.is_valid());
}

#[test]
fn test_prev_hash_linkage() {
    let mut chain = Blockchain::new();
    chain.append("event".to_string());
    let b1_hash = chain.blocks[1].hash.clone();
    chain.append("event 2".to_string());
    assert_eq!(chain.blocks[2].prev_hash, b1_hash);
}

#[test]
fn genesis_has_zero_prev_hash_and_index_zero() {
    let chain = Blockchain::new();
    assert_eq!(chain.blocks[0].index, 0);
    assert_eq!(chain.blocks[0].prev_hash, "0".repeat(64));
    assert!(chain.blocks[0].is_valid());
}

#[test]
fn compute_hash_of_empty_fields_hashes_the_framed_preimage() {
    // index|timestamp|data length|data|prev_hash for (0, 0, "", "") is "0|0|0||".
    assert_eq!(
        Block::compute_hash(0, 0, "", ""),
        "73986145b86d473d7b8e16f88c4050bed8443ebeb4a0991cf2003834d4a350dc"
    );
}

#[test]
fn compute_hash_counts_data_length_in_bytes() {
    // "é" is two bytes of UTF-8: "3|0|2|é|x"
    assert_eq!(
        Block::compute_hash(3, 0, "\u{e9}", "x"),
        "b7da3392676e2b7038a6df1363fbd1894df449bef4936512a621251cd5520f1e"
    );
}

#[test]
fn index_and_timestamp_are_not_interchangeable() {
    let a = Block::compute_hash(1, 23, "d", "p");
    let b = Block::compute_hash(12, 3, "d", "p");
    assert_eq!(a, "1767a669bfd23bcd89dc5e6cdd1abc652b6cef934b4d98d6f8fa9df0bc77eb10");
    assert_eq!(b, "780983041c12316336e2de8087a49be59d8500daa25eab8f2e8a46b10183e13f");
    assert_ne!(a, b);
    let block = Block::new_at(1, 23, "d".to_string(), "p".to_string());
    let mut moved = block.clone();
    moved.index = 12;
    moved.timestamp = 3;
    assert!(block.is_valid());
    assert!(!moved.is_valid());
}

#[test]
fn compute_hash_is_64_hex_characters() {
    let h = Block::compute_hash(5, 6, "event", "prev");
    assert_eq!(h.len(), 64);
    assert!(h.chars().all(|c| c.is_ascii_hexdigit() && !c.is_ascii_uppercase()));
}

#[test]
fn compute_hash_renders_negative_timestamp_and_separates_fields() {
    let zeros = "0".repeat(64);
    assert_eq!(
        Block::compute_hash(1, -5, "genesis", &zeros),
        "e836fb78704e768d27371041676d3ae38243e0261f29df462a370bece1de4f6f"
    );
}

#[test]
fn new_at_seals_block_with_given_timestamp() {
    let zeros = "0".repeat(64);
    let b = Block::new_at(1, -5, "genesis".to_string(), zeros.clone());
    assert_eq!(b.index, 1);
    assert_eq!(b.timestamp, -5);
    assert_eq!(b.prev_hash, zeros);
    assert_eq!(b.hash, "e836fb78704e768d27371041676d3ae38243e0261f29df462a370bece1de4f6f");
    assert!(b.is_valid());
}

#[test]
fn block_with_edited_timestamp_is_invalid() {
    let mut b = Block::new(3, "x".to_string(), "y".to_string());
    assert!(b.is_valid());
    b.timestamp = b.timestamp.wrapping_add(1);
    assert!(!b.is_valid());
}

#[test]
fn append_links_indices_and_keeps_earlier_blocks() {
    let mut chain = Blockchain::new();
    let genesis = chain.blocks[0].clone();
    chain.append("a".to_string());
    chain.append("b".to_string());
    assert_eq!(chain.blocks[0].hash, genesis.hash);
    assert_eq!(chain.blocks[1].index, 1);
    assert_eq!(chain.blocks[2].index, 2);
    assert_eq!(chain.blocks[2].data, "b");
    assert_eq!(chain.blocks[1].prev_hash, chain.blocks[0].hash);
    assert!(chain.is_valid());
}

#[test]
fn deleting_a_middle_block_is_detected() {
    let mut chain = Blockchain::new();
    chain.append("a".to_string());
    chain.append("b".to_string());
    chain.append("c".to_string());
    chain.blocks.remove(2);
    assert!(!chain.is_valid());
}

#[test]
fn truncating_the_newest_blocks_is_not_detected_by_the_chain_alone() {
    let mut chain = Blockchain::new();
    chain.append("a".to_string());
    chain.append("b".to_string());
    chain.blocks.truncate(2);
    assert!(chain.is_valid());
}

#[test]
fn resume_continues_from_the_stored_head() {
    let last = Block::new_at(41, 7, "old".to_string(), "p".to_string());
    let mut chain = Blockchain::resume(Some(last.clone()));
    assert_eq!(chain.blocks.len(), 1);
    assert_eq!(chain.blocks[0].hash, last.hash);
    chain.append("next".to_string());
    assert_eq!(chain.blocks[1].index, 42);
    assert_eq!(chain.blocks[1].prev_hash, last.hash);
    assert!(chain.is_valid());
}

#[test]
fn resume_without_history_starts_fresh() {
    let chain = Blockchain::resume(None);
    assert_eq!(chain.blocks.len(), 1);
    assert_eq!(chain.blocks[0].data, "genesis");
    assert_eq!(chain.blocks[0].index, 0);
}

#[test]
fn tampered_genesis_data_fails() {
    let mut chain = Blockchain::new();
    chain.append("legit event".to_string());
    chain.blocks[0].data = "tampered".to_string();
    assert!(!chain.is_valid());
}

#[test]
fn unsealed_single_block_is_invalid() {
    let mut chain = Blockchain::new();
    chain.blocks[0].hash = "b".repeat(64);
    assert!(!chain.is_valid());
}

#[test]
fn resume_from_unsealed_block_is_invalid() {
    let mut last = Block::new_at(4, 1, "x".to_string(), "y".to_string());
    last.data = "edited".to_string();
    let chain = Blockchain::resume(Some(last));
    assert!(!chain.is_valid());
}
