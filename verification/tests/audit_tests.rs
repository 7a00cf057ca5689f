use latticed::audit::{audit_chain, chain_audit, checkpoint_audit, is_anchored, Finding};
use latticed::chain::Blockchain;
use latticed::daemon::{checkpoint_due, checkpoint_if_due, head_checkpoint, record_event};
use latticed::sign::{checkpoint_at, load_signing_key};
use latticed::storage::Storage;

const RFC_SECRET: &str = "9d61b19deffd5a60ba844af492ec2cc44449c5697b326919703bac031cae7f60";

fn three_block_chain() -> Blockchain {
    let mut chain = Blockchain::new();
    chain.append("a".to_string());
    chain.append("b".to_string());
    chain
}

#[test]
fn honest_chain_has_no_findings() {
    let chain = three_block_chain();
    assert!(chain_audit(&chain.blocks).is_empty());
    assert!(audit_chain(&chain.blocks, &Vec::new(), None, true).is_empty());
}

#[test]
fn edited_data_reports_hash_mismatch() {
    let mut chain = three_block_chain();
    chain.blocks[1].data = "evil".to_string();
    assert_eq!(chain_audit(&chain.blocks), vec![Finding::HashMismatch(1)]);
}

#[test]
fn replaced_hash_reports_mismatch_and_broken_link() {
    let mut chain = three_block_chain();
    chain.blocks[1].hash = "a".repeat(64);
    assert_eq!(
        chain_audit(&chain.blocks),
        vec![Finding::HashMismatch(1), Finding::BrokenLink(2)]
    );
}

#[test]
fn deleted_block_reports_broken_link() {
    let mut chain = three_block_chain();
    chain.blocks.remove(1);
    assert_eq!(chain_audit(&chain.blocks), vec![Finding::BrokenLink(2)]);
}

#[test]
fn signed_head_checkpoints_pass() {
    let sk = load_signing_key(RFC_SECRET).unwrap();
    let vk = sk.verifying_key();
    let mut chain = three_block_chain();
    let first = head_checkpoint(&chain, &sk);
    chain.append("c".to_string());
    let second = head_checkpoint(&chain, &sk);
    let cps = vec![first, second];
    assert!(checkpoint_audit(&chain.blocks, &cps, &vk).is_empty());
    assert!(audit_chain(&chain.blocks, &cps, Some(&vk), false).is_empty());
}

#[test]
fn rollback_and_forgery_are_reported() {
    let sk = load_signing_key(RFC_SECRET).unwrap();
    let vk = sk.verifying_key();
    let chain = three_block_chain();
    let head = &chain.blocks[2];
    let high = checkpoint_at(2, &head.hash, 10, &sk);
    let mut low = checkpoint_at(2, &head.hash, 11, &sk);
    low.signature = "00".repeat(64);
    let cps = vec![high, low];
    assert_eq!(
        checkpoint_audit(&chain.blocks, &cps, &vk),
        vec![Finding::InvalidSignature(2), Finding::HeightRollback(2)]
    );
}

#[test]
fn rewritten_chain_reports_head_mismatch() {
    let sk = load_signing_key(RFC_SECRET).unwrap();
    let vk = sk.verifying_key();
    let honest = three_block_chain();
    let cp = head_checkpoint(&honest, &sk);
    // an attacker regenerates a self-consistent chain of the same length
    let mut forged = Blockchain::new();
    forged.append("x".to_string());
    forged.append("y".to_string());
    assert!(forged.is_valid());
    assert!(!is_anchored(&forged.blocks, &cp));
    let cps = vec![cp];
    assert_eq!(
        audit_chain(&forged.blocks, &cps, Some(&vk), false),
        vec![Finding::HeadMismatch(2)]
    );
    assert_eq!(
        audit_chain(&forged.blocks, &cps, None, false),
        vec![Finding::MissingPublicKey]
    );
}

#[test]
fn record_event_appends_and_buffers() {
    let mut chain = Blockchain::new();
    let mut store = Storage::new();
    let (block, batch) = record_event(&mut chain, &mut store, "created /etc/x".to_string());
    assert!(batch.is_none());
    assert_eq!(block.index, 1);
    assert_eq!(block.data, "created /etc/x");
    assert_eq!(chain.blocks.len(), 2);
    assert_eq!(store.buffer.len(), 1);
    assert_eq!(store.buffer[0].hash, block.hash);
    assert!(chain.is_valid());
}

#[test]
fn tampered_first_block_is_reported() {
    let mut chain = three_block_chain();
    chain.blocks[0].data = "rewritten genesis".to_string();
    assert_eq!(chain_audit(&chain.blocks), vec![Finding::HashMismatch(0)]);
}

#[test]
fn unsigned_store_fails_by_default() {
    let chain = three_block_chain();
    assert_eq!(
        audit_chain(&chain.blocks, &Vec::new(), None, false),
        vec![Finding::MissingPublicKey]
    );
    let sk = load_signing_key(RFC_SECRET).unwrap();
    let vk = sk.verifying_key();
    assert_eq!(
        audit_chain(&chain.blocks, &Vec::new(), Some(&vk), false),
        vec![Finding::NoCheckpoints]
    );
    assert!(audit_chain(&chain.blocks, &Vec::new(), Some(&vk), true).is_empty());
}

#[test]
fn empty_chain_fails() {
    assert_eq!(
        audit_chain(&Vec::new(), &Vec::new(), None, true),
        vec![Finding::EmptyChain]
    );
}

#[test]
fn checkpoints_are_signed_only_when_the_head_moved() {
    let sk = load_signing_key(RFC_SECRET).unwrap();
    let vk = sk.verifying_key();
    let mut chain = three_block_chain();
    let mut last_signed: Option<u64> = None;
    assert!(checkpoint_due(None, 0));
    assert!(!checkpoint_due(Some(2), 2));
    assert!(checkpoint_due(Some(1), 2));

    let mut cps = Vec::new();
    cps.push(checkpoint_if_due(&chain, &sk, &mut last_signed).unwrap());
    assert_eq!(last_signed, Some(2));
    // an idle interval: the head has not moved, nothing is signed
    assert!(checkpoint_if_due(&chain, &sk, &mut last_signed).is_none());
    assert_eq!(last_signed, Some(2));
    chain.append("d".to_string());
    cps.push(checkpoint_if_due(&chain, &sk, &mut last_signed).unwrap());
    assert_eq!(last_signed, Some(3));
    assert!(audit_chain(&chain.blocks, &cps, Some(&vk), false).is_empty());
}

#[test]
fn blocks_after_the_newest_checkpoint_are_accepted() {
    let sk = load_signing_key(RFC_SECRET).unwrap();
    let vk = sk.verifying_key();
    let mut chain = three_block_chain();
    let mut store = Storage::new();
    let mut last_signed: Option<u64> = None;
    let cp = checkpoint_if_due(&chain, &sk, &mut last_signed).unwrap();
    record_event(&mut chain, &mut store, "later event".to_string());
    let cps = vec![cp];
    assert!(audit_chain(&chain.blocks, &cps, Some(&vk), false).is_empty());
}

#[test]
fn daemon_run_with_idle_ticks_passes() {
    let sk = load_signing_key(RFC_SECRET).unwrap();
    let vk = sk.verifying_key();
    let mut chain = Blockchain::new();
    let mut store = Storage::new();
    let mut last_signed: Option<u64> = None;
    let mut cps = Vec::new();
    for round in 0..4 {
        if round % 2 == 0 {
            record_event(&mut chain, &mut store, format!("event {}", round));
        }
        // two ticks per round: the second one is idle
        for _ in 0..2 {
            if let Some(cp) = checkpoint_if_due(&chain, &sk, &mut last_signed) {
                cps.push(cp);
            }
        }
    }
    assert_eq!(cps.len(), 2);
    assert!(audit_chain(&chain.blocks, &cps, Some(&vk), false).is_empty());
}
