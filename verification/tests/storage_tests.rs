use latticed::block::Block;
use latticed::storage::{Storage, CHAIN_FILE, FLUSH_EVERY, LOG_FILE, MAX_SIZE_BYTES};

fn dummy_block(index: u64, prev_hash: &str) -> Block {
    Block::new(index, format!("test event {}", index), prev_hash.to_string())
}

#[test]
fn test_buffer_accumulates_without_flush() {
    let mut s = Storage::new();
    let initial_len = s.buffer.len();
    s.buffer.push(dummy_block(1, &"0".repeat(64)));
    assert_eq!(s.buffer.len(), initial_len + 1);
}

#[test]
fn test_manual_flush_clears_buffer() {
    let mut s = Storage::new();
    s.buffer.push(dummy_block(1, &"0".repeat(64)));
    s.buffer.push(dummy_block(2, &"0".repeat(64)));
    let batch = s.flush();
    assert_eq!(s.buffer.len(), 0);
    assert_eq!(batch.len(), 2);
    assert_eq!(batch[0].index, 1);
    assert_eq!(batch[1].index, 2);
}

#[test]
fn test_auto_flush_at_threshold() {
    let mut s = Storage::new();
    let prev = "0".repeat(64);

    let mut batches = Vec::new();
    for i in 0..FLUSH_EVERY {
        if let Some(batch) = s.push(dummy_block(i as u64, &prev)) {
            batches.push(batch);
        }
    }

    // buffer should have been auto-flushed and cleared
    assert_eq!(s.buffer.len(), 0);
    assert_eq!(batches.len(), 1);
    assert_eq!(batches[0].len(), FLUSH_EVERY);
    assert_eq!(batches[0][FLUSH_EVERY - 1].index, (FLUSH_EVERY - 1) as u64);
}

#[test]
fn push_below_threshold_keeps_buffering() {
    let mut s = Storage::new();
    let prev = "0".repeat(64);
    for i in 0..(FLUSH_EVERY - 1) {
        assert!(s.push(dummy_block(i as u64, &prev)).is_none());
    }
    assert_eq!(s.buffer.len(), FLUSH_EVERY - 1);
}

#[test]
fn test_last_block_resumes_correctly() {
    // a chain file holding two JSON lines; the newest record is the last line
    let contents = "{\"index\":41,\"timestamp\":1,\"data\":\"a\",\"prev_hash\":\"p\",\"hash\":\"h\"}\n\
                    {\"index\":42,\"timestamp\":2,\"data\":\"b\",\"prev_hash\":\"h\",\"hash\":\"k\"}\n";
    let line = Storage::last_line(contents.as_bytes()).unwrap();
    let value: serde_json::Value = serde_json::from_slice(line).unwrap();
    assert_eq!(value["index"].as_u64(), Some(42));
}

#[test]
fn last_line_follows_str_lines() {
    assert_eq!(Storage::last_line(b""), None);
    assert_eq!(Storage::last_line(b"abc"), Some(&b"abc"[..]));
    assert_eq!(Storage::last_line(b"a\nb"), Some(&b"b"[..]));
    assert_eq!(Storage::last_line(b"a\nb\n"), Some(&b"b"[..]));
    assert_eq!(Storage::last_line(b"a\r\nb\r\n"), Some(&b"b"[..]));
    assert_eq!(Storage::last_line(b"a\nb\r"), Some(&b"b\r"[..]));
    assert_eq!(Storage::last_line(b"a\n\n"), Some(&b""[..]));
    assert_eq!(Storage::last_line(b"\n"), Some(&b""[..]));
    let text = "x\ny\n";
    assert_eq!(Storage::last_line(text.as_bytes()), text.lines().last().map(|l| l.as_bytes()));
}

#[test]
fn path_joins_under_storage_dir() {
    assert_eq!(Storage::path(CHAIN_FILE), "/var/lib/latticed/chain.jsonl");
    assert_eq!(Storage::path(LOG_FILE), "/var/lib/latticed/latticed.log");
    assert_eq!(Storage::path(""), "/var/lib/latticed/");
    assert_eq!(Storage::path("/etc/other"), "/etc/other");
}

#[test]
fn test_rotation_renames_at_size_limit() {
    assert!(Storage::needs_rotation(MAX_SIZE_BYTES + 1));
    assert!(Storage::needs_rotation(MAX_SIZE_BYTES));
    assert!(!Storage::needs_rotation(MAX_SIZE_BYTES - 1));

    let plan = Storage::rotation_plan(CHAIN_FILE);
    assert_eq!(plan.remove, "/var/lib/latticed/chain.jsonl.bak.3");
    let renames: Vec<(&str, &str)> = plan
        .renames
        .iter()
        .map(|(a, b)| (a.as_str(), b.as_str()))
        .collect();
    assert_eq!(
        renames,
        vec![
            ("/var/lib/latticed/chain.jsonl.bak.2", "/var/lib/latticed/chain.jsonl.bak.3"),
            ("/var/lib/latticed/chain.jsonl.bak.1", "/var/lib/latticed/chain.jsonl.bak.2"),
            ("/var/lib/latticed/chain.jsonl", "/var/lib/latticed/chain.jsonl.bak.1"),
        ]
    );
}

#[test]
fn backup_names_are_numbered() {
    assert_eq!(Storage::backup_name("latticed.log", 1), "latticed.log.bak.1");
    assert_eq!(Storage::backup_name("latticed.log", 3), "latticed.log.bak.3");
    assert_eq!(Storage::backup_name("latticed.log", 12), "latticed.log.bak.12");
    assert_eq!(Storage::backup_name("x", 0), "x.bak.0");
}

#[test]
fn appended_line_reads_back_as_last_line() {
    let mut contents = b"{\"index\":1}\n".to_vec();
    let line = b"{\"index\":2}";
    contents.extend_from_slice(line);
    contents.push(b'\n');
    assert_eq!(Storage::last_line(&contents), Some(&line[..]));
}
