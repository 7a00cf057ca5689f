//! Where the chain is kept: the buffer of blocks waiting to be written, the
//! file names under the storage directory, the size-based rotation of files
//! into numbered backups, and finding the newest record in a chain file.
use vstd::prelude::*;
use crate::block::Block;
use crate::encoding::{dec_text, push_decimal_text};

verus! {

/// The directory that holds the chain, the log, the checkpoints and the public key.
pub const STORAGE_DIR: &'static str = "/var/lib/latticed";

/// The chain file (one JSON block per line).
pub const CHAIN_FILE: &'static str = "chain.jsonl";

/// The human-readable event log.
pub const LOG_FILE: &'static str = "latticed.log";

/// A file is rotated once it has grown to this many bytes.
pub const MAX_SIZE_BYTES: u64 = 1_000_000;

/// Buffered blocks are written out once this many have accumulated.
pub const FLUSH_EVERY: usize = 50;

/// How many numbered backups of a rotated file are kept.
pub const MAX_BACKUPS: u32 = 3;

/// The characters of the storage directory.
pub open spec fn storage_dir() -> Seq<char> {
    seq!['/', 'v', 'a', 'r', '/', 'l', 'i', 'b', '/', 'l', 'a', 't', 't', 'i', 'c', 'e', 'd']
}

/// `filename` joined onto the storage directory: an absolute name stands for
/// itself, any other is placed under the directory after a `/`.
pub open spec fn storage_path(filename: Seq<char>) -> Seq<char> {
    if filename.len() > 0 && filename[0] == '/' {
        filename
    } else {
        storage_dir() + seq!['/'] + filename
    }
}

/// The name of backup number `i` of `filename`: `filename.bak.i`.
pub open spec fn backup_file(filename: Seq<char>, i: u32) -> Seq<char> {
    filename + seq!['.', 'b', 'a', 'k', '.'] + dec_text(i as nat)
}

/// Index of the last `\n` among the first `end` bytes, or -1 when there is none.
pub open spec fn last_newline(bytes: Seq<u8>, end: int) -> int
    decreases end,
{
    if end <= 0 {
        -1
    } else if bytes[end - 1] == 10u8 {
        end - 1
    } else {
        last_newline(bytes, end - 1)
    }
}

/// The last line of `bytes` as `str::lines` yields it: lines end at `\n`
/// or `\r\n`, a final line ending is optional, and empty text has no lines.
pub open spec fn final_line(bytes: Seq<u8>) -> Option<Seq<u8>> {
    if bytes.len() == 0 {
        None
    } else {
        let terminated = bytes.last() == 10u8;
        let body_end: int = if terminated { bytes.len() - 1 } else { bytes.len() as int };
        let line = bytes.subrange(last_newline(bytes, body_end) + 1, body_end);
        if terminated && line.len() > 0 && line.last() == 13u8 {
            Some(line.drop_last())
        } else {
            Some(line)
        }
    }
}

/// Scanning back over bytes that hold no `\n` finds the same newline as
/// scanning from where they start.
proof fn lemma_last_newline_skips(bytes: Seq<u8>, from: int, end: int)
    requires
        0 <= from <= end <= bytes.len(),
        forall|k: int| from <= k < end ==> #[trigger] bytes[k] != 10u8,
    ensures
        last_newline(bytes, end) == last_newline(bytes, from),
    decreases end - from,
{
    if end > from {
        lemma_last_newline_skips(bytes, from, end - 1);
    }
}

/// Appending a line and its `\n` to text that is empty or ends in `\n` makes
/// that line the final one, provided the line holds no `\n` and does not end
/// in `\r`: what is appended to a chain file is what `last_line` reads back.
pub proof fn lemma_appended_line_is_final(contents: Seq<u8>, line: Seq<u8>)
    requires
        contents.len() == 0 || contents.last() == 10u8,
        forall|k: int| 0 <= k < line.len() ==> #[trigger] line[k] != 10u8,
        line.len() == 0 || line.last() != 13u8,
    ensures
        final_line(contents + line + seq![10u8]) == Some(line),
{
    let bytes = contents + line + seq![10u8];
    let c = contents.len() as int;
    let body_end = bytes.len() - 1;
    assert forall|k: int| c <= k < body_end implies #[trigger] bytes[k] != 10u8 by {
        assert(bytes[k] == line[k - c]);
    }
    lemma_last_newline_skips(bytes, c, body_end);
    if c > 0 {
        assert(bytes[c - 1] == 10u8);
        assert(last_newline(bytes, c) == c - 1);
    } else {
        assert(last_newline(bytes, 0) == -1);
    }
    assert(bytes.subrange(c, body_end) =~= line);
}

/// The plan for rotating a full file: drop the oldest backup, then rename in
/// this order so that every backup moves one number up and the file becomes
/// backup 1.
pub struct RotationPlan {
    pub remove: String,
    pub renames: Vec<(String, String)>,
}

/// Blocks that have been produced but not yet written to the chain file.
pub struct Storage {
    pub buffer: Vec<Block>,
}

impl Storage {
    /// An empty buffer.
    pub fn new() -> (res: Storage)
        ensures
            res.buffer@.len() == 0,
    {
        Storage { buffer: Vec::with_capacity(FLUSH_EVERY) }
    }

    /// The path of `filename` in the storage directory.
    pub fn path(filename: &str) -> (res: String)
        ensures
            res@ == storage_path(filename@),
    {
        if !filename.is_empty() && filename.get_char(0) == '/' {
            String::from_str(filename)
        } else {
            let dir = String::from_str("/var/lib/latticed/");
            proof {
                reveal_strlit("/var/lib/latticed/");
                assert(dir@ =~= storage_dir() + seq!['/']);
            }
            dir.concat(filename)
        }
    }

    /// Buffers `block`. When the buffer reaches `FLUSH_EVERY` blocks it is
    /// emptied and its blocks are handed back, in order, to be written out.
    pub fn push(&mut self, block: Block) -> (batch: Option<Vec<Block>>)
        ensures
            old(self).buffer@.len() + 1 >= FLUSH_EVERY ==> {
                &&& batch matches Some(b) && b@ == old(self).buffer@.push(block)
                &&& final(self).buffer@.len() == 0
            },
            old(self).buffer@.len() + 1 < FLUSH_EVERY ==> {
                &&& batch is None
                &&& final(self).buffer@ == old(self).buffer@.push(block)
            },
    {
        self.buffer.push(block);
        if self.buffer.len() >= FLUSH_EVERY {
            Some(self.flush())
        } else {
            None
        }
    }

    /// Empties the buffer and hands back its blocks, in order, to be written out.
    pub fn flush(&mut self) -> (batch: Vec<Block>)
        ensures
            batch@ == old(self).buffer@,
            final(self).buffer@.len() == 0,
    {
        let mut batch: Vec<Block> = Vec::new();
        std::mem::swap(&mut batch, &mut self.buffer);
        batch
    }

    /// Whether a file of `size` bytes is due for rotation.
    pub fn needs_rotation(size: u64) -> (res: bool)
        ensures
            res == (size >= MAX_SIZE_BYTES),
    {
        size >= MAX_SIZE_BYTES
    }

    /// The name of backup number `i` of `filename`.
    pub fn backup_name(filename: &str, i: u32) -> (res: String)
        ensures
            res@ == backup_file(filename@, i),
    {
        let mut name = String::from_str(filename);
        name.append(".bak.");
        proof {
            reveal_strlit(".bak.");
        }
        push_decimal_text(&mut name, i as u64);
        proof {
            assert(name@ =~= backup_file(filename@, i));
        }
        name
    }

    /// How to rotate `filename` in the storage directory: remove the oldest
    /// backup, then rename backup `i` to `i + 1` from the highest down, and
    /// finally the file itself to backup 1.
    pub fn rotation_plan(filename: &str) -> (res: RotationPlan)
        ensures
            res.remove@ == storage_path(backup_file(filename@, MAX_BACKUPS)),
            res.renames@.len() == MAX_BACKUPS,
            forall|k: int|
                0 <= k < MAX_BACKUPS - 1 ==> {
                    &&& (#[trigger] res.renames@[k]).0@ == storage_path(
                        backup_file(filename@, (MAX_BACKUPS - 1 - k) as u32),
                    )
                    &&& res.renames@[k].1@ == storage_path(
                        backup_file(filename@, (MAX_BACKUPS - k) as u32),
                    )
                },
            res.renames@[MAX_BACKUPS - 1].0@ == storage_path(filename@),
            res.renames@[MAX_BACKUPS - 1].1@ == storage_path(backup_file(filename@, 1)),
    {
        let remove = Self::path(Self::backup_name(filename, MAX_BACKUPS).as_str());
        let mut renames: Vec<(String, String)> = Vec::new();
        let mut i: u32 = MAX_BACKUPS - 1;
        while i >= 1
            invariant
                0 <= i < MAX_BACKUPS,
                renames@.len() == MAX_BACKUPS - 1 - i,
                forall|k: int|
                    0 <= k < renames@.len() ==> {
                        &&& (#[trigger] renames@[k]).0@ == storage_path(
                            backup_file(filename@, (MAX_BACKUPS - 1 - k) as u32),
                        )
                        &&& renames@[k].1@ == storage_path(
                            backup_file(filename@, (MAX_BACKUPS - k) as u32),
                        )
                    },
            decreases i,
        {
            let from = Self::path(Self::backup_name(filename, i).as_str());
            let to = Self::path(Self::backup_name(filename, i + 1).as_str());
            renames.push((from, to));
            i = i - 1;
        }
        let base = Self::path(filename);
        let first = Self::path(Self::backup_name(filename, 1).as_str());
        renames.push((base, first));
        RotationPlan { remove, renames }
    }

    /// The last line of the contents of a chain file, where the newest block
    /// is recorded; `None` when the file is empty.
    pub fn last_line(contents: &[u8]) -> (res: Option<&[u8]>)
        ensures
            match final_line(contents@) {
                Some(line) => res matches Some(l) && l@ == line,
                None => res is None,
            },
    {
        let n: usize = contents.len();
        if n == 0 {
            return None;
        }
        let terminated: bool = contents[n - 1] == 10u8;
        let body_end: usize = if terminated { n - 1 } else { n };
        let mut j: usize = body_end;
        while j > 0 && contents[j - 1] != 10u8
            invariant
                n == contents@.len(),
                j <= body_end < n + 1,
                body_end <= n,
                last_newline(contents@, body_end as int) == last_newline(contents@, j as int),
            decreases j,
        {
            j = j - 1;
        }
        let start: usize = j;
        let mut end: usize = body_end;
        if terminated && end > start && contents[end - 1] == 13u8 {
            end = end - 1;
        }
        let line = &contents[start..end];
        proof {
            let ghost spec_line = contents@.subrange(start as int, body_end as int);
            if terminated && spec_line.len() > 0 && spec_line.last() == 13u8 {
                assert(line@ =~= spec_line.drop_last());
            } else {
                assert(line@ =~= spec_line);
            }
        }
        Some(line)
    }
}

} // verus!
