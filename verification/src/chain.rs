//! The hash chain: a genesis block followed by blocks that each carry the
//! hash of the one before.
use vstd::prelude::*;
use crate::block::{hash_preimage, lemma_preimage_injective, Block};
use crate::crypto::sha256_digest;
use crate::encoding::lemma_hex_chars_injective;

verus! {

/// The event text of the genesis block.
pub open spec fn genesis_data() -> Seq<char> {
    seq!['g', 'e', 'n', 'e', 's', 'i', 's']
}

/// The previous-hash of the genesis block: sixty-four `0` characters.
pub open spec fn zero_hash() -> Seq<char> {
    Seq::new(64, |i: int| '0')
}

/// Block `i` is sealed by its own hash and points at the hash of block `i - 1`.
pub open spec fn linked_at(blocks: Seq<Block>, i: int) -> bool {
    &&& blocks[i].hash_matches()
    &&& blocks[i].prev_hash@ == blocks[i - 1].hash@
}

/// Every block is sealed by its own hash, and every block after the first
/// points at the hash of its predecessor.
pub open spec fn chain_valid(blocks: Seq<Block>) -> bool {
    &&& blocks.len() > 0 ==> blocks[0].hash_matches()
    &&& forall|i: int| 1 <= i < blocks.len() ==> #[trigger] linked_at(blocks, i)
}

/// The block that `append` adds after `prev` for the event `data`.
pub open spec fn is_successor(prev: Block, next: Block, data: Seq<char>) -> bool {
    &&& next.index == prev.index + 1
    &&& next.data@ == data
    &&& next.prev_hash@ == prev.hash@
    &&& next.hash_matches()
}

pub struct Blockchain {
    pub blocks: Vec<Block>,
}

impl Blockchain {
    /// A chain holding only its genesis block.
    pub fn new() -> (res: Blockchain)
        ensures
            res.blocks@.len() == 1,
            res.blocks@[0].index == 0,
            res.blocks@[0].data@ == genesis_data(),
            res.blocks@[0].prev_hash@ == zero_hash(),
            res.blocks@[0].hash_matches(),
            chain_valid(res.blocks@),
    {
        let data = String::from_str("genesis");
        let zeros = String::from_str("0000000000000000000000000000000000000000000000000000000000000000");
        proof {
            reveal_strlit("genesis");
            reveal_strlit("0000000000000000000000000000000000000000000000000000000000000000");
            assert(data@ =~= genesis_data());
            assert(zeros@ =~= zero_hash());
        }
        let genesis = Block::new(0, data, zeros);
        let mut blocks: Vec<Block> = Vec::new();
        blocks.push(genesis);
        Blockchain { blocks }
    }

    /// A chain that continues from `last`, the newest block read back from
    /// storage, or a fresh chain when there is none.
    pub fn resume(last: Option<Block>) -> (res: Blockchain)
        ensures
            res.blocks@.len() == 1,
            last matches Some(b) ==> res.blocks@[0] == b,
            last matches Some(b) ==> (chain_valid(res.blocks@) <==> b.hash_matches()),
            last is None ==> chain_valid(res.blocks@),
            last is None ==> {
                &&& res.blocks@[0].index == 0
                &&& res.blocks@[0].data@ == genesis_data()
                &&& res.blocks@[0].prev_hash@ == zero_hash()
                &&& res.blocks@[0].hash_matches()
            },
    {
        match last {
            Some(b) => {
                let mut blocks: Vec<Block> = Vec::new();
                blocks.push(b);
                Blockchain { blocks }
            },
            None => Blockchain::new(),
        }
    }

    /// Seals `data` in a new block after the current head.
    pub fn append(&mut self, data: String)
        requires
            old(self).blocks@.len() > 0,
            old(self).blocks@.last().index < u64::MAX,
        ensures
            final(self).blocks@.len() == old(self).blocks@.len() + 1,
            final(self).blocks@.drop_last() == old(self).blocks@,
            final(self).blocks@ == old(self).blocks@.push(final(self).blocks@.last()),
            is_successor(old(self).blocks@.last(), final(self).blocks@.last(), data@),
            chain_valid(old(self).blocks@) ==> chain_valid(final(self).blocks@),
    {
        let n: usize = self.blocks.len();
        let prev_index: u64 = self.blocks[n - 1].index;
        let prev_hash = self.blocks[n - 1].hash.clone();
        let block = Block::new(prev_index + 1, data, prev_hash);
        self.blocks.push(block);
        proof {
            assert(final(self).blocks@.drop_last() =~= old(self).blocks@);
            assert(final(self).blocks@ =~= old(self).blocks@.push(final(self).blocks@.last()));
            if chain_valid(old(self).blocks@) {
                lemma_extend_keeps_valid(old(self).blocks@, final(self).blocks@.last());
                assert(final(self).blocks@ =~= old(self).blocks@.push(final(self).blocks@.last()));
            }
        }
    }

    /// Whether every block is sealed and every block after the first is
    /// linked to its predecessor.
    pub fn is_valid(&self) -> (res: bool)
        ensures
            res == chain_valid(self.blocks@),
    {
        let n: usize = self.blocks.len();
        if n > 0 && !self.blocks[0].is_valid() {
            return false;
        }
        let mut i: usize = 1;
        while i < n
            invariant
                n == self.blocks@.len(),
                1 <= i,
                n > 0 ==> self.blocks@[0].hash_matches(),
                forall|j: int| 1 <= j < i && j < n ==> #[trigger] linked_at(self.blocks@, j),
            decreases n - i,
        {
            let current = &self.blocks[i];
            let previous = &self.blocks[i - 1];
            if !current.is_valid() {
                assert(!linked_at(self.blocks@, i as int));
                return false;
            }
            if current.prev_hash != previous.hash {
                assert(!linked_at(self.blocks@, i as int));
                return false;
            }
            assert(linked_at(self.blocks@, i as int));
            i = i + 1;
        }
        true
    }
}

/// Appending a sealed block that points at the head's hash keeps a valid chain valid.
pub proof fn lemma_extend_keeps_valid(blocks: Seq<Block>, next: Block)
    requires
        chain_valid(blocks),
        blocks.len() > 0,
        next.hash_matches(),
        next.prev_hash@ == blocks.last().hash@,
    ensures
        chain_valid(blocks.push(next)),
{
    let ext = blocks.push(next);
    assert forall|i: int| 1 <= i < ext.len() implies #[trigger] linked_at(ext, i) by {
        if i < blocks.len() {
            assert(linked_at(blocks, i));
        }
    }
}

/// Tamper evidence for edits: if a valid chain stays valid after block `i`
/// (any block but the head) is replaced by `b`, then `b` carries exactly the
/// hash of the block it replaced, is sealed by it, and (past the genesis)
/// still points at its predecessor.
pub proof fn lemma_edit_needs_same_hash(blocks: Seq<Block>, i: int, b: Block)
    requires
        chain_valid(blocks),
        0 <= i < blocks.len() - 1,
        chain_valid(blocks.update(i, b)),
    ensures
        b.hash@ == blocks[i].hash@,
        b.hash_matches(),
        i > 0 ==> b.prev_hash@ == blocks[i - 1].hash@,
{
    let edited = blocks.update(i, b);
    assert(linked_at(blocks, i + 1));
    assert(linked_at(edited, i + 1));
    if i > 0 {
        assert(linked_at(edited, i));
    }
}

/// Any modification of a block other than the head breaks the chain unless
/// it is a SHA-256 collision: if a valid chain stays valid after block `i` is
/// replaced by a block `b` that differs from it in index, timestamp, data or
/// previous hash, then the two blocks' preimages differ yet have the same
/// digest.
pub proof fn lemma_undetected_edit_is_collision(blocks: Seq<Block>, i: int, b: Block)
    requires
        chain_valid(blocks),
        0 <= i < blocks.len() - 1,
        chain_valid(blocks.update(i, b)),
        !(b.index == blocks[i].index && b.timestamp == blocks[i].timestamp && b.data@ == blocks[i].data@
            && b.prev_hash@ == blocks[i].prev_hash@),
    ensures
        hash_preimage(b.index, b.timestamp, b.data@, b.prev_hash@) != hash_preimage(
            blocks[i].index,
            blocks[i].timestamp,
            blocks[i].data@,
            blocks[i].prev_hash@,
        ),
        sha256_digest(hash_preimage(b.index, b.timestamp, b.data@, b.prev_hash@)) == sha256_digest(
            hash_preimage(blocks[i].index, blocks[i].timestamp, blocks[i].data@, blocks[i].prev_hash@),
        ),
{
    let old = blocks[i];
    lemma_edit_needs_same_hash(blocks, i, b);
    if i == 0 {
    } else {
        assert(linked_at(blocks, i));
    }
    assert(old.hash_matches());
    lemma_hex_chars_injective(
        sha256_digest(hash_preimage(b.index, b.timestamp, b.data@, b.prev_hash@)),
        sha256_digest(hash_preimage(old.index, old.timestamp, old.data@, old.prev_hash@)),
    );
    if hash_preimage(b.index, b.timestamp, b.data@, b.prev_hash@) == hash_preimage(
        old.index,
        old.timestamp,
        old.data@,
        old.prev_hash@,
    ) {
        lemma_preimage_injective(
            b.index,
            b.timestamp,
            b.data@,
            b.prev_hash@,
            old.index,
            old.timestamp,
            old.data@,
            old.prev_hash@,
        );
    }
}

/// Tamper evidence for deletions: if a valid chain stays valid after block `i`
/// (not the genesis and not the head) is removed, then the removed block
/// carried the same hash as the block before it.
pub proof fn lemma_removal_needs_equal_hashes(blocks: Seq<Block>, i: int)
    requires
        chain_valid(blocks),
        1 <= i < blocks.len() - 1,
        chain_valid(blocks.remove(i)),
    ensures
        blocks[i].hash@ == blocks[i - 1].hash@,
{
    let shorter = blocks.remove(i);
    assert(linked_at(blocks, i + 1));
    assert(linked_at(shorter, i));
    assert(shorter[i] == blocks[i + 1]);
    assert(shorter[i - 1] == blocks[i - 1]);
}

/// Dropping the newest blocks leaves a valid chain valid: the chain alone
/// cannot tell a truncated history from a short one (signed checkpoints can).
pub proof fn lemma_truncation_keeps_valid(blocks: Seq<Block>, k: int)
    requires
        chain_valid(blocks),
        0 <= k <= blocks.len(),
    ensures
        chain_valid(blocks.take(k)),
{
    let t = blocks.take(k);
    assert forall|i: int| 1 <= i < t.len() implies #[trigger] linked_at(t, i) by {
        assert(linked_at(blocks, i));
    }
}

/// Dropping the oldest blocks leaves a valid chain valid: rotation discards
/// the oldest backup, so a stored history may start anywhere, and the chain
/// alone cannot tell a shortened past from a short one.
pub proof fn lemma_dropping_oldest_keeps_valid(blocks: Seq<Block>, k: int)
    requires
        chain_valid(blocks),
        0 <= k <= blocks.len(),
    ensures
        chain_valid(blocks.skip(k)),
{
    let t = blocks.skip(k);
    if t.len() > 0 {
        if k > 0 {
            assert(linked_at(blocks, k));
        }
    }
    assert forall|i: int| 1 <= i < t.len() implies #[trigger] linked_at(t, i) by {
        assert(linked_at(blocks, i + k));
    }
}

} // verus!
