//! Replaying a stored chain and its checkpoints: every block must be sealed
//! and linked, every checkpoint signed, checkpoint heights must only grow,
//! and the newest checkpoint must name a block that the chain holds.
use vstd::prelude::*;
use crate::block::{block_hash, Block};
use crate::chain::{chain_valid, linked_at};
use crate::sign::{checkpoint_accepted, verify_checkpoint, Checkpoint, VerifyingKey};

verus! {

/// One piece of evidence of tampering.
#[derive(Debug, Clone, Copy, PartialEq, Eq, Structural)]
pub enum Finding {
    /// The block with this index does not carry the hash of its fields.
    HashMismatch(u64),
    /// The block with this index does not point at its predecessor's hash.
    BrokenLink(u64),
    /// The checkpoint at this height has no valid signature.
    InvalidSignature(u64),
    /// The checkpoint at this height is not higher than the one before it.
    HeightRollback(u64),
    /// The newest checkpoint, at this height, names a block the chain does not hold.
    HeadMismatch(u64),
    /// There are no blocks to verify.
    EmptyChain,
    /// No public key is at hand, so the checkpoints cannot be checked.
    MissingPublicKey,
    /// There are no signed checkpoints.
    NoCheckpoints,
}

/// What is wrong with block `i` (for `i >= 1`), in report order.
pub open spec fn block_findings(blocks: Seq<Block>, i: int) -> Seq<Finding> {
    let b = blocks[i];
    (if b.hash_matches() {
        Seq::<Finding>::empty()
    } else {
        seq![Finding::HashMismatch(b.index)]
    }) + (if b.prev_hash@ == blocks[i - 1].hash@ {
        Seq::<Finding>::empty()
    } else {
        seq![Finding::BrokenLink(b.index)]
    })
}

/// The findings for blocks `1 .. k`.
pub open spec fn chain_findings_upto(blocks: Seq<Block>, k: int) -> Seq<Finding>
    decreases k,
{
    if k <= 1 {
        Seq::<Finding>::empty()
    } else {
        chain_findings_upto(blocks, k - 1) + block_findings(blocks, k - 1)
    }
}

/// What is wrong with the first block: whether it is sealed by its own hash.
pub open spec fn first_block_findings(blocks: Seq<Block>) -> Seq<Finding> {
    if blocks.len() > 0 && !blocks[0].hash_matches() {
        seq![Finding::HashMismatch(blocks[0].index)]
    } else {
        Seq::<Finding>::empty()
    }
}

/// The findings for the whole chain: the first block's seal, then each
/// later block's seal and link, in chain order.
pub open spec fn chain_findings(blocks: Seq<Block>) -> Seq<Finding> {
    first_block_findings(blocks) + chain_findings_upto(blocks, blocks.len() as int)
}

/// Checkpoint `i` is signed under `public`, and higher than checkpoint `i - 1`.
pub open spec fn checkpoint_sound(cps: Seq<Checkpoint>, i: int, public: Seq<u8>) -> bool {
    &&& checkpoint_accepted(cps[i], public)
    &&& (i > 0 ==> cps[i].height > cps[i - 1].height)
}

/// What is wrong with checkpoint `i`, in report order.
pub open spec fn checkpoint_findings_at(cps: Seq<Checkpoint>, i: int, public: Seq<u8>) -> Seq<Finding> {
    let cp = cps[i];
    (if checkpoint_accepted(cp, public) {
        Seq::<Finding>::empty()
    } else {
        seq![Finding::InvalidSignature(cp.height)]
    }) + (if i > 0 && cp.height <= cps[i - 1].height {
        seq![Finding::HeightRollback(cp.height)]
    } else {
        Seq::<Finding>::empty()
    })
}

/// The findings for checkpoints `0 .. k`.
pub open spec fn checkpoint_findings_upto(cps: Seq<Checkpoint>, k: int, public: Seq<u8>) -> Seq<Finding>
    decreases k,
{
    if k <= 0 {
        Seq::<Finding>::empty()
    } else {
        checkpoint_findings_upto(cps, k - 1, public) + checkpoint_findings_at(cps, k - 1, public)
    }
}

/// The chain holds the block the checkpoint names: some block has the
/// checkpoint's height as index and its head hash as hash. (Blocks recorded
/// after the newest checkpoint may follow it.)
pub open spec fn anchored(blocks: Seq<Block>, cp: Checkpoint) -> bool {
    exists|j: int|
        0 <= j < blocks.len() && #[trigger] blocks[j].index == cp.height && blocks[j].hash@
            == cp.head_hash@
}

/// The finding for the newest checkpoint's anchor, if it is missing.
pub open spec fn head_findings(blocks: Seq<Block>, cps: Seq<Checkpoint>) -> Seq<Finding> {
    if cps.len() > 0 && !anchored(blocks, cps.last()) {
        seq![Finding::HeadMismatch(cps.last().height)]
    } else {
        Seq::<Finding>::empty()
    }
}

/// All checkpoint findings: signatures and heights in order, then the anchor.
pub open spec fn checkpoint_findings(blocks: Seq<Block>, cps: Seq<Checkpoint>, public: Seq<u8>) -> Seq<Finding> {
    checkpoint_findings_upto(cps, cps.len() as int, public) + head_findings(blocks, cps)
}

/// The checkpoints are all signed, strictly rising, and the newest names a block of the chain.
pub open spec fn checkpoints_sound(blocks: Seq<Block>, cps: Seq<Checkpoint>, public: Seq<u8>) -> bool {
    &&& forall|i: int| 0 <= i < cps.len() ==> #[trigger] checkpoint_sound(cps, i, public)
    &&& cps.len() > 0 ==> anchored(blocks, cps.last())
}

/// The chain findings are empty exactly when blocks `1 .. k` are all linked.
pub proof fn lemma_no_chain_findings(blocks: Seq<Block>, k: int)
    requires
        k <= blocks.len(),
    ensures
        chain_findings_upto(blocks, k).len() == 0 <==> forall|i: int|
            1 <= i < k ==> #[trigger] linked_at(blocks, i),
    decreases k,
{
    if k > 1 {
        lemma_no_chain_findings(blocks, k - 1);
        if chain_findings_upto(blocks, k).len() == 0 {
            assert(block_findings(blocks, k - 1).len() == 0);
            assert(linked_at(blocks, k - 1));
            assert forall|i: int| 1 <= i < k implies #[trigger] linked_at(blocks, i) by {
                if i < k - 1 {
                }
            }
        } else if forall|i: int| 1 <= i < k ==> #[trigger] linked_at(blocks, i) {
            assert(linked_at(blocks, k - 1));
            assert(chain_findings_upto(blocks, k - 1).len() == 0);
        }
    }
}

/// The checkpoint findings for `0 .. k` are empty exactly when those checkpoints are sound.
pub proof fn lemma_no_checkpoint_findings(cps: Seq<Checkpoint>, k: int, public: Seq<u8>)
    requires
        k <= cps.len(),
    ensures
        checkpoint_findings_upto(cps, k, public).len() == 0 <==> forall|i: int|
            0 <= i < k ==> #[trigger] checkpoint_sound(cps, i, public),
    decreases k,
{
    if k > 0 {
        lemma_no_checkpoint_findings(cps, k - 1, public);
        if checkpoint_findings_upto(cps, k, public).len() == 0 {
            assert(checkpoint_findings_at(cps, k - 1, public).len() == 0);
            assert(checkpoint_sound(cps, k - 1, public));
            assert forall|i: int| 0 <= i < k implies #[trigger] checkpoint_sound(cps, i, public) by {
                if i < k - 1 {
                }
            }
        } else if forall|i: int| 0 <= i < k ==> #[trigger] checkpoint_sound(cps, i, public) {
            assert(checkpoint_sound(cps, k - 1, public));
            assert(checkpoint_findings_upto(cps, k - 1, public).len() == 0);
        }
    }
}

/// Sound checkpoints only ever move up: of any two, the later one is higher.
pub proof fn lemma_sound_heights_increase(blocks: Seq<Block>, cps: Seq<Checkpoint>, public: Seq<u8>, i: int, j: int)
    requires
        checkpoints_sound(blocks, cps, public),
        0 <= i < j < cps.len(),
    ensures
        cps[i].height < cps[j].height,
    decreases j - i,
{
    assert(checkpoint_sound(cps, j, public));
    if i < j - 1 {
        lemma_sound_heights_increase(blocks, cps, public, i, j - 1);
    }
}

/// Appending blocks to a chain keeps its checkpoints sound: the newest
/// checkpoint still names a block that the chain holds.
pub proof fn lemma_append_keeps_checkpoints_sound(blocks: Seq<Block>, b: Block, cps: Seq<Checkpoint>, public: Seq<u8>)
    requires
        checkpoints_sound(blocks, cps, public),
    ensures
        checkpoints_sound(blocks.push(b), cps, public),
{
    if cps.len() > 0 {
        let j = choose|j: int|
            0 <= j < blocks.len() && #[trigger] blocks[j].index == cps.last().height && blocks[j].hash@
                == cps.last().head_hash@;
        assert(blocks.push(b)[j] == blocks[j]);
    }
}

/// Adding a checkpoint that is signed, names a block of the chain and is
/// higher than every checkpoint before it keeps signed, rising checkpoints
/// sound, and makes the list anchored.
pub proof fn lemma_next_checkpoint_sound(blocks: Seq<Block>, cps: Seq<Checkpoint>, cp: Checkpoint, public: Seq<u8>)
    requires
        forall|i: int| 0 <= i < cps.len() ==> #[trigger] checkpoint_sound(cps, i, public),
        anchored(blocks, cp),
        checkpoint_accepted(cp, public),
        cps.len() > 0 ==> cps.last().height < cp.height,
    ensures
        checkpoints_sound(blocks, cps.push(cp), public),
{
    let ext = cps.push(cp);
    assert forall|i: int| 0 <= i < ext.len() implies #[trigger] checkpoint_sound(ext, i, public) by {
        if i < cps.len() {
            assert(checkpoint_sound(cps, i, public));
        }
    }
    assert(ext.last() == cp);
}

/// The findings for blocks `1 .. k` report, for each of those blocks, a hash
/// mismatch when it is not sealed by its hash and a broken link when it does
/// not point at its predecessor.
proof fn lemma_upto_reports_block(blocks: Seq<Block>, k: int, i: int)
    requires
        1 <= i < k <= blocks.len(),
    ensures
        !blocks[i].hash_matches() ==> chain_findings_upto(blocks, k).contains(
            Finding::HashMismatch(blocks[i].index),
        ),
        blocks[i].prev_hash@ != blocks[i - 1].hash@ ==> chain_findings_upto(blocks, k).contains(
            Finding::BrokenLink(blocks[i].index),
        ),
    decreases k,
{
    let prefix = chain_findings_upto(blocks, k - 1);
    let whole = chain_findings_upto(blocks, k);
    assert(whole == prefix + block_findings(blocks, k - 1));
    if i == k - 1 {
        let bf = block_findings(blocks, i);
        if !blocks[i].hash_matches() {
            assert(bf[0] == Finding::HashMismatch(blocks[i].index));
            assert(whole[prefix.len() as int] == bf[0]);
        }
        if blocks[i].prev_hash@ != blocks[i - 1].hash@ {
            let j = bf.len() - 1;
            assert(bf[j] == Finding::BrokenLink(blocks[i].index));
            assert(whole[prefix.len() + j] == bf[j]);
        }
    } else {
        lemma_upto_reports_block(blocks, k - 1, i);
        if !blocks[i].hash_matches() {
            let j = choose|j: int| 0 <= j < prefix.len() && prefix[j] == Finding::HashMismatch(blocks[i].index);
            assert(whole[j] == prefix[j]);
        }
        if blocks[i].prev_hash@ != blocks[i - 1].hash@ {
            let j = choose|j: int| 0 <= j < prefix.len() && prefix[j] == Finding::BrokenLink(blocks[i].index);
            assert(whole[j] == prefix[j]);
        }
    }
}

/// Every tampered block is reported: a block that does not carry the hash of
/// its fields yields a hash mismatch with its index, and a block that does
/// not point at its predecessor's hash yields a broken link with its index.
pub proof fn lemma_every_tampered_block_reported(blocks: Seq<Block>)
    ensures
        forall|i: int|
            0 <= i < blocks.len() && !(#[trigger] blocks[i]).hash_matches() ==> chain_findings(
                blocks,
            ).contains(Finding::HashMismatch(blocks[i].index)),
        forall|i: int|
            1 <= i < blocks.len() && (#[trigger] blocks[i]).prev_hash@ != blocks[i - 1].hash@
                ==> chain_findings(blocks).contains(Finding::BrokenLink(blocks[i].index)),
{
    let first = first_block_findings(blocks);
    let rest = chain_findings_upto(blocks, blocks.len() as int);
    let all = chain_findings(blocks);
    assert forall|i: int|
        0 <= i < blocks.len() && !(#[trigger] blocks[i]).hash_matches() implies all.contains(
            Finding::HashMismatch(blocks[i].index),
        ) by {
        if i == 0 {
            assert(all[0] == Finding::HashMismatch(blocks[0].index));
        } else {
            lemma_upto_reports_block(blocks, blocks.len() as int, i);
            let j = choose|j: int| 0 <= j < rest.len() && rest[j] == Finding::HashMismatch(blocks[i].index);
            assert(all[first.len() + j] == rest[j]);
        }
    }
    assert forall|i: int|
        1 <= i < blocks.len() && (#[trigger] blocks[i]).prev_hash@ != blocks[i - 1].hash@
            implies all.contains(Finding::BrokenLink(blocks[i].index)) by {
        lemma_upto_reports_block(blocks, blocks.len() as int, i);
        let j = choose|j: int| 0 <= j < rest.len() && rest[j] == Finding::BrokenLink(blocks[i].index);
        assert(all[first.len() + j] == rest[j]);
    }
}

/// The findings for checkpoints `0 .. k` report, for each of them, an invalid
/// signature when its signature is not accepted and a rollback when it is not
/// higher than the checkpoint before it.
proof fn lemma_upto_reports_checkpoint(cps: Seq<Checkpoint>, k: int, i: int, public: Seq<u8>)
    requires
        0 <= i < k <= cps.len(),
    ensures
        !checkpoint_accepted(cps[i], public) ==> checkpoint_findings_upto(cps, k, public).contains(
            Finding::InvalidSignature(cps[i].height),
        ),
        i > 0 && cps[i].height <= cps[i - 1].height ==> checkpoint_findings_upto(cps, k, public).contains(
            Finding::HeightRollback(cps[i].height),
        ),
    decreases k,
{
    let prefix = checkpoint_findings_upto(cps, k - 1, public);
    let whole = checkpoint_findings_upto(cps, k, public);
    assert(whole == prefix + checkpoint_findings_at(cps, k - 1, public));
    if i == k - 1 {
        let cf = checkpoint_findings_at(cps, i, public);
        if !checkpoint_accepted(cps[i], public) {
            assert(cf[0] == Finding::InvalidSignature(cps[i].height));
            assert(whole[prefix.len() as int] == cf[0]);
        }
        if i > 0 && cps[i].height <= cps[i - 1].height {
            let j = cf.len() - 1;
            assert(cf[j] == Finding::HeightRollback(cps[i].height));
            assert(whole[prefix.len() + j] == cf[j]);
        }
    } else {
        lemma_upto_reports_checkpoint(cps, k - 1, i, public);
        if !checkpoint_accepted(cps[i], public) {
            let j = choose|j: int| 0 <= j < prefix.len() && prefix[j] == Finding::InvalidSignature(cps[i].height);
            assert(whole[j] == prefix[j]);
        }
        if i > 0 && cps[i].height <= cps[i - 1].height {
            let j = choose|j: int| 0 <= j < prefix.len() && prefix[j] == Finding::HeightRollback(cps[i].height);
            assert(whole[j] == prefix[j]);
        }
    }
}

/// Every bad checkpoint is reported, not only the newest: a checkpoint whose
/// signature is not accepted yields an invalid signature with its height, and
/// one that is not higher than its predecessor yields a rollback.
pub proof fn lemma_every_bad_checkpoint_reported(blocks: Seq<Block>, cps: Seq<Checkpoint>, public: Seq<u8>)
    ensures
        forall|i: int|
            0 <= i < cps.len() && !checkpoint_accepted(#[trigger] cps[i], public) ==> checkpoint_findings(
                blocks,
                cps,
                public,
            ).contains(Finding::InvalidSignature(cps[i].height)),
        forall|i: int|
            1 <= i < cps.len() && (#[trigger] cps[i]).height <= cps[i - 1].height ==> checkpoint_findings(
                blocks,
                cps,
                public,
            ).contains(Finding::HeightRollback(cps[i].height)),
{
    let listed = checkpoint_findings_upto(cps, cps.len() as int, public);
    let all = checkpoint_findings(blocks, cps, public);
    assert forall|i: int|
        0 <= i < cps.len() && !checkpoint_accepted(#[trigger] cps[i], public) implies all.contains(
            Finding::InvalidSignature(cps[i].height),
        ) by {
        lemma_upto_reports_checkpoint(cps, cps.len() as int, i, public);
        let j = choose|j: int| 0 <= j < listed.len() && listed[j] == Finding::InvalidSignature(cps[i].height);
        assert(all[j] == listed[j]);
    }
    assert forall|i: int|
        1 <= i < cps.len() && (#[trigger] cps[i]).height <= cps[i - 1].height implies all.contains(
            Finding::HeightRollback(cps[i].height),
        ) by {
        lemma_upto_reports_checkpoint(cps, cps.len() as int, i, public);
        let j = choose|j: int| 0 <= j < listed.len() && listed[j] == Finding::HeightRollback(cps[i].height);
        assert(all[j] == listed[j]);
    }
}

/// Sound checkpoints are every one of them signed, strictly rising, and the
/// newest names a block of the chain.
pub proof fn lemma_sound_checkpoints_all_signed(blocks: Seq<Block>, cps: Seq<Checkpoint>, public: Seq<u8>)
    requires
        checkpoints_sound(blocks, cps, public),
    ensures
        forall|i: int| 0 <= i < cps.len() ==> checkpoint_accepted(#[trigger] cps[i], public),
        forall|i: int, j: int| 0 <= i < j < cps.len() ==> (#[trigger] cps[i]).height < (#[trigger] cps[j]).height,
        cps.len() > 0 ==> exists|j: int|
            0 <= j < blocks.len() && #[trigger] blocks[j].index == cps.last().height && blocks[j].hash@
                == cps.last().head_hash@,
{
    assert forall|i: int| 0 <= i < cps.len() implies checkpoint_accepted(#[trigger] cps[i], public) by {
        assert(checkpoint_sound(cps, i, public));
    }
    assert forall|i: int, j: int| 0 <= i < j < cps.len() implies (#[trigger] cps[i]).height < (#[trigger] cps[j]).height by {
        lemma_sound_heights_increase(blocks, cps, public, i, j);
    }
}

/// A replay that passes means an intact chain: it holds blocks, every block
/// carries the hash of its own fields, and every block after the first points
/// at its predecessor's hash.
pub proof fn lemma_passing_audit_means_intact(
    blocks: Seq<Block>,
    cps: Seq<Checkpoint>,
    public: Option<Seq<u8>>,
    allow_unsigned: bool,
)
    requires
        audit_passes(blocks, cps, public, allow_unsigned),
    ensures
        blocks.len() > 0,
        forall|i: int| 0 <= i < blocks.len() ==> (#[trigger] blocks[i]).hash@ == block_hash(
            blocks[i].index,
            blocks[i].timestamp,
            blocks[i].data@,
            blocks[i].prev_hash@,
        ),
        forall|i: int| 1 <= i < blocks.len() ==> (#[trigger] blocks[i]).prev_hash@ == blocks[i - 1].hash@,
{
    assert forall|i: int| 1 <= i < blocks.len() implies (#[trigger] blocks[i]).prev_hash@ == blocks[i - 1].hash@ by {
        assert(linked_at(blocks, i));
    }
    assert forall|i: int| 0 <= i < blocks.len() implies (#[trigger] blocks[i]).hash@ == block_hash(
        blocks[i].index,
        blocks[i].timestamp,
        blocks[i].data@,
        blocks[i].prev_hash@,
    ) by {
        if i > 0 {
            assert(linked_at(blocks, i));
        }
    }
}

/// A replay that passes without allowing unsigned chains means signed
/// checkpoints: a public key is at hand, at least one checkpoint exists,
/// every checkpoint's signature is accepted under the key, heights strictly
/// rise, and the newest names a block of the chain.
pub proof fn lemma_passing_strict_audit_means_signed(
    blocks: Seq<Block>,
    cps: Seq<Checkpoint>,
    public: Option<Seq<u8>>,
)
    requires
        audit_passes(blocks, cps, public, false),
    ensures
        public is Some,
        cps.len() > 0,
        forall|i: int| 0 <= i < cps.len() ==> checkpoint_accepted(#[trigger] cps[i], public->0),
        forall|i: int, j: int| 0 <= i < j < cps.len() ==> (#[trigger] cps[i]).height < (#[trigger] cps[j]).height,
        exists|j: int|
            0 <= j < blocks.len() && #[trigger] blocks[j].index == cps.last().height && blocks[j].hash@
                == cps.last().head_hash@,
{
    lemma_sound_checkpoints_all_signed(blocks, cps, public->0);
}

/// The findings for the blocks of `blocks`, in chain order. There are none
/// exactly when the chain is valid.
pub fn chain_audit(blocks: &Vec<Block>) -> (res: Vec<Finding>)
    ensures
        res@ == chain_findings(blocks@),
        res@.len() == 0 <==> chain_valid(blocks@),
        forall|i: int|
            0 <= i < blocks@.len() && !(#[trigger] blocks@[i]).hash_matches() ==> res@.contains(
                Finding::HashMismatch(blocks@[i].index),
            ),
        forall|i: int|
            1 <= i < blocks@.len() && (#[trigger] blocks@[i]).prev_hash@ != blocks@[i - 1].hash@
                ==> res@.contains(Finding::BrokenLink(blocks@[i].index)),
{
    let n: usize = blocks.len();
    let mut res: Vec<Finding> = Vec::new();
    if n > 0 && !blocks[0].is_valid() {
        res.push(Finding::HashMismatch(blocks[0].index));
    }
    let ghost first = res@;
    assert(first =~= first_block_findings(blocks@));
    let mut i: usize = 1;
    while i < n
        invariant
            n == blocks@.len(),
            1 <= i,
            i <= n || (n == 0 && i == 1),
            first == first_block_findings(blocks@),
            res@ == first + chain_findings_upto(blocks@, i as int),
        decreases n - i,
    {
        let current = &blocks[i];
        let previous = &blocks[i - 1];
        let ghost before = res@;
        if !current.is_valid() {
            res.push(Finding::HashMismatch(current.index));
        }
        if current.prev_hash != previous.hash {
            res.push(Finding::BrokenLink(current.index));
        }
        assert(res@ =~= first + (chain_findings_upto(blocks@, i as int) + block_findings(blocks@, i as int)));
        i = i + 1;
    }
    proof {
        if n == 0 {
            assert(chain_findings_upto(blocks@, 0) == chain_findings_upto(blocks@, 1));
        }
        lemma_no_chain_findings(blocks@, n as int);
        lemma_every_tampered_block_reported(blocks@);
    }
    res
}

/// Whether some block has the checkpoint's height as index and its head hash as hash.
pub fn is_anchored(blocks: &Vec<Block>, cp: &Checkpoint) -> (res: bool)
    ensures
        res == anchored(blocks@, *cp),
{
    let n: usize = blocks.len();
    let mut i: usize = 0;
    while i < n
        invariant
            n == blocks@.len(),
            i <= n,
            forall|j: int|
                0 <= j < i ==> !(#[trigger] blocks@[j].index == cp.height && blocks@[j].hash@
                    == cp.head_hash@),
        decreases n - i,
    {
        if blocks[i].index == cp.height && blocks[i].hash == cp.head_hash {
            return true;
        }
        i = i + 1;
    }
    false
}

/// The findings for the checkpoints, checked against `vk` and the chain:
/// signatures and height order for each checkpoint in turn, then whether the
/// newest names a block of the chain. There are none exactly when the
/// checkpoints are sound.
pub fn checkpoint_audit(blocks: &Vec<Block>, checkpoints: &Vec<Checkpoint>, vk: &VerifyingKey) -> (res: Vec<Finding>)
    ensures
        res@ == checkpoint_findings(blocks@, checkpoints@, vk@),
        res@.len() == 0 <==> checkpoints_sound(blocks@, checkpoints@, vk@),
        forall|i: int|
            0 <= i < checkpoints@.len() && !checkpoint_accepted(#[trigger] checkpoints@[i], vk@)
                ==> res@.contains(Finding::InvalidSignature(checkpoints@[i].height)),
        forall|i: int|
            1 <= i < checkpoints@.len() && (#[trigger] checkpoints@[i]).height <= checkpoints@[i
                - 1].height ==> res@.contains(Finding::HeightRollback(checkpoints@[i].height)),
{
    let n: usize = checkpoints.len();
    let mut res: Vec<Finding> = Vec::new();
    let mut i: usize = 0;
    while i < n
        invariant
            n == checkpoints@.len(),
            i <= n,
            res@ == checkpoint_findings_upto(checkpoints@, i as int, vk@),
        decreases n - i,
    {
        let cp = &checkpoints[i];
        let ghost before = res@;
        if !verify_checkpoint(cp, vk) {
            res.push(Finding::InvalidSignature(cp.height));
        }
        if i > 0 && cp.height <= checkpoints[i - 1].height {
            res.push(Finding::HeightRollback(cp.height));
        }
        assert(res@ =~= before + checkpoint_findings_at(checkpoints@, i as int, vk@));
        i = i + 1;
    }
    let ghost listed = res@;
    if n > 0 {
        let latest = &checkpoints[n - 1];
        if !is_anchored(blocks, latest) {
            res.push(Finding::HeadMismatch(latest.height));
        }
    }
    proof {
        assert(res@ =~= listed + head_findings(blocks@, checkpoints@));
        lemma_no_checkpoint_findings(checkpoints@, n as int, vk@);
        lemma_every_bad_checkpoint_reported(blocks@, checkpoints@, vk@);
    }
    res
}

/// The public key's bytes, if one is at hand.
pub open spec fn key_view(vk: Option<&VerifyingKey>) -> Option<Seq<u8>> {
    match vk {
        Some(k) => Some(k@),
        None => None,
    }
}

/// The findings about keys and checkpoints: without a key, or with a key but
/// no checkpoint, that lack is itself a finding unless unsigned chains are
/// allowed; otherwise the checkpoints' own findings.
pub open spec fn signed_findings(
    blocks: Seq<Block>,
    cps: Seq<Checkpoint>,
    public: Option<Seq<u8>>,
    allow_unsigned: bool,
) -> Seq<Finding> {
    match public {
        None => if allow_unsigned {
            Seq::<Finding>::empty()
        } else {
            seq![Finding::MissingPublicKey]
        },
        Some(p) => if cps.len() == 0 {
            if allow_unsigned {
                Seq::<Finding>::empty()
            } else {
                seq![Finding::NoCheckpoints]
            }
        } else {
            checkpoint_findings(blocks, cps, p)
        },
    }
}

/// Everything the replay finds, in report order: an empty chain, then the
/// chain's findings, then those about the key and the checkpoints.
pub open spec fn audit_findings(
    blocks: Seq<Block>,
    cps: Seq<Checkpoint>,
    public: Option<Seq<u8>>,
    allow_unsigned: bool,
) -> Seq<Finding> {
    (if blocks.len() == 0 {
        seq![Finding::EmptyChain]
    } else {
        Seq::<Finding>::empty()
    }) + chain_findings(blocks) + signed_findings(blocks, cps, public, allow_unsigned)
}

/// The verdict of a replay: the chain holds blocks and is valid, and signed
/// checkpoints exist, are sound and are anchored in it; only when unsigned
/// chains are allowed may the key or the checkpoints be missing.
pub open spec fn audit_passes(
    blocks: Seq<Block>,
    cps: Seq<Checkpoint>,
    public: Option<Seq<u8>>,
    allow_unsigned: bool,
) -> bool {
    &&& blocks.len() > 0
    &&& chain_valid(blocks)
    &&& match public {
        None => allow_unsigned,
        Some(p) => if cps.len() == 0 {
            allow_unsigned
        } else {
            checkpoints_sound(blocks, cps, p)
        },
    }
}

/// Everything the replay finds, in report order. Nothing is found exactly
/// when the replay passes: a non-empty valid chain and, unless unsigned
/// chains are allowed, a public key and at least one checkpoint, all sound.
pub fn audit_chain(
    blocks: &Vec<Block>,
    checkpoints: &Vec<Checkpoint>,
    vk: Option<&VerifyingKey>,
    allow_unsigned: bool,
) -> (res: Vec<Finding>)
    ensures
        res@ == audit_findings(blocks@, checkpoints@, key_view(vk), allow_unsigned),
        res@.len() == 0 <==> audit_passes(blocks@, checkpoints@, key_view(vk), allow_unsigned),
        res@.len() == 0 ==> blocks@.len() > 0,
        res@.len() == 0 ==> forall|i: int|
            0 <= i < blocks@.len() ==> (#[trigger] blocks@[i]).hash_matches(),
        res@.len() == 0 ==> forall|i: int|
            1 <= i < blocks@.len() ==> (#[trigger] blocks@[i]).prev_hash@ == blocks@[i - 1].hash@,
        res@.len() == 0 && !allow_unsigned ==> {
            &&& vk is Some
            &&& checkpoints@.len() > 0
            &&& forall|i: int|
                0 <= i < checkpoints@.len() ==> checkpoint_accepted(
                    #[trigger] checkpoints@[i],
                    vk->0@,
                )
        },
        forall|i: int|
            0 <= i < blocks@.len() && !(#[trigger] blocks@[i]).hash_matches() ==> res@.contains(
                Finding::HashMismatch(blocks@[i].index),
            ),
        forall|i: int|
            1 <= i < blocks@.len() && (#[trigger] blocks@[i]).prev_hash@ != blocks@[i - 1].hash@
                ==> res@.contains(Finding::BrokenLink(blocks@[i].index)),
        vk is Some ==> forall|i: int|
            0 <= i < checkpoints@.len() && !checkpoint_accepted(#[trigger] checkpoints@[i], vk->0@)
                ==> res@.contains(Finding::InvalidSignature(checkpoints@[i].height)),
{
    let mut res: Vec<Finding> = Vec::new();
    if blocks.len() == 0 {
        res.push(Finding::EmptyChain);
    }
    let mut chain = chain_audit(blocks);
    res.append(&mut chain);
    match vk {
        None => {
            if !allow_unsigned {
                res.push(Finding::MissingPublicKey);
            }
        },
        Some(k) => {
            if checkpoints.len() == 0 {
                if !allow_unsigned {
                    res.push(Finding::NoCheckpoints);
                }
            } else {
                let mut more = checkpoint_audit(blocks, checkpoints, k);
                res.append(&mut more);
            }
        },
    }
    assert(res@ =~= audit_findings(blocks@, checkpoints@, key_view(vk), allow_unsigned));
    proof {
        let pre = if blocks@.len() == 0 {
            seq![Finding::EmptyChain]
        } else {
            Seq::<Finding>::empty()
        };
        let chain = chain_findings(blocks@);
        let signed = signed_findings(blocks@, checkpoints@, key_view(vk), allow_unsigned);
        assert(res@ == pre + chain + signed);
        lemma_every_tampered_block_reported(blocks@);
        assert forall|f: Finding| chain.contains(f) implies res@.contains(f) by {
            let j = choose|j: int| 0 <= j < chain.len() && chain[j] == f;
            assert(res@[pre.len() + j] == f);
        }
        if res@.len() == 0 {
            lemma_passing_audit_means_intact(blocks@, checkpoints@, key_view(vk), allow_unsigned);
            if !allow_unsigned {
                lemma_passing_strict_audit_means_signed(blocks@, checkpoints@, key_view(vk));
            }
        }
        if vk is Some && checkpoints@.len() > 0 {
            lemma_every_bad_checkpoint_reported(blocks@, checkpoints@, vk->0@);
            let cf = checkpoint_findings(blocks@, checkpoints@, vk->0@);
            assert(signed == cf);
            assert forall|f: Finding| cf.contains(f) implies res@.contains(f) by {
                let j = choose|j: int| 0 <= j < cf.len() && cf[j] == f;
                assert(res@[pre.len() + chain.len() + j] == f);
            }
        }
    }
    res
}

} // verus!
