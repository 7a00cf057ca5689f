//! The daemon's decisions, one event at a time: each filesystem event is
//! sealed into the chain and buffered for storage, and the chain head is what
//! a checkpoint signs.
use vstd::prelude::*;
use crate::block::Block;
use crate::audit::{
    anchored, audit_passes, checkpoint_sound, lemma_append_keeps_checkpoints_sound,
    lemma_next_checkpoint_sound,
};
use crate::chain::{chain_valid, is_successor, lemma_extend_keeps_valid, Blockchain};
use crate::crypto::{ed25519_public_key, ed25519_signature};
use crate::encoding::hex_chars;
use crate::sign::{checkpoint_accepted, checkpoint_message, create_checkpoint, Checkpoint, SigningKey};
use crate::storage::{Storage, FLUSH_EVERY};

verus! {

/// Seals `event` into a new block at the head of `chain` and buffers a copy
/// of it in `store`. Returns the new block and, when the buffer filled up,
/// the batch of blocks that is now due to be written out.
pub fn record_event(chain: &mut Blockchain, store: &mut Storage, event: String) -> (res: (
    Block,
    Option<Vec<Block>>,
))
    requires
        old(chain).blocks@.len() > 0,
        old(chain).blocks@.last().index < u64::MAX,
    ensures
        final(chain).blocks@ == old(chain).blocks@.push(res.0),
        is_successor(old(chain).blocks@.last(), res.0, event@),
        chain_valid(old(chain).blocks@) ==> chain_valid(final(chain).blocks@),
        old(store).buffer@.len() + 1 >= FLUSH_EVERY ==> {
            &&& res.1 matches Some(b) && b@ == old(store).buffer@.push(res.0)
            &&& final(store).buffer@.len() == 0
        },
        old(store).buffer@.len() + 1 < FLUSH_EVERY ==> {
            &&& res.1 is None
            &&& final(store).buffer@ == old(store).buffer@.push(res.0)
        },
{
    chain.append(event);
    let n: usize = chain.blocks.len();
    let latest = chain.blocks[n - 1].clone();
    let kept = latest.clone();
    let batch = store.push(kept);
    (latest, batch)
}

/// A checkpoint, stamped with the current time and signed with `key`, of the
/// chain's head: its index as height and its hash as head hash.
pub fn head_checkpoint(chain: &Blockchain, key: &SigningKey) -> (res: Checkpoint)
    requires
        chain.blocks@.len() > 0,
    ensures
        res.height == chain.blocks@.last().index,
        res.head_hash@ == chain.blocks@.last().hash@,
        res.signature@ == hex_chars(
            ed25519_signature(key@, checkpoint_message(res.height, res.head_hash@, res.timestamp)),
        ),
        checkpoint_accepted(res, ed25519_public_key(key@)),
{
    let n: usize = chain.blocks.len();
    let head = &chain.blocks[n - 1];
    create_checkpoint(head.index, head.hash.as_str(), key)
}

/// A checkpoint of a head at `head_index` is due when nothing has been signed
/// yet or the head has moved above the last signed height.
pub open spec fn signing_due(last_signed: Option<u64>, head_index: u64) -> bool {
    match last_signed {
        Some(h) => h < head_index,
        None => true,
    }
}

/// A checkpoint is due exactly when nothing has been signed yet or the head
/// index is above the last signed height, however far the head has moved.
pub proof fn lemma_due_exactly_when_head_moved(last_signed: Option<u64>, head_index: u64)
    ensures
        signing_due(None, head_index),
        forall|h: u64| #[trigger] signing_due(Some(h), head_index) <==> h < head_index,
        signing_due(last_signed, head_index) <==> (last_signed is None || last_signed->0 < head_index),
{
}

/// Whether a checkpoint of a head at `head_index` is due: nothing has been
/// signed yet, or the head has moved above the last signed height.
pub fn checkpoint_due(last_signed: Option<u64>, head_index: u64) -> (res: bool)
    ensures
        res == signing_due(last_signed, head_index),
        res <==> (last_signed is None || last_signed->0 < head_index),
{
    match last_signed {
        Some(h) => h < head_index,
        None => true,
    }
}

/// A signed checkpoint of the chain head when one is due, remembering its
/// height as the last signed one; `None`, with nothing changed, when the head
/// has not moved since the last checkpoint. Heights handed out this way
/// strictly increase.
pub fn checkpoint_if_due(chain: &Blockchain, key: &SigningKey, last_signed: &mut Option<u64>) -> (res: Option<Checkpoint>)
    requires
        chain.blocks@.len() > 0,
    ensures
        signing_due(*old(last_signed), chain.blocks@.last().index) ==> {
            &&& res matches Some(cp) && {
                &&& cp.height == chain.blocks@.last().index
                &&& cp.head_hash@ == chain.blocks@.last().hash@
                &&& checkpoint_accepted(cp, ed25519_public_key(key@))
            }
            &&& *final(last_signed) == Some(chain.blocks@.last().index)
        },
        !signing_due(*old(last_signed), chain.blocks@.last().index) ==> {
            &&& res is None
            &&& *final(last_signed) == *old(last_signed)
        },
        res is Some <==> (*old(last_signed) is None || (*old(last_signed))->0 < chain.blocks@.last().index),
        res matches Some(cp) ==> *final(last_signed) == Some(cp.height),
{
    let n: usize = chain.blocks.len();
    let head_index: u64 = chain.blocks[n - 1].index;
    if checkpoint_due(*last_signed, head_index) {
        let cp = head_checkpoint(chain, key);
        *last_signed = Some(head_index);
        Some(cp)
    } else {
        None
    }
}

/// One change the daemon makes to its store: the stored chain, the stored
/// checkpoints and the last signed height.
pub enum Step {
    /// An event sealed into this block by `record_event`, appended after the head.
    Record(Block),
    /// A checkpoint tick at which `checkpoint_if_due` signed this checkpoint of the head.
    Sign(Checkpoint),
    /// A checkpoint tick at which `checkpoint_if_due` signed nothing.
    Skip,
}

/// The store: stored blocks, stored checkpoints, last signed height.
pub type StoreState = (Seq<Block>, Seq<Checkpoint>, Option<u64>);

/// Whether `step` is one the daemon can take on store `s`, signing with the
/// secret key whose public key is `public`.
pub open spec fn step_allowed(s: StoreState, step: Step, public: Seq<u8>) -> bool {
    let head = s.0.last();
    match step {
        Step::Record(b) => {
            &&& b.index == head.index + 1
            &&& b.prev_hash@ == head.hash@
            &&& b.hash_matches()
        },
        Step::Sign(cp) => {
            &&& signing_due(s.2, head.index)
            &&& cp.height == head.index
            &&& cp.head_hash@ == head.hash@
            &&& checkpoint_accepted(cp, public)
        },
        Step::Skip => !signing_due(s.2, head.index),
    }
}

/// The store after `step`.
pub open spec fn after_step(s: StoreState, step: Step) -> StoreState {
    match step {
        Step::Record(b) => (s.0.push(b), s.1, s.2),
        Step::Sign(cp) => (s.0, s.1.push(cp), Some(cp.height)),
        Step::Skip => s,
    }
}

/// Whether every step of `steps`, taken in turn from `s`, is one the daemon can take.
pub open spec fn run_allowed(s: StoreState, steps: Seq<Step>, public: Seq<u8>) -> bool
    decreases steps.len(),
{
    if steps.len() == 0 {
        true
    } else {
        step_allowed(s, steps[0], public) && run_allowed(after_step(s, steps[0]), steps.drop_first(), public)
    }
}

/// The store after taking all of `steps` in turn from `s`.
pub open spec fn after_run(s: StoreState, steps: Seq<Step>) -> StoreState
    decreases steps.len(),
{
    if steps.len() == 0 {
        s
    } else {
        after_run(after_step(s, steps[0]), steps.drop_first())
    }
}

/// A store as the daemon keeps it: a non-empty valid chain, signed and
/// strictly rising checkpoints whose newest names a block of the chain, and
/// the last signed height equal to the newest checkpoint's height.
pub open spec fn store_ok(s: StoreState, public: Seq<u8>) -> bool {
    &&& s.0.len() > 0
    &&& chain_valid(s.0)
    &&& forall|i: int| 0 <= i < s.1.len() ==> #[trigger] checkpoint_sound(s.1, i, public)
    &&& s.1.len() > 0 ==> anchored(s.0, s.1.last()) && s.2 == Some(s.1.last().height)
    &&& s.1.len() == 0 ==> s.2 is None
}

/// A fresh store, holding only a sealed genesis block, is as the daemon keeps it.
pub proof fn lemma_fresh_store_ok(genesis: Block, public: Seq<u8>)
    requires
        genesis.hash_matches(),
    ensures
        store_ok((seq![genesis], Seq::<Checkpoint>::empty(), None), public),
{
}

/// Every step the daemon can take keeps its store as it keeps it.
pub proof fn lemma_step_keeps_store_ok(s: StoreState, step: Step, public: Seq<u8>)
    requires
        store_ok(s, public),
        step_allowed(s, step, public),
    ensures
        store_ok(after_step(s, step), public),
{
    match step {
        Step::Record(b) => {
            lemma_extend_keeps_valid(s.0, b);
            if s.1.len() > 0 {
                lemma_append_keeps_checkpoints_sound(s.0, b, s.1, public);
            }
        },
        Step::Sign(cp) => {
            assert(s.0[s.0.len() - 1].index == cp.height);
            lemma_next_checkpoint_sound(s.0, s.1, cp, public);
        },
        Step::Skip => {},
    }
}

/// Any run of the daemon keeps its store as it keeps it.
pub proof fn lemma_run_keeps_store_ok(s: StoreState, steps: Seq<Step>, public: Seq<u8>)
    requires
        store_ok(s, public),
        run_allowed(s, steps, public),
    ensures
        store_ok(after_run(s, steps), public),
    decreases steps.len(),
{
    if steps.len() > 0 {
        lemma_step_keeps_store_ok(s, steps[0], public);
        lemma_run_keeps_store_ok(after_step(s, steps[0]), steps.drop_first(), public);
    }
}

/// A store that the daemon keeps and that holds a checkpoint passes the replay.
pub proof fn lemma_signed_store_passes(s: StoreState, public: Seq<u8>)
    requires
        store_ok(s, public),
        s.1.len() > 0,
    ensures
        audit_passes(s.0, s.1, Some(public), false),
{
}

/// An untampered store passes the replay after a daemon run that ends with a
/// checkpoint tick, as a clean shutdown does: from a store kept as the daemon
/// keeps it (a fresh one included), through any events and ticks, idle ticks
/// too, the final tick leaves at least one checkpoint, all of them signed,
/// rising and anchored, over a valid chain.
pub proof fn lemma_run_ending_in_tick_passes(s: StoreState, steps: Seq<Step>, public: Seq<u8>)
    requires
        store_ok(s, public),
        run_allowed(s, steps, public),
        steps.len() > 0,
        !(steps.last() is Record),
    ensures
        audit_passes(after_run(s, steps).0, after_run(s, steps).1, Some(public), false),
    decreases steps.len(),
{
    if steps.len() == 1 {
        lemma_step_keeps_store_ok(s, steps[0], public);
        assert(after_run(after_step(s, steps[0]), steps.drop_first()) == after_step(s, steps[0]));
    } else {
        lemma_step_keeps_store_ok(s, steps[0], public);
        assert(steps.drop_first().last() == steps.last());
        lemma_run_ending_in_tick_passes(after_step(s, steps[0]), steps.drop_first(), public);
    }
}

} // verus!
