//! One record of the audit chain and the SHA-256 hash that seals it.
use vstd::prelude::*;
use vstd::utf8::*;
use crate::crypto::{now_timestamp, sha256, sha256_digest};
use crate::encoding::{
    append_bytes, dec_digits, dec_signed, hex_chars, hex_encode, lemma_dec_digits_injective,
    lemma_dec_signed_injective, lemma_digits_no_separator, lemma_signed_no_separator,
    lemma_split_at_first_separator, push_decimal, push_decimal_signed,
};

verus! {

/// A chain record: its position, when it was made, the event text, the hash
/// of the record before it and its own hash.
#[derive(Debug)]
pub struct Block {
    pub index: u64,
    pub timestamp: i64,
    pub data: String,
    pub prev_hash: String,
    pub hash: String,
}

/// The bytes that a block's hash is taken over:
/// `index|timestamp|n|data|prev_hash`, with the numbers in decimal and `n`
/// the length in bytes of the UTF-8 event text. The separators and the
/// length make the fields recoverable from the bytes, so no two different
/// blocks share a preimage.
pub open spec fn hash_preimage(index: u64, timestamp: i64, data: Seq<char>, prev_hash: Seq<char>) -> Seq<u8> {
    framed(index, timestamp, encode_utf8(data), encode_utf8(prev_hash))
}

/// The hash a block with these fields must carry: lowercase hex of the
/// SHA-256 digest of its preimage.
pub open spec fn block_hash(index: u64, timestamp: i64, data: Seq<char>, prev_hash: Seq<char>) -> Seq<char> {
    hex_chars(sha256_digest(hash_preimage(index, timestamp, data, prev_hash)))
}

/// The bytes `index|timestamp|n|u|v` (numbers in decimal), where `n` is the length of `u`.
pub open spec fn framed(index: u64, timestamp: i64, u: Seq<u8>, v: Seq<u8>) -> Seq<u8> {
    dec_digits(index as nat) + seq![124u8] + (dec_signed(timestamp) + seq![124u8] + (dec_digits(
        u.len(),
    ) + seq![124u8] + (u + seq![124u8] + v)))
}

/// Framed bytes determine the index, the timestamp and the two byte strings.
proof fn lemma_framed_injective(i1: u64, t1: i64, u1: Seq<u8>, v1: Seq<u8>, i2: u64, t2: i64, u2: Seq<u8>, v2: Seq<u8>)
    requires
        framed(i1, t1, u1, v1) == framed(i2, t2, u2, v2),
    ensures
        i1 == i2,
        t1 == t2,
        u1 == u2,
        v1 == v2,
{
    let sep = seq![124u8];
    let n1 = dec_digits(u1.len());
    let n2 = dec_digits(u2.len());
    let tail1 = u1 + sep + v1;
    let tail2 = u2 + sep + v2;
    let m1 = n1 + sep + tail1;
    let m2 = n2 + sep + tail2;
    let r1 = dec_signed(t1) + sep + m1;
    let r2 = dec_signed(t2) + sep + m2;
    assert(i1 == i2 && r1 == r2) by {
        lemma_digits_no_separator(i1 as nat);
        lemma_digits_no_separator(i2 as nat);
        lemma_split_at_first_separator(dec_digits(i1 as nat), r1, dec_digits(i2 as nat), r2);
        lemma_dec_digits_injective(i1 as nat, i2 as nat);
    }
    assert(t1 == t2 && m1 == m2) by {
        lemma_signed_no_separator(t1);
        lemma_signed_no_separator(t2);
        lemma_split_at_first_separator(dec_signed(t1), m1, dec_signed(t2), m2);
        lemma_dec_signed_injective(t1, t2);
    }
    assert(u1.len() == u2.len() && tail1 == tail2) by {
        lemma_digits_no_separator(u1.len());
        lemma_digits_no_separator(u2.len());
        lemma_split_at_first_separator(n1, tail1, n2, tail2);
        lemma_dec_digits_injective(u1.len(), u2.len());
    }
    assert(u1 =~= tail1.subrange(0, u1.len() as int));
    assert(u2 =~= tail2.subrange(0, u2.len() as int));
    assert(v1 =~= tail1.subrange(u1.len() as int + 1, tail1.len() as int));
    assert(v2 =~= tail2.subrange(u2.len() as int + 1, tail2.len() as int));
}

/// The preimage determines the block's fields: two blocks whose hashes are
/// taken over the same bytes agree in index, timestamp, data and previous hash.
pub proof fn lemma_preimage_injective(
    i1: u64,
    t1: i64,
    d1: Seq<char>,
    p1: Seq<char>,
    i2: u64,
    t2: i64,
    d2: Seq<char>,
    p2: Seq<char>,
)
    requires
        hash_preimage(i1, t1, d1, p1) == hash_preimage(i2, t2, d2, p2),
    ensures
        i1 == i2,
        t1 == t2,
        d1 == d2,
        p1 == p2,
{
    lemma_framed_injective(i1, t1, encode_utf8(d1), encode_utf8(p1), i2, t2, encode_utf8(d2), encode_utf8(p2));
    broadcast use vstd::utf8::group_utf8_lib;

    assert(decode_utf8(encode_utf8(d1)) == d1);
    assert(decode_utf8(encode_utf8(d2)) == d2);
    assert(decode_utf8(encode_utf8(p1)) == p1);
    assert(decode_utf8(encode_utf8(p2)) == p2);
}

impl Block {
    /// The stored hash is the one recomputed from the other fields.
    pub open spec fn hash_matches(self) -> bool {
        self.hash@ == block_hash(self.index, self.timestamp, self.data@, self.prev_hash@)
    }

    /// A block stamped with the current time, sealed with its hash.
    pub fn new(index: u64, data: String, prev_hash: String) -> (res: Block)
        ensures
            res.index == index,
            res.data@ == data@,
            res.prev_hash@ == prev_hash@,
            res.hash_matches(),
    {
        let timestamp = now_timestamp();
        Self::new_at(index, timestamp, data, prev_hash)
    }

    /// A block with the given timestamp, sealed with its hash.
    pub fn new_at(index: u64, timestamp: i64, data: String, prev_hash: String) -> (res: Block)
        ensures
            res.index == index,
            res.timestamp == timestamp,
            res.data@ == data@,
            res.prev_hash@ == prev_hash@,
            res.hash_matches(),
    {
        let hash = Self::compute_hash(index, timestamp, data.as_str(), prev_hash.as_str());
        Block { index, timestamp, data, prev_hash, hash }
    }

    /// The hash of a block with these fields.
    pub fn compute_hash(index: u64, timestamp: i64, data: &str, prev_hash: &str) -> (res: String)
        ensures
            res@ == block_hash(index, timestamp, data@, prev_hash@),
            res@.len() == 64,
    {
        let data_bytes = data.as_bytes();
        let data_len: u64 = data_bytes.len() as u64;
        let mut input: Vec<u8> = Vec::new();
        push_decimal(&mut input, index);
        input.push(124u8);
        push_decimal_signed(&mut input, timestamp);
        input.push(124u8);
        push_decimal(&mut input, data_len);
        input.push(124u8);
        append_bytes(&mut input, data_bytes);
        input.push(124u8);
        append_bytes(&mut input, prev_hash.as_bytes());
        assert(input@ =~= hash_preimage(index, timestamp, data@, prev_hash@));
        let digest = sha256(input.as_slice());
        hex_encode(digest.as_slice())
    }

    /// Whether the stored hash equals the hash recomputed from the other fields.
    pub fn is_valid(&self) -> (res: bool)
        ensures
            res == self.hash_matches(),
    {
        let recomputed = Self::compute_hash(
            self.index,
            self.timestamp,
            self.data.as_str(),
            self.prev_hash.as_str(),
        );
        recomputed == self.hash
    }
}

impl Clone for Block {
    fn clone(&self) -> (res: Self)
        ensures
            res == *self,
    {
        Block {
            index: self.index,
            timestamp: self.timestamp,
            data: self.data.clone(),
            prev_hash: self.prev_hash.clone(),
            hash: self.hash.clone(),
        }
    }
}

} // verus!
