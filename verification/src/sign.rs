//! Signed chain-head checkpoints.
//!
//! A checkpoint binds the chain's head hash and height to an Ed25519
//! signature made by a key held outside the watched machine. Even if root on
//! the watched host rewrites the whole local chain, it cannot forge a
//! checkpoint that matches the anchored head.
use vstd::prelude::*;
use vstd::utf8::*;
use crate::crypto::{
    ed25519_accepts, ed25519_key_decodes, ed25519_key_valid, ed25519_public_key,
    ed25519_public_key_of, ed25519_sign, ed25519_signature, ed25519_verify, now_timestamp,
    random_secret_key,
};
use crate::encoding::{
    append_bytes, dec_digits, dec_signed, lemma_dec_digits_are_digits, lemma_dec_digits_injective,
    lemma_dec_signed_injective, lemma_digits_no_separator, lemma_signed_no_separator,
    lemma_split_at_first_separator, lemma_split_at_last_separator, hex_chars, hex_decode, hex_decode_spec,
    hex_encode, lemma_hex_chars_ascii, lemma_hex_roundtrip, push_decimal,
    push_decimal_signed,
};
use crate::text::{is_white_space, trim, trim_front, trimmed};

verus! {

broadcast use vstd::utf8::group_utf8_lib;

/// Name of the secret key file.
pub const KEY_FILE: &'static str = "signing.key";

/// Name of the public key file.
pub const PUB_FILE: &'static str = "signing.pub";

/// Name of the checkpoint file (one checkpoint per line).
pub const ANCHOR_FILE: &'static str = "checkpoints.jsonl";

/// A signed statement that the chain had `head_hash` at `height`.
#[derive(Debug)]
pub struct Checkpoint {
    pub height: u64,
    pub head_hash: String,
    pub timestamp: i64,
    pub signature: String,
}

/// The bytes that a checkpoint signs: `height|head_hash|timestamp`.
pub open spec fn checkpoint_message(height: u64, head_hash: Seq<char>, timestamp: i64) -> Seq<u8> {
    dec_digits(height as nat) + seq![124u8] + encode_utf8(head_hash) + seq![124u8] + dec_signed(
        timestamp,
    )
}

/// Whether `cp` carries, as hex, a 64-byte signature that Ed25519 accepts
/// on its message under `public`.
pub open spec fn checkpoint_accepted(cp: Checkpoint, public: Seq<u8>) -> bool {
    match hex_decode_spec(encode_utf8(cp.signature@)) {
        Some(sig) => sig.len() == 64 && ed25519_accepts(public, cp.signed_message(), sig),
        None => false,
    }
}

impl Checkpoint {
    pub open spec fn signed_message(self) -> Seq<u8> {
        checkpoint_message(self.height, self.head_hash@, self.timestamp)
    }

    /// The bytes this checkpoint's signature covers.
    pub fn message(&self) -> (res: Vec<u8>)
        ensures
            res@ == self.signed_message(),
    {
        let mut out: Vec<u8> = Vec::new();
        push_decimal(&mut out, self.height);
        out.push(124u8);
        append_bytes(&mut out, self.head_hash.as_str().as_bytes());
        out.push(124u8);
        push_decimal_signed(&mut out, self.timestamp);
        assert(out@ =~= self.signed_message());
        out
    }
}

impl Clone for Checkpoint {
    fn clone(&self) -> (res: Self)
        ensures
            res == *self,
    {
        Checkpoint {
            height: self.height,
            head_hash: self.head_hash.clone(),
            timestamp: self.timestamp,
            signature: self.signature.clone(),
        }
    }
}

/// The signed message determines the checkpoint it was made for: two
/// checkpoints with the same message have the same height, head hash and
/// timestamp, so altering any of them changes what the signature must cover.
pub proof fn lemma_message_determines_checkpoint(
    h1: u64,
    s1: Seq<char>,
    t1: i64,
    h2: u64,
    s2: Seq<char>,
    t2: i64,
)
    requires
        checkpoint_message(h1, s1, t1) == checkpoint_message(h2, s2, t2),
    ensures
        h1 == h2,
        s1 == s2,
        t1 == t2,
{
    let d1 = dec_digits(h1 as nat);
    let d2 = dec_digits(h2 as nat);
    let u1 = encode_utf8(s1);
    let u2 = encode_utf8(s2);
    let e1 = dec_signed(t1);
    let e2 = dec_signed(t2);
    let sep = seq![124u8];
    lemma_digits_no_separator(h1 as nat);
    lemma_digits_no_separator(h2 as nat);
    assert(checkpoint_message(h1, s1, t1) =~= d1 + sep + (u1 + sep + e1));
    assert(checkpoint_message(h2, s2, t2) =~= d2 + sep + (u2 + sep + e2));
    lemma_split_at_first_separator(d1, u1 + sep + e1, d2, u2 + sep + e2);
    lemma_dec_digits_injective(h1 as nat, h2 as nat);
    lemma_signed_no_separator(t1);
    lemma_signed_no_separator(t2);
    lemma_split_at_last_separator(u1, e1, u2, e2);
    lemma_dec_signed_injective(t1, t2);
    assert(decode_utf8(u1) == s1);
    assert(decode_utf8(u2) == s2);
}

/// Why key text could not be turned into a key.
#[derive(Debug, Clone, Copy, PartialEq, Eq, Structural)]
pub enum KeyError {
    /// The trimmed text is not an even number of hex digits.
    InvalidHex,
    /// The hex does not stand for exactly 32 bytes.
    WrongLength,
    /// The 32 bytes are not the encoding of a curve point.
    InvalidPoint,
}

/// The 32 key bytes that key text stands for: hex, possibly surrounded by
/// white space.
pub open spec fn key_text_bytes(text: Seq<char>) -> Result<Seq<u8>, KeyError> {
    match hex_decode_spec(encode_utf8(trimmed(text))) {
        Some(b) => if b.len() == 32 {
            Ok(b)
        } else {
            Err(KeyError::WrongLength)
        },
        None => Err(KeyError::InvalidHex),
    }
}

/// A 32-byte Ed25519 secret key.
pub struct SigningKey {
    secret: [u8; 32],
}

impl View for SigningKey {
    type V = Seq<u8>;

    closed spec fn view(&self) -> Seq<u8> {
        self.secret@
    }
}

/// A 32-byte Ed25519 public key that decodes to a curve point.
pub struct VerifyingKey {
    public: [u8; 32],
}

impl View for VerifyingKey {
    type V = Seq<u8>;

    closed spec fn view(&self) -> Seq<u8> {
        self.public@
    }
}

impl VerifyingKey {
    #[verifier::type_invariant]
    spec fn decodes(self) -> bool {
        ed25519_key_decodes(self.public@)
    }

    /// The public key with these bytes, if they decode to a curve point.
    pub fn from_bytes(bytes: [u8; 32]) -> (res: Option<VerifyingKey>)
        ensures
            res is Some <==> ed25519_key_decodes(bytes@),
            res matches Some(k) ==> k@ == bytes@,
    {
        if ed25519_key_valid(&bytes) {
            Some(VerifyingKey { public: bytes })
        } else {
            None
        }
    }

    /// The key's 32 bytes.
    pub fn to_bytes(&self) -> (res: [u8; 32])
        ensures
            res@ == self@,
    {
        self.public
    }
}

impl SigningKey {
    /// The secret key with these bytes.
    pub fn from_bytes(bytes: [u8; 32]) -> (res: SigningKey)
        ensures
            res@ == bytes@,
    {
        SigningKey { secret: bytes }
    }

    /// The key's 32 secret bytes.
    pub fn to_bytes(&self) -> (res: [u8; 32])
        ensures
            res@ == self@,
    {
        self.secret
    }

    /// The public key that belongs to this secret key.
    pub fn verifying_key(&self) -> (res: VerifyingKey)
        ensures
            res@ == ed25519_public_key(self@),
    {
        let public = ed25519_public_key_of(&self.secret);
        VerifyingKey { public }
    }
}

/// The first 32 bytes of `v` as an array.
fn to_array32(v: &Vec<u8>) -> (res: [u8; 32])
    requires
        v@.len() == 32,
    ensures
        res@ == v@,
{
    let mut arr: [u8; 32] = [0u8; 32];
    let mut i: usize = 0;
    while i < 32
        invariant
            v@.len() == 32,
            i <= 32,
            forall|j: int| 0 <= j < i ==> arr@[j] == v@[j],
        decreases 32 - i,
    {
        arr[i] = v[i];
        i = i + 1;
    }
    assert(arr@ =~= v@);
    arr
}

/// The first 64 bytes of `v` as an array.
fn to_array64(v: &Vec<u8>) -> (res: [u8; 64])
    requires
        v@.len() == 64,
    ensures
        res@ == v@,
{
    let mut arr: [u8; 64] = [0u8; 64];
    let mut i: usize = 0;
    while i < 64
        invariant
            v@.len() == 64,
            i <= 64,
            forall|j: int| 0 <= j < i ==> arr@[j] == v@[j],
        decreases 64 - i,
    {
        arr[i] = v[i];
        i = i + 1;
    }
    assert(arr@ =~= v@);
    arr
}

/// The 32 key bytes written as hex in `text` (white space around it is ignored).
pub fn decode_key_text(text: &str) -> (res: Result<[u8; 32], KeyError>)
    ensures
        match key_text_bytes(text@) {
            Ok(b) => res matches Ok(a) && a@ == b,
            Err(e) => res == Err::<[u8; 32], KeyError>(e),
        },
{
    let trimmed_text = trim(text);
    match hex_decode(trimmed_text.as_bytes()) {
        Some(bytes) => {
            if bytes.len() == 32 {
                Ok(to_array32(&bytes))
            } else {
                Err(KeyError::WrongLength)
            }
        },
        None => Err(KeyError::InvalidHex),
    }
}

/// The secret key stored as hex in the text of a key file.
pub fn load_signing_key(hex_key: &str) -> (res: Result<SigningKey, KeyError>)
    ensures
        match key_text_bytes(hex_key@) {
            Ok(b) => res matches Ok(k) && k@ == b,
            Err(e) => res matches Err(f) && f == e,
        },
{
    match decode_key_text(hex_key) {
        Ok(bytes) => Ok(SigningKey::from_bytes(bytes)),
        Err(e) => Err(e),
    }
}

/// The public key stored as hex in the text of a key file.
pub fn load_verifying_key(hex_key: &str) -> (res: Result<VerifyingKey, KeyError>)
    ensures
        match key_text_bytes(hex_key@) {
            Ok(b) => if ed25519_key_decodes(b) {
                res matches Ok(k) && k@ == b
            } else {
                res matches Err(f) && f == KeyError::InvalidPoint
            },
            Err(e) => res matches Err(f) && f == e,
        },
{
    match decode_key_text(hex_key) {
        Ok(bytes) => match VerifyingKey::from_bytes(bytes) {
            Some(k) => Ok(k),
            None => Err(KeyError::InvalidPoint),
        },
        Err(e) => Err(e),
    }
}

/// Hex text has no white space around it, so trimming leaves it unchanged.
proof fn lemma_hex_text_untrimmed(bytes: Seq<u8>)
    ensures
        trimmed(hex_chars(bytes)) == hex_chars(bytes),
{
    let h = hex_chars(bytes);
    lemma_hex_chars_ascii(bytes);
    if h.len() > 0 {
        let b0 = bytes[0];
        assert(b0 / 16 < 16);
        assert(!is_white_space(h[0]));
        let bl = bytes[bytes.len() - 1];
        assert(bl % 16 < 16);
        assert(h.last() == h[2 * bytes.len() - 1]);
        assert(!is_white_space(h.last()));
    }
    assert(trim_front(h) == h);
}

/// Key text that a key file holds for `bytes` reads back as `bytes`.
pub proof fn lemma_key_text_roundtrip(bytes: Seq<u8>)
    requires
        bytes.len() == 32,
    ensures
        key_text_bytes(hex_chars(bytes)) == Ok::<Seq<u8>, KeyError>(bytes),
{
    lemma_hex_text_untrimmed(bytes);
    lemma_hex_roundtrip(bytes);
}

/// The hex texts of the secret key file and of the public key file for the
/// secret key `secret`. Loading the texts gives back the secret key and its
/// public key.
pub fn keypair_text(secret: [u8; 32]) -> (res: (String, String))
    ensures
        res.0@ == hex_chars(secret@),
        res.1@ == hex_chars(ed25519_public_key(secret@)),
        key_text_bytes(res.0@) == Ok::<Seq<u8>, KeyError>(secret@),
        key_text_bytes(res.1@) == Ok::<Seq<u8>, KeyError>(ed25519_public_key(secret@)),
        ed25519_key_decodes(ed25519_public_key(secret@)),
{
    let public = ed25519_public_key_of(&secret);
    let secret_hex = hex_encode(secret.as_slice());
    let public_hex = hex_encode(public.as_slice());
    proof {
        lemma_key_text_roundtrip(secret@);
        lemma_key_text_roundtrip(public@);
    }
    (secret_hex, public_hex)
}

/// A fresh Ed25519 key pair from the operating system's generator, as the
/// hex texts of the secret key file and of the public key file; `None` when
/// the generator fails. Loading the texts gives back the secret key and its
/// public key.
pub fn generate_keypair() -> (res: Option<(String, String)>)
    ensures
        res matches Some(texts) ==> exists|secret: Seq<u8>|
            {
                &&& secret.len() == 32
                &&& #[trigger] key_text_bytes(texts.0@) == Ok::<Seq<u8>, KeyError>(secret)
                &&& key_text_bytes(texts.1@) == Ok::<Seq<u8>, KeyError>(ed25519_public_key(secret))
                &&& ed25519_key_decodes(ed25519_public_key(secret))
                &&& texts.0@ == hex_chars(secret)
                &&& texts.1@ == hex_chars(ed25519_public_key(secret))
            },
{
    match random_secret_key() {
        Some(secret) => {
            let texts = keypair_text(secret);
            assert(key_text_bytes(texts.0@) == Ok::<Seq<u8>, KeyError>(secret@));
            Some(texts)
        },
        None => None,
    }
}

/// A checkpoint of `head_hash` at `height` with the given timestamp, signed
/// with `key`. It verifies under the key's public key.
pub fn checkpoint_at(height: u64, head_hash: &str, timestamp: i64, key: &SigningKey) -> (res: Checkpoint)
    ensures
        res.height == height,
        res.head_hash@ == head_hash@,
        res.timestamp == timestamp,
        res.signature@ == hex_chars(
            ed25519_signature(key@, checkpoint_message(height, head_hash@, timestamp)),
        ),
        checkpoint_accepted(res, ed25519_public_key(key@)),
{
    let mut cp = Checkpoint {
        height,
        head_hash: String::from_str(head_hash),
        timestamp,
        signature: String::new(),
    };
    let msg = cp.message();
    let sig = ed25519_sign(&key.secret, msg.as_slice());
    cp.signature = hex_encode(sig.as_slice());
    proof {
        lemma_hex_roundtrip(sig@);
    }
    cp
}

/// A checkpoint of `head_hash` at `height`, stamped with the current time and
/// signed with `key`. It verifies under the key's public key.
pub fn create_checkpoint(height: u64, head_hash: &str, key: &SigningKey) -> (res: Checkpoint)
    ensures
        res.height == height,
        res.head_hash@ == head_hash@,
        res.signature@ == hex_chars(
            ed25519_signature(key@, checkpoint_message(height, head_hash@, res.timestamp)),
        ),
        checkpoint_accepted(res, ed25519_public_key(key@)),
{
    let timestamp = now_timestamp();
    checkpoint_at(height, head_hash, timestamp, key)
}

/// Whether the checkpoint's signature is valid hex of a 64-byte signature that
/// Ed25519 accepts on the checkpoint's message under `vk`.
pub fn verify_checkpoint(cp: &Checkpoint, vk: &VerifyingKey) -> (res: bool)
    ensures
        res == checkpoint_accepted(*cp, vk@),
{
    proof {
        use_type_invariant(vk);
    }
    match hex_decode(cp.signature.as_str().as_bytes()) {
        Some(bytes) => {
            if bytes.len() == 64 {
                let sig = to_array64(&bytes);
                let msg = cp.message();
                ed25519_verify(&vk.public, msg.as_slice(), &sig)
            } else {
                false
            }
        },
        None => false,
    }
}

} // verus!
