//! A tamper-evident audit chain: SHA-256 linked blocks, Ed25519-signed
//! checkpoints of the chain head, and the checks that replay both.
pub mod encoding;
pub mod crypto;
pub mod block;
pub mod chain;
pub mod text;
pub mod sign;
pub mod audit;
pub mod storage;
pub mod daemon;
