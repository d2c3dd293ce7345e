//! Sinkproof: a memory-hard password hashing scheme.
//!
//! A password and a random salt are stretched by several independent
//! memory-filling workers; their digests are combined into a key, and that
//! key seals a fixed verification phrase with AES-256-GCM. A password is
//! accepted when the key derived from it opens the sealed phrase again.
pub mod digest;
pub mod encryption;
pub mod hasher;
pub mod storage;
pub mod verification;

pub use hasher::hash_password;
pub use storage::SinkproofHash;
pub use verification::verify_password;
