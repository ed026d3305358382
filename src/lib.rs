//! Proof-of-work nonce search: find a nonce whose SHA-256 digest of
//! `prefix ++ decimal(nonce)`, written in lowercase hexadecimal, starts with
//! a required number of `'0'` characters.

pub mod encoding;
pub mod digest;
pub mod partition;
pub mod search;
pub mod progress;
