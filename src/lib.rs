//! Cryptographic core of a three-party secure computation toolkit: small prime
//! fields, the fixed-width message codec, the chunked public-key exchange, and
//! the permutation logic of the three-round oblivious shuffle.
pub mod codec;
pub mod field;
pub mod fp;
pub mod helpers;
pub mod prss_protocol;
pub mod shuffle;
