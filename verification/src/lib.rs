//! Hash-based one-time and few-time digital signature schemes.
//!
//! The core constructions are WOTS+ (a Winternitz one-time signature with
//! keyed, masked hash chains), an updatable Merkle signature scheme built
//! over WOTS+ leaves, a shallow/deep composition of two Merkle trees, and
//! the Lamport and Park hash-chain one-time-password schemes.  Several
//! further instantiations over AES-MMO, BLAKE3 and SipHash primitives are
//! provided alongside the SHA-256 ones.

pub mod entropy;
pub mod hashes;
pub mod lamport_otp;
pub mod park_otp;
pub mod merkle;
pub mod merkle_aes;
pub mod sdmss;
pub mod util;
pub mod wots;
pub mod wots_aes;
pub mod wots_blake3;
pub mod wots_sha;
