//! Trusted access to the cryptographic primitives of outside crates.
//!
//! Each primitive is a deterministic function of its input bytes; the
//! result of each is given a name (an uninterpreted spec function), and a
//! single wrapper per primitive relates the executable call to that name.

use aes::cipher::generic_array::GenericArray;
use aes::cipher::{BlockEncrypt, NewBlockCipher};
use core::hash::Hasher;
use sha2::Digest;
use siphasher::sip128::{Hasher128, SipHasher};
use subtle::ConstantTimeEq;
use vstd::prelude::*;

verus! {

/// The SHA-256 digest of a byte string: 32 bytes, a function of the input alone.
pub uninterp spec fn sha256_of(data: Seq<u8>) -> Seq<u8>;

/// The AES-128 encryption of a 16-byte block under a 16-byte key.
pub uninterp spec fn aes128_enc(key: Seq<u8>, block: Seq<u8>) -> Seq<u8>;

/// The BLAKE3 digest of a byte string: 32 bytes, a function of the input alone.
pub uninterp spec fn blake3_of(data: Seq<u8>) -> Seq<u8>;

/// The 128-bit SipHash-2-4 digest, under the all-zero key, of a byte string.
pub uninterp spec fn siphash128_of(data: Seq<u8>) -> Seq<u8>;

/// Relies on sha2::Sha256 (Digest::digest): SHA-256 is a deterministic
/// function of the input bytes and always yields a 32-byte digest.
#[verifier::external_body]
pub fn sha256(data: &Vec<u8>) -> (r: Vec<u8>)
    ensures
        r@ == sha256_of(data@),
        r@.len() == 32,
{
    sha2::Sha256::digest(data.as_slice()).to_vec()
}

/// Relies on subtle's ConstantTimeEq for byte slices: the returned Choice
/// unwraps to 1 exactly when the two slices have equal length and equal
/// contents, compared in time independent of the data.
#[verifier::external_body]
pub fn ct_eq_bytes(a: &Vec<u8>, b: &Vec<u8>) -> (r: bool)
    ensures
        r == (a@ == b@),
{
    a.as_slice().ct_eq(b.as_slice()).unwrap_u8() == 1
}

/// Relies on aes::Aes128 (NewBlockCipher::new, BlockEncrypt::encrypt_block):
/// one AES-128 block encryption, a deterministic function of key and block,
/// yielding a 16-byte block.
#[verifier::external_body]
pub fn aes128_encrypt(key: &Vec<u8>, block: &Vec<u8>) -> (r: Vec<u8>)
    requires
        key@.len() == 16,
        block@.len() == 16,
    ensures
        r@ == aes128_enc(key@, block@),
        r@.len() == 16,
{
    let k = GenericArray::clone_from_slice(key.as_slice());
    let mut b = GenericArray::clone_from_slice(block.as_slice());
    let cipher = aes::Aes128::new(&k);
    cipher.encrypt_block(&mut b);
    b.to_vec()
}

/// Relies on blake3::hash: BLAKE3 is a deterministic function of the input
/// bytes and always yields a 32-byte digest.
#[verifier::external_body]
pub fn blake3_hash(data: &Vec<u8>) -> (r: Vec<u8>)
    ensures
        r@ == blake3_of(data@),
        r@.len() == 32,
{
    blake3::hash(data.as_slice()).as_bytes().to_vec()
}

/// Relies on siphasher's SipHasher (new, Hasher::write, Hasher128::finish128,
/// Hash128::as_bytes): the 128-bit SipHash-2-4 digest under the all-zero key
/// depends only on the byte stream written, and as_bytes lays the two 64-bit
/// halves out little-endian, so the result is the same on every machine.
#[verifier::external_body]
pub fn siphash128(data: &Vec<u8>) -> (r: Vec<u8>)
    ensures
        r@ == siphash128_of(data@),
        r@.len() == 16,
{
    let mut hasher = SipHasher::new();
    hasher.write(data.as_slice());
    hasher.finish128().as_bytes().to_vec()
}

} // verus!
