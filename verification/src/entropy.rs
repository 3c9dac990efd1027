//! Trusted access to the system's sources of cryptographic randomness.
//!
//! Nothing can be promised of random bytes beyond their count; every
//! function of the library that consumes them states what holds of its
//! result whatever bytes came back.

use rand::RngCore;
use vstd::prelude::*;

verus! {

/// Relies on rand::thread_rng (RngCore::fill_bytes): fills a buffer with
/// bytes from a cryptographically secure generator.
#[verifier::external_body]
pub fn thread_rng_bytes(n: usize) -> (r: Vec<u8>)
    ensures
        r@.len() == n,
{
    let mut buf = vec![0u8; n];
    rand::thread_rng().fill_bytes(&mut buf);
    buf
}

/// Relies on rand::rngs::OsRng (RngCore::fill_bytes): fills a buffer with
/// bytes straight from the operating system's generator.
#[verifier::external_body]
pub fn os_rng_bytes(n: usize) -> (r: Vec<u8>)
    ensures
        r@.len() == n,
{
    let mut buf = vec![0u8; n];
    rand::rngs::OsRng.fill_bytes(&mut buf);
    buf
}

/// Relies on getrandom::getrandom: fills a buffer with bytes from the
/// operating system's generator.  A failure of the OS source surfaces as
/// a panic here, as it did through the source's unwrap of the Result.
#[verifier::external_body]
pub fn getrandom_bytes(n: usize) -> (r: Vec<u8>)
    ensures
        r@.len() == n,
{
    let mut buf = vec![0u8; n];
    getrandom::getrandom(&mut buf).unwrap();
    buf
}

} // verus!
