//! Lamport one-time password scheme.
//!
//! The prover commits to the n-fold SHA-256 of a secret; challenges walk
//! the chain downward, and the verifier accepts a reply exactly when its
//! hash equals the previously accepted value.  `lemma_lamport_step`
//! proves that every step of the honest walk is accepted.

use crate::hashes;
use crate::hashes::sha256_of;
use vstd::prelude::*;

verus! {

/// Security parameter: chain element size in bytes.
pub const N: usize = 32;

/// The n-fold SHA-256 of a byte string.
pub open spec fn iter_sha(s: Seq<u8>, n: nat) -> Seq<u8>
    decreases n,
{
    if n == 0 {
        s
    } else {
        sha256_of(iter_sha(s, (n - 1) as nat))
    }
}

/// How many hash applications a (possibly non-positive) count stands for.
pub open spec fn hash_count(x: int) -> nat {
    if x > 0 {
        x as nat
    } else {
        0
    }
}

pub struct Proofer {
    pub n: i32,
    pub last_ch: i32,
    pub secret: Vec<u8>,
}

pub struct Verifier {
    pub last_ch: i32,
    pub last_otp: Vec<u8>,
}

/// Applies SHA-256 to the input x times (not at all if x is not positive).
fn hash_x_times(input: Vec<u8>, x: i32) -> (r: Vec<u8>)
    ensures
        r@ == iter_sha(input@, hash_count(x as int)),
{
    let ghost orig = input@;
    let mut output = input;
    let mut i: i32 = 0;
    while i < x
        invariant
            0 <= i,
            x > 0 ==> i <= x,
            x <= 0 ==> i == 0,
            output@ == iter_sha(orig, i as nat),
        decreases x - i,
    {
        output = hashes::sha256(&output);
        i = i + 1;
    }
    output
}

impl Proofer {
    /// Creates a prover for an n-step chain over a fresh random secret.
    pub fn new(n: i32) -> (p: Proofer)
        ensures
            p.n == n,
            p.last_ch == n,
            p.secret@.len() == N,
    {
        let secret = crate::entropy::thread_rng_bytes(N);
        Proofer { n, last_ch: n, secret }
    }

    /// The public key: the n-fold hash of the secret.
    pub fn pk(&self) -> (r: Vec<u8>)
        ensures
            r@ == iter_sha(self.secret@, hash_count(self.n as int)),
    {
        hash_x_times(crate::util::copy_bytes(&self.secret), self.n)
    }

    /// Answers challenge ch with the ch-fold hash of the secret.
    pub fn reply(&mut self, ch: i32) -> (r: Vec<u8>)
        ensures
            final(self).last_ch == ch,
            final(self).n == old(self).n,
            final(self).secret@ == old(self).secret@,
            r@ == iter_sha(old(self).secret@, hash_count(ch as int)),
    {
        self.last_ch = ch;
        hash_x_times(crate::util::copy_bytes(&self.secret), ch)
    }
}

impl Verifier {
    pub fn new(n: i32, pk: Vec<u8>) -> (v: Verifier)
        ensures
            v.last_ch == n,
            v.last_otp@ == pk@,
    {
        Verifier { last_ch: n, last_otp: pk }
    }

    /// The next challenge: one below the previous one.
    pub fn next_challenge(&mut self) -> (r: i32)
        requires
            old(self).last_ch > i32::MIN,
        ensures
            final(self).last_ch == old(self).last_ch - 1,
            final(self).last_otp@ == old(self).last_otp@,
            r == final(self).last_ch,
    {
        self.last_ch = self.last_ch - 1;
        self.last_ch
    }

    /// Accepts a one-time password exactly when its hash equals the last
    /// accepted value; on acceptance the password becomes the new anchor.
    pub fn verify(&mut self, otp: Vec<u8>) -> (r: bool)
        ensures
            r == (sha256_of(otp@) == old(self).last_otp@),
            final(self).last_ch == old(self).last_ch,
            r ==> final(self).last_otp@ == otp@,
            !r ==> final(self).last_otp@ == old(self).last_otp@,
    {
        let hash = hashes::sha256(&otp);
        if !hashes::ct_eq_bytes(&hash, &self.last_otp) {
            return false;
        }
        self.last_otp = otp;
        true
    }
}

/// One step of the honest walk is always accepted: when the verifier's
/// anchor is the (ch+1)-fold hash of the prover's secret, the prover's
/// reply to challenge ch -- the ch-fold hash -- hashes to exactly that
/// anchor, and the accepted reply is the anchor for the next step.
pub proof fn lemma_lamport_step(secret: Seq<u8>, ch: i32)
    requires
        0 <= ch < i32::MAX,
    ensures
        sha256_of(iter_sha(secret, hash_count(ch as int))) == iter_sha(
            secret,
            hash_count(ch + 1),
        ),
{
    assert(hash_count(ch + 1) == hash_count(ch as int) + 1);
}

} // verus!
