//! Park one-time password scheme.
//!
//! The prover derives a fresh chain element x(i) = H(H(seed || i)) for
//! every exchange and commits one step ahead: the verifier holds
//! y = H(x) for the next expected element and z = H(x || H(x')) binding
//! the element after that.  `lemma_park_exchange` proves that every
//! honest exchange is accepted and leaves the two sides in sync again.

use crate::hashes;
use crate::hashes::sha256_of;
use crate::util::{append_bytes, be32, copy_bytes, u32_be_bytes};
use vstd::prelude::*;

verus! {

/// Security parameter: chain element size in bytes.
pub const N: usize = 32;

/// The i-th chain element: the double SHA-256 of the seed and the
/// big-endian bytes of i.
pub open spec fn spec_x(seed: Seq<u8>, i: int) -> Seq<u8> {
    sha256_of(sha256_of(seed + be32(i as u32)))
}

/// The binding value over an element and the next commitment.
pub open spec fn spec_z(x: Seq<u8>, y: Seq<u8>) -> Seq<u8> {
    sha256_of(x + y)
}

pub struct Proofer {
    pub seed: Vec<u8>,
    pub last_ch: i32,
    pub current_x: Vec<u8>,
    pub next_x: Vec<u8>,
}

pub struct Verifier {
    pub last_ch: i32,
    pub last_y: Vec<u8>,
    pub last_z: Vec<u8>,
}

/// Applies SHA-256 to the input n times (not at all if n is not positive).
fn hash_n_times(input: Vec<u8>, n: i32) -> (r: Vec<u8>)
    ensures
        n == 1 ==> r@ == sha256_of(input@),
        n <= 0 ==> r@ == input@,
{
    let ghost orig = input@;
    let mut output = input;
    let mut i: i32 = 0;
    while i < n
        invariant
            0 <= i,
            n > 0 ==> i <= n,
            n <= 0 ==> i == 0,
            i == 0 ==> output@ == orig,
            i == 1 ==> output@ == sha256_of(orig),
        decreases n - i,
    {
        output = hashes::sha256(&output);
        i = i + 1;
    }
    output
}

/// The binding value z = H(x || y).
fn calculate_z(x: &Vec<u8>, y: &Vec<u8>) -> (r: Vec<u8>)
    ensures
        r@ == spec_z(x@, y@),
{
    let mut buf = copy_bytes(x);
    append_bytes(&mut buf, y);
    hashes::sha256(&buf)
}

impl Proofer {
    /// The committed elements always sit one and two steps ahead of the
    /// last answered challenge.
    pub open spec fn wf(self) -> bool {
        &&& self.seed@.len() == N
        &&& 0 <= self.last_ch <= i32::MAX - 2
        &&& self.current_x@ == spec_x(self.seed@, self.last_ch + 1)
        &&& self.next_x@ == spec_x(self.seed@, self.last_ch + 2)
    }

    /// Creates a prover over a fresh random seed.
    pub fn new() -> (p: Proofer)
        ensures
            p.wf(),
            p.last_ch == 0,
    {
        let seed = crate::entropy::thread_rng_bytes(N);
        let current_x = derive_x(&seed, 1);
        let next_x = derive_x(&seed, 2);
        Proofer { seed, last_ch: 0, current_x, next_x }
    }

    /// The public key: the commitment pair (y0, z0) to the first two
    /// chain elements.  Only meaningful before any challenge was answered.
    pub fn pk(&self) -> (r: (Vec<u8>, Vec<u8>))
        requires
            self.last_ch == 0,
    ensures
            r.0@ == sha256_of(self.current_x@),
            r.1@ == spec_z(self.current_x@, sha256_of(self.next_x@)),
    {
        let y0 = hash_n_times(copy_bytes(&self.current_x), 1);
        let y1 = hash_n_times(copy_bytes(&self.next_x), 1);
        let z0 = calculate_z(&self.current_x, &y1);
        (y0, z0)
    }

    /// Answers challenge ch: reveals the current element, the commitment
    /// to the next one, and the binding value for the one after that,
    /// then advances the chain.
    pub fn reply(&mut self, ch: i32) -> (r: (Vec<u8>, Vec<u8>, Vec<u8>))
        requires
            ch <= i32::MAX - 2,
        ensures
            final(self).last_ch == ch,
            final(self).seed@ == old(self).seed@,
            final(self).current_x@ == old(self).next_x@,
            final(self).next_x@ == spec_x(old(self).seed@, ch + 2),
            r.0@ == old(self).current_x@,
            r.1@ == sha256_of(old(self).next_x@),
            r.2@ == spec_z(old(self).next_x@, sha256_of(spec_x(old(self).seed@, ch + 2))),
    {
        self.last_ch = ch;
        let x = copy_bytes(&self.current_x);
        let y = hash_n_times(copy_bytes(&self.next_x), 1);

        // Move further along the chain.
        self.current_x = copy_bytes(&self.next_x);
        self.next_x = derive_x(&self.seed, self.last_ch + 2);

        let next_y = hash_n_times(copy_bytes(&self.next_x), 1);
        let z = calculate_z(&self.current_x, &next_y);

        (x, y, z)
    }
}

/// The i-th chain element, by double hashing of seed and counter.
fn derive_x(seed: &Vec<u8>, i: i32) -> (r: Vec<u8>)
    ensures
        r@ == spec_x(seed@, i as int),
{
    let mut buf = copy_bytes(seed);
    let ib = u32_be_bytes(i as u32);
    append_bytes(&mut buf, &ib);
    let once = hashes::sha256(&buf);
    hashes::sha256(&once)
}

impl Verifier {
    pub fn new(pk: (Vec<u8>, Vec<u8>)) -> (v: Verifier)
        ensures
            v.last_ch == 0,
            v.last_y@ == pk.0@,
            v.last_z@ == pk.1@,
    {
        Verifier { last_ch: 0, last_y: pk.0, last_z: pk.1 }
    }

    /// The next challenge: one above the previous one.
    pub fn next_challenge(&mut self) -> (r: i32)
        requires
            old(self).last_ch < i32::MAX,
        ensures
            final(self).last_ch == old(self).last_ch + 1,
            final(self).last_y@ == old(self).last_y@,
            final(self).last_z@ == old(self).last_z@,
            r == final(self).last_ch,
    {
        self.last_ch = self.last_ch + 1;
        self.last_ch
    }

    /// Accepts a reply (x, y, z) exactly when x matches the stored
    /// commitment and the pair (x, y) matches the stored binding value;
    /// on acceptance, y and z become the new anchors.
    pub fn verify(&mut self, otp: (Vec<u8>, Vec<u8>, Vec<u8>)) -> (r: bool)
        ensures
            r == (sha256_of(otp.0@) == old(self).last_y@ && spec_z(otp.0@, otp.1@) == old(
                self,
            ).last_z@),
            final(self).last_ch == old(self).last_ch,
            r ==> final(self).last_y@ == otp.1@ && final(self).last_z@ == otp.2@,
            !r ==> final(self).last_y@ == old(self).last_y@ && final(self).last_z@ == old(
                self,
            ).last_z@,
    {
        let (x, y, z) = otp;
        let hx = hashes::sha256(&x);
        if !hashes::ct_eq_bytes(&hx, &self.last_y) {
            return false;
        }
        let z_check = calculate_z(&x, &y);
        if !hashes::ct_eq_bytes(&z_check, &self.last_z) {
            return false;
        }
        self.last_y = y;
        self.last_z = z;
        true
    }
}

/// The verifier's anchors match the prover's committed elements.
pub open spec fn synced(p: Proofer, v: Verifier) -> bool {
    &&& v.last_ch == p.last_ch
    &&& v.last_y@ == sha256_of(p.current_x@)
    &&& v.last_z@ == spec_z(p.current_x@, sha256_of(p.next_x@))
}

/// Every honest exchange is accepted: when prover and verifier are in
/// sync and the verifier challenges with the next counter, the prover's
/// reply passes both of the verifier's checks, and the values the
/// verifier then stores are the commitments to the prover's advanced
/// state -- prover and verifier are in sync again.
pub proof fn lemma_park_exchange(p: Proofer, v: Verifier, ch: i32)
    requires
        p.wf(),
        synced(p, v),
        ch == p.last_ch + 1,
    ensures
        sha256_of(p.current_x@) == v.last_y@,
        spec_z(p.current_x@, sha256_of(p.next_x@)) == v.last_z@,
        sha256_of(p.next_x@) == sha256_of(spec_x(p.seed@, ch + 1)),
        spec_z(p.next_x@, sha256_of(spec_x(p.seed@, ch + 2))) == spec_z(
            spec_x(p.seed@, ch + 1),
            sha256_of(spec_x(p.seed@, ch + 2)),
        ),
{
}

} // verus!
