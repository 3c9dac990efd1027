//! Winternitz one-time signature (W-OTS) scheme over plain SHA-256/8N
//! chains, with W = 256: every digest byte is one chain digit.
//!
//! Chain secrets are drawn from a SHA-256-based pseudorandom generator
//! that evolves its seed by xor-and-add; the signature covers the digits
//! of the pk-bound message digest and a two-byte checksum over that same
//! digest.

use crate::hashes;
use crate::hashes::sha256_of;
use crate::util::{
    append_bytes, be_wrap_add1, be_wrap_add1_exec, concat_seqs, copy_bytes, lemma_concat_push,
    take_bytes, views_of, xor_bytes, xor_bytes_exec,
};
use vstd::prelude::*;

verus! {

/// The Winternitz parameter: one byte is one digit.
pub const W: usize = 256;

/// Number of base-W symbols per byte.
pub const X: usize = 1;

/// Security parameter: PRF output size in bytes.
pub const N: usize = 16;

/// Message digest length in bytes.
pub const M: usize = 16;

/// Number of message digits.
pub const L1: usize = M * X;

/// Number of checksum digits.
pub const L2: usize = 2;

/// Total number of chains.
pub const L: usize = L1 + L2;

/// One draw of the SHA-256-based generator: the output is the seed xored
/// with the truncated digest of the seed; the new seed is output + seed + 1
/// over 128-bit big-endian arithmetic.
pub open spec fn spec_prng(seed: Seq<u8>) -> (Seq<u8>, Seq<u8>) {
    let out = sha256_of(seed).take(N as int);
    let r = xor_bytes(seed, out);
    (r, be_wrap_add1(r, seed))
}

/// The generator's seed after k draws.
pub open spec fn seed_after(seed0: Seq<u8>, k: nat) -> Seq<u8>
    decreases k,
{
    if k == 0 {
        seed0
    } else {
        spec_prng(seed_after(seed0, (k - 1) as nat)).1
    }
}

/// The k-th value the generator hands out.
pub open spec fn prng_out(seed0: Seq<u8>, k: nat) -> Seq<u8> {
    spec_prng(seed_after(seed0, k)).0
}

/// SHA-256/8N-based generator: returns a fresh value and advances the
/// seed in place.
pub fn prng(seed: &mut Vec<u8>) -> (r: Vec<u8>)
    requires
        old(seed)@.len() == N,
    ensures
        r@ == spec_prng(old(seed)@).0,
        final(seed)@ == spec_prng(old(seed)@).1,
        r@.len() == N,
        final(seed)@.len() == N,
{
    let digest = hashes::sha256(seed);
    let out = take_bytes(&digest, N);
    let r = xor_bytes_exec(seed, &out);
    let new_seed = be_wrap_add1_exec(&r, seed);
    *seed = new_seed;
    r
}

/// c cycles of the truncated SHA-256 chain.
pub open spec fn spec_chain(input: Seq<u8>, c: nat) -> Seq<u8>
    decreases c,
{
    if c == 0 {
        input
    } else {
        sha256_of(spec_chain(input, (c - 1) as nat)).take(N as int)
    }
}

/// Applies c cycles of the SHA-256/8N hash function to the input.
pub fn chain(input: &Vec<u8>, c: usize) -> (r: Vec<u8>)
    requires
        input@.len() == N,
    ensures
        r@ == spec_chain(input@, c as nat),
        r@.len() == N,
{
    let mut output = copy_bytes(input);
    let mut i: usize = 0;
    while i < c
        invariant
            i <= c,
            output@ == spec_chain(input@, i as nat),
            output@.len() == N,
        decreases c - i,
    {
        let digest = hashes::sha256(&output);
        output = take_bytes(&digest, N);
        i = i + 1;
    }
    output
}

/// Converts a single byte into its base-W symbols; with W = 256 the byte
/// is its own single symbol.
pub fn base_w(byte: u8) -> (r: Vec<u8>)
    ensures
        r@ == seq![byte],
{
    let mut r: Vec<u8> = Vec::new();
    r.push(byte);
    proof {
        assert(r@ =~= seq![byte]);
    }
    r
}

/// The sum of W-1-b over the bytes of a digest.
pub open spec fn byte_checksum(s: Seq<u8>) -> int
    decreases s.len(),
{
    if s.len() == 0 {
        0
    } else {
        byte_checksum(s.drop_last()) + (W - 1 - s.last())
    }
}

pub proof fn lemma_byte_checksum_bound(s: Seq<u8>)
    ensures
        0 <= byte_checksum(s) <= s.len() * 255,
    decreases s.len(),
{
    if s.len() > 0 {
        lemma_byte_checksum_bound(s.drop_last());
    }
}

/// The pk-bound digest that drives the chains for `msg`.
pub open spec fn spec_hash_bytes(pk_hash: Seq<u8>, msg: Seq<u8>) -> Seq<u8> {
    sha256_of(pk_hash + sha256_of(msg).take(M as int)).take(M as int)
}

/// The number of cycles for chain i: the i-th digest byte for the
/// message digits, then the checksum's little-endian bytes.
pub open spec fn spec_cycles(hb: Seq<u8>, i: int) -> nat {
    let csum = byte_checksum(hb);
    if i < L1 {
        hb[i] as nat
    } else if i == L1 {
        (csum % 256) as nat
    } else {
        ((csum / 256) % 256) as nat
    }
}

/// The signature blocks for `msg` under generator seed `seed`, bound to
/// `pk_hash`.
pub open spec fn spec_signature(seed: Seq<u8>, pk_hash: Seq<u8>, msg: Seq<u8>) -> Seq<Seq<u8>> {
    let hb = spec_hash_bytes(pk_hash, msg);
    Seq::new(L as nat, |i: int| spec_chain(prng_out(seed, i as nat), spec_cycles(hb, i)))
}

/// The end of chain i: W-1 cycles from its secret head.
pub open spec fn pk_block(seed: Seq<u8>, i: nat) -> Seq<u8> {
    spec_chain(prng_out(seed, i), (W - 1) as nat)
}

/// The public key hash: the truncated digest over all chain ends.
pub open spec fn spec_pk_hash(seed: Seq<u8>) -> Seq<u8> {
    sha256_of(concat_seqs(Seq::new(L as nat, |i: int| pk_block(seed, i as nat)))).take(N as int)
}

/// The public seed: the generator value drawn right after the L secrets.
pub open spec fn spec_pk_seed(seed: Seq<u8>) -> Seq<u8> {
    prng_out(seed, L as nat)
}

/// A signature verifies when extending its blocks to the chain ends
/// reproduces the stored public key hash.
pub open spec fn spec_verify(
    pk_hash: Seq<u8>,
    msg_hash: Seq<u8>,
    sig: Seq<Seq<u8>>,
) -> bool {
    let hb = sha256_of(pk_hash + msg_hash).take(M as int);
    &&& sig.len() == L
    &&& sha256_of(
        concat_seqs(
            Seq::new(
                L as nat,
                |i: int| spec_chain(sig[i], (W - 1 - spec_cycles(hb, i)) as nat),
            ),
        ),
    ).take(N as int) == pk_hash
}

/// W-OTS keypair.
#[derive(Debug)]
pub struct Wots {
    pub pk_hash: Vec<u8>,
    pub pk_seed: Vec<u8>,
    pub sk_seed: Vec<u8>,
}

/// W-OTS signature.
#[derive(Debug)]
pub struct WotsSignature {
    pub pk_hash: Vec<u8>,
    pub pk_seed: Vec<u8>,
    pub msg_hash: Vec<u8>,
    pub signature: Vec<Vec<u8>>,
}

impl Wots {
    pub open spec fn wf(self) -> bool {
        &&& self.sk_seed@.len() == N
        &&& self.pk_hash@ == spec_pk_hash(self.sk_seed@)
        &&& self.pk_seed@ == spec_pk_seed(self.sk_seed@)
        &&& self.pk_hash@.len() == N
        &&& self.pk_seed@.len() == N
    }

    /// Generates a new W-OTS keypair from fresh system randomness.
    pub fn new() -> (w: Wots)
        ensures
            w.wf(),
    {
        let seed = crate::entropy::thread_rng_bytes(N);
        Self::from_seed(seed)
    }

    /// Creates a W-OTS keypair from the specified seed.
    pub fn from_seed(sk_seed: Vec<u8>) -> (w: Wots)
        requires
            sk_seed@.len() == N,
        ensures
            w.wf(),
            w.sk_seed@ == sk_seed@,
    {
        let mut seed = copy_bytes(&sk_seed);
        let mut buf: Vec<u8> = Vec::new();
        let ghost blocks = Seq::new(L as nat, |i: int| pk_block(sk_seed@, i as nat));

        let mut i: usize = 0;
        while i < L
            invariant
                i <= L,
                sk_seed@.len() == N,
                seed@ == seed_after(sk_seed@, i as nat),
                seed@.len() == N,
                blocks == Seq::new(L as nat, |t: int| pk_block(sk_seed@, t as nat)),
                buf@ == concat_seqs(blocks.take(i as int)),
            decreases L - i,
        {
            let secret = prng(&mut seed);
            let public = chain(&secret, W - 1);
            proof {
                assert(blocks.take(i + 1).drop_last() =~= blocks.take(i as int));
                assert(blocks.take(i + 1).last() == public@);
                lemma_concat_push(blocks.take(i as int), public@);
                assert(blocks.take(i as int).push(public@) =~= blocks.take(i + 1));
            }
            append_bytes(&mut buf, &public);
            i = i + 1;
        }
        proof {
            assert(blocks.take(L as int) =~= blocks);
        }

        let pk_seed = prng(&mut seed);
        let digest = hashes::sha256(&buf);
        let pk_hash = take_bytes(&digest, N);
        Wots { pk_hash, pk_seed, sk_seed }
    }

    /// Hashes and then signs an arbitrary input byte string.
    pub fn sign(&self, input: &Vec<u8>) -> (sig: WotsSignature)
        requires
            self.wf(),
        ensures
            sig.pk_hash@ == self.pk_hash@,
            sig.pk_seed@ == self.pk_seed@,
            sig.msg_hash@ == sha256_of(input@).take(M as int),
            views_of(sig.signature@) == spec_signature(self.sk_seed@, self.pk_hash@, input@),
            sig.wf(),
    {
        let ghost blocks = spec_signature(self.sk_seed@, self.pk_hash@, input@);

        // The pk-bound message digest.
        let digest = hashes::sha256(input);
        let msg_hash = take_bytes(&digest, M);
        let mut bound = copy_bytes(&self.pk_hash);
        append_bytes(&mut bound, &msg_hash);
        let digest2 = hashes::sha256(&bound);
        let hash_bytes = take_bytes(&digest2, M);
        let ghost hb = spec_hash_bytes(self.pk_hash@, input@);

        // Regenerate the chain secrets.
        let mut seed = copy_bytes(&self.sk_seed);
        let mut sk: Vec<Vec<u8>> = Vec::new();
        let mut i: usize = 0;
        while i < L
            invariant
                i <= L,
                self.sk_seed@.len() == N,
                seed@ == seed_after(self.sk_seed@, i as nat),
                seed@.len() == N,
                sk@.len() == i,
                forall|j: int| 0 <= j < i ==> (#[trigger] sk@[j])@ == prng_out(self.sk_seed@, j as nat),
                forall|j: int| 0 <= j < i ==> (#[trigger] sk@[j])@.len() == N,
            decreases L - i,
        {
            let secret = prng(&mut seed);
            sk.push(secret);
            i = i + 1;
        }

        // Message digits.
        let mut signature: Vec<Vec<u8>> = Vec::new();
        let mut i2: usize = 0;
        while i2 < M
            invariant
                i2 <= M,
                hb == spec_hash_bytes(self.pk_hash@, input@),
                hash_bytes@ == hb,
                hash_bytes@.len() == M,
                blocks == spec_signature(self.sk_seed@, self.pk_hash@, input@),
                sk@.len() == L,
                forall|j: int| 0 <= j < L ==> (#[trigger] sk@[j])@ == prng_out(self.sk_seed@, j as nat),
                forall|j: int| 0 <= j < L ==> (#[trigger] sk@[j])@.len() == N,
                signature@.len() == i2,
                forall|j: int| 0 <= j < i2 ==> (#[trigger] signature@[j])@ == blocks[j],
                forall|j: int| 0 <= j < i2 ==> (#[trigger] signature@[j])@.len() == N,
            decreases M - i2,
        {
            let symbols = base_w(hash_bytes[i2]);
            let cycles = symbols[0] as usize;
            signature.push(chain(&sk[i2], cycles));
            i2 = i2 + 1;
        }

        // Checksum digits.
        let mut csum: u32 = 0;
        let mut i3: usize = 0;
        while i3 < M
            invariant
                i3 <= M,
                hash_bytes@ == hb,
                hash_bytes@.len() == M,
                csum == byte_checksum(hb.take(i3 as int)),
                csum <= i3 * 255,
            decreases M - i3,
        {
            proof {
                assert(hb.take(i3 + 1).drop_last() =~= hb.take(i3 as int));
                lemma_byte_checksum_bound(hb.take(i3 as int));
            }
            csum = csum + (W as u32 - 1 - hash_bytes[i3] as u32);
            i3 = i3 + 1;
        }
        proof {
            assert(hb.take(M as int) =~= hb);
        }

        let c0 = (csum % 256) as usize;
        signature.push(chain(&sk[L1], c0));
        let c1 = ((csum / 256) % 256) as usize;
        signature.push(chain(&sk[L1 + 1], c1));
        proof {
            assert(views_of(signature@) =~= blocks);
        }

        WotsSignature {
            pk_hash: copy_bytes(&self.pk_hash),
            pk_seed: copy_bytes(&self.pk_seed),
            msg_hash,
            signature,
        }
    }
}

impl WotsSignature {
    /// Structurally well-formed: all blocks are N bytes wide.
    pub open spec fn wf(self) -> bool {
        &&& self.pk_hash@.len() == N
        &&& self.msg_hash@.len() == M
        &&& forall|i: int|
            0 <= i < self.signature@.len() ==> (#[trigger] self.signature@[i])@.len() == N
    }

    /// Verifies the signature against the public key by extending every
    /// block to the end of its chain; total, never panics.
    pub fn verify(&self) -> (r: bool)
        requires
            self.wf(),
        ensures
            r == spec_verify(self.pk_hash@, self.msg_hash@, views_of(self.signature@)),
    {
        if self.signature.len() != L {
            return false;
        }
        let ghost sigv = views_of(self.signature@);
        let ghost hb = sha256_of(self.pk_hash@ + self.msg_hash@).take(M as int);
        let ghost ends = Seq::new(
            L as nat,
            |i: int| spec_chain(sigv[i], (W - 1 - spec_cycles(hb, i)) as nat),
        );

        // The pk-bound digest.
        let mut bound = copy_bytes(&self.pk_hash);
        append_bytes(&mut bound, &self.msg_hash);
        let digest = hashes::sha256(&bound);
        let hash_bytes = take_bytes(&digest, M);

        // Message digits.
        let mut buf: Vec<u8> = Vec::new();
        let mut i: usize = 0;
        while i < M
            invariant
                i <= M,
                self.wf(),
                self.signature@.len() == L,
                sigv == views_of(self.signature@),
                hash_bytes@ == hb,
                hash_bytes@.len() == M,
                ends == Seq::new(
                    L as nat,
                    |t: int| spec_chain(sigv[t], (W - 1 - spec_cycles(hb, t)) as nat),
                ),
                buf@ == concat_seqs(ends.take(i as int)),
            decreases M - i,
        {
            let symbols = base_w(hash_bytes[i]);
            let cycles = W - 1 - symbols[0] as usize;
            let end = chain(&self.signature[i], cycles);
            proof {
                assert(ends.take(i + 1).drop_last() =~= ends.take(i as int));
                assert(ends.take(i + 1).last() == end@);
                lemma_concat_push(ends.take(i as int), end@);
                assert(ends.take(i as int).push(end@) =~= ends.take(i + 1));
            }
            append_bytes(&mut buf, &end);
            i = i + 1;
        }

        // Checksum digits, over the same pk-bound digest the signer used.
        let mut csum: u32 = 0;
        let mut i3: usize = 0;
        while i3 < M
            invariant
                i3 <= M,
                hash_bytes@ == hb,
                hash_bytes@.len() == M,
                csum == byte_checksum(hb.take(i3 as int)),
                csum <= i3 * 255,
            decreases M - i3,
        {
            proof {
                assert(hb.take(i3 + 1).drop_last() =~= hb.take(i3 as int));
                lemma_byte_checksum_bound(hb.take(i3 as int));
            }
            csum = csum + (W as u32 - 1 - hash_bytes[i3] as u32);
            i3 = i3 + 1;
        }
        proof {
            assert(hb.take(M as int) =~= hb);
        }

        let c0 = W - 1 - (csum % 256) as usize;
        let end0 = chain(&self.signature[L1], c0);
        proof {
            assert(ends.take(L1 + 1).drop_last() =~= ends.take(L1 as int));
            assert(ends.take(L1 + 1).last() == end0@);
            lemma_concat_push(ends.take(L1 as int), end0@);
            assert(ends.take(L1 as int).push(end0@) =~= ends.take(L1 + 1));
        }
        append_bytes(&mut buf, &end0);

        let c1 = W - 1 - ((csum / 256) % 256) as usize;
        let end1 = chain(&self.signature[L1 + 1], c1);
        proof {
            assert(ends.take(L1 + 2).drop_last() =~= ends.take(L1 + 1));
            assert(ends.take(L1 + 2).last() == end1@);
            lemma_concat_push(ends.take(L1 + 1), end1@);
            assert(ends.take(L1 + 1).push(end1@) =~= ends.take(L1 + 2));
            assert(ends.take(L as int) =~= ends);
        }
        append_bytes(&mut buf, &end1);

        let digest2 = hashes::sha256(&buf);
        let candidate = take_bytes(&digest2, N);
        crate::util::bytes_eq(&candidate, &self.pk_hash)
    }
}

} // verus!
