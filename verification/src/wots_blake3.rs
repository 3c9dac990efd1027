//! Winternitz one-time signature (W-OTS+) scheme over BLAKE3-256, with
//! W = 256: every digest byte is one chain digit.
//!
//! As in the SHA-256 WOTS+ scheme, the public key hash is mixed into the
//! message hash before signing, which removes the collision resistance
//! requirement and allows an N-byte message digest.

use crate::hashes;
use crate::hashes::blake3_of;
use crate::util::{
    append_bytes, be32, concat_seqs, copy_bytes, lemma_concat_push, take_bytes, u32_be_bytes,
    views_of, zero_bytes,
};
use vstd::prelude::*;

verus! {

/// The Winternitz parameter: one byte is one digit.
pub const W: usize = 256;

pub const LOG2_W: usize = 8;

/// Number of base-W symbols per byte.
pub const X: usize = 1;

/// Security parameter: PRF output size in bytes.
pub const N: usize = 32;

/// Message digest length in bytes.
pub const M: usize = 32;

/// Number of message digits.
pub const L1: usize = M * X;

/// Number of checksum digits.
pub const L2: usize = 2;

/// Total number of chains.
pub const L: usize = L1 + L2;

/// The N-byte counter block: zeros with the counter's big-endian bytes
/// at the end.
pub open spec fn ctr_block(counter: u32) -> Seq<u8> {
    Seq::new((N - 4) as nat, |i: int| 0u8) + be32(counter)
}

/// PRF(seed, counter): the truncated BLAKE3 digest of seed and counter block.
pub open spec fn spec_prf(seed: Seq<u8>, counter: u32) -> Seq<u8> {
    blake3_of(seed + ctr_block(counter)).take(N as int)
}

/// c cycles of the truncated BLAKE3 chain.
pub open spec fn spec_chain(input: Seq<u8>, c: nat) -> Seq<u8>
    decreases c,
{
    if c == 0 {
        input
    } else {
        blake3_of(spec_chain(input, (c - 1) as nat)).take(N as int)
    }
}

/// BLAKE3-256/8N-based PRF.
pub fn prf(seed: &Vec<u8>, counter: u32) -> (r: Vec<u8>)
    requires
        seed@.len() == N,
    ensures
        r@ == spec_prf(seed@, counter),
        r@.len() == N,
{
    let mut buf = copy_bytes(seed);
    let zeros = zero_bytes(N - 4);
    append_bytes(&mut buf, &zeros);
    let cb = u32_be_bytes(counter);
    append_bytes(&mut buf, &cb);
    proof {
        assert(zeros@ =~= Seq::new((N - 4) as nat, |i: int| 0u8));
        assert(zeros@ + cb@ =~= ctr_block(counter));
        assert(seed@ + zeros@ + cb@ =~= seed@ + ctr_block(counter));
    }
    let digest = hashes::blake3_hash(&buf);
    take_bytes(&digest, N)
}

/// Applies c cycles of the BLAKE3-256/8N hash function to the input.
pub fn chain(input: &Vec<u8>, c: usize) -> (r: Vec<u8>)
    requires
        input@.len() == N,
    ensures
        r@ == spec_chain(input@, c as nat),
        r@.len() == N,
{
    let mut output = copy_bytes(input);
    let mut i: usize = 0;
    while i < c
        invariant
            i <= c,
            output@ == spec_chain(input@, i as nat),
            output@.len() == N,
        decreases c - i,
    {
        let digest = hashes::blake3_hash(&output);
        output = take_bytes(&digest, N);
        i = i + 1;
    }
    output
}

/// Converts a single byte into its base-W symbols; with W = 256 the byte
/// is its own single symbol.
pub fn base_w(byte: u8) -> (r: Vec<u8>)
    ensures
        r@ == seq![byte],
{
    let mut r: Vec<u8> = Vec::new();
    r.push(byte);
    proof {
        assert(r@ =~= seq![byte]);
    }
    r
}

/// The sum of W-1-b over the bytes of a digest.
pub open spec fn byte_checksum(s: Seq<u8>) -> int
    decreases s.len(),
{
    if s.len() == 0 {
        0
    } else {
        byte_checksum(s.drop_last()) + (W - 1 - s.last())
    }
}

pub proof fn lemma_byte_checksum_bound(s: Seq<u8>)
    ensures
        0 <= byte_checksum(s) <= s.len() * 255,
    decreases s.len(),
{
    if s.len() > 0 {
        lemma_byte_checksum_bound(s.drop_last());
    }
}

/// The full cycle vector of a message under a public key hash: the bytes
/// of the pk-bound digest, then the two bytes cut from the checksum
/// after its byte-aligning shift by 8.
pub open spec fn spec_cycles_for_msg(msg: Seq<u8>, pk_hash: Seq<u8>) -> Seq<u8> {
    let hb = blake3_of(pk_hash + blake3_of(msg)).take(M as int);
    let csum = byte_checksum(hb) * 256;
    hb + seq![((csum / 256) % 256) as u8, (csum % 256) as u8]
}

/// Calculates the number of hash cycles applied to each base-W symbol.
pub fn cycles_for_msg(msg: &Vec<u8>, pk_hash: &Vec<u8>) -> (r: Vec<u8>)
    ensures
        r@ == spec_cycles_for_msg(msg@, pk_hash@),
        r@.len() == L,
{
    let msg_hash = hashes::blake3_hash(msg);
    let mut bound = copy_bytes(pk_hash);
    append_bytes(&mut bound, &msg_hash);
    let digest = hashes::blake3_hash(&bound);
    let mut cycles = take_bytes(&digest, M);
    let ghost hb = blake3_of(pk_hash@ + blake3_of(msg@)).take(M as int);

    let mut csum: u32 = 0;
    let mut i: usize = 0;
    while i < L1
        invariant
            i <= L1,
            cycles@ == hb,
            cycles@.len() == L1,
            csum == byte_checksum(hb.take(i as int)),
            csum <= i * 255,
        decreases L1 - i,
    {
        proof {
            assert(hb.take(i + 1).drop_last() =~= hb.take(i as int));
            lemma_byte_checksum_bound(hb.take(i as int));
        }
        csum = csum + (W as u32 - 1 - cycles[i] as u32);
        i = i + 1;
    }
    proof {
        assert(hb.take(L1 as int) =~= hb);
    }

    // Align the checksum to a byte boundary: L2 * LOG2_W is a multiple
    // of 8 here, so the shift is a full 8 bits.
    csum = csum * 256;
    cycles.push(((csum / 256) % 256) as u8);
    cycles.push((csum % 256) as u8);
    proof {
        assert(cycles@ =~= spec_cycles_for_msg(msg@, pk_hash@));
    }
    cycles
}

/// The end of chain i: W-1 cycles from its secret head.
pub open spec fn chain_end(sk: Seq<u8>, i: nat) -> Seq<u8> {
    spec_chain(spec_prf(sk, i as u32), (W - 1) as nat)
}

/// The public seed derived from a secret seed.
pub open spec fn spec_pk_seed(sk: Seq<u8>) -> Seq<u8> {
    spec_prf(sk, L as u32)
}

/// The public key hash: the truncated digest over all chain ends and the
/// public seed.
pub open spec fn spec_pk_hash(sk: Seq<u8>) -> Seq<u8> {
    blake3_of(
        concat_seqs(Seq::new(L as nat, |i: int| chain_end(sk, i as nat))) + spec_pk_seed(sk),
    ).take(N as int)
}

/// The signature blocks for `msg` under secret seed `sk`.
pub open spec fn spec_sign(sk: Seq<u8>, pk_hash: Seq<u8>, msg: Seq<u8>) -> Seq<Seq<u8>> {
    let cycles = spec_cycles_for_msg(msg, pk_hash);
    Seq::new(L as nat, |i: int| spec_chain(spec_prf(sk, i as u32), cycles[i] as nat))
}

/// A signature verifies when extending its blocks to the chain ends
/// reproduces the stored public key hash.
pub open spec fn spec_verify(
    pk_hash: Seq<u8>,
    pk_seed: Seq<u8>,
    sig: Seq<Seq<u8>>,
    msg: Seq<u8>,
) -> bool {
    let cycles = spec_cycles_for_msg(msg, pk_hash);
    &&& sig.len() == L
    &&& blake3_of(
        concat_seqs(
            Seq::new(L as nat, |i: int| spec_chain(sig[i], (W - 1 - cycles[i]) as nat)),
        ) + pk_seed,
    ).take(N as int) == pk_hash
}

/// W-OTS keypair.
#[derive(Debug)]
pub struct Wots {
    pub pk_hash: Vec<u8>,
    pub pk_seed: Vec<u8>,
    pub sk_seed: Vec<u8>,
}

/// W-OTS signature.
#[derive(Debug)]
pub struct WotsSignature {
    pub pk_hash: Vec<u8>,
    pub pk_seed: Vec<u8>,
    pub signature: Vec<Vec<u8>>,
}

impl Wots {
    pub open spec fn wf(self) -> bool {
        &&& self.sk_seed@.len() == N
        &&& self.pk_hash@ == spec_pk_hash(self.sk_seed@)
        &&& self.pk_seed@ == spec_pk_seed(self.sk_seed@)
        &&& self.pk_hash@.len() == N
        &&& self.pk_seed@.len() == N
    }

    /// Generates a new W-OTS keypair from fresh system randomness.
    pub fn new() -> (w: Wots)
        ensures
            w.wf(),
    {
        let seed = crate::entropy::thread_rng_bytes(N);
        Self::from_seed(seed)
    }

    /// Creates a W-OTS keypair from the specified seed.  The seed needs
    /// to come from a high-entropy cryptographically secure source.
    pub fn from_seed(sk_seed: Vec<u8>) -> (w: Wots)
        requires
            sk_seed@.len() == N,
        ensures
            w.wf(),
            w.sk_seed@ == sk_seed@,
    {
        let ghost ends = Seq::new(L as nat, |i: int| chain_end(sk_seed@, i as nat));
        let mut buf: Vec<u8> = Vec::new();

        let mut i: usize = 0;
        while i < L
            invariant
                i <= L,
                sk_seed@.len() == N,
                ends == Seq::new(L as nat, |t: int| chain_end(sk_seed@, t as nat)),
                buf@ == concat_seqs(ends.take(i as int)),
            decreases L - i,
        {
            let secret = prf(&sk_seed, i as u32);
            let public = chain(&secret, W - 1);
            proof {
                assert(ends.take(i + 1).drop_last() =~= ends.take(i as int));
                assert(ends.take(i + 1).last() == public@);
                lemma_concat_push(ends.take(i as int), public@);
                assert(ends.take(i as int).push(public@) =~= ends.take(i + 1));
            }
            append_bytes(&mut buf, &public);
            i = i + 1;
        }
        proof {
            assert(ends.take(L as int) =~= ends);
        }

        let pk_seed = prf(&sk_seed, L as u32);
        append_bytes(&mut buf, &pk_seed);
        let digest = hashes::blake3_hash(&buf);
        let pk_hash = take_bytes(&digest, N);
        Wots { pk_hash, pk_seed, sk_seed }
    }

    /// Hashes and then signs an input byte string of arbitrary length.
    pub fn sign(&self, msg: &Vec<u8>) -> (sig: WotsSignature)
        requires
            self.wf(),
        ensures
            sig.pk_hash@ == self.pk_hash@,
            sig.pk_seed@ == self.pk_seed@,
            views_of(sig.signature@) == spec_sign(self.sk_seed@, self.pk_hash@, msg@),
            sig.wf(),
    {
        let ghost blocks = spec_sign(self.sk_seed@, self.pk_hash@, msg@);
        let cycles = cycles_for_msg(msg, &self.pk_hash);

        let mut signature: Vec<Vec<u8>> = Vec::new();
        let mut i: usize = 0;
        while i < L
            invariant
                i <= L,
                self.wf(),
                cycles@ == spec_cycles_for_msg(msg@, self.pk_hash@),
                cycles@.len() == L,
                blocks == spec_sign(self.sk_seed@, self.pk_hash@, msg@),
                signature@.len() == i,
                forall|j: int| 0 <= j < i ==> (#[trigger] signature@[j])@ == blocks[j],
                forall|j: int| 0 <= j < i ==> (#[trigger] signature@[j])@.len() == N,
            decreases L - i,
        {
            let c = cycles[i] as usize;
            let secret = prf(&self.sk_seed, i as u32);
            signature.push(chain(&secret, c));
            i = i + 1;
        }
        proof {
            assert(views_of(signature@) =~= blocks);
        }

        WotsSignature {
            pk_hash: copy_bytes(&self.pk_hash),
            pk_seed: copy_bytes(&self.pk_seed),
            signature,
        }
    }
}

impl WotsSignature {
    /// Structurally well-formed: all blocks are N bytes wide.
    pub open spec fn wf(self) -> bool {
        &&& self.pk_hash@.len() == N
        &&& self.pk_seed@.len() == N
        &&& forall|i: int|
            0 <= i < self.signature@.len() ==> (#[trigger] self.signature@[i])@.len() == N
    }

    /// Verifies the signature against the public key; total, never panics.
    pub fn verify(&self, msg: &Vec<u8>) -> (r: bool)
        requires
            self.wf(),
        ensures
            r == spec_verify(self.pk_hash@, self.pk_seed@, views_of(self.signature@), msg@),
    {
        if self.signature.len() != L {
            return false;
        }
        let cycles = cycles_for_msg(msg, &self.pk_hash);

        let ghost sigv = views_of(self.signature@);
        let ghost cyc = spec_cycles_for_msg(msg@, self.pk_hash@);
        let ghost ends = Seq::new(
            L as nat,
            |i: int| spec_chain(sigv[i], (W - 1 - cyc[i]) as nat),
        );
        let mut buf: Vec<u8> = Vec::new();
        let mut i: usize = 0;
        while i < L
            invariant
                i <= L,
                self.wf(),
                self.signature@.len() == L,
                sigv == views_of(self.signature@),
                cycles@ == cyc,
                cycles@.len() == L,
                cyc == spec_cycles_for_msg(msg@, self.pk_hash@),
                ends == Seq::new(L as nat, |t: int| spec_chain(sigv[t], (W - 1 - cyc[t]) as nat)),
                buf@ == concat_seqs(ends.take(i as int)),
            decreases L - i,
        {
            let c = cycles[i] as usize;
            let end = chain(&self.signature[i], W - 1 - c);
            proof {
                assert(ends.take(i + 1).drop_last() =~= ends.take(i as int));
                assert(ends.take(i + 1).last() == end@);
                lemma_concat_push(ends.take(i as int), end@);
                assert(ends.take(i as int).push(end@) =~= ends.take(i + 1));
            }
            append_bytes(&mut buf, &end);
            i = i + 1;
        }
        proof {
            assert(ends.take(L as int) =~= ends);
        }
        append_bytes(&mut buf, &self.pk_seed);
        let digest = hashes::blake3_hash(&buf);
        let candidate = take_bytes(&digest, N);
        hashes::ct_eq_bytes(&candidate, &self.pk_hash)
    }
}

} // verus!
