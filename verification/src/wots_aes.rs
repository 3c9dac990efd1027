//! Winternitz one-time signature (W-OTS) scheme over AES-MMO chains,
//! with W = 256 and a SipHash-128 message and key digest.
//!
//! The chain step is the Matyas-Meyer-Oseas construction with a zero
//! key: x becomes x xor AES_0(x).  Chain secrets come from an AES-based
//! pseudorandom generator that evolves its seed by xor-and-add.

use crate::hashes;
use crate::hashes::{aes128_enc, siphash128_of};
use crate::util::{
    append_bytes, be_wrap_add1, be_wrap_add1_exec, concat_seqs, copy_bytes, lemma_concat_push,
    take_bytes, views_of, xor_bytes, xor_bytes_exec, zero_bytes,
};
use vstd::prelude::*;

verus! {

/// The Winternitz parameter: one byte is one digit.
pub const W: usize = 256;

/// Number of base-W symbols per byte.
pub const X: usize = 1;

/// Security parameter: block and digest size in bytes.
pub const N: usize = 16;

/// The all-zero AES key used by the MMO constructions.
pub open spec fn zero_block() -> Seq<u8> {
    Seq::new(N as nat, |i: int| 0u8)
}

/// One draw of the AES-based generator: the output is the seed xored
/// with its zero-key encryption; the new seed is output + seed + 1 over
/// 128-bit big-endian arithmetic.
pub open spec fn spec_prng(seed: Seq<u8>) -> (Seq<u8>, Seq<u8>) {
    let out = aes128_enc(zero_block(), seed);
    let r = xor_bytes(seed, out);
    (r, be_wrap_add1(r, seed))
}

/// The generator's seed after k draws.
pub open spec fn seed_after(seed0: Seq<u8>, k: nat) -> Seq<u8>
    decreases k,
{
    if k == 0 {
        seed0
    } else {
        spec_prng(seed_after(seed0, (k - 1) as nat)).1
    }
}

/// The k-th value the generator hands out.
pub open spec fn prng_out(seed0: Seq<u8>, k: nat) -> Seq<u8> {
    spec_prng(seed_after(seed0, k)).0
}

/// AES-MMO-based generator: returns a fresh value and advances the seed
/// in place.
pub fn prng(seed: &mut Vec<u8>) -> (r: Vec<u8>)
    requires
        old(seed)@.len() == N,
    ensures
        r@ == spec_prng(old(seed)@).0,
        final(seed)@ == spec_prng(old(seed)@).1,
        r@.len() == N,
        final(seed)@.len() == N,
{
    let zeros = zero_bytes(N);
    proof {
        assert(zeros@ =~= zero_block());
    }
    let out = hashes::aes128_encrypt(&zeros, seed);
    let r = xor_bytes_exec(seed, &out);
    let new_seed = be_wrap_add1_exec(&r, seed);
    *seed = new_seed;
    r
}

/// One AES-MMO cycle: x becomes x xor AES_0(x).
pub open spec fn chain_step(x: Seq<u8>) -> Seq<u8> {
    xor_bytes(x, aes128_enc(zero_block(), x))
}

/// c cycles of the AES-MMO chain.
pub open spec fn spec_chain(input: Seq<u8>, c: nat) -> Seq<u8>
    decreases c,
{
    if c == 0 {
        input
    } else {
        chain_step(spec_chain(input, (c - 1) as nat))
    }
}

/// Applies c cycles of the AES-MMO hash function to the input.
pub fn chain(input: &Vec<u8>, c: usize) -> (r: Vec<u8>)
    requires
        input@.len() == N,
    ensures
        r@ == spec_chain(input@, c as nat),
        r@.len() == N,
{
    let zeros = zero_bytes(N);
    proof {
        assert(zeros@ =~= zero_block());
    }
    let mut output = copy_bytes(input);
    let mut i: usize = 0;
    while i < c
        invariant
            i <= c,
            zeros@ == zero_block(),
            zeros@.len() == N,
            output@ == spec_chain(input@, i as nat),
            output@.len() == N,
        decreases c - i,
    {
        let enc = hashes::aes128_encrypt(&zeros, &output);
        output = xor_bytes_exec(&output, &enc);
        i = i + 1;
    }
    output
}

/// Converts a single byte into its base-W symbols; with W = 256 the byte
/// is its own single symbol.
pub fn base_w(byte: u8) -> (r: Vec<u8>)
    ensures
        r@ == seq![byte],
{
    let mut r: Vec<u8> = Vec::new();
    r.push(byte);
    proof {
        assert(r@ =~= seq![byte]);
    }
    r
}

/// The end of chain i: W-1 cycles from its secret head.
pub open spec fn pk_block(seed: Seq<u8>, i: nat) -> Seq<u8> {
    spec_chain(prng_out(seed, i), (W - 1) as nat)
}

/// The public key: the SipHash-128 digest over all chain ends.
pub open spec fn spec_pk(seed: Seq<u8>) -> Seq<u8> {
    siphash128_of(concat_seqs(Seq::new((N * X) as nat, |i: int| pk_block(seed, i as nat))))
}

/// The signature blocks for a message digest: chain i walked by the i-th
/// digest byte.
pub open spec fn spec_signature(seed: Seq<u8>, msg_hash: Seq<u8>) -> Seq<Seq<u8>> {
    Seq::new((N * X) as nat, |i: int| spec_chain(prng_out(seed, i as nat), msg_hash[i] as nat))
}

/// A signature verifies when extending its blocks to the chain ends
/// reproduces the stored public key.
pub open spec fn spec_verify(pk: Seq<u8>, msg_hash: Seq<u8>, sig: Seq<Seq<u8>>) -> bool {
    &&& sig.len() == N * X
    &&& msg_hash.len() == N
    &&& siphash128_of(
        concat_seqs(
            Seq::new(
                (N * X) as nat,
                |i: int| spec_chain(sig[i], (W - 1 - msg_hash[i]) as nat),
            ),
        ),
    ) == pk
}

/// W-OTS keypair; the chain secrets are stored outright.
#[derive(Debug)]
pub struct Wots {
    pub pk: Vec<u8>,
    pub sk: Vec<Vec<u8>>,
}

/// W-OTS signature.
#[derive(Debug)]
pub struct WotsSignature {
    pub pk: Vec<u8>,
    pub msg_hash: Vec<u8>,
    pub signature: Vec<Vec<u8>>,
}

impl Wots {
    /// The stored secrets are a generator run, and the public key is the
    /// digest over their chain ends.
    pub open spec fn wf(self) -> bool {
        &&& self.sk@.len() == N * X
        &&& exists|seed0: Seq<u8>|
            views_of(self.sk@) == Seq::new(
                (N * X) as nat,
                |i: int| prng_out(seed0, i as nat),
            ) && self.pk@ == #[trigger] spec_pk(seed0)
        &&& forall|i: int| 0 <= i < self.sk@.len() ==> (#[trigger] self.sk@[i])@.len() == N
        &&& self.pk@.len() == N
    }

    /// Generates a new W-OTS keypair from fresh system randomness.
    pub fn new() -> (w: Wots)
        ensures
            w.wf(),
    {
        let seed = crate::entropy::getrandom_bytes(N);
        Self::from_seed(seed)
    }

    /// Creates a W-OTS keypair from the specified seed.
    pub fn from_seed(seed: Vec<u8>) -> (w: Wots)
        requires
            seed@.len() == N,
        ensures
            w.wf(),
            views_of(w.sk@) == Seq::new((N * X) as nat, |i: int| prng_out(seed@, i as nat)),
            w.pk@ == spec_pk(seed@),
    {
        let ghost seed0 = seed@;
        let ghost blocks = Seq::new((N * X) as nat, |i: int| pk_block(seed0, i as nat));
        let mut seed_var = seed;
        let mut sk: Vec<Vec<u8>> = Vec::new();
        let mut buf: Vec<u8> = Vec::new();

        let mut i: usize = 0;
        while i < N * X
            invariant
                i <= N * X,
                seed_var@ == seed_after(seed0, i as nat),
                seed_var@.len() == N,
                blocks == Seq::new((N * X) as nat, |t: int| pk_block(seed0, t as nat)),
                sk@.len() == i,
                forall|j: int| 0 <= j < i ==> (#[trigger] sk@[j])@ == prng_out(seed0, j as nat),
                forall|j: int| 0 <= j < i ==> (#[trigger] sk@[j])@.len() == N,
                buf@ == concat_seqs(blocks.take(i as int)),
            decreases N * X - i,
        {
            let secret = prng(&mut seed_var);
            let public = chain(&secret, W - 1);
            proof {
                assert(blocks.take(i + 1).drop_last() =~= blocks.take(i as int));
                assert(blocks.take(i + 1).last() == public@);
                lemma_concat_push(blocks.take(i as int), public@);
                assert(blocks.take(i as int).push(public@) =~= blocks.take(i + 1));
            }
            sk.push(secret);
            append_bytes(&mut buf, &public);
            i = i + 1;
        }
        proof {
            assert(blocks.take((N * X) as int) =~= blocks);
        }

        let pk = hashes::siphash128(&buf);
        let w = Wots { pk, sk };
        proof {
            assert(views_of(w.sk@) =~= Seq::new(
                (N * X) as nat,
                |t: int| prng_out(seed0, t as nat),
            ));
            assert(w.pk@ == spec_pk(seed0));
            assert(exists|s0: Seq<u8>|
                views_of(w.sk@) == Seq::new((N * X) as nat, |i: int| prng_out(s0, i as nat))
                    && w.pk@ == #[trigger] spec_pk(s0)) by {
                assert(views_of(w.sk@) == Seq::new(
                    (N * X) as nat,
                    |i: int| prng_out(seed0, i as nat),
                ) && w.pk@ == spec_pk(seed0));
            }
        }
        w
    }

    /// Hashes and then signs an input byte string.
    pub fn sign(&self, input: &Vec<u8>) -> (sig: WotsSignature)
        requires
            self.wf(),
        ensures
            sig.pk@ == self.pk@,
            sig.msg_hash@ == siphash128_of(input@),
            ({
                let seed0 = choose|seed0: Seq<u8>|
                    views_of(self.sk@) == Seq::new(
                        (N * X) as nat,
                        |i: int| prng_out(seed0, i as nat),
                    ) && self.pk@ == spec_pk(seed0);
                views_of(sig.signature@) == spec_signature(seed0, siphash128_of(input@))
            }),
            sig.wf(),
    {
        let ghost seed0 = choose|seed0: Seq<u8>|
            views_of(self.sk@) == Seq::new((N * X) as nat, |i: int| prng_out(seed0, i as nat))
                && self.pk@ == spec_pk(seed0);
        let ghost blocks = spec_signature(seed0, siphash128_of(input@));

        let msg_hash = hashes::siphash128(input);

        let mut signature: Vec<Vec<u8>> = Vec::new();
        let mut i: usize = 0;
        while i < N
            invariant
                i <= N,
                self.wf(),
                views_of(self.sk@) == Seq::new(
                    (N * X) as nat,
                    |t: int| prng_out(seed0, t as nat),
                ),
                msg_hash@ == siphash128_of(input@),
                msg_hash@.len() == N,
                blocks == spec_signature(seed0, siphash128_of(input@)),
                signature@.len() == i,
                forall|j: int| 0 <= j < i ==> (#[trigger] signature@[j])@ == blocks[j],
                forall|j: int| 0 <= j < i ==> (#[trigger] signature@[j])@.len() == N,
            decreases N - i,
        {
            let symbols = base_w(msg_hash[i]);
            let cycles = symbols[0] as usize;
            proof {
                assert(self.sk@[i as int]@ == views_of(self.sk@)[i as int]);
            }
            signature.push(chain(&self.sk[i], cycles));
            i = i + 1;
        }
        proof {
            assert(views_of(signature@) =~= blocks);
        }

        WotsSignature { pk: copy_bytes(&self.pk), msg_hash, signature }
    }
}

impl WotsSignature {
    /// Structurally well-formed: all blocks are N bytes wide.
    pub open spec fn wf(self) -> bool {
        &&& self.pk@.len() == N
        &&& self.msg_hash@.len() == N
        &&& forall|i: int|
            0 <= i < self.signature@.len() ==> (#[trigger] self.signature@[i])@.len() == N
    }

    /// Verifies the signature against the public key; total, never panics.
    pub fn verify(&self) -> (r: bool)
        requires
            self.wf(),
        ensures
            r == spec_verify(self.pk@, self.msg_hash@, views_of(self.signature@)),
    {
        if self.signature.len() != N * X {
            return false;
        }
        let ghost sigv = views_of(self.signature@);
        let ghost ends = Seq::new(
            (N * X) as nat,
            |i: int| spec_chain(sigv[i], (W - 1 - self.msg_hash@[i]) as nat),
        );

        let mut buf: Vec<u8> = Vec::new();
        let mut i: usize = 0;
        while i < N
            invariant
                i <= N,
                self.wf(),
                self.signature@.len() == N * X,
                sigv == views_of(self.signature@),
                ends == Seq::new(
                    (N * X) as nat,
                    |t: int| spec_chain(sigv[t], (W - 1 - self.msg_hash@[t]) as nat),
                ),
                buf@ == concat_seqs(ends.take(i as int)),
            decreases N - i,
        {
            let symbols = base_w(self.msg_hash[i]);
            let cycles = W - 1 - symbols[0] as usize;
            let end = chain(&self.signature[i], cycles);
            proof {
                assert(ends.take(i + 1).drop_last() =~= ends.take(i as int));
                assert(ends.take(i + 1).last() == end@);
                lemma_concat_push(ends.take(i as int), end@);
                assert(ends.take(i as int).push(end@) =~= ends.take(i + 1));
            }
            append_bytes(&mut buf, &end);
            i = i + 1;
        }
        proof {
            assert(ends.take((N * X) as int) =~= ends);
        }

        let candidate = hashes::siphash128(&buf);
        crate::util::bytes_eq(&candidate, &self.pk)
    }
}

} // verus!
