//! Winternitz One-Time Signature (WOTS+) scheme over SHA-256/8N.
//!
//! This construction deliberately departs from RFC 8391: the public key
//! hash is mixed into the message hash, which removes the collision
//! resistance requirement on the hash and halves the signature size.
//!
//! Every function is specified exactly in terms of `sha256_of`, the name
//! given to the SHA-256 primitive; the sign/verify round trip and the
//! chain composition law are proved below as `lemma_sign_verifies` and
//! `lemma_chain_composition`.

use crate::hashes;
use crate::hashes::sha256_of;
use crate::util::{
    append_bytes, be32, concat_seqs, copy_bytes, lemma_concat_push, pow2, pow2_usize, skip_bytes,
    take_bytes, views_of, xor_bytes, xor_bytes_exec, zero_bytes,
};
use vstd::prelude::*;

verus! {

/// The Winternitz parameter, determining the time-space tradeoff.
/// A power of two with 2 <= W <= 256.
pub const W: usize = 16;

pub const LOG2_W: usize = 4;

/// Security parameter: PRF output size in bytes.
pub const N: usize = 16;

/// Message digest length in bytes.
pub const M: usize = N;

/// Number of base-W digits of an M-byte message digest.
pub const L1: usize = (8 * M + LOG2_W - 1) / LOG2_W;

/// Number of base-W checksum digits.
pub const L2: usize = 3;

pub const L2_BYTES: usize = (L2 * LOG2_W + 7) / 8;

/// Total number of hash chains, i.e. of N-byte blocks in a signature.
pub const L: usize = L1 + L2;

/// The N-byte PRF input: the seed with the counter's big-endian bytes
/// folded into its first four bytes.
pub open spec fn ctr_input(seed: Seq<u8>, counter: u32) -> Seq<u8> {
    Seq::new(
        seed.len(),
        |i: int|
            if i < 4 {
                seed[i] ^ be32(counter)[i]
            } else {
                seed[i]
            },
    )
}

/// PRF(seed, counter): the first N bytes of SHA-256 over the counter-mixed seed.
pub open spec fn spec_prf(seed: Seq<u8>, counter: u32) -> Seq<u8> {
    sha256_of(ctr_input(seed, counter)).take(N as int)
}

/// PRF2(seed, counter): both N-byte halves of one SHA-256 invocation
/// (for N <= 16); otherwise two PRF calls with counters k and !k.
pub open spec fn spec_prf2(seed: Seq<u8>, counter: u32) -> (Seq<u8>, Seq<u8>) {
    if N <= 16 {
        let d = sha256_of(ctr_input(seed, counter));
        (d.take(N as int), d.skip(N as int))
    } else {
        (spec_prf(seed, counter), spec_prf(seed, !counter))
    }
}

/// One cycle of the keyed, masked hash chain.
pub open spec fn chain_step(x: Seq<u8>, counter: u32, pk_seed: Seq<u8>) -> Seq<u8> {
    let km = spec_prf2(pk_seed, counter);
    sha256_of(km.0 + xor_bytes(x, km.1)).take(N as int)
}

/// c cycles of the hash chain, beginning at position `start` of chain
/// number `chain_idx`; cycle i uses the counter chain_idx*256 + start + i.
pub open spec fn spec_chain(
    input: Seq<u8>,
    c: nat,
    chain_idx: nat,
    start: nat,
    pk_seed: Seq<u8>,
) -> Seq<u8>
    decreases c,
{
    if c == 0 {
        input
    } else {
        chain_step(
            spec_chain(input, (c - 1) as nat, chain_idx, start, pk_seed),
            (chain_idx * 256 + start + c - 1) as u32,
            pk_seed,
        )
    }
}

/// Composing two chain walks is one longer walk: a cycles from `start`
/// followed by b cycles from `start + a` equal a+b cycles from `start`.
pub proof fn lemma_chain_composition(
    input: Seq<u8>,
    a: nat,
    b: nat,
    chain_idx: nat,
    start: nat,
    pk_seed: Seq<u8>,
)
    ensures
        spec_chain(spec_chain(input, a, chain_idx, start, pk_seed), b, chain_idx, start + a, pk_seed)
            == spec_chain(input, a + b, chain_idx, start, pk_seed),
    decreases b,
{
    if b > 0 {
        lemma_chain_composition(input, a, (b - 1) as nat, chain_idx, start, pk_seed);
    }
}

/// SHA-256/8N-based PRF, used to derive the secret chain heads and the
/// public seed from the secret seed.
pub fn prf(seed: &Vec<u8>, counter: u32) -> (r: Vec<u8>)
    requires
        seed@.len() == N,
    ensures
        r@ == spec_prf(seed@, counter),
        r@.len() == N,
{
    let cb = crate::util::u32_be_bytes(counter);
    let mut data: Vec<u8> = Vec::new();
    let mut i: usize = 0;
    while i < 4
        invariant
            i <= 4,
            seed@.len() == N,
            cb@ == be32(counter),
            data@.len() == i,
            forall|j: int| 0 <= j < i ==> data@[j] == (seed@[j] ^ be32(counter)[j]),
        decreases 4 - i,
    {
        data.push(seed[i] ^ cb[i]);
        i = i + 1;
    }
    while i < seed.len()
        invariant
            4 <= i <= seed@.len() == N,
            data@.len() == i,
            forall|j: int| 0 <= j < 4 ==> data@[j] == (seed@[j] ^ be32(counter)[j]),
            forall|j: int| 4 <= j < i ==> data@[j] == seed@[j],
        decreases seed@.len() - i,
    {
        data.push(seed[i]);
        i = i + 1;
    }
    proof {
        assert(data@ =~= ctr_input(seed@, counter));
    }
    let d = hashes::sha256(&data);
    take_bytes(&d, N)
}

/// SHA-256/8N-based PRF with 2N bytes of output, used for the chain keys
/// and bitmasks; one hash invocation covers both halves when N <= 16.
pub fn prf2(seed: &Vec<u8>, counter: u32) -> (r: (Vec<u8>, Vec<u8>))
    requires
        seed@.len() == N,
    ensures
        r.0@ == spec_prf2(seed@, counter).0,
        r.1@ == spec_prf2(seed@, counter).1,
        r.0@.len() == N,
        r.1@.len() == N,
{
    if N <= 16 {
        let cb = crate::util::u32_be_bytes(counter);
        let mut data: Vec<u8> = Vec::new();
        let mut i: usize = 0;
        while i < 4
            invariant
                i <= 4,
                seed@.len() == N,
                cb@ == be32(counter),
                data@.len() == i,
                forall|j: int| 0 <= j < i ==> data@[j] == (seed@[j] ^ be32(counter)[j]),
            decreases 4 - i,
        {
            data.push(seed[i] ^ cb[i]);
            i = i + 1;
        }
        while i < seed.len()
            invariant
                4 <= i <= seed@.len() == N,
                data@.len() == i,
                forall|j: int| 0 <= j < 4 ==> data@[j] == (seed@[j] ^ be32(counter)[j]),
                forall|j: int| 4 <= j < i ==> data@[j] == seed@[j],
            decreases seed@.len() - i,
        {
            data.push(seed[i]);
            i = i + 1;
        }
        proof {
            assert(data@ =~= ctr_input(seed@, counter));
        }
        let d = hashes::sha256(&data);
        let lo = take_bytes(&d, N);
        let hi = skip_bytes(&d, N);
        (lo, hi)
    } else {
        (prf(seed, counter), prf(seed, !counter))
    }
}

/// Applies c cycles of the keyed, masked SHA-256/8N chain to the input.
pub fn chain(input: &Vec<u8>, c: usize, chain_idx: usize, start: usize, pk_seed: &Vec<u8>) -> (r:
    Vec<u8>)
    requires
        input@.len() == N,
        pk_seed@.len() == N,
        start + c <= W - 1,
        chain_idx <= 0xFFFF,
    ensures
        r@ == spec_chain(input@, c as nat, chain_idx as nat, start as nat, pk_seed@),
        r@.len() == N,
{
    let mut output = copy_bytes(input);
    let mut i: usize = 0;
    while i < c
        invariant
            i <= c,
            input@.len() == N,
            pk_seed@.len() == N,
            start + c <= W - 1,
            chain_idx <= 0xFFFF,
            output@ == spec_chain(input@, i as nat, chain_idx as nat, start as nat, pk_seed@),
            output@.len() == N,
        decreases c - i,
    {
        let counter: u32 = (chain_idx * 256 + start + i) as u32;
        let km = prf2(pk_seed, counter);
        let masked = xor_bytes_exec(&output, &km.1);
        let mut buf = copy_bytes(&km.0);
        append_bytes(&mut buf, &masked);
        let d = hashes::sha256(&buf);
        output = take_bytes(&d, N);
        i = i + 1;
    }
    output
}

/// The state of the backward base-W scan: the first `count` digits still
/// to be produced, given residual value b, next byte index bi, and the
/// bit counter.  Digits are emitted least-significant-first and placed
/// at the end of the output, mirroring the scan's observable behaviour.
pub open spec fn base_w_digits(bytes: Seq<u8>, count: nat, b: nat, bi: nat, bits: int) -> Seq<u8>
    decreases count,
{
    if count == 0 {
        Seq::empty()
    } else {
        let d = (b % (W as nat)) as u8;
        let b1 = b / (W as nat);
        let bits1 = bits - LOG2_W;
        if bits1 <= LOG2_W {
            let bits2 = bits1 + 8;
            if bi > 0 {
                let bi2 = (bi - 1) as nat;
                let b2 = b1 + (bytes[bi2 as int] as nat) * pow2(bits2 as nat);
                base_w_digits(bytes, (count - 1) as nat, b2, bi2, bits2).push(d)
            } else {
                base_w_digits(bytes, (count - 1) as nat, b1, bi, bits2).push(d)
            }
        } else {
            base_w_digits(bytes, (count - 1) as nat, b1, bi, bits1).push(d)
        }
    }
}

/// The base-W digit string of length `len` scanned backward from `bytes`.
pub open spec fn spec_base_w(bytes: Seq<u8>, len: nat) -> Seq<u8>
    recommends
        bytes.len() >= 1,
{
    base_w_digits(bytes, len, bytes.last() as nat, (bytes.len() - 1) as nat, 8)
}

pub proof fn lemma_base_w_digits_bound(bytes: Seq<u8>, count: nat, b: nat, bi: nat, bits: int)
    ensures
        base_w_digits(bytes, count, b, bi, bits).len() == count,
        forall|i: int|
            0 <= i < count ==> #[trigger] base_w_digits(bytes, count, b, bi, bits)[i] < W,
    decreases count,
{
    if count > 0 {
        let d = (b % (W as nat)) as u8;
        let b1 = b / (W as nat);
        let bits1 = bits - LOG2_W;
        if bits1 <= LOG2_W {
            let bits2 = bits1 + 8;
            if bi > 0 {
                let bi2 = (bi - 1) as nat;
                let b2 = b1 + (bytes[bi2 as int] as nat) * pow2(bits2 as nat);
                lemma_base_w_digits_bound(bytes, (count - 1) as nat, b2, bi2, bits2);
            } else {
                lemma_base_w_digits_bound(bytes, (count - 1) as nat, b1, bi, bits2);
            }
        } else {
            lemma_base_w_digits_bound(bytes, (count - 1) as nat, b1, bi, bits1);
        }
    }
}

pub proof fn lemma_base_w_bound(bytes: Seq<u8>, len: nat)
    ensures
        spec_base_w(bytes, len).len() == len,
        forall|i: int| 0 <= i < len ==> #[trigger] spec_base_w(bytes, len)[i] < W,
{
    lemma_base_w_digits_bound(bytes, len, bytes.last() as nat, (bytes.len() - 1) as nat, 8);
}

/// Interpreting the two digits of a single byte as a base-W number gives
/// that byte back.
pub proof fn lemma_base_w_single_byte(b: u8)
    ensures
        spec_base_w(seq![b], 2).len() == 2,
        (spec_base_w(seq![b], 2)[0] as int) * 16 + (spec_base_w(seq![b], 2)[1] as int) == b,
{
    let s = seq![b];
    assert(s.last() == b);
    reveal_with_fuel(base_w_digits, 3);
    assert(spec_base_w(s, 2) == base_w_digits(s, 1, (b as nat) / 16, 0, 12).push(
        ((b as nat) % 16) as u8,
    ));
}

/// Converts a byte string into `len` base-W digits, scanning from the
/// least-significant byte end.
pub fn base_w(bytes: &Vec<u8>, len: usize) -> (r: Vec<u8>)
    requires
        bytes@.len() >= 1,
    ensures
        r@ == spec_base_w(bytes@, len as nat),
        r@.len() == len,
        forall|i: int| 0 <= i < len ==> r@[i] < W,
{
    let mut b: usize = bytes[bytes.len() - 1] as usize;
    let mut bi: usize = bytes.len() - 1;
    let mut symbols = zero_bytes(len);
    let mut bits: usize = 8;

    let mut i: usize = len;
    while i > 0
        invariant
            i <= len,
            bytes@.len() >= 1,
            bi < bytes@.len(),
            symbols@.len() == len,
            bits == 8 || bits == 12,
            b <= 0x0FFF_FFFF,
            base_w_digits(bytes@, len as nat, bytes@.last() as nat, (bytes@.len() - 1) as nat, 8)
                == base_w_digits(bytes@, i as nat, b as nat, bi as nat, bits as int)
                + symbols@.skip(i as int),
        decreases i,
    {
        i = i - 1;
        let ghost pre = base_w_digits(bytes@, (i + 1) as nat, b as nat, bi as nat, bits as int);
        let ghost rest = symbols@.skip(i + 1);
        let d: u8 = (b % W) as u8;
        symbols[i] = d;
        proof {
            assert(symbols@.skip(i as int) =~= seq![d] + rest);
        }
        b = b / W;
        bits = bits - LOG2_W;
        if bits <= LOG2_W {
            bits = bits + 8;
            if bi > 0 {
                bi = bi - 1;
                proof {
                    assert(pow2(12) == 4096) by {
                        reveal_with_fuel(pow2, 13);
                    }
                }
                let add = (bytes[bi] as usize) * pow2_usize(bits);
                b = b + add;
            }
        }
        proof {
            assert(pre == base_w_digits(bytes@, i as nat, b as nat, bi as nat, bits as int).push(
                d,
            ));
            assert(base_w_digits(bytes@, i as nat, b as nat, bi as nat, bits as int).push(d) + rest
                =~= base_w_digits(bytes@, i as nat, b as nat, bi as nat, bits as int) + (seq![d]
                + rest));
        }
    }
    proof {
        assert(symbols@.skip(0) =~= symbols@);
        lemma_base_w_bound(bytes@, len as nat);
    }
    symbols
}

/// The Winternitz checksum of a digit string: the sum of W-1-d over its digits.
pub open spec fn digit_checksum(digits: Seq<u8>) -> int
    decreases digits.len(),
{
    if digits.len() == 0 {
        0
    } else {
        digit_checksum(digits.drop_last()) + (W - 1 - digits.last())
    }
}

pub proof fn lemma_digit_checksum_bound(digits: Seq<u8>)
    requires
        forall|i: int| 0 <= i < digits.len() ==> #[trigger] digits[i] < W,
    ensures
        0 <= digit_checksum(digits) <= digits.len() * (W - 1),
    decreases digits.len(),
{
    if digits.len() > 0 {
        lemma_digit_checksum_bound(digits.drop_last());
    }
}

/// The full cycle vector of a message under a public key hash: L1 digits
/// of the pk-bound message digest, then L2 digits of the shifted checksum.
pub open spec fn spec_cycles_for_msg(msg: Seq<u8>, pk_hash: Seq<u8>) -> Seq<u8> {
    let msg_hash = sha256_of(msg);
    let hash_bytes = sha256_of(pk_hash + msg_hash).take(M as int);
    let msg_digits = spec_base_w(hash_bytes, L1 as nat);
    let csum = digit_checksum(msg_digits) * 16;
    let csum_bytes = seq![((csum / 256) % 256) as u8, (csum % 256) as u8];
    msg_digits + spec_base_w(csum_bytes, L2 as nat)
}

pub proof fn lemma_cycles_bound(msg: Seq<u8>, pk_hash: Seq<u8>)
    ensures
        spec_cycles_for_msg(msg, pk_hash).len() == L,
        forall|i: int| 0 <= i < L ==> #[trigger] spec_cycles_for_msg(msg, pk_hash)[i] < W,
{
    let msg_hash = sha256_of(msg);
    let hash_bytes = sha256_of(pk_hash + msg_hash).take(M as int);
    let msg_digits = spec_base_w(hash_bytes, L1 as nat);
    let csum = digit_checksum(msg_digits) * 16;
    let csum_bytes = seq![((csum / 256) % 256) as u8, (csum % 256) as u8];
    lemma_base_w_bound(hash_bytes, L1 as nat);
    lemma_base_w_bound(csum_bytes, L2 as nat);
    assert forall|i: int| 0 <= i < L implies #[trigger] spec_cycles_for_msg(msg, pk_hash)[i]
        < W by {
        if i < L1 {
            assert(spec_cycles_for_msg(msg, pk_hash)[i] == msg_digits[i]);
        } else {
            assert(spec_cycles_for_msg(msg, pk_hash)[i] == spec_base_w(csum_bytes, L2 as nat)[i
                - L1]);
        }
    }
}

/// Calculates the number of hash cycles applied to each base-W symbol for
/// the given message, bound to the given public key hash.
pub fn cycles_for_msg(msg: &Vec<u8>, pk_hash: &Vec<u8>) -> (r: Vec<u8>)
    ensures
        r@ == spec_cycles_for_msg(msg@, pk_hash@),
        r@.len() == L,
        forall|i: int| 0 <= i < L ==> r@[i] < W,
{
    let msg_hash = hashes::sha256(msg);
    let mut bound = copy_bytes(pk_hash);
    append_bytes(&mut bound, &msg_hash);
    let digest = hashes::sha256(&bound);
    let hash_bytes = take_bytes(&digest, M);

    let mut cycles = base_w(&hash_bytes, L1);

    // Sum of W-1-d over the message digits.
    let mut csum: u32 = 0;
    let mut i: usize = 0;
    while i < L1
        invariant
            i <= L1,
            cycles@.len() == L1,
            forall|j: int| 0 <= j < L1 ==> cycles@[j] < W,
            csum == digit_checksum(cycles@.take(i as int)),
            csum <= i * 15,
        decreases L1 - i,
    {
        let ghost prefix = cycles@.take(i as int);
        proof {
            assert(cycles@.take(i + 1).drop_last() =~= prefix);
            assert(cycles@.take(i + 1).last() == cycles@[i as int]);
            lemma_digit_checksum_bound(prefix);
        }
        csum = csum + (W as u32 - 1 - cycles[i] as u32);
        i = i + 1;
    }
    proof {
        assert(cycles@.take(L1 as int) =~= cycles@);
    }

    // Align the significant checksum bits to a byte boundary before the
    // big-endian extraction: a left shift by 8 - (L2*LOG2_W mod 8) = 4 bits.
    csum = csum * 16;
    let mut csum_bytes: Vec<u8> = Vec::new();
    csum_bytes.push(((csum / 256) % 256) as u8);
    csum_bytes.push((csum % 256) as u8);
    proof {
        assert(csum_bytes@ =~= seq![
            (((digit_checksum(spec_base_w(sha256_of(pk_hash@ + sha256_of(msg@)).take(M as int), L1 as nat)) * 16) / 256) % 256) as u8,
            ((digit_checksum(spec_base_w(sha256_of(pk_hash@ + sha256_of(msg@)).take(M as int), L1 as nat)) * 16) % 256) as u8,
        ]);
    }

    let check_digits = base_w(&csum_bytes, L2);
    append_bytes(&mut cycles, &check_digits);
    proof {
        lemma_cycles_bound(msg@, pk_hash@);
    }
    cycles
}

/// WOTS+ keypair.
#[derive(Debug, Clone)]
pub struct Wots {
    pub pk_hash: Vec<u8>,
    pub pk_seed: Vec<u8>,
    pub sk_seed: Vec<u8>,
}

/// WOTS+ signature.
#[derive(Debug, Clone)]
pub struct WotsSignature {
    pub pk_hash: Vec<u8>,
    pub pk_seed: Vec<u8>,
    pub signature: Vec<Vec<u8>>,
}

/// The public seed derived from a secret seed.
pub open spec fn spec_wots_pk_seed(sk: Seq<u8>) -> Seq<u8> {
    spec_prf(sk, L as u32)
}

/// The end of chain number i: W-1 cycles from its secret head.
pub open spec fn chain_end(sk: Seq<u8>, pk_seed: Seq<u8>, i: nat) -> Seq<u8> {
    spec_chain(spec_prf(sk, i as u32), (W - 1) as nat, i, 0, pk_seed)
}

/// The chain ends of the first `count` chains.
pub open spec fn chain_ends(sk: Seq<u8>, pk_seed: Seq<u8>, count: nat) -> Seq<Seq<u8>> {
    Seq::new(count, |i: int| chain_end(sk, pk_seed, i as nat))
}

/// The public key hash of the keypair with secret seed `sk`.
pub open spec fn spec_wots_pk_hash(sk: Seq<u8>) -> Seq<u8> {
    let ps = spec_wots_pk_seed(sk);
    sha256_of(ps + concat_seqs(chain_ends(sk, ps, L as nat))).take(N as int)
}

/// The signature blocks for `msg` under secret seed `sk`, where the cycle
/// vector is derived by binding `msg` to `pk_hash`.
pub open spec fn spec_wots_sign(sk: Seq<u8>, pk_hash: Seq<u8>, msg: Seq<u8>) -> Seq<Seq<u8>> {
    let ps = spec_wots_pk_seed(sk);
    let cycles = spec_cycles_for_msg(msg, pk_hash);
    Seq::new(
        L as nat,
        |i: int| spec_chain(spec_prf(sk, i as u32), cycles[i] as nat, i as nat, 0, ps),
    )
}

/// The chain ends recomputed from signature blocks during verification.
pub open spec fn verify_ends(sig: Seq<Seq<u8>>, cycles: Seq<u8>, pk_seed: Seq<u8>) -> Seq<
    Seq<u8>,
> {
    Seq::new(
        sig.len() as nat,
        |i: int| spec_chain(sig[i], (W - 1 - cycles[i]) as nat, i as nat, cycles[i] as nat, pk_seed),
    )
}

/// A signature verifies exactly when it has L blocks and the recomputed
/// public key hash equals the stored one.
pub open spec fn spec_wots_verify(
    pk_hash: Seq<u8>,
    pk_seed: Seq<u8>,
    sig: Seq<Seq<u8>>,
    msg: Seq<u8>,
) -> bool {
    let cycles = spec_cycles_for_msg(msg, pk_hash);
    sig.len() == L && sha256_of(pk_seed + concat_seqs(verify_ends(sig, cycles, pk_seed))).take(
        N as int,
    ) == pk_hash
}

impl Wots {
    /// A well-formed keypair: the public parts are the ones derived from
    /// the secret seed.
    pub open spec fn wf(self) -> bool {
        &&& self.sk_seed@.len() == N
        &&& self.pk_seed@ == spec_wots_pk_seed(self.sk_seed@)
        &&& self.pk_hash@ == spec_wots_pk_hash(self.sk_seed@)
        &&& self.pk_hash@.len() == N
        &&& self.pk_seed@.len() == N
    }

    /// Generates a new WOTS+ keypair from fresh system randomness.
    pub fn new() -> (w: Wots)
        ensures
            w.wf(),
    {
        let seed = crate::entropy::thread_rng_bytes(N);
        Self::from_seed(seed)
    }

    /// Creates a WOTS+ keypair from the given seed.  The seed needs to
    /// come from a high-entropy cryptographically secure source.
    pub fn from_seed(sk_seed: Vec<u8>) -> (w: Wots)
        requires
            sk_seed@.len() == N,
        ensures
            w.wf(),
            w.sk_seed@ == sk_seed@,
    {
        let pk_seed = prf(&sk_seed, L as u32);
        let mut buf = copy_bytes(&pk_seed);

        let mut i: usize = 0;
        while i < L
            invariant
                i <= L,
                sk_seed@.len() == N,
                pk_seed@ == spec_wots_pk_seed(sk_seed@),
                pk_seed@.len() == N,
                buf@ == pk_seed@ + concat_seqs(chain_ends(sk_seed@, pk_seed@, i as nat)),
            decreases L - i,
        {
            let secret = prf(&sk_seed, i as u32);
            let public = chain(&secret, W - 1, i, 0, &pk_seed);
            proof {
                assert(chain_ends(sk_seed@, pk_seed@, (i + 1) as nat).drop_last() =~= chain_ends(
                    sk_seed@,
                    pk_seed@,
                    i as nat,
                ));
                assert(chain_ends(sk_seed@, pk_seed@, (i + 1) as nat).last() == public@);
                lemma_concat_push(chain_ends(sk_seed@, pk_seed@, i as nat), public@);
                assert(chain_ends(sk_seed@, pk_seed@, i as nat).push(public@) =~= chain_ends(
                    sk_seed@,
                    pk_seed@,
                    (i + 1) as nat,
                ));
            }
            append_bytes(&mut buf, &public);
            i = i + 1;
        }

        let digest = hashes::sha256(&buf);
        let pk_hash = take_bytes(&digest, N);
        Wots { pk_hash, pk_seed, sk_seed }
    }

    /// Hashes and then signs an input byte string of arbitrary length.
    pub fn sign(&self, msg: &Vec<u8>) -> (sig: WotsSignature)
        requires
            self.wf(),
        ensures
            sig.pk_hash@ == self.pk_hash@,
            sig.pk_seed@ == self.pk_seed@,
            views_of(sig.signature@) == spec_wots_sign(self.sk_seed@, self.pk_hash@, msg@),
            sig.wf(),
    {
        let ghost blocks = spec_wots_sign(self.sk_seed@, self.pk_hash@, msg@);
        let cycles = cycles_for_msg(msg, &self.pk_hash);

        let mut signature: Vec<Vec<u8>> = Vec::new();
        let mut i: usize = 0;
        while i < L
            invariant
                i <= L,
                self.wf(),
                blocks == spec_wots_sign(self.sk_seed@, self.pk_hash@, msg@),
                cycles@ == spec_cycles_for_msg(msg@, self.pk_hash@),
                cycles@.len() == L,
                forall|j: int| 0 <= j < L ==> cycles@[j] < W,
                signature@.len() == i,
                forall|j: int| 0 <= j < i ==> (#[trigger] signature@[j])@ == blocks[j],
                forall|j: int| 0 <= j < i ==> (#[trigger] signature@[j])@.len() == N,
            decreases L - i,
        {
            let c = cycles[i] as usize;
            let secret = prf(&self.sk_seed, i as u32);
            let block = chain(&secret, c, i, 0, &self.pk_seed);
            signature.push(block);
            i = i + 1;
        }
        proof {
            assert(views_of(signature@) =~= blocks);
        }
        WotsSignature {
            pk_hash: copy_bytes(&self.pk_hash),
            pk_seed: copy_bytes(&self.pk_seed),
            signature,
        }
    }
}

impl WotsSignature {
    /// Structurally well-formed: all blocks are N bytes wide.
    pub open spec fn wf(self) -> bool {
        &&& self.pk_hash@.len() == N
        &&& self.pk_seed@.len() == N
        &&& forall|i: int|
            0 <= i < self.signature@.len() ==> (#[trigger] self.signature@[i])@.len() == N
    }

    /// Verifies the signature against the public key; total, never panics.
    pub fn verify(&self, msg: &Vec<u8>) -> (r: bool)
        requires
            self.wf(),
        ensures
            r == spec_wots_verify(self.pk_hash@, self.pk_seed@, views_of(self.signature@), msg@),
    {
        if self.signature.len() != L {
            return false;
        }
        let cycles = cycles_for_msg(msg, &self.pk_hash);

        let ghost sigv = views_of(self.signature@);
        let ghost ends = verify_ends(sigv, cycles@, self.pk_seed@);
        let mut buf = copy_bytes(&self.pk_seed);
        let mut i: usize = 0;
        while i < L
            invariant
                i <= L,
                self.wf(),
                self.signature@.len() == L,
                sigv == views_of(self.signature@),
                cycles@ == spec_cycles_for_msg(msg@, self.pk_hash@),
                cycles@.len() == L,
                forall|j: int| 0 <= j < L ==> cycles@[j] < W,
                ends == verify_ends(sigv, cycles@, self.pk_seed@),
                buf@ == self.pk_seed@ + concat_seqs(ends.take(i as int)),
            decreases L - i,
        {
            let c = cycles[i] as usize;
            let sig_block = &self.signature[i];
            let end = chain(sig_block, W - 1 - c, i, c, &self.pk_seed);
            proof {
                assert(ends.take(i + 1).drop_last() =~= ends.take(i as int));
                assert(ends.take(i + 1).last() == end@);
                lemma_concat_push(ends.take(i as int), end@);
                assert(ends.take(i as int).push(end@) =~= ends.take(i + 1));
            }
            append_bytes(&mut buf, &end);
            i = i + 1;
        }
        proof {
            assert(ends.take(L as int) =~= ends);
        }
        let digest = hashes::sha256(&buf);
        let candidate = take_bytes(&digest, N);
        hashes::ct_eq_bytes(&candidate, &self.pk_hash)
    }
}

/// Signs a single message without a full keypair: the chain secrets and
/// the public seed are re-derived on the fly from `sk_seed`, while the
/// cycle vector is bound to the given `pk_hash`.
pub fn sign_once(msg: &Vec<u8>, sk_seed: &Vec<u8>, pk_hash: &Vec<u8>) -> (sig: WotsSignature)
    requires
        sk_seed@.len() == N,
        pk_hash@.len() == N,
    ensures
        sig.pk_hash@ == pk_hash@,
        sig.pk_seed@ == spec_wots_pk_seed(sk_seed@),
        views_of(sig.signature@) == spec_wots_sign(sk_seed@, pk_hash@, msg@),
        sig.wf(),
{
    let ghost blocks = spec_wots_sign(sk_seed@, pk_hash@, msg@);
    let pk_seed = prf(sk_seed, L as u32);
    let cycles = cycles_for_msg(msg, pk_hash);

    let mut signature: Vec<Vec<u8>> = Vec::new();
    let mut i: usize = 0;
    while i < L
        invariant
            i <= L,
            sk_seed@.len() == N,
            pk_hash@.len() == N,
            pk_seed@ == spec_wots_pk_seed(sk_seed@),
            pk_seed@.len() == N,
            blocks == spec_wots_sign(sk_seed@, pk_hash@, msg@),
            cycles@ == spec_cycles_for_msg(msg@, pk_hash@),
            cycles@.len() == L,
            forall|j: int| 0 <= j < L ==> cycles@[j] < W,
            signature@.len() == i,
            forall|j: int| 0 <= j < i ==> (#[trigger] signature@[j])@ == blocks[j],
            forall|j: int| 0 <= j < i ==> (#[trigger] signature@[j])@.len() == N,
        decreases L - i,
    {
        let c = cycles[i] as usize;
        let secret = prf(sk_seed, i as u32);
        let block = chain(&secret, c, i, 0, &pk_seed);
        signature.push(block);
        i = i + 1;
    }
    proof {
        assert(views_of(signature@) =~= blocks);
    }
    WotsSignature { pk_hash: copy_bytes(pk_hash), pk_seed, signature }
}

/// Signing under a well-formed keypair always yields a signature that
/// verifies for the same message: for every secret seed and message, the
/// recomputed chain ends reach the stored chain ends, so the recomputed
/// public key hash equals the stored one.
pub proof fn lemma_sign_verifies(sk: Seq<u8>, msg: Seq<u8>)
    ensures
        spec_wots_verify(
            spec_wots_pk_hash(sk),
            spec_wots_pk_seed(sk),
            spec_wots_sign(sk, spec_wots_pk_hash(sk), msg),
            msg,
        ),
{
    let ps = spec_wots_pk_seed(sk);
    let pk = spec_wots_pk_hash(sk);
    let sig = spec_wots_sign(sk, pk, msg);
    let cycles = spec_cycles_for_msg(msg, pk);
    lemma_cycles_bound(msg, pk);
    assert forall|i: int| 0 <= i < L implies verify_ends(sig, cycles, ps)[i] == chain_end(
        sk,
        ps,
        i as nat,
    ) by {
        lemma_chain_composition(
            spec_prf(sk, i as u32),
            cycles[i] as nat,
            (W - 1 - cycles[i]) as nat,
            i as nat,
            0,
            ps,
        );
    }
    assert(verify_ends(sig, cycles, ps) =~= chain_ends(sk, ps, L as nat));
}

} // verus!

