//! Merkle-tree signature scheme over WOTS+ one-time keys (MSS-WOTS).
//!
//! The tree is *updatable*: beside the active tree (root `pk`, counter
//! `ctr`) the keypair maintains a sliding next tree (root `pk_next`,
//! counter `ctr_next`) that moves one leaf forward with every signature.
//! After the verifier acknowledges counter `ctr_next`, `reconciliate`
//! promotes the next tree to be the active one.
//!
//! The well-formedness predicate `wf` ties every stored root and cache to
//! the mathematical tree over the leaf window of the respective counter;
//! `lemma_merkle_sign_verifies` proves that, in fully cached mode, every
//! signature the keypair produces verifies against its public key.

use crate::hashes;
use crate::hashes::sha256_of;
use crate::util::{
    append_bytes, be32, copy_byte_vecs, copy_bytes, pow2, pow2_usize, slice_byte_vecs, take_bytes,
    u32_be_bytes, views_of, zero_bytes,
};
use crate::wots;
use crate::wots::{spec_wots_pk_hash, spec_wots_pk_seed, spec_wots_sign, spec_wots_verify};
use vstd::arithmetic::div_mod::{lemma_div_denominator, lemma_multiply_divide_lt};
use vstd::arithmetic::mul::lemma_mul_inequality;
use vstd::prelude::*;

verus! {

/// Security parameter, hash output size in bytes.
pub const N: usize = 16;

/// Two N-byte blocks hashed into one.
pub open spec fn spec_hash2(a: Seq<u8>, b: Seq<u8>) -> Seq<u8> {
    sha256_of(a + b).take(N as int)
}

/// Hashes two N-byte blocks into one.
pub fn hash2(in1: &Vec<u8>, in2: &Vec<u8>) -> (r: Vec<u8>)
    ensures
        r@ == spec_hash2(in1@, in2@),
        r@.len() == N,
{
    let mut buf = copy_bytes(in1);
    append_bytes(&mut buf, in2);
    let digest = hashes::sha256(&buf);
    take_bytes(&digest, N)
}

/// The N-byte leaf-index block: the index's four big-endian bytes, then zeros.
pub open spec fn index_block(index: u32) -> Seq<u8> {
    be32(index) + Seq::new((N - 4) as nat, |i: int| 0u8)
}

/// The WOTS+ seed of leaf `index`.
pub open spec fn spec_leaf_seed(sk: Seq<u8>, index: u32) -> Seq<u8> {
    spec_hash2(sk, index_block(index))
}

/// The value of leaf `index`: the WOTS+ public key hash of its seed.
pub open spec fn spec_leaf(sk: Seq<u8>, index: u32) -> Seq<u8> {
    spec_wots_pk_hash(spec_leaf_seed(sk, index))
}

/// The `count` consecutive leaves starting at absolute index `start`.
pub open spec fn window(sk: Seq<u8>, start: u32, count: nat) -> Seq<Seq<u8>> {
    Seq::new(count, |i: int| spec_leaf(sk, (start + i) as u32))
}

/// One pairwise-hash layer of a tree.
pub open spec fn pair_layer(l: Seq<Seq<u8>>) -> Seq<Seq<u8>> {
    Seq::new((l.len() / 2) as nat, |i: int| spec_hash2(l[2 * i], l[2 * i + 1]))
}

/// The root of the tree over `l`, by repeated pairwise hashing.
pub open spec fn merkle_root(l: Seq<Seq<u8>>) -> Seq<u8>
    decreases l.len(),
{
    if l.len() <= 1 {
        if l.len() == 1 {
            l[0]
        } else {
            Seq::empty()
        }
    } else {
        merkle_root(pair_layer(l))
    }
}

/// The snapshot taken while folding `l` to its root: the first layer of
/// exactly `csize` nodes, if one of size at least 2 occurs; else empty.
pub open spec fn spec_cache_of(l: Seq<Seq<u8>>, csize: nat) -> Seq<Seq<u8>>
    decreases l.len(),
{
    if l.len() <= 1 {
        Seq::empty()
    } else if l.len() == csize {
        l
    } else {
        spec_cache_of(pair_layer(l), csize)
    }
}

/// A layer of exactly the cached size is its own snapshot.
pub proof fn lemma_cache_full(l: Seq<Seq<u8>>)
    requires
        l.len() >= 2,
    ensures
        spec_cache_of(l, l.len()) == l,
{
}

/// Derives the WOTS+ public key hash of leaf `index` from the secret seed.
pub fn calculate_leaf(seed: &Vec<u8>, index: u32) -> (r: Vec<u8>)
    requires
        seed@.len() == N,
    ensures
        r@ == spec_leaf(seed@, index),
        r@.len() == N,
{
    let mut index_bytes = u32_be_bytes(index);
    let zeros = zero_bytes(N - 4);
    append_bytes(&mut index_bytes, &zeros);
    proof {
        assert(zeros@ =~= Seq::new((N - 4) as nat, |i: int| 0u8));
    }
    let secret = hash2(seed, &index_bytes);
    let w = wots::Wots::from_seed(secret);
    w.pk_hash
}

/// Calculates the root of a (sub-)tree, snapshotting the layer with
/// 2^caching nodes on the way; the number of leaves must be a power of two.
pub fn calculate_root_and_cache(leaves: Vec<Vec<u8>>, caching: usize) -> (r: (
    Vec<u8>,
    Vec<Vec<u8>>,
))
    requires
        exists|k: nat| k < 32 && leaves@.len() == pow2(k),
        caching < 32,
        forall|j: int| 0 <= j < leaves@.len() ==> (#[trigger] leaves@[j])@.len() == N,
    ensures
        r.0@ == merkle_root(views_of(leaves@)),
        views_of(r.1@) == spec_cache_of(views_of(leaves@), pow2(caching as nat)),
        r.0@.len() == N,
        forall|j: int| 0 <= j < r.1@.len() ==> (#[trigger] r.1@[j])@.len() == N,
{
    let ghost orig = views_of(leaves@);
    proof {
        let k0 = choose|k: nat| k < 32 && leaves@.len() == pow2(k);
        crate::util::lemma_pow2_monotonic(k0, 31);
        crate::util::lemma_pow2_31();
    }
    let csize = pow2_usize(caching);
    let mut tmp = leaves;
    let mut cache: Vec<Vec<u8>> = Vec::new();
    let ghost mut found = false;

    while tmp.len() > 1
        invariant
            exists|k: nat| k < 32 && tmp@.len() == pow2(k),
            tmp@.len() <= 0x8000_0000,
            csize == pow2(caching as nat),
            merkle_root(views_of(tmp@)) == merkle_root(orig),
            spec_cache_of(orig, csize as nat) == if found {
                views_of(cache@)
            } else {
                spec_cache_of(views_of(tmp@), csize as nat)
            },
            found ==> tmp@.len() < csize,
            !found ==> cache@.len() == 0,
            forall|t: int| 0 <= t < tmp@.len() ==> (#[trigger] tmp@[t])@.len() == N,
            forall|t: int| 0 <= t < cache@.len() ==> (#[trigger] cache@[t])@.len() == N,
        decreases tmp@.len(),
    {
        let ghost k = choose|k: nat| k < 32 && tmp@.len() == pow2(k);
        let ghost entry = views_of(tmp@);
        proof {
            if k == 0 {
                assert(pow2(0) == 1);
                assert(false);
            }
            assert(pow2(k) == 2 * pow2((k - 1) as nat));
        }
        if tmp.len() == csize {
            cache = copy_byte_vecs(&tmp);
            proof {
                found = true;
                assert(spec_cache_of(entry, csize as nat) == entry);
                assert forall|t: int| 0 <= t < cache@.len() implies (#[trigger] cache@[t])@.len()
                    == N by {
                    assert(cache@[t]@ == views_of(cache@)[t]);
                    assert(views_of(tmp@)[t] == tmp@[t]@);
                }
            }
        }
        let half = tmp.len() / 2;
        let mut next: Vec<Vec<u8>> = Vec::new();
        let mut j: usize = 0;
        while j < half
            invariant
                half == tmp@.len() / 2,
                tmp@.len() == 2 * half,
                tmp@.len() <= 0x8000_0000,
                j <= half,
                next@.len() == j,
                forall|t: int|
                    0 <= t < j ==> (#[trigger] next@[t])@ == spec_hash2(
                        views_of(tmp@)[2 * t],
                        views_of(tmp@)[2 * t + 1],
                    ),
                forall|t: int| 0 <= t < j ==> (#[trigger] next@[t])@.len() == N,
            decreases half - j,
        {
            next.push(hash2(&tmp[2 * j], &tmp[2 * j + 1]));
            j = j + 1;
        }
        proof {
            assert(views_of(next@) =~= pair_layer(entry));
            assert(views_of(next@).len() == pow2((k - 1) as nat));
            if !found {
                assert(entry.len() != csize && entry.len() > 1);
                assert(spec_cache_of(entry, csize as nat) == spec_cache_of(
                    pair_layer(entry),
                    csize as nat,
                ));
            }
            assert(merkle_root(entry) == merkle_root(pair_layer(entry)));
        }
        tmp = next;
    }
    proof {
        let k = choose|k: nat| k < 32 && tmp@.len() == pow2(k);
        crate::util::lemma_pow2_pos(k);
        assert(tmp@.len() == 1);
        if !found {
            assert(spec_cache_of(views_of(tmp@), csize as nat) == Seq::<Seq<u8>>::empty());
            assert(views_of(cache@) =~= Seq::<Seq<u8>>::empty());
        }
        assert(views_of(tmp@)[0] == tmp@[0]@);
        assert(merkle_root(views_of(tmp@)) == views_of(tmp@)[0]);
    }
    let root = copy_bytes(&tmp[0]);
    (root, cache)
}

/// Generates the 2^h leaves of the window starting at `start`.
fn gen_window_leaves(sk: &Vec<u8>, start: u32, h: usize) -> (r: Vec<Vec<u8>>)
    requires
        sk@.len() == N,
        1 <= h < 32,
        start + pow2(h as nat) - 1 <= u32::MAX,
    ensures
        views_of(r@) == window(sk@, start, pow2(h as nat)),
        r@.len() == pow2(h as nat),
        forall|j: int| 0 <= j < r@.len() ==> (#[trigger] r@[j])@.len() == N,
{
    let ghost win = window(sk@, start, pow2(h as nat));
    let n = pow2_usize(h);
    let mut leaves: Vec<Vec<u8>> = Vec::new();
    let mut i: usize = 0;
    while i < n
        invariant
            i <= n,
            n == pow2(h as nat),
            n <= 0x8000_0000,
            sk@.len() == N,
            start + n - 1 <= u32::MAX,
            win == window(sk@, start, pow2(h as nat)),
            leaves@.len() == i,
            forall|j: int| 0 <= j < i ==> (#[trigger] leaves@[j])@ == win[j],
            forall|j: int| 0 <= j < i ==> (#[trigger] leaves@[j])@.len() == N,
        decreases n - i,
    {
        leaves.push(calculate_leaf(sk, start + i as u32));
        i = i + 1;
    }
    proof {
        assert(views_of(leaves@) =~= win);
    }
    leaves
}

/// MSS-WOTS+ keypair with a sliding next tree.
#[derive(Debug)]
pub struct UpdatableMerkleKeypair {
    /// Tree height (without the root layer): the tree spans 2^height
    /// one-time keys.
    pub height: usize,
    /// Cached layer: the layer with 2^caching nodes is kept in memory.
    pub caching: usize,
    pub pk: Vec<u8>,
    pub pk_next: Vec<u8>,
    pub sk_seed: Vec<u8>,
    pub ctr: u32,
    pub ctr_next: u32,
    pub cache: Vec<Vec<u8>>,
    pub cache_next: Vec<Vec<u8>>,
    /// Server-side caching mode: the cached leaves act as the public key
    /// and authentication paths are omitted.
    pub server_side_caching: bool,
}

/// MSS-WOTS+ signature.
#[derive(Debug)]
pub struct MerkleSignature {
    /// Position of the one-time key inside the current tree.
    pub index: u32,
    pub wots_sig: wots::WotsSignature,
    pub auth_path: Vec<Vec<u8>>,
}

impl UpdatableMerkleKeypair {
    /// Structural bounds and the tie between every stored root or cache
    /// and the leaf window of its counter.
    pub open spec fn wf(self) -> bool {
        &&& self.sk_seed@.len() == N
        &&& 1 <= self.height < 32
        &&& self.caching <= self.height
        &&& self.ctr <= self.ctr_next <= self.ctr + pow2(self.height as nat)
        &&& self.pk@ == merkle_root(window(self.sk_seed@, self.ctr, pow2(self.height as nat)))
        &&& self.pk_next@ == merkle_root(
            window(self.sk_seed@, self.ctr_next, pow2(self.height as nat)),
        )
        &&& views_of(self.cache@) == spec_cache_of(
            window(self.sk_seed@, self.ctr, pow2(self.height as nat)),
            pow2(self.caching as nat),
        )
        &&& views_of(self.cache_next@) == spec_cache_of(
            window(self.sk_seed@, self.ctr_next, pow2(self.height as nat)),
            pow2(self.caching as nat),
        )
        &&& self.pk@.len() == N
        &&& self.pk_next@.len() == N
        &&& forall|j: int| 0 <= j < self.cache@.len() ==> (#[trigger] self.cache@[j])@.len() == N
        &&& forall|j: int|
            0 <= j < self.cache_next@.len() ==> (#[trigger] self.cache_next@[j])@.len() == N
    }

    /// Generates a new keypair from fresh system randomness.
    /// Calculates all 2^h one-time keypairs and every inner node.
    pub fn new(h: usize, c: usize, ssc: bool) -> (kp: Self)
        requires
            c <= h,
            1 <= h < 32,
        ensures
            kp.wf(),
            kp.height == h,
            kp.caching == c,
            kp.server_side_caching == ssc,
            kp.ctr == 0,
            kp.ctr_next == 0,
    {
        let seed = crate::entropy::getrandom_bytes(N);
        Self::from_sk(seed, h, c, ssc)
    }

    /// Builds the keypair deterministically from the given secret seed.
    pub fn from_sk(seed: Vec<u8>, h: usize, c: usize, ssc: bool) -> (kp: Self)
        requires
            seed@.len() == N,
            c <= h,
            1 <= h < 32,
        ensures
            kp.wf(),
            kp.height == h,
            kp.caching == c,
            kp.server_side_caching == ssc,
            kp.ctr == 0,
            kp.ctr_next == 0,
            kp.sk_seed@ == seed@,
    {
        let n = pow2_usize(h);
        let mut leaves: Vec<Vec<u8>> = Vec::new();
        let mut i: usize = 0;
        while i < n
            invariant
                i <= n,
                n == pow2(h as nat),
                h < 32,
                seed@.len() == N,
                n <= 0x8000_0000,
                leaves@.len() == i,
                forall|j: int|
                    0 <= j < i ==> (#[trigger] leaves@[j])@ == spec_leaf(seed@, j as u32),
                forall|j: int| 0 <= j < i ==> (#[trigger] leaves@[j])@.len() == N,
            decreases n - i,
        {
            leaves.push(calculate_leaf(&seed, i as u32));
            i = i + 1;
        }
        proof {
            assert(views_of(leaves@) =~= window(seed@, 0, pow2(h as nat)));
        }
        let ghost win = views_of(leaves@);

        let (root, cache) = calculate_root_and_cache(leaves, c);

        let pk = copy_bytes(&root);
        let pk_next = root;
        let cache_next = copy_byte_vecs(&cache);
        proof {
            assert forall|j: int| 0 <= j < cache_next@.len() implies (#[trigger] cache_next@[j])@.len() == N by {
                assert(cache_next@[j]@ == views_of(cache_next@)[j]);
                assert(views_of(cache@)[j] == cache@[j]@);
            }
        }
        UpdatableMerkleKeypair {
            height: h,
            caching: c,
            pk,
            pk_next,
            sk_seed: seed,
            ctr: 0,
            ctr_next: 0,
            cache,
            cache_next,
            server_side_caching: ssc,
        }
    }

    /// Slides the next tree one leaf forward so that `pk_next` and
    /// `cache_next` again match the window starting at `ctr_next`.
    /// In fully cached mode this pops the head leaf and appends the new
    /// tail leaf; otherwise it regenerates the whole window.
    #[verifier::rlimit(100)]
    pub fn update(&mut self)
        requires
            old(self).sk_seed@.len() == N,
            1 <= old(self).height < 32,
            old(self).caching <= old(self).height,
            old(self).ctr_next + pow2(old(self).height as nat) - 1 <= u32::MAX,
            old(self).caching == old(self).height ==> {
                &&& old(self).ctr_next >= 1
                &&& views_of(old(self).cache_next@) == window(
                    old(self).sk_seed@,
                    (old(self).ctr_next - 1) as u32,
                    pow2(old(self).height as nat),
                )
                &&& forall|j: int|
                    0 <= j < old(self).cache_next@.len() ==> (#[trigger] old(self).cache_next@[j])@.len() == N
            },
        ensures
            final(self).height == old(self).height,
            final(self).caching == old(self).caching,
            final(self).server_side_caching == old(self).server_side_caching,
            final(self).sk_seed@ == old(self).sk_seed@,
            final(self).ctr == old(self).ctr,
            final(self).ctr_next == old(self).ctr_next,
            final(self).pk@ == old(self).pk@,
            views_of(final(self).cache@) == views_of(old(self).cache@),
            final(self).pk_next@ == merkle_root(
                window(old(self).sk_seed@, old(self).ctr_next, pow2(old(self).height as nat)),
            ),
            views_of(final(self).cache_next@) == spec_cache_of(
                window(old(self).sk_seed@, old(self).ctr_next, pow2(old(self).height as nat)),
                pow2(old(self).caching as nat),
            ),
            final(self).pk_next@.len() == N,
            forall|j: int|
                0 <= j < final(self).cache_next@.len() ==> (#[trigger] final(self).cache_next@[j])@.len() == N,
    {
        let ghost win = window(self.sk_seed@, self.ctr_next, pow2(self.height as nat));
        let n = pow2_usize(self.height);
        proof {
            crate::util::lemma_pow2_monotonic(self.height as nat, 31);
            crate::util::lemma_pow2_31();
        }

        if self.caching == self.height {
            // Shift the cached window: drop the head, append the new tail.
            proof {
                crate::util::lemma_pow2_pos(self.height as nat);
                assert(n <= 0x8000_0000);
                assert(views_of(self.cache_next@).len() == n);
            }
            let index: u32 = self.ctr_next + (n as u32 - 1);
            let pkh = calculate_leaf(&self.sk_seed, index);
            let ghost base = views_of(self.cache_next@);
            let mut shifted = slice_byte_vecs(&self.cache_next, 1, self.cache_next.len());
            let ghost pre = shifted@;
            shifted.push(pkh);
            proof {
                let prior = window(
                    self.sk_seed@,
                    (self.ctr_next - 1) as u32,
                    pow2(self.height as nat),
                );
                assert forall|j: int| 0 <= j < win.len() implies views_of(shifted@)[j]
                    == win[j] by {
                    assert(views_of(shifted@)[j] == shifted@[j]@);
                    if j < win.len() - 1 {
                        assert(shifted@[j] == pre[j]);
                        assert(pre[j]@ == views_of(pre)[j]);
                        assert(views_of(pre)[j] == base.subrange(1, n as int)[j]);
                        assert(base.subrange(1, n as int)[j] == base[j + 1]);
                        assert(base[j + 1] == prior[j + 1]);
                        assert(prior[j + 1] == spec_leaf(
                            self.sk_seed@,
                            ((self.ctr_next - 1) + (j + 1)) as u32,
                        ));
                        assert(win[j] == spec_leaf(self.sk_seed@, (self.ctr_next + j) as u32));
                    } else {
                        assert(shifted@[j] == pkh);
                        assert(win[j] == spec_leaf(self.sk_seed@, (self.ctr_next + j) as u32));
                    }
                }
                assert(views_of(shifted@) =~= win);
                assert forall|j: int| 0 <= j < shifted@.len() implies (#[trigger] shifted@[j])@.len() == N by {
                    if j < win.len() - 1 {
                        assert(shifted@[j] == pre[j]);
                        assert(pre[j]@ == views_of(pre)[j]);
                        assert(views_of(pre)[j] == base[j + 1]);
                        assert(base[j + 1] == self.cache_next@[j + 1]@);
                    }
                }
            }
            self.cache_next = shifted;
        }

        let leaves = if self.caching == self.height {
            proof {
                assert forall|j: int| 0 <= j < self.cache_next@.len() implies (#[trigger] self.cache_next@[j])@.len() == N by {
                    assert(self.cache_next@[j]@ == views_of(self.cache_next@)[j]);
                }
            }
            copy_byte_vecs(&self.cache_next)
        } else {
            gen_window_leaves(&self.sk_seed, self.ctr_next, self.height)
        };
        proof {
            assert(views_of(leaves@) =~= win);
            assert forall|j: int| 0 <= j < leaves@.len() implies (#[trigger] leaves@[j])@.len() == N by {
                assert(leaves@[j]@ == views_of(leaves@)[j]);
            }
        }

        let (root, cache) = calculate_root_and_cache(leaves, self.caching);
        if self.caching != self.height {
            self.cache_next = cache;
        } else {
            proof {
                lemma_cache_full(win);
            }
        }
        self.pk_next = root;
    }

    /// Promotes the next tree: the acknowledged counter, root and cache
    /// become the active ones.  Signatures issued against the prior `pk`
    /// no longer verify against the new one.
    pub fn reconciliate(&mut self)
        ensures
            final(self).height == old(self).height,
            final(self).caching == old(self).caching,
            final(self).server_side_caching == old(self).server_side_caching,
            final(self).sk_seed@ == old(self).sk_seed@,
            final(self).ctr == old(self).ctr_next,
            final(self).ctr_next == old(self).ctr_next,
            final(self).pk@ == old(self).pk_next@,
            final(self).pk_next@ == old(self).pk_next@,
            views_of(final(self).cache@) == views_of(old(self).cache_next@),
            views_of(final(self).cache_next@) == views_of(old(self).cache_next@),
            old(self).wf() ==> final(self).wf(),
    {
        self.cache = copy_byte_vecs(&self.cache_next);
        self.ctr = self.ctr_next;
        self.pk = copy_bytes(&self.pk_next);
        proof {
            if old(self).wf() {
                assert forall|j: int| 0 <= j < self.cache@.len() implies (#[trigger] self.cache@[j])@.len() == N by {
                    assert(self.cache@[j]@ == views_of(self.cache@)[j]);
                    assert(views_of(old(self).cache_next@)[j] == old(self).cache_next@[j]@);
                }
            }
        }
    }
}


/// The start of the block of 2^i leaves that is the sibling, at layer i,
/// of the block containing relative index `rel`.
pub open spec fn sibling_start(rel: nat, i: nat) -> nat {
    let blk = rel / pow2(i);
    if blk % 2 == 0 {
        (blk + 1) * pow2(i)
    } else {
        ((blk - 1) * pow2(i)) as nat
    }
}

/// The sibling block at layer i lies inside the tree of 2^k leaves.
pub proof fn lemma_sibling_bounds(rel: nat, i: nat, k: nat)
    requires
        i < k,
        rel < pow2(k),
    ensures
        rel / pow2(i) < pow2((k - i) as nat),
        sibling_start(rel, i) + pow2(i) <= pow2(k),
{
    let p = pow2(i);
    let q = pow2((k - i) as nat);
    let m = pow2((k - i - 1) as nat);
    crate::util::lemma_pow2_pos(i);
    crate::util::lemma_pow2_pos((k - i - 1) as nat);
    crate::util::lemma_pow2_adds(i, (k - i) as nat);
    assert(pow2(k) == p * q);
    lemma_multiply_divide_lt(rel as int, p as int, q as int);
    let blk = rel / p;
    assert(q == 2 * m);
    if blk % 2 == 0 {
        assert(blk + 2 <= q) by {
            if blk + 2 > q {
                assert(blk == q - 1);
                assert(blk == 2 * m - 1);
                assert(blk % 2 == 1);
            }
        }
        lemma_mul_inequality((blk + 2) as int, q as int, p as int);
        assert((blk + 1) * p + p == (blk + 2) * p) by (nonlinear_arith);
        assert(q * p == p * q) by (nonlinear_arith);
    } else {
        assert(blk >= 1);
        lemma_mul_inequality(blk as int, q as int - 1, p as int);
        assert((blk - 1) * p + p == blk * p) by (nonlinear_arith);
        assert((q - 1) * p + p == q * p) by (nonlinear_arith);
        assert(q * p == p * q) by (nonlinear_arith);
    }
}

/// The authentication-path node at layer i for relative index `rel`:
/// taken from the cached layer where it reaches that deep, recomputed
/// from the leaf window otherwise; in both cases the value is the root
/// of the sibling block at that layer.
pub open spec fn spec_auth_node(sk: Seq<u8>, ctr: u32, rel: nat, h: nat, c: nat, i: nat) -> Seq<
    u8,
> {
    let win = window(sk, ctr, pow2(h));
    if i >= h - c {
        let i2 = (i - (h - c)) as nat;
        let idx2 = rel / pow2((h - c) as nat);
        let s2 = sibling_start(idx2, i2);
        let cl = spec_cache_of(win, pow2(c));
        merkle_root(cl.subrange(s2 as int, (s2 + pow2(i2)) as int))
    } else {
        let st = sibling_start(rel, i);
        merkle_root(win.subrange(st as int, (st + pow2(i)) as int))
    }
}

pub open spec fn spec_auth_path(sk: Seq<u8>, ctr: u32, rel: nat, h: nat, c: nat) -> Seq<Seq<u8>> {
    Seq::new(h, |i: int| spec_auth_node(sk, ctr, rel, h, c, i as nat))
}

impl UpdatableMerkleKeypair {
    /// Computes the authentication path of the leaf at relative position
    /// `index`: for each layer, the root of the sibling block, read from
    /// the cached layer where possible and recomputed otherwise.
    #[verifier::rlimit(100)]
    pub fn auth_path(&self, index: u32) -> (r: Vec<Vec<u8>>)
        requires
            self.wf(),
            index < pow2(self.height as nat),
            self.ctr + pow2(self.height as nat) <= u32::MAX,
        ensures
            views_of(r@) == spec_auth_path(
                self.sk_seed@,
                self.ctr,
                index as nat,
                self.height as nat,
                self.caching as nat,
            ),
            r@.len() == self.height,
    {
        let ghost win = window(self.sk_seed@, self.ctr, pow2(self.height as nat));
        let mut auth: Vec<Vec<u8>> = Vec::new();
        let h = self.height;
        let c = self.caching;
        proof {
            crate::util::lemma_pow2_monotonic(h as nat, 31);
            crate::util::lemma_pow2_31();
        }
        let mut i: usize = 0;
        while i < h
            invariant
                i <= h,
                self.wf(),
                h == self.height,
                c == self.caching,
                index < pow2(h as nat),
                self.ctr + pow2(h as nat) <= u32::MAX,
                pow2(h as nat) <= 0x8000_0000,
                win == window(self.sk_seed@, self.ctr, pow2(h as nat)),
                auth@.len() == i,
                forall|j: int|
                    0 <= j < i ==> (#[trigger] auth@[j])@ == spec_auth_node(
                        self.sk_seed@,
                        self.ctr,
                        index as nat,
                        h as nat,
                        c as nat,
                        j as nat,
                    ),
            decreases h - i,
        {
            let ghost node_spec = spec_auth_node(
                self.sk_seed@,
                self.ctr,
                index as nat,
                h as nat,
                c as nat,
                i as nat,
            );
            let leaves: Vec<Vec<u8>>;
            let ghost i2g: nat;
            if i >= h - c {
                let i2 = i - (h - c);
                proof {
                    i2g = i2 as nat;
                    lemma_cache_nodes(win, h as nat, c as nat);
                    crate::util::lemma_pow2_monotonic((h - c) as nat, h as nat);
                    crate::util::lemma_pow2_pos((h - c) as nat);
                }
                let p_hc = pow2_usize(h - c);
                let index2: u32 = index / (p_hc as u32);
                proof {
                    crate::util::lemma_pow2_adds((h - c) as nat, c as nat);
                    lemma_multiply_divide_lt(
                        index as int,
                        pow2((h - c) as nat) as int,
                        pow2(c as nat) as int,
                    );
                    assert(index2 as nat == (index as nat) / pow2((h - c) as nat));
                    assert(index2 < pow2(c as nat));
                    lemma_sibling_bounds(index2 as nat, i2 as nat, c as nat);
                }
                let p_i2 = pow2_usize(i2);
                let blk = (index2 as usize) / p_i2;
                proof {
                    crate::util::lemma_pow2_monotonic(c as nat, 31);
                    crate::util::lemma_pow2_31();
                    assert(blk == (index2 as nat) / pow2(i2 as nat));
                    if blk % 2 == 0 {
                        assert(sibling_start(index2 as nat, i2 as nat) == (blk + 1) * pow2(
                            i2 as nat,
                        ));
                    } else {
                        assert(sibling_start(index2 as nat, i2 as nat) == ((blk - 1) * pow2(
                            i2 as nat,
                        )) as nat);
                    }
                }
                let start = if blk % 2 == 0 {
                    (blk + 1) * p_i2
                } else {
                    (blk - 1) * p_i2
                };
                let end = start + p_i2;
                proof {
                    assert(start == sibling_start(index2 as nat, i2 as nat));
                    assert(views_of(self.cache@).len() == pow2(c as nat));
                }
                leaves = slice_byte_vecs(&self.cache, start, end);
                proof {
                    assert(views_of(leaves@) == spec_cache_of(win, pow2(c as nat)).subrange(
                        start as int,
                        end as int,
                    ));
                }
            } else {
                proof {
                    i2g = i as nat;
                    lemma_sibling_bounds(index as nat, i as nat, h as nat);
                }
                let p_i = pow2_usize(i);
                let blk = (index as usize) / p_i;
                proof {
                    assert(blk == (index as nat) / pow2(i as nat));
                    if blk % 2 == 0 {
                        assert(sibling_start(index as nat, i as nat) == (blk + 1) * pow2(
                            i as nat,
                        ));
                    } else {
                        assert(sibling_start(index as nat, i as nat) == ((blk - 1) * pow2(
                            i as nat,
                        )) as nat);
                    }
                }
                let start = if blk % 2 == 0 {
                    (blk + 1) * p_i
                } else {
                    (blk - 1) * p_i
                };
                proof {
                    assert(start == sibling_start(index as nat, i as nat));
                }
                let mut lv: Vec<Vec<u8>> = Vec::new();
                let mut l: usize = 0;
                while l < p_i
                    invariant
                        l <= p_i,
                        self.wf(),
                        p_i == pow2(i as nat),
                        start + p_i <= pow2(h as nat),
                        self.ctr + pow2(h as nat) <= u32::MAX,
                        win == window(self.sk_seed@, self.ctr, pow2(h as nat)),
                        lv@.len() == l,
                        forall|t: int| 0 <= t < l ==> (#[trigger] lv@[t])@ == win[start + t],
                        forall|t: int| 0 <= t < l ==> (#[trigger] lv@[t])@.len() == N,
                    decreases p_i - l,
                {
                    lv.push(calculate_leaf(&self.sk_seed, self.ctr + (start + l) as u32));
                    l = l + 1;
                }
                proof {
                    assert(views_of(lv@) =~= win.subrange(start as int, (start + p_i) as int));
                }
                leaves = lv;
            }
            proof {
                assert(leaves@.len() == pow2(i2g));
                assert(i2g < 32);
                assert forall|j: int| 0 <= j < leaves@.len() implies (#[trigger] leaves@[j])@.len()
                    == N by {
                    assert(leaves@[j]@ == views_of(leaves@)[j]);
                }
            }
            let (root, _) = calculate_root_and_cache(leaves, c);
            proof {
                assert(root@ == node_spec);
            }
            auth.push(root);
            i = i + 1;
        }
        proof {
            assert(views_of(auth@) =~= spec_auth_path(
                self.sk_seed@,
                self.ctr,
                index as nat,
                h as nat,
                c as nat,
            ));
        }
        auth
    }

    /// Signs an input byte string with the one-time key at `ctr_next`,
    /// assembles index and authentication path, and slides the next tree
    /// forward.  The keypair must not be exhausted.
    #[verifier::rlimit(100)]
    pub fn sign(&mut self, input: &Vec<u8>) -> (sig: MerkleSignature)
        requires
            old(self).wf(),
            old(self).ctr_next - old(self).ctr < pow2(old(self).height as nat),
            old(self).ctr_next + pow2(old(self).height as nat) < u32::MAX,
        ensures
            final(self).wf(),
            final(self).height == old(self).height,
            final(self).caching == old(self).caching,
            final(self).server_side_caching == old(self).server_side_caching,
            final(self).sk_seed@ == old(self).sk_seed@,
            final(self).ctr == old(self).ctr,
            final(self).ctr_next == old(self).ctr_next + 1,
            final(self).pk@ == old(self).pk@,
            views_of(final(self).cache@) == views_of(old(self).cache@),
            sig.index == old(self).ctr_next - old(self).ctr,
            sig.wots_sig.pk_hash@ == spec_leaf(old(self).sk_seed@, old(self).ctr_next),
            sig.wots_sig.pk_seed@ == spec_wots_pk_seed(
                spec_leaf_seed(old(self).sk_seed@, old(self).ctr_next),
            ),
            views_of(sig.wots_sig.signature@) == spec_wots_sign(
                spec_leaf_seed(old(self).sk_seed@, old(self).ctr_next),
                spec_leaf(old(self).sk_seed@, old(self).ctr_next),
                input@,
            ),
            sig.wots_sig.wf(),
            old(self).server_side_caching ==> sig.auth_path@.len() == 0,
            !old(self).server_side_caching ==> views_of(sig.auth_path@) == spec_auth_path(
                old(self).sk_seed@,
                old(self).ctr,
                (old(self).ctr_next - old(self).ctr) as nat,
                old(self).height as nat,
                old(self).caching as nat,
            ),
    {
        let ghost win = window(self.sk_seed@, self.ctr, pow2(self.height as nat));
        let rel = self.ctr_next - self.ctr;
        proof {
            crate::util::lemma_pow2_pos((self.height - 1) as nat);
        }

        // The WOTS+ public key hash of the current leaf: from the cache in
        // fully cached mode, recomputed otherwise.
        let pkh = if self.caching == self.height {
            proof {
                lemma_cache_full(win);
                assert(views_of(self.cache@)[rel as int] == win[rel as int]);
                assert(win[rel as int] == spec_leaf(
                    self.sk_seed@,
                    (self.ctr + rel) as u32,
                ));
            }
            copy_bytes(&self.cache[rel as usize])
        } else {
            calculate_leaf(&self.sk_seed, self.ctr_next)
        };

        // The WOTS+ seed of the current leaf.
        let mut index_bytes = u32_be_bytes(self.ctr_next);
        let zeros = zero_bytes(N - 4);
        append_bytes(&mut index_bytes, &zeros);
        proof {
            assert(zeros@ =~= Seq::new((N - 4) as nat, |i: int| 0u8));
        }
        let seed = hash2(&self.sk_seed, &index_bytes);

        let wots_sig = wots::sign_once(input, &seed, &pkh);

        let auth_path = if self.server_side_caching {
            Vec::new()
        } else {
            self.auth_path(rel)
        };

        let sig = MerkleSignature { index: rel, wots_sig, auth_path };

        self.ctr_next = self.ctr_next + 1;
        let ghost pre_cache = self.cache@;
        proof {
            lemma_cache_full(window(self.sk_seed@, (self.ctr_next - 1) as u32, pow2(self.height as nat)));
            assert(pre_cache == old(self).cache@);
            assert forall|j: int| 0 <= j < self.cache_next@.len() implies (#[trigger] self.cache_next@[j])@.len() == N by {
                assert(self.cache_next@[j]@ == views_of(self.cache_next@)[j]);
            }
        }
        self.update();
        proof {
            assert(views_of(self.cache@) == views_of(pre_cache));
            assert(self.cache@.len() == old(self).cache@.len());
            assert forall|j: int| 0 <= j < self.cache@.len() implies (#[trigger] self.cache@[j])@.len() == N by {
                assert(self.cache@[j]@ == views_of(self.cache@)[j]);
                assert(views_of(pre_cache)[j] == pre_cache[j]@);
                assert(pre_cache[j]@.len() == N);
            }
            assert forall|j: int| 0 <= j < self.cache_next@.len() implies (#[trigger] self.cache_next@[j])@.len() == N by {
                assert(self.cache_next@[j]@ == views_of(self.cache_next@)[j]);
            }
        }
        sig
    }
}

/// Folds a leaf value up the tree along an authentication path: at layer
/// i, hash with the path node on the side given by bit i of the index.
pub open spec fn spec_fold(root: Seq<u8>, auth: Seq<Seq<u8>>, index: nat) -> Seq<u8>
    decreases auth.len(),
{
    if auth.len() == 0 {
        root
    } else {
        let next = if index % 2 == 0 {
            spec_hash2(root, auth[0])
        } else {
            spec_hash2(auth[0], root)
        };
        spec_fold(next, auth.skip(1), index / 2)
    }
}

impl MerkleSignature {
    /// What it means for this signature to be valid for `msg` under the
    /// public key `pk`: the one-time signature verifies, and the leaf's
    /// public key hash folds along the authentication path to `pk`.
    pub open spec fn valid(self, msg: Seq<u8>, pk: Seq<u8>) -> bool {
        &&& spec_wots_verify(
            self.wots_sig.pk_hash@,
            self.wots_sig.pk_seed@,
            views_of(self.wots_sig.signature@),
            msg,
        )
        &&& spec_fold(self.wots_sig.pk_hash@, views_of(self.auth_path@), self.index as nat) == pk
    }

    /// Verifies the signature against the given public key (tree root);
    /// total, never panics.
    pub fn verify(&self, input: &Vec<u8>, pk: &Vec<u8>) -> (r: bool)
        requires
            self.wots_sig.wf(),
        ensures
            r == self.valid(input@, pk@),
    {
        if !self.wots_sig.verify(input) {
            return false;
        }

        let ghost authv = views_of(self.auth_path@);
        let mut root = copy_bytes(&self.wots_sig.pk_hash);
        let mut idx: u32 = self.index;
        let mut i: usize = 0;
        proof {
            assert(authv.skip(0) =~= authv);
        }
        while i < self.auth_path.len()
            invariant
                i <= self.auth_path@.len(),
                authv == views_of(self.auth_path@),
                spec_fold(root@, authv.skip(i as int), idx as nat) == spec_fold(
                    self.wots_sig.pk_hash@,
                    authv,
                    self.index as nat,
                ),
            decreases self.auth_path@.len() - i,
        {
            let ghost pre = root@;
            let node = &self.auth_path[i];
            proof {
                assert(authv.skip(i as int)[0] == node@);
                assert(authv.skip(i as int).skip(1) =~= authv.skip(i + 1));
            }
            if idx % 2 == 0 {
                root = hash2(&root, node);
            } else {
                root = hash2(node, &root);
            }
            idx = idx / 2;
            i = i + 1;
        }
        proof {
            assert(authv.skip(self.auth_path@.len() as int) =~= Seq::<Seq<u8>>::empty());
        }
        hashes::ct_eq_bytes(&root, pk)
    }
}

/// A half-width subrange of a pair layer is the pair layer of the
/// corresponding full-width subrange.
pub proof fn lemma_pair_layer_subrange(l: Seq<Seq<u8>>, a: int, b: int)
    requires
        0 <= a <= b,
        2 * b <= l.len(),
    ensures
        pair_layer(l).subrange(a, b) == pair_layer(l.subrange(2 * a, 2 * b)),
{
    assert forall|t: int| 0 <= t < b - a implies pair_layer(l).subrange(a, b)[t] == pair_layer(
        l.subrange(2 * a, 2 * b),
    )[t] by {
        assert(pair_layer(l).subrange(a, b)[t] == spec_hash2(l[2 * (a + t)], l[2 * (a + t) + 1]));
        assert(l.subrange(2 * a, 2 * b)[2 * t] == l[2 * a + 2 * t]);
        assert(l.subrange(2 * a, 2 * b)[2 * t + 1] == l[2 * a + 2 * t + 1]);
    }
    assert(pair_layer(l).subrange(a, b) =~= pair_layer(l.subrange(2 * a, 2 * b)));
}

/// Every node of the cached layer is the root of its block of leaves.
pub proof fn lemma_cache_nodes(l: Seq<Seq<u8>>, m: nat, c: nat)
    requires
        l.len() == pow2(m),
        1 <= c <= m,
    ensures
        spec_cache_of(l, pow2(c)).len() == pow2(c),
        forall|t: int|
            0 <= t < pow2(c) ==> #[trigger] spec_cache_of(l, pow2(c))[t] == merkle_root(
                l.subrange(t * pow2((m - c) as nat), (t + 1) * pow2((m - c) as nat)),
            ),
    decreases m - c,
{
    crate::util::lemma_pow2_pos((c - 1) as nat);
    if m == c {
        lemma_cache_full(l);
        assert forall|t: int| 0 <= t < pow2(c) implies #[trigger] spec_cache_of(l, pow2(c))[t]
            == merkle_root(l.subrange(t * pow2(0), (t + 1) * pow2(0))) by {
            assert(pow2(0) == 1);
            assert(l.subrange(t, t + 1) =~= seq![l[t]]);
            assert(merkle_root(seq![l[t]]) == l[t]);
        }
    } else {
        let pl = pair_layer(l);
        crate::util::lemma_pow2_pos((m - c - 1) as nat);
        crate::util::lemma_pow2_adds(c, (m - c) as nat);
        assert(pow2(m) == pow2(c) * pow2((m - c) as nat));
        assert(pow2((m - c) as nat) >= 2);
        assert(pow2(c) * 2 <= pow2(c) * pow2((m - c) as nat)) by (nonlinear_arith)
            requires
                pow2((m - c) as nat) >= 2,
                pow2(c) >= 1,
        ;
        crate::util::lemma_pow2_pos(c);
        assert(l.len() > pow2(c));
        assert(l.len() > 1);
        assert(spec_cache_of(l, pow2(c)) == spec_cache_of(pl, pow2(c)));
        assert(pl.len() == pow2((m - 1) as nat));
        lemma_cache_nodes(pl, (m - 1) as nat, c);
        let w = pow2((m - 1 - c) as nat);
        assert forall|t: int| 0 <= t < pow2(c) implies #[trigger] spec_cache_of(l, pow2(c))[t]
            == merkle_root(l.subrange(t * pow2((m - c) as nat), (t + 1) * pow2((m - c) as nat)))
            by {
            assert(spec_cache_of(pl, pow2(c))[t] == merkle_root(
                pl.subrange(t * w, (t + 1) * w),
            ));
            assert(t * w >= 0) by (nonlinear_arith)
                requires t >= 0, w >= 1,
            ;
            assert(t * w <= (t + 1) * w) by (nonlinear_arith)
                requires t >= 0, w >= 1,
            ;
            assert((t + 1) * w <= pow2(c) * w) by (nonlinear_arith)
                requires t + 1 <= pow2(c), w >= 1,
            ;
            crate::util::lemma_pow2_adds(c, (m - 1 - c) as nat);
            assert(pl.len() == pow2(c) * w);
            assert(t * pow2((m - c) as nat) >= 0) by (nonlinear_arith)
                requires t >= 0, pow2((m - c) as nat) >= 1,
            ;
            assert(t * pow2((m - c) as nat) <= (t + 1) * pow2((m - c) as nat)) by (nonlinear_arith)
                requires t >= 0, pow2((m - c) as nat) >= 1,
            ;
            assert((t + 1) * pow2((m - c) as nat) <= pow2(c) * pow2((m - c) as nat))
                by (nonlinear_arith)
                requires t + 1 <= pow2(c), pow2((m - c) as nat) >= 1,
            ;
            assert((t + 1) * pow2((m - c) as nat) - t * pow2((m - c) as nat) == pow2(
                (m - c) as nat,
            )) by (nonlinear_arith);
            assert(2 * (pow2(c) * w) == pow2(c) * (2 * w)) by (nonlinear_arith);
            assert(2 * w == pow2((m - c) as nat));
            assert(pow2(c) * pow2((m - c) as nat) == pow2(m));
            lemma_pair_layer_subrange(l, t * w, (t + 1) * w);
            assert(2 * (t * w) == t * (2 * w)) by (nonlinear_arith);
            assert(2 * ((t + 1) * w) == (t + 1) * (2 * w)) by (nonlinear_arith);
            let sub = l.subrange(t * pow2((m - c) as nat), (t + 1) * pow2((m - c) as nat));
            assert(sub.len() == pow2((m - c) as nat));
            assert(merkle_root(sub) == merkle_root(pair_layer(sub)));
        }
    }
}

/// The nodes that fold a leaf back to the root: at layer i, the root of
/// the sibling block of size 2^i.
pub open spec fn subtree_nodes(l: Seq<Seq<u8>>, rel: nat, k: nat) -> Seq<Seq<u8>> {
    Seq::new(
        k,
        |i: int|
            merkle_root(
                l.subrange(
                    sibling_start(rel, i as nat) as int,
                    (sibling_start(rel, i as nat) + pow2(i as nat)) as int,
                ),
            ),
    )
}

/// Halving the index and stepping one layer up doubles the sibling start.
pub proof fn lemma_sibling_start_double(rel: nat, i: nat)
    ensures
        sibling_start(rel, i + 1) == 2 * sibling_start((rel / 2) as nat, i),
{
    crate::util::lemma_pow2_pos(i);
    lemma_div_denominator(rel as int, 2, pow2(i) as int);
    assert(pow2(i + 1) == 2 * pow2(i));
    assert(rel / pow2(i + 1) == (rel / 2) / pow2(i));
    let blk = rel / pow2(i + 1);
    assert((blk + 1) * pow2(i + 1) == 2 * ((blk + 1) * pow2(i))) by (nonlinear_arith)
        requires pow2(i + 1) == 2 * pow2(i),
    ;
    if blk % 2 != 0 {
        assert((blk - 1) * pow2(i + 1) == 2 * ((blk - 1) * pow2(i))) by (nonlinear_arith)
            requires pow2(i + 1) == 2 * pow2(i),
        ;
    }
}

/// Folding a leaf along the roots of its sibling blocks reaches the root
/// of the whole tree.
pub proof fn lemma_fold_root(l: Seq<Seq<u8>>, rel: nat, k: nat)
    requires
        l.len() == pow2(k),
        rel < pow2(k),
    ensures
        spec_fold(l[rel as int], subtree_nodes(l, rel, k), rel) == merkle_root(l),
    decreases k,
{
    if k == 0 {
        assert(subtree_nodes(l, rel, 0) =~= Seq::<Seq<u8>>::empty());
        assert(rel == 0);
    } else {
        let pl = pair_layer(l);
        let nodes = subtree_nodes(l, rel, k);
        crate::util::lemma_pow2_pos((k - 1) as nat);
        assert(pow2(k) == 2 * pow2((k - 1) as nat));
        assert(l.len() >= 2);

        // The first node is the sibling leaf itself.
        let s0 = sibling_start(rel, 0);
        assert(pow2(0) == 1);
        assert(rel / 1 == rel);
        let half = (rel / 2) as nat;
        assert(half < pow2((k - 1) as nat));
        if rel % 2 == 0 {
            assert(s0 == rel + 1);
            assert(rel + 1 < pow2(k)) by {
                if rel + 1 == pow2(k) {
                    assert(rel == 2 * pow2((k - 1) as nat) - 1);
                    assert(rel % 2 == 1);
                }
            }
        } else {
            assert(s0 == rel - 1);
        }
        assert(l.subrange(s0 as int, s0 as int + 1) =~= seq![l[s0 as int]]);
        assert(nodes[0] == l[s0 as int]);

        // One fold step lands on the parent node in the pair layer.
        let x1 = if rel % 2 == 0 {
            spec_hash2(l[rel as int], nodes[0])
        } else {
            spec_hash2(nodes[0], l[rel as int])
        };
        assert(2 * (rel / 2) == rel || 2 * (rel / 2) + 1 == rel);
        assert(pl[half as int] == spec_hash2(l[2 * (half as int)], l[2 * (half as int) + 1]));
        assert(x1 == pl[half as int]);

        // The remaining nodes are the sibling-block roots one layer up.
        assert forall|i: int| 0 <= i < k - 1 implies nodes.skip(1)[i] == subtree_nodes(
            pl,
            half,
            (k - 1) as nat,
        )[i] by {
            lemma_sibling_start_double(rel, i as nat);
            lemma_sibling_bounds(half, i as nat, (k - 1) as nat);
            let a = sibling_start(half, i as nat) as int;
            let b = a + pow2(i as nat);
            lemma_pair_layer_subrange(l, a, b);
            assert(2 * b == 2 * a + 2 * pow2(i as nat));
            assert(pow2(i as nat + 1) == 2 * pow2(i as nat));
            let sub = l.subrange(2 * a, 2 * b);
            assert(sub.len() == pow2((i + 1) as nat));
            crate::util::lemma_pow2_pos(i as nat);
            assert(sub.len() >= 2);
            assert(merkle_root(sub) == merkle_root(pair_layer(sub)));
            assert(nodes[i + 1] == merkle_root(
                l.subrange(
                    sibling_start(rel, (i + 1) as nat) as int,
                    (sibling_start(rel, (i + 1) as nat) + pow2((i + 1) as nat)) as int,
                ),
            ));
            assert(sibling_start(rel, (i + 1) as nat) as int == 2 * a);
        }
        assert(nodes.skip(1) =~= subtree_nodes(pl, half, (k - 1) as nat));

        lemma_fold_root(pl, half, (k - 1) as nat);
        assert(merkle_root(l) == merkle_root(pl));
        assert(spec_fold(l[rel as int], nodes, rel) == spec_fold(x1, nodes.skip(1), half));
    }
}

/// Round trip of the fully cached Merkle scheme: for every seed, counter
/// pair, in-range relative index and message, the signature assembled at
/// that index -- the leaf's one-time signature together with the
/// authentication path -- verifies against the tree's root.
pub proof fn lemma_merkle_sign_verifies(sk: Seq<u8>, ctr: u32, rel: nat, h: nat, msg: Seq<u8>)
    requires
        1 <= h < 32,
        rel < pow2(h),
    ensures
        ({
            let leaf_index = (ctr + rel) as u32;
            let leaf_seed = spec_leaf_seed(sk, leaf_index);
            let pkh = spec_leaf(sk, leaf_index);
            &&& spec_wots_verify(
                pkh,
                spec_wots_pk_seed(leaf_seed),
                spec_wots_sign(leaf_seed, pkh, msg),
                msg,
            )
            &&& spec_fold(pkh, spec_auth_path(sk, ctr, rel, h, h), rel) == merkle_root(
                window(sk, ctr, pow2(h)),
            )
        }),
{
    let leaf_index = (ctr + rel) as u32;
    let leaf_seed = spec_leaf_seed(sk, leaf_index);
    let pkh = spec_leaf(sk, leaf_index);
    let win = window(sk, ctr, pow2(h));
    wots::lemma_sign_verifies(leaf_seed, msg);
    crate::util::lemma_pow2_pos((h - 1) as nat);
    assert(pow2(h) >= 2);
    lemma_cache_full(win);
    assert(pow2(0) == 1);
    assert forall|i: int| 0 <= i < h implies spec_auth_path(sk, ctr, rel, h, h)[i]
        == subtree_nodes(win, rel, h)[i] by {
        assert(rel / pow2(0) == rel);
    }
    assert(spec_auth_path(sk, ctr, rel, h, h) =~= subtree_nodes(win, rel, h));
    lemma_fold_root(win, rel, h);
    assert(win[rel as int] == pkh);
}

/// A signature whose fields are the ones `sign` produces in fully
/// cached mode with authentication paths is valid for the root of the
/// tree it was signed under.
pub proof fn lemma_signature_valid(
    sk: Seq<u8>,
    ctr: u32,
    rel: nat,
    h: nat,
    msg: Seq<u8>,
    sig: MerkleSignature,
)
    requires
        1 <= h < 32,
        rel < pow2(h),
        sig.index as nat == rel,
        sig.wots_sig.pk_hash@ == spec_leaf(sk, (ctr + rel) as u32),
        sig.wots_sig.pk_seed@ == spec_wots_pk_seed(spec_leaf_seed(sk, (ctr + rel) as u32)),
        views_of(sig.wots_sig.signature@) == spec_wots_sign(
            spec_leaf_seed(sk, (ctr + rel) as u32),
            spec_leaf(sk, (ctr + rel) as u32),
            msg,
        ),
        views_of(sig.auth_path@) == spec_auth_path(sk, ctr, rel, h, h),
    ensures
        sig.valid(msg, merkle_root(window(sk, ctr, pow2(h)))),
{
    lemma_merkle_sign_verifies(sk, ctr, rel, h, msg);
}

/// A signature whose fields are the ones `sign` produces in server-side
/// caching mode -- with an empty authentication path -- is valid for the
/// signed leaf itself, which the verifier reads out of its cache copy.
pub proof fn lemma_ssc_signature_valid(
    sk: Seq<u8>,
    leaf_index: u32,
    msg: Seq<u8>,
    sig: MerkleSignature,
)
    requires
        sig.wots_sig.pk_hash@ == spec_leaf(sk, leaf_index),
        sig.wots_sig.pk_seed@ == spec_wots_pk_seed(spec_leaf_seed(sk, leaf_index)),
        views_of(sig.wots_sig.signature@) == spec_wots_sign(
            spec_leaf_seed(sk, leaf_index),
            spec_leaf(sk, leaf_index),
            msg,
        ),
        sig.auth_path@.len() == 0,
    ensures
        sig.valid(msg, spec_leaf(sk, leaf_index)),
{
    wots::lemma_sign_verifies(spec_leaf_seed(sk, leaf_index), msg);
    assert(views_of(sig.auth_path@).len() == 0);
    assert(spec_fold(sig.wots_sig.pk_hash@, views_of(sig.auth_path@), sig.index as nat)
        == sig.wots_sig.pk_hash@);
}

/// After a reconciliation in fully cached mode, the head of the active
/// cache is the leaf of the promoted counter.
pub proof fn lemma_reconciled_cache_head(sk: Seq<u8>, ctr_new: u32, h: nat)
    requires
        1 <= h < 32,
    ensures
        spec_cache_of(window(sk, ctr_new, pow2(h)), pow2(h))[0] == spec_leaf(sk, ctr_new),
{
    crate::util::lemma_pow2_pos((h - 1) as nat);
    lemma_cache_full(window(sk, ctr_new, pow2(h)));
}

/// Two signatures taken at different counter positions of one tree carry
/// different indices, so no (index, one-time key) pair repeats.
pub proof fn lemma_distinct_indices(ctr: u32, a: u32, b: u32)
    requires
        ctr <= a,
        ctr <= b,
        a != b,
    ensures
        a - ctr != b - ctr,
{
}

} // verus!

