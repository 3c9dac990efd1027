//! Merkle-tree signature scheme over WOTS+ one-time keys with an
//! AES-MMO tree hash (MSS-WOTS).
//!
//! Leaf seeds come from the AES-based generator; each leaf is the
//! SHA-256 WOTS+ public key hash of its seed.  The keypair keeps every
//! layer of the tree below the root in one flat cache, so signing only
//! reads sibling nodes.  The signer holds the seed of the leaf at
//! `next_index` and always signs with that one-time key.

use crate::hashes;
use crate::hashes::aes128_enc;
use crate::util::{copy_bytes, pow2, pow2_usize, views_of, xor_bytes, zero_bytes};
use crate::wots;
use crate::wots_aes::{prng_out, zero_block};
use vstd::prelude::*;

pub use crate::wots_aes::prng;

verus! {

/// Tree height: the tree spans 2^H one-time keys.
pub const H: usize = 7;

/// Cached tree layers, not counting the root layer.
pub const C: usize = 7;

/// Security parameter, hash output size in bytes.
pub const N: usize = 16;

/// The AES-MMO two-block hash: the first block is encrypted under the
/// zero key, and the second under the first round's MMO output.
pub open spec fn spec_hash2(a: Seq<u8>, b: Seq<u8>) -> Seq<u8> {
    let e1 = aes128_enc(zero_block(), a);
    xor_bytes(e1, aes128_enc(xor_bytes(a, e1), b))
}

/// AES-MMO-based hash function: hashes two blocks into one.
pub fn hash2(in1: &Vec<u8>, in2: &Vec<u8>) -> (r: Vec<u8>)
    requires
        in1@.len() == N,
        in2@.len() == N,
    ensures
        r@ == spec_hash2(in1@, in2@),
        r@.len() == N,
{
    let zeros = zero_bytes(N);
    proof {
        assert(zeros@ =~= zero_block());
    }
    let e1 = hashes::aes128_encrypt(&zeros, in1);
    let key2 = crate::util::xor_bytes_exec(in1, &e1);
    let e2 = hashes::aes128_encrypt(&key2, in2);
    crate::util::xor_bytes_exec(&e1, &e2)
}

/// One pairwise AES-MMO hash layer of a tree.
pub open spec fn pair_layer(l: Seq<Seq<u8>>) -> Seq<Seq<u8>> {
    Seq::new((l.len() / 2) as nat, |i: int| spec_hash2(l[2 * i], l[2 * i + 1]))
}

/// The root of the tree over `l`, by repeated pairwise hashing.
pub open spec fn merkle_root(l: Seq<Seq<u8>>) -> Seq<u8>
    decreases l.len(),
{
    if l.len() <= 1 {
        if l.len() == 1 {
            l[0]
        } else {
            Seq::empty()
        }
    } else {
        merkle_root(pair_layer(l))
    }
}

/// The tree layer k levels above the leaves.
pub open spec fn layers_down(l: Seq<Seq<u8>>, k: nat) -> Seq<Seq<u8>>
    decreases k,
{
    if k == 0 {
        l
    } else {
        layers_down(pair_layer(l), (k - 1) as nat)
    }
}

/// The first `count` tree layers, concatenated leaves-first.
pub open spec fn spec_levels(l: Seq<Seq<u8>>, count: nat) -> Seq<Seq<u8>>
    decreases count,
{
    if count == 0 {
        Seq::empty()
    } else {
        l + spec_levels(pair_layer(l), (count - 1) as nat)
    }
}

/// Appending one more layer to the flat cache appends the layer that
/// many levels above the leaves.
pub proof fn lemma_levels_snoc(l: Seq<Seq<u8>>, k: nat)
    ensures
        spec_levels(l, k + 1) == spec_levels(l, k) + layers_down(l, k),
    decreases k,
{
    if k == 0 {
        assert(spec_levels(pair_layer(l), 0) == Seq::<Seq<u8>>::empty());
        assert(spec_levels(l, 1) == l + Seq::<Seq<u8>>::empty());
        assert(l + Seq::<Seq<u8>>::empty() =~= Seq::<Seq<u8>>::empty() + l);
    } else {
        lemma_levels_snoc(pair_layer(l), (k - 1) as nat);
        assert(l + (spec_levels(pair_layer(l), (k - 1) as nat) + layers_down(
            pair_layer(l),
            (k - 1) as nat,
        )) =~= (l + spec_levels(pair_layer(l), (k - 1) as nat)) + layers_down(l, k));
    }
}

/// One more level up is one more pairwise hash over the previous layer.
pub proof fn lemma_layers_down_snoc(l: Seq<Seq<u8>>, k: nat)
    ensures
        layers_down(l, k + 1) == pair_layer(layers_down(l, k)),
    decreases k,
{
    if k == 0 {
        assert(layers_down(l, 1) == layers_down(pair_layer(l), 0));
    } else {
        lemma_layers_down_snoc(pair_layer(l), (k - 1) as nat);
    }
}

/// The sibling, at layer j, of the block containing leaf `idx`.
pub open spec fn sibling_at(idx: nat, j: nat) -> nat {
    let blk = idx / pow2(j);
    if blk % 2 == 0 {
        blk + 1
    } else {
        (blk - 1) as nat
    }
}

/// The authentication path of leaf `idx`: at each layer, the sibling
/// node beside the path to the root.
pub open spec fn spec_auth_path(l: Seq<Seq<u8>>, idx: nat) -> Seq<Seq<u8>> {
    Seq::new(H as nat, |j: int| layers_down(l, j as nat)[sibling_at(idx, j as nat) as int])
}

/// Folds a leaf value up the tree along an authentication path.
pub open spec fn spec_fold(root: Seq<u8>, auth: Seq<Seq<u8>>, index: nat) -> Seq<u8>
    decreases auth.len(),
{
    if auth.len() == 0 {
        root
    } else {
        let next = if index % 2 == 0 {
            spec_hash2(root, auth[0])
        } else {
            spec_hash2(auth[0], root)
        };
        spec_fold(next, auth.skip(1), index / 2)
    }
}

/// MSS-WOTS keypair.
#[derive(Debug)]
pub struct Merkle {
    pub pk: Vec<u8>,
    pub next_seed: Vec<u8>,
    pub next_index: usize,
    pub tree_cache: Vec<Vec<u8>>,
}

/// MSS-WOTS signature.
#[derive(Debug)]
pub struct MerkleSignature {
    pub index: usize,
    pub wots_sig: wots::WotsSignature,
    pub auth_path: Vec<Vec<u8>>,
}

impl Merkle {
    /// The leaf layer of the stored tree cache.
    pub open spec fn leaves(self) -> Seq<Seq<u8>> {
        views_of(self.tree_cache@).take(pow2(H as nat) as int)
    }

    /// The flat cache holds every layer of the tree over the leaves, the
    /// stored root is that tree's root, and the signer's seed belongs to
    /// the leaf at `next_index`.
    pub open spec fn wf(self) -> bool {
        &&& self.next_seed@.len() == N
        &&& self.next_index < pow2(H as nat)
        &&& self.tree_cache@.len() >= pow2(H as nat)
        &&& views_of(self.tree_cache@) == spec_levels(self.leaves(), H as nat)
        &&& self.pk@ == merkle_root(self.leaves())
        &&& self.leaves()[self.next_index as int] == wots::spec_wots_pk_hash(self.next_seed@)
        &&& forall|i: int|
            0 <= i < self.tree_cache@.len() ==> (#[trigger] self.tree_cache@[i])@.len() == N
        &&& self.pk@.len() == N
    }

    /// Generates a new MSS-WOTS keypair: 2^H one-time keys from the
    /// AES generator, and every layer of the tree over their hashes.
    pub fn new() -> (kp: Merkle)
        ensures
            kp.wf(),
            kp.next_index == 0,
    {
        let mut seed = crate::entropy::getrandom_bytes(N);
        let ghost seed0 = seed@;
        let n = pow2_usize(H);

        // Leaf seeds and leaf values; the first seed is kept for signing.
        let first_secret = prng(&mut seed);
        let next_seed = copy_bytes(&first_secret);
        let w0 = wots::Wots::from_seed(first_secret);
        let mut leaves: Vec<Vec<u8>> = Vec::new();
        leaves.push(w0.pk_hash);
        proof {
            assert(crate::wots_aes::seed_after(seed0, 0) == seed0);
            assert(crate::wots_aes::seed_after(seed0, 1) == crate::wots_aes::spec_prng(
                seed0,
            ).1);
            assert(prng_out(seed0, 0) == crate::wots_aes::spec_prng(seed0).0);
        }
        let mut i: usize = 1;
        while i < n
            invariant
                1 <= i <= n,
                n == pow2(H as nat),
                n <= 0x8000_0000,
                seed@ == crate::wots_aes::seed_after(seed0, i as nat),
                seed@.len() == N,
                leaves@.len() == i,
                forall|j: int|
                    0 <= j < i ==> (#[trigger] leaves@[j])@ == wots::spec_wots_pk_hash(
                        prng_out(seed0, j as nat),
                    ),
                forall|j: int| 0 <= j < i ==> (#[trigger] leaves@[j])@.len() == N,
            decreases n - i,
        {
            let secret = prng(&mut seed);
            proof {
                assert(crate::wots_aes::seed_after(seed0, (i + 1) as nat)
                    == crate::wots_aes::spec_prng(crate::wots_aes::seed_after(seed0, i as nat)).1);
            }
            let w = wots::Wots::from_seed(secret);
            leaves.push(w.pk_hash);
            i = i + 1;
        }
        let ghost leavesv = views_of(leaves@);

        // The flat cache: layers 0 (leaves) through H-1, leaves first.
        let mut cache = crate::util::copy_byte_vecs(&leaves);
        let mut cur = leaves;
        proof {
            assert(pow2(0) == 1);
            assert(pow2(1) == 2);
            assert(spec_levels(pair_layer(leavesv), 0) == Seq::<Seq<u8>>::empty());
            assert(spec_levels(leavesv, 1) == leavesv + Seq::<Seq<u8>>::empty());
            assert(leavesv + Seq::<Seq<u8>>::empty() =~= leavesv);
            assert(views_of(cache@) =~= spec_levels(leavesv, 1));
            assert(layers_down(leavesv, 0) == leavesv);
            assert forall|t: int|
                0 <= t < cache@.len() implies (#[trigger] cache@[t])@.len() == N by {
                assert(cache@[t]@ == views_of(cache@)[t]);
                assert(views_of(leaves@)[t] == leaves@[t]@);
            }
            crate::util::lemma_pow2_monotonic(H as nat, 31);
            crate::util::lemma_pow2_31();
        }
        let mut level: usize = 1;
        while level < H
            invariant
                1 <= level <= H,
                leavesv.len() == pow2(H as nat),
                views_of(cur@) == layers_down(leavesv, (level - 1) as nat),
                cur@.len() == pow2((H - level + 1) as nat),
                cur@.len() <= 0x8000_0000,
                merkle_root(views_of(cur@)) == merkle_root(leavesv),
                views_of(cache@) == spec_levels(leavesv, level as nat),
                forall|t: int| 0 <= t < cur@.len() ==> (#[trigger] cur@[t])@.len() == N,
                forall|t: int| 0 <= t < cache@.len() ==> (#[trigger] cache@[t])@.len() == N,
            decreases H - level,
        {
            proof {
                assert(pow2((H - level + 1) as nat) == 2 * pow2((H - level) as nat));
                crate::util::lemma_pow2_pos((H - level) as nat);
            }
            let half = cur.len() / 2;
            let mut next: Vec<Vec<u8>> = Vec::new();
            let mut j: usize = 0;
            while j < half
                invariant
                    half == cur@.len() / 2,
                    cur@.len() == 2 * half,
                    cur@.len() <= 0x8000_0000,
                    j <= half,
                    next@.len() == j,
                    forall|t: int| 0 <= t < cur@.len() ==> (#[trigger] cur@[t])@.len() == N,
                    forall|t: int|
                        0 <= t < j ==> (#[trigger] next@[t])@ == spec_hash2(
                            views_of(cur@)[2 * t],
                            views_of(cur@)[2 * t + 1],
                        ),
                    forall|t: int| 0 <= t < j ==> (#[trigger] next@[t])@.len() == N,
                decreases half - j,
            {
                next.push(hash2(&cur[2 * j], &cur[2 * j + 1]));
                j = j + 1;
            }
            proof {
                assert(views_of(next@) =~= pair_layer(views_of(cur@)));
                lemma_levels_snoc(leavesv, level as nat);
                lemma_layers_down_snoc(leavesv, (level - 1) as nat);
                assert(layers_down(leavesv, level as nat) == pair_layer(views_of(cur@)));
                assert(merkle_root(views_of(cur@)) == merkle_root(pair_layer(views_of(cur@))));
            }
            crate::util::append_byte_vecs(&mut cache, &next);
            proof {
                assert forall|t: int|
                    0 <= t < cache@.len() implies (#[trigger] cache@[t])@.len() == N by {
                    assert(cache@[t]@ == views_of(cache@)[t]);
                    if t >= cache@.len() - next@.len() {
                        assert(views_of(next@)[t - (cache@.len() - next@.len())] == next@[t - (
                        cache@.len() - next@.len())]@);
                    }
                }
            }
            cur = next;
            level = level + 1;
        }

        // The root: one more pairwise hash above the topmost cached layer.
        proof {
            assert(pow2(0) == 1);
            assert(pow2(1) == 2);
            assert(cur@.len() == 2);
        }
        let root = hash2(&cur[0], &cur[1]);
        proof {
            let top = pair_layer(views_of(cur@));
            assert(top.len() == 1);
            assert(top[0] == spec_hash2(views_of(cur@)[0], views_of(cur@)[1]));
            assert(views_of(cur@)[0] == cur@[0]@);
            assert(views_of(cur@)[1] == cur@[1]@);
            assert(merkle_root(views_of(cur@)) == merkle_root(top));
            assert(merkle_root(top) == top[0]);
        }

        let kp = Merkle { pk: root, next_seed, next_index: 0, tree_cache: cache };
        proof {
            assert(views_of(kp.tree_cache@).len() >= leavesv.len());
            assert(kp.leaves() =~= leavesv);
            assert(kp.leaves()[0] == wots::spec_wots_pk_hash(kp.next_seed@));
            assert(views_of(kp.tree_cache@) == spec_levels(kp.leaves(), H as nat));
        }
        kp
    }

    /// Signs an input byte string with the one-time key at `next_index`,
    /// reading the authentication path out of the layer cache.
    pub fn sign(&self, input: &Vec<u8>) -> (sig: MerkleSignature)
        requires
            self.wf(),
        ensures
            sig.index == self.next_index,
            sig.wots_sig.pk_hash@ == wots::spec_wots_pk_hash(self.next_seed@),
            sig.wots_sig.pk_seed@ == wots::spec_wots_pk_seed(self.next_seed@),
            views_of(sig.wots_sig.signature@) == wots::spec_wots_sign(
                self.next_seed@,
                wots::spec_wots_pk_hash(self.next_seed@),
                input@,
            ),
            sig.wots_sig.wf(),
            views_of(sig.auth_path@) == spec_auth_path(self.leaves(), self.next_index as nat),
            sig.auth_path@.len() == H,
            forall|i: int|
                0 <= i < sig.auth_path@.len() ==> (#[trigger] sig.auth_path@[i])@.len() == N,
    {
        let w = wots::Wots::from_seed(copy_bytes(&self.next_seed));
        let wots_sig = w.sign(input);

        let ghost leavesv = self.leaves();
        let mut auth_path: Vec<Vec<u8>> = Vec::new();
        let mut offset: usize = 0;
        let mut width = pow2_usize(H);
        let mut idx = self.next_index;
        let total = self.tree_cache.len();
        let ghost mut cur = leavesv;

        proof {
            assert(pow2(0) == 1);
            vstd::arithmetic::div_mod::lemma_div_basics(self.next_index as int);
            assert(views_of(self.tree_cache@).skip(0) =~= views_of(self.tree_cache@));
            assert(leavesv.len() == pow2(H as nat)) by {
                assert(views_of(self.tree_cache@).len() >= pow2(H as nat));
            }
            assert(layers_down(leavesv, 0) == leavesv);
        }
        let mut j: usize = 0;
        while j < H
            invariant
                j <= H,
                self.wf(),
                leavesv == self.leaves(),
                cur == layers_down(leavesv, j as nat),
                cur.len() == width,
                width == pow2((H - j) as nat),
                idx == self.next_index as nat / pow2(j as nat),
                idx < width,
                total == self.tree_cache@.len(),
                offset <= total,
                views_of(self.tree_cache@).skip(offset as int) == spec_levels(
                    cur,
                    (H - j) as nat,
                ),
                auth_path@.len() == j,
                forall|t: int|
                    0 <= t < j ==> (#[trigger] auth_path@[t])@ == spec_auth_path(
                        leavesv,
                        self.next_index as nat,
                    )[t],
                forall|t: int| 0 <= t < j ==> (#[trigger] auth_path@[t])@.len() == N,
            decreases H - j,
        {
            proof {
                assert(pow2((H - j) as nat) == 2 * pow2((H - j - 1) as nat));
                crate::util::lemma_pow2_pos((H - j - 1) as nat);
                assert(spec_levels(cur, (H - j) as nat) == cur + spec_levels(
                    pair_layer(cur),
                    (H - j - 1) as nat,
                ));
                assert(views_of(self.tree_cache@).skip(offset as int).len() >= width);
                assert(offset + width <= total);
            }
            let sib = if idx % 2 == 0 {
                idx + 1
            } else {
                idx - 1
            };
            proof {
                crate::util::lemma_pow2_pos(j as nat);
                assert(sib == sibling_at(self.next_index as nat, j as nat));
                assert(sib < width) by {
                    if idx % 2 == 0 && idx + 1 >= width {
                        assert(idx == width - 1);
                        assert(width == 2 * pow2((H - j - 1) as nat));
                        assert(idx % 2 == 1);
                    }
                }
                assert(spec_levels(cur, (H - j) as nat) == cur + spec_levels(
                    pair_layer(cur),
                    (H - j - 1) as nat,
                ));
                assert(views_of(self.tree_cache@).skip(offset as int)[sib as int] == cur[
                sib as int]);
                assert(views_of(self.tree_cache@)[offset + sib] == cur[sib as int]);
                assert(self.tree_cache@[offset + sib]@ == views_of(self.tree_cache@)[offset
                    + sib]);
            }
            let node = copy_bytes(&self.tree_cache[offset + sib]);
            auth_path.push(node);

            proof {
                assert(views_of(self.tree_cache@).skip(offset as int).skip(width as int)
                    =~= views_of(self.tree_cache@).skip(offset + width));
                assert((cur + spec_levels(pair_layer(cur), (H - j - 1) as nat)).skip(
                    width as int,
                ) =~= spec_levels(pair_layer(cur), (H - j - 1) as nat));
                crate::util::lemma_pow2_pos(j as nat);
                vstd::arithmetic::div_mod::lemma_div_denominator(
                    self.next_index as int,
                    pow2(j as nat) as int,
                    2,
                );
                assert(pow2((j + 1) as nat) == 2 * pow2(j as nat));
                assert(pow2(j as nat) * 2 == 2 * pow2(j as nat));
                assert((idx / 2) < pow2((H - j - 1) as nat)) by {
                    assert(idx < 2 * pow2((H - j - 1) as nat));
                }
                lemma_layers_down_snoc(leavesv, j as nat);
                cur = pair_layer(cur);
            }
            offset = offset + width;
            width = width / 2;
            idx = idx / 2;
            j = j + 1;
        }
        proof {
            assert(views_of(auth_path@) =~= spec_auth_path(leavesv, self.next_index as nat));
        }

        MerkleSignature { index: self.next_index, wots_sig, auth_path }
    }
}

impl MerkleSignature {
    /// What it means for this signature to be valid for `msg` under the
    /// public key `pk`: the one-time signature verifies, and the leaf's
    /// public key hash folds along the authentication path to `pk`.
    pub open spec fn valid(self, msg: Seq<u8>, pk: Seq<u8>) -> bool {
        &&& wots::spec_wots_verify(
            self.wots_sig.pk_hash@,
            self.wots_sig.pk_seed@,
            views_of(self.wots_sig.signature@),
            msg,
        )
        &&& spec_fold(self.wots_sig.pk_hash@, views_of(self.auth_path@), self.index as nat) == pk
    }

    /// Verifies the signature against the given public key; total,
    /// never panics.
    pub fn verify(&self, input: &Vec<u8>, pk: &Vec<u8>) -> (r: bool)
        requires
            self.wots_sig.wf(),
            forall|i: int|
                0 <= i < self.auth_path@.len() ==> (#[trigger] self.auth_path@[i])@.len() == N,
        ensures
            r == self.valid(input@, pk@),
    {
        if !self.wots_sig.verify(input) {
            return false;
        }

        let ghost authv = views_of(self.auth_path@);
        let mut root = copy_bytes(&self.wots_sig.pk_hash);
        let mut idx: usize = self.index;
        let mut i: usize = 0;
        proof {
            assert(authv.skip(0) =~= authv);
        }
        while i < self.auth_path.len()
            invariant
                i <= self.auth_path@.len(),
                self.wots_sig.wf(),
                forall|t: int|
                    0 <= t < self.auth_path@.len() ==> (#[trigger] self.auth_path@[t])@.len()
                        == N,
                root@.len() == N,
                authv == views_of(self.auth_path@),
                spec_fold(root@, authv.skip(i as int), idx as nat) == spec_fold(
                    self.wots_sig.pk_hash@,
                    authv,
                    self.index as nat,
                ),
            decreases self.auth_path@.len() - i,
        {
            let node = &self.auth_path[i];
            proof {
                assert(authv.skip(i as int)[0] == node@);
                assert(authv.skip(i as int).skip(1) =~= authv.skip(i + 1));
            }
            if idx % 2 == 0 {
                root = hash2(&root, node);
            } else {
                root = hash2(node, &root);
            }
            idx = idx / 2;
            i = i + 1;
        }
        proof {
            assert(authv.skip(self.auth_path@.len() as int) =~= Seq::<Seq<u8>>::empty());
        }
        crate::util::bytes_eq(&root, pk)
    }
}

} // verus!
