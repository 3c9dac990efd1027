//! Shallow-Deep Merkle-tree signature scheme (SD-MSS) over WOTS+.
//!
//! Two updatable Merkle keypairs share one master seed: a small *shallow*
//! tree in server-side-caching mode that serves the common case cheaply,
//! and a large *deep* tree used once the shallow one is exhausted.  The
//! verifier's acknowledged counters, handed in with every sign call, let
//! the signer reconcile each tree before choosing one.

use crate::hashes;
use crate::hashes::sha256_of;
use crate::merkle;
use crate::merkle::{MerkleSignature, UpdatableMerkleKeypair};
use crate::util::{append_bytes, copy_bytes, pow2, pow2_usize, take_bytes, views_of};
use crate::wots::{spec_wots_pk_seed, spec_wots_sign};
use vstd::prelude::*;

verus! {

/// Security parameter, hash output size in bytes.
pub const N: usize = 16;

/// Height of the shallow tree.
pub const S: usize = 2;

/// Height of the deep tree.
pub const D: usize = 7;

/// Client-side cached layer of the deep tree.
pub const C: usize = 7;

/// The ASCII bytes of "shallow", the domain separator of the shallow seed.
pub open spec fn shallow_tag() -> Seq<u8> {
    seq![115u8, 104u8, 97u8, 108u8, 108u8, 111u8, 119u8]
}

/// The ASCII bytes of "deep", the domain separator of the deep seed.
pub open spec fn deep_tag() -> Seq<u8> {
    seq![100u8, 101u8, 101u8, 112u8]
}

/// The shallow tree's secret seed derived from the master seed.
pub open spec fn spec_shallow_seed(sk: Seq<u8>) -> Seq<u8> {
    sha256_of(sk + shallow_tag()).take(N as int)
}

/// The deep tree's secret seed derived from the master seed.
pub open spec fn spec_deep_seed(sk: Seq<u8>) -> Seq<u8> {
    sha256_of(sk + deep_tag()).take(N as int)
}

/// SD-MSS-WOTS keypair.
#[derive(Debug)]
pub struct Keypair {
    pub sk_seed: Vec<u8>,
    pub shallow: UpdatableMerkleKeypair,
    pub deep: UpdatableMerkleKeypair,
}

/// SD-MSS-WOTS signature.
#[derive(Debug)]
pub struct Signature {
    /// Which tree signed: the deep one (true) or the shallow one (false).
    pub deep: bool,
    pub new_shallow_ctr: u32,
    pub new_deep_ctr: u32,
    pub merkle_sig: MerkleSignature,
}

impl Keypair {
    /// The two trees are well-formed, have the fixed shallow/deep shape,
    /// and their seeds are the ones derived from the master seed.
    pub open spec fn wf(self) -> bool {
        &&& self.sk_seed@.len() == N
        &&& self.shallow.wf()
        &&& self.deep.wf()
        &&& self.shallow.height == S
        &&& self.shallow.caching == S
        &&& self.shallow.server_side_caching
        &&& self.deep.height == D
        &&& self.deep.caching == C
        &&& !self.deep.server_side_caching
        &&& self.shallow.sk_seed@ == spec_shallow_seed(self.sk_seed@)
        &&& self.deep.sk_seed@ == spec_deep_seed(self.sk_seed@)
    }

    /// Generates a new SD-MSS keypair from fresh system randomness.
    /// Calculates all 2^S + 2^D one-time keypairs.
    pub fn new() -> (kp: Self)
        ensures
            kp.wf(),
            kp.shallow.ctr == 0 && kp.shallow.ctr_next == 0,
            kp.deep.ctr == 0 && kp.deep.ctr_next == 0,
    {
        let sk = crate::entropy::os_rng_bytes(N);
        Self::from_sk(sk)
    }

    /// Builds the keypair deterministically from the given master seed.
    pub fn from_sk(sk: Vec<u8>) -> (kp: Self)
        requires
            sk@.len() == N,
        ensures
            kp.wf(),
            kp.sk_seed@ == sk@,
            kp.shallow.ctr == 0 && kp.shallow.ctr_next == 0,
            kp.deep.ctr == 0 && kp.deep.ctr_next == 0,
    {
        let mut buf = copy_bytes(&sk);
        let mut tag: Vec<u8> = Vec::new();
        tag.push(115u8);
        tag.push(104u8);
        tag.push(97u8);
        tag.push(108u8);
        tag.push(108u8);
        tag.push(111u8);
        tag.push(119u8);
        proof {
            assert(tag@ =~= shallow_tag());
        }
        append_bytes(&mut buf, &tag);
        let digest = hashes::sha256(&buf);
        let shallow_seed = take_bytes(&digest, N);

        let mut buf2 = copy_bytes(&sk);
        let mut tag2: Vec<u8> = Vec::new();
        tag2.push(100u8);
        tag2.push(101u8);
        tag2.push(101u8);
        tag2.push(112u8);
        proof {
            assert(tag2@ =~= deep_tag());
        }
        append_bytes(&mut buf2, &tag2);
        let digest2 = hashes::sha256(&buf2);
        let deep_seed = take_bytes(&digest2, N);

        Keypair {
            sk_seed: sk,
            shallow: UpdatableMerkleKeypair::from_sk(shallow_seed, S, S, true),
            deep: UpdatableMerkleKeypair::from_sk(deep_seed, D, C, false),
        }
    }

    /// Signs an input byte string, preferably with the shallow tree; once
    /// the shallow tree is used up, the deep tree signs instead.  The
    /// verifier's acknowledged counters trigger reconciliation first.
    pub fn sign(&mut self, input: &Vec<u8>, remote_shallow_ctr: u32, remote_deep_ctr: u32) -> (sig:
        Signature)
        requires
            old(self).wf(),
            old(self).shallow.ctr_next + pow2(S as nat) < u32::MAX,
            old(self).deep.ctr_next + pow2(D as nat) < u32::MAX,
            ({
                let s_used = if remote_shallow_ctr == old(self).shallow.ctr_next {
                    0
                } else {
                    old(self).shallow.ctr_next - old(self).shallow.ctr
                };
                let d_used = if remote_deep_ctr == old(self).deep.ctr_next {
                    0
                } else {
                    old(self).deep.ctr_next - old(self).deep.ctr
                };
                s_used < pow2(S as nat) || d_used < pow2(D as nat)
            }),
        ensures
            final(self).wf(),
            final(self).sk_seed@ == old(self).sk_seed@,
            final(self).shallow.sk_seed@ == old(self).shallow.sk_seed@,
            final(self).deep.sk_seed@ == old(self).deep.sk_seed@,
            sig.new_shallow_ctr == final(self).shallow.ctr_next,
            sig.new_deep_ctr == final(self).deep.ctr_next,
            sig.merkle_sig.wots_sig.wf(),
            ({
                let s_ctr = if remote_shallow_ctr == old(self).shallow.ctr_next {
                    old(self).shallow.ctr_next
                } else {
                    old(self).shallow.ctr
                };
                let d_ctr = if remote_deep_ctr == old(self).deep.ctr_next {
                    old(self).deep.ctr_next
                } else {
                    old(self).deep.ctr
                };
                let s_used = old(self).shallow.ctr_next - s_ctr;
                &&& final(self).shallow.ctr == s_ctr
                &&& final(self).deep.ctr == d_ctr
                &&& sig.deep == (s_used == pow2(S as nat))
                &&& if sig.deep {
                    let sk = old(self).deep.sk_seed@;
                    let leaf_index = old(self).deep.ctr_next;
                    &&& final(self).deep.ctr_next == old(self).deep.ctr_next + 1
                    &&& final(self).shallow.ctr_next == old(self).shallow.ctr_next
                    &&& sig.merkle_sig.index == old(self).deep.ctr_next - d_ctr
                    &&& sig.merkle_sig.wots_sig.pk_hash@ == merkle::spec_leaf(sk, leaf_index)
                    &&& sig.merkle_sig.wots_sig.pk_seed@ == spec_wots_pk_seed(
                        merkle::spec_leaf_seed(sk, leaf_index),
                    )
                    &&& views_of(sig.merkle_sig.wots_sig.signature@) == spec_wots_sign(
                        merkle::spec_leaf_seed(sk, leaf_index),
                        merkle::spec_leaf(sk, leaf_index),
                        input@,
                    )
                    &&& views_of(sig.merkle_sig.auth_path@) == merkle::spec_auth_path(
                        sk,
                        d_ctr,
                        (old(self).deep.ctr_next - d_ctr) as nat,
                        D as nat,
                        C as nat,
                    )
                } else {
                    let sk = old(self).shallow.sk_seed@;
                    let leaf_index = old(self).shallow.ctr_next;
                    &&& final(self).shallow.ctr_next == old(self).shallow.ctr_next + 1
                    &&& final(self).deep.ctr_next == old(self).deep.ctr_next
                    &&& sig.merkle_sig.index == old(self).shallow.ctr_next - s_ctr
                    &&& sig.merkle_sig.wots_sig.pk_hash@ == merkle::spec_leaf(sk, leaf_index)
                    &&& sig.merkle_sig.wots_sig.pk_seed@ == spec_wots_pk_seed(
                        merkle::spec_leaf_seed(sk, leaf_index),
                    )
                    &&& views_of(sig.merkle_sig.wots_sig.signature@) == spec_wots_sign(
                        merkle::spec_leaf_seed(sk, leaf_index),
                        merkle::spec_leaf(sk, leaf_index),
                        input@,
                    )
                    &&& sig.merkle_sig.auth_path@.len() == 0
                }
            }),
    {
        if remote_shallow_ctr == self.shallow.ctr_next {
            self.shallow.reconciliate();
        }
        if remote_deep_ctr == self.deep.ctr_next {
            self.deep.reconciliate();
        }

        let shallow_kps_used = self.shallow.ctr_next - self.shallow.ctr;
        let cap = pow2_usize(S) as u32;
        proof {
            // By the tree invariant the shallow tree can never be over-used.
            assert(shallow_kps_used <= cap);
        }
        if shallow_kps_used < cap {
            // Not all shallow one-time keys used yet: sign with the shallow tree.
            let sig = self.shallow.sign(input);
            Signature {
                deep: false,
                new_shallow_ctr: self.shallow.ctr_next,
                new_deep_ctr: self.deep.ctr_next,
                merkle_sig: sig,
            }
        } else {
            // Shallow tree exhausted: sign with the deep tree.
            let sig = self.deep.sign(input);
            Signature {
                deep: true,
                new_shallow_ctr: self.shallow.ctr_next,
                new_deep_ctr: self.deep.ctr_next,
                merkle_sig: sig,
            }
        }
    }
}

impl Signature {
    /// Verifies the signature against the appropriate tree's public key,
    /// dispatching on the `deep` flag; total, never panics.
    pub fn verify(&self, input: &Vec<u8>, shallow_pk: &Vec<u8>, deep_pk: &Vec<u8>) -> (r: bool)
        requires
            self.merkle_sig.wots_sig.wf(),
        ensures
            r == if self.deep {
                self.merkle_sig.valid(input@, deep_pk@)
            } else {
                self.merkle_sig.valid(input@, shallow_pk@)
            },
    {
        if self.deep {
            self.merkle_sig.verify(input, deep_pk)
        } else {
            self.merkle_sig.verify(input, shallow_pk)
        }
    }
}

} // verus!
