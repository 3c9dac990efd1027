//! Verified helpers on byte vectors: concatenation, truncation, xor,
//! big-endian encodings and powers of two.

use vstd::prelude::*;

verus! {

/// 2 to the power k.
pub open spec fn pow2(k: nat) -> nat
    decreases k,
{
    if k == 0 {
        1
    } else {
        2 * pow2((k - 1) as nat)
    }
}

pub proof fn lemma_pow2_pos(k: nat)
    ensures
        pow2(k) >= 1,
    decreases k,
{
    if k > 0 {
        lemma_pow2_pos((k - 1) as nat);
    }
}

pub proof fn lemma_pow2_monotonic(a: nat, b: nat)
    requires
        a <= b,
    ensures
        pow2(a) <= pow2(b),
    decreases b,
{
    if a < b {
        lemma_pow2_monotonic(a, (b - 1) as nat);
        lemma_pow2_pos((b - 1) as nat);
    }
}

#[verifier::rlimit(50)]
pub proof fn lemma_pow2_31()
    ensures
        pow2(31) == 0x8000_0000,
{
    reveal_with_fuel(pow2, 32);
}

pub proof fn lemma_pow2_adds(a: nat, b: nat)
    ensures
        pow2(a + b) == pow2(a) * pow2(b),
    decreases a,
{
    if a > 0 {
        lemma_pow2_adds((a - 1) as nat, b);
        assert((a + b - 1) as nat == (a - 1) as nat + b);
        assert(pow2(a + b) == 2 * pow2((a + b - 1) as nat));
        assert(2 * (pow2((a - 1) as nat) * pow2(b)) == (2 * pow2((a - 1) as nat)) * pow2(b))
            by (nonlinear_arith);
        assert(pow2(a) == 2 * pow2((a - 1) as nat));
        assert(pow2(a + b) == pow2(a) * pow2(b));
    } else {
        assert(a == 0);
        assert(pow2(a) == 1);
        assert(pow2(a + b) == pow2(b));
        assert(pow2(a) * pow2(b) == 1 * pow2(b)) by (nonlinear_arith)
            requires pow2(a) == 1,
        ;
        assert(1 * pow2(b) == pow2(b)) by (nonlinear_arith);
    }
}

/// 2^k as a machine integer; k is capped so the result fits either width.
pub fn pow2_usize(k: usize) -> (r: usize)
    requires
        k < 32,
    ensures
        r == pow2(k as nat),
        1 <= r <= 0x8000_0000,
{
    proof {
        lemma_pow2_pos(k as nat);
        lemma_pow2_monotonic(k as nat, 31);
        lemma_pow2_31();
    }
    let mut r: usize = 1;
    let mut i: usize = 0;
    while i < k
        invariant
            i <= k < 32,
            r == pow2(i as nat),
        decreases k - i,
    {
        proof {
            lemma_pow2_monotonic((i + 1) as nat, 31);
            lemma_pow2_31();
        }
        r = r * 2;
        i = i + 1;
    }
    r
}

#[verifier::rlimit(50)]
pub proof fn lemma_pow2_32()
    ensures
        pow2(32) == 0x1_0000_0000,
{
    reveal_with_fuel(pow2, 33);
}

pub proof fn lemma_pow2_128()
    ensures
        pow2(128) == 0x1_0000_0000_0000_0000_0000_0000_0000_0000,
{
    lemma_pow2_32();
    lemma_pow2_adds(32, 32);
    assert(pow2(64) == 0x1_0000_0000 * 0x1_0000_0000);
    lemma_pow2_adds(64, 64);
    assert(pow2(128) == 0x1_0000_0000_0000_0000 * 0x1_0000_0000_0000_0000);
}

/// The value of a byte string read as a big-endian number.
pub open spec fn be_val(s: Seq<u8>) -> nat
    decreases s.len(),
{
    if s.len() == 0 {
        0
    } else {
        (be_val(s.drop_last()) * 256 + s.last()) as nat
    }
}

/// The `len`-byte big-endian encoding of x (modulo 256^len).
pub open spec fn be_enc(x: nat, len: nat) -> Seq<u8>
    decreases len,
{
    if len == 0 {
        Seq::empty()
    } else {
        be_enc(x / 256, (len - 1) as nat).push((x % 256) as u8)
    }
}

pub proof fn lemma_be_val_bound(s: Seq<u8>)
    ensures
        be_val(s) < pow2((8 * s.len()) as nat),
    decreases s.len(),
{
    if s.len() == 0 {
        assert(pow2(0) == 1);
    } else {
        lemma_be_val_bound(s.drop_last());
        lemma_pow2_adds((8 * (s.len() - 1)) as nat, 8);
        assert(pow2(8) == 256) by {
            reveal_with_fuel(pow2, 9);
        }
        assert(be_val(s.drop_last()) * 256 + 255 < pow2((8 * (s.len() - 1)) as nat) * 256) by (nonlinear_arith)
            requires
                be_val(s.drop_last()) < pow2((8 * (s.len() - 1)) as nat),
        ;
    }
}

/// Byte j from the right of an encoding is the j-th base-256 digit.
pub proof fn lemma_be_enc_index(x: nat, len: nat, k: nat)
    requires
        k < len,
    ensures
        be_enc(x, len).len() == len,
        be_enc(x, len)[len - 1 - k] == ((x / pow2((8 * k) as nat)) % 256) as u8,
    decreases len,
{
    lemma_be_enc_len(x, len);
    if k == 0 {
        assert(pow2(0) == 1);
        assert(x / 1 == x);
    } else {
        lemma_be_enc_index(x / 256, (len - 1) as nat, (k - 1) as nat);
        lemma_pow2_adds(8, (8 * (k - 1)) as nat);
        assert(pow2(8) == 256) by {
            reveal_with_fuel(pow2, 9);
        }
        crate::util::lemma_pow2_pos((8 * (k - 1)) as nat);
        vstd::arithmetic::div_mod::lemma_div_denominator(
            x as int,
            256,
            pow2((8 * (k - 1)) as nat) as int,
        );
    }
}

pub proof fn lemma_be_enc_len(x: nat, len: nat)
    ensures
        be_enc(x, len).len() == len,
    decreases len,
{
    if len > 0 {
        lemma_be_enc_len(x / 256, (len - 1) as nat);
    }
}

/// Reads 16 bytes as a big-endian 128-bit integer.
pub fn be_bytes_to_u128(b: &Vec<u8>) -> (r: u128)
    requires
        b@.len() == 16,
    ensures
        r as nat == be_val(b@),
{
    proof {
        lemma_pow2_128();
    }
    let mut acc: u128 = 0;
    let mut i: usize = 0;
    while i < 16
        invariant
            i <= 16,
            b@.len() == 16,
            acc as nat == be_val(b@.take(i as int)),
            (acc as nat) < pow2((8 * i) as nat),
            pow2(128) == 0x1_0000_0000_0000_0000_0000_0000_0000_0000,
        decreases 16 - i,
    {
        proof {
            lemma_pow2_adds((8 * i) as nat, 8);
            assert(pow2(8) == 256) by {
                reveal_with_fuel(pow2, 9);
            }
            lemma_pow2_monotonic((8 * (i + 1)) as nat, 128);
            assert((acc as nat) * 256 + 255 < pow2((8 * i) as nat) * 256) by (nonlinear_arith)
                requires
                    (acc as nat) < pow2((8 * i) as nat),
            ;
            assert(b@.take(i + 1).drop_last() =~= b@.take(i as int));
        }
        acc = acc * 256 + (b[i] as u128);
        i = i + 1;
    }
    proof {
        assert(b@.take(16) =~= b@);
    }
    acc
}

/// Writes a 128-bit integer as 16 big-endian bytes.
pub fn u128_to_be_bytes(x: u128) -> (r: Vec<u8>)
    ensures
        r@ == be_enc(x as nat, 16),
        r@.len() == 16,
{
    let mut rev: Vec<u8> = Vec::new();
    let mut v: u128 = x;
    let mut i: usize = 0;
    proof {
        assert(pow2(0) == 1);
        vstd::arithmetic::div_mod::lemma_div_basics(x as int);
    }
    while i < 16
        invariant
            i <= 16,
            rev@.len() == i,
            v as nat == (x as nat) / pow2((8 * i) as nat),
            forall|j: int|
                0 <= j < i ==> rev@[j] == (((x as nat) / pow2((8 * j) as nat)) % 256) as u8,
        decreases 16 - i,
    {
        proof {
            assert(pow2(8) == 256) by {
                reveal_with_fuel(pow2, 9);
            }
            lemma_pow2_pos((8 * i) as nat);
            vstd::arithmetic::div_mod::lemma_div_denominator(
                x as int,
                pow2((8 * i) as nat) as int,
                256,
            );
            lemma_pow2_adds((8 * i) as nat, 8);
        }
        rev.push((v % 256) as u8);
        v = v / 256;
        i = i + 1;
    }
    let mut r: Vec<u8> = Vec::new();
    let mut j: usize = 0;
    while j < 16
        invariant
            j <= 16,
            rev@.len() == 16,
            forall|t: int|
                0 <= t < 16 ==> rev@[t] == (((x as nat) / pow2((8 * t) as nat)) % 256) as u8,
            r@.len() == j,
            forall|t: int|
                0 <= t < j ==> r@[t] == (((x as nat) / pow2((8 * (15 - t)) as nat)) % 256) as u8,
        decreases 16 - j,
    {
        r.push(rev[15 - j]);
        j = j + 1;
    }
    proof {
        assert forall|t: int| 0 <= t < 16 implies r@[t] == be_enc(x as nat, 16)[t] by {
            lemma_be_enc_index(x as nat, 16, (15 - t) as nat);
        }
        lemma_be_enc_len(x as nat, 16);
        assert(r@ =~= be_enc(x as nat, 16));
    }
    r
}

/// The wrapped successor-sum of two 16-byte big-endian numbers:
/// (a + b + 1) mod 2^128, re-encoded as 16 bytes.
pub open spec fn be_wrap_add1(a: Seq<u8>, b: Seq<u8>) -> Seq<u8> {
    be_enc((be_val(a) + be_val(b) + 1) % pow2(128), 16)
}

/// Computes (a + b + 1) mod 2^128 over 16-byte big-endian strings.
pub fn be_wrap_add1_exec(a: &Vec<u8>, b: &Vec<u8>) -> (r: Vec<u8>)
    requires
        a@.len() == 16,
        b@.len() == 16,
    ensures
        r@ == be_wrap_add1(a@, b@),
        r@.len() == 16,
{
    proof {
        lemma_pow2_128();
        lemma_be_val_bound(a@);
        lemma_be_val_bound(b@);
    }
    let av = be_bytes_to_u128(a);
    let bv = be_bytes_to_u128(b);
    let sum = av.wrapping_add(bv).wrapping_add(1);
    proof {
        let m = pow2(128) as int;
        let total = av as int + bv as int + 1;
        if total < m {
            vstd::arithmetic::div_mod::lemma_small_mod(total as nat, pow2(128));
            assert(sum as int == total);
        } else {
            assert(total - m < m);
            assert(sum as int == total - m);
            vstd::arithmetic::div_mod::lemma_mod_sub_multiples_vanish(total, m);
            vstd::arithmetic::div_mod::lemma_small_mod((total - m) as nat, pow2(128));
        }
        assert(sum as nat == (be_val(a@) + be_val(b@) + 1) % pow2(128));
    }
    u128_to_be_bytes(sum)
}

/// Bytewise exclusive-or of two equal-length byte strings.
pub open spec fn xor_bytes(a: Seq<u8>, b: Seq<u8>) -> Seq<u8> {
    Seq::new(a.len(), |i: int| a[i] ^ b[i])
}

pub fn xor_bytes_exec(a: &Vec<u8>, b: &Vec<u8>) -> (r: Vec<u8>)
    requires
        a@.len() == b@.len(),
    ensures
        r@ == xor_bytes(a@, b@),
        r@.len() == a@.len(),
{
    let mut r: Vec<u8> = Vec::new();
    let mut i: usize = 0;
    while i < a.len()
        invariant
            i <= a@.len() == b@.len(),
            r@.len() == i,
            forall|j: int| 0 <= j < i ==> r@[j] == (a@[j] ^ b@[j]),
        decreases a@.len() - i,
    {
        r.push(a[i] ^ b[i]);
        i = i + 1;
    }
    proof {
        assert(r@ =~= xor_bytes(a@, b@));
    }
    r
}

/// The four big-endian bytes of a 32-bit integer.
pub open spec fn be32(x: u32) -> Seq<u8> {
    seq![
        (x / 0x100_0000) as u8,
        ((x / 0x1_0000) % 0x100) as u8,
        ((x / 0x100) % 0x100) as u8,
        (x % 0x100) as u8,
    ]
}

pub fn u32_be_bytes(x: u32) -> (r: Vec<u8>)
    ensures
        r@ == be32(x),
        r@.len() == 4,
{
    let mut r: Vec<u8> = Vec::new();
    r.push((x / 0x100_0000) as u8);
    r.push(((x / 0x1_0000) % 0x100) as u8);
    r.push(((x / 0x100) % 0x100) as u8);
    r.push((x % 0x100) as u8);
    proof {
        assert(r@ =~= be32(x));
    }
    r
}

/// Appends a copy of src to dst.
pub fn append_bytes(dst: &mut Vec<u8>, src: &Vec<u8>)
    ensures
        final(dst)@ == old(dst)@ + src@,
{
    let ghost orig = dst@;
    let mut i: usize = 0;
    while i < src.len()
        invariant
            i <= src@.len(),
            dst@ == orig + src@.take(i as int),
        decreases src@.len() - i,
    {
        dst.push(src[i]);
        proof {
            assert(orig + src@.take(i as int) + seq![src@[i as int]] =~= orig + src@.take(
                i + 1,
            ));
        }
        i = i + 1;
    }
    proof {
        assert(orig + src@.take(src@.len() as int) =~= orig + src@);
    }
}

/// The first n bytes of v, as a fresh vector.
pub fn take_bytes(v: &Vec<u8>, n: usize) -> (r: Vec<u8>)
    requires
        n <= v@.len(),
    ensures
        r@ == v@.take(n as int),
        r@.len() == n,
{
    let mut r: Vec<u8> = Vec::new();
    let mut i: usize = 0;
    while i < n
        invariant
            i <= n <= v@.len(),
            r@.len() == i,
            forall|j: int| 0 <= j < i ==> r@[j] == v@[j],
        decreases n - i,
    {
        r.push(v[i]);
        i = i + 1;
    }
    proof {
        assert(r@ =~= v@.take(n as int));
    }
    r
}

/// All but the first n bytes of v, as a fresh vector.
pub fn skip_bytes(v: &Vec<u8>, n: usize) -> (r: Vec<u8>)
    requires
        n <= v@.len(),
    ensures
        r@ == v@.skip(n as int),
        r@.len() == v@.len() - n,
{
    let mut r: Vec<u8> = Vec::new();
    let mut i: usize = n;
    while i < v.len()
        invariant
            n <= i <= v@.len(),
            r@.len() == i - n,
            forall|j: int| 0 <= j < i - n ==> r@[j] == v@[j + n],
        decreases v@.len() - i,
    {
        r.push(v[i]);
        i = i + 1;
    }
    proof {
        assert(r@ =~= v@.skip(n as int));
    }
    r
}

/// n zero bytes.
pub fn zero_bytes(n: usize) -> (r: Vec<u8>)
    ensures
        r@.len() == n,
        forall|j: int| 0 <= j < n ==> r@[j] == 0u8,
{
    let mut r: Vec<u8> = Vec::new();
    let mut i: usize = 0;
    while i < n
        invariant
            i <= n,
            r@.len() == i,
            forall|j: int| 0 <= j < i ==> r@[j] == 0u8,
        decreases n - i,
    {
        r.push(0u8);
        i = i + 1;
    }
    r
}

/// A fresh copy of a byte vector.
pub fn copy_bytes(v: &Vec<u8>) -> (r: Vec<u8>)
    ensures
        r@ == v@,
{
    let r = take_bytes(v, v.len());
    proof {
        assert(v@.take(v@.len() as int) =~= v@);
    }
    r
}

/// Equality of two byte vectors, decided bytewise.
pub fn bytes_eq(a: &Vec<u8>, b: &Vec<u8>) -> (r: bool)
    ensures
        r == (a@ == b@),
{
    if a.len() != b.len() {
        proof {
            assert(a@ != b@);
        }
        return false;
    }
    let mut i: usize = 0;
    while i < a.len()
        invariant
            i <= a@.len() == b@.len(),
            forall|j: int| 0 <= j < i ==> a@[j] == b@[j],
        decreases a@.len() - i,
    {
        if a[i] != b[i] {
            proof {
                assert(a@ != b@);
            }
            return false;
        }
        i = i + 1;
    }
    proof {
        assert(a@ =~= b@);
    }
    true
}

/// The concatenation of a sequence of byte strings.
pub open spec fn concat_seqs(s: Seq<Seq<u8>>) -> Seq<u8>
    decreases s.len(),
{
    if s.len() == 0 {
        Seq::empty()
    } else {
        concat_seqs(s.drop_last()) + s.last()
    }
}

/// The views of a sequence of byte vectors.
pub open spec fn views_of(s: Seq<Vec<u8>>) -> Seq<Seq<u8>> {
    Seq::new(s.len(), |i: int| s[i]@)
}

/// A fresh copy of a vector of byte vectors.
pub fn copy_byte_vecs(v: &Vec<Vec<u8>>) -> (r: Vec<Vec<u8>>)
    ensures
        views_of(r@) == views_of(v@),
        r@.len() == v@.len(),
{
    let mut r: Vec<Vec<u8>> = Vec::new();
    let mut i: usize = 0;
    while i < v.len()
        invariant
            i <= v@.len(),
            r@.len() == i,
            forall|j: int| 0 <= j < i ==> (#[trigger] r@[j])@ == v@[j]@,
        decreases v@.len() - i,
    {
        r.push(copy_bytes(&v[i]));
        i = i + 1;
    }
    proof {
        assert(views_of(r@) =~= views_of(v@));
    }
    r
}

/// A fresh copy of the byte vectors with indices [a, b).
pub fn slice_byte_vecs(v: &Vec<Vec<u8>>, a: usize, b: usize) -> (r: Vec<Vec<u8>>)
    requires
        a <= b <= v@.len(),
    ensures
        views_of(r@) == views_of(v@).subrange(a as int, b as int),
        r@.len() == b - a,
{
    let mut r: Vec<Vec<u8>> = Vec::new();
    let mut i: usize = a;
    while i < b
        invariant
            a <= i <= b <= v@.len(),
            r@.len() == i - a,
            forall|j: int| 0 <= j < i - a ==> (#[trigger] r@[j])@ == v@[j + a]@,
        decreases b - i,
    {
        r.push(copy_bytes(&v[i]));
        i = i + 1;
    }
    proof {
        assert(views_of(r@) =~= views_of(v@).subrange(a as int, b as int));
    }
    r
}

/// Appends copies of all byte vectors in src to dst.
pub fn append_byte_vecs(dst: &mut Vec<Vec<u8>>, src: &Vec<Vec<u8>>)
    ensures
        views_of(final(dst)@) == views_of(old(dst)@) + views_of(src@),
        final(dst)@.len() == old(dst)@.len() + src@.len(),
{
    let ghost orig = views_of(old(dst)@);
    let mut i: usize = 0;
    while i < src.len()
        invariant
            i <= src@.len(),
            orig == views_of(old(dst)@),
            dst@.len() == old(dst)@.len() + i,
            views_of(dst@) == orig + views_of(src@).take(i as int),
        decreases src@.len() - i,
    {
        let ghost pre = dst@;
        dst.push(copy_bytes(&src[i]));
        proof {
            let rhs = orig + views_of(src@).take(i + 1);
            assert(pre.len() == orig.len() + i);
            assert forall|q: int|
                0 <= q < dst@.len() implies (#[trigger] views_of(dst@)[q]) == rhs[q] by {
                assert(views_of(dst@)[q] == dst@[q]@);
                if q < pre.len() {
                    assert(dst@[q] == pre[q]);
                    assert(views_of(pre)[q] == pre[q]@);
                    assert(views_of(pre)[q] == (orig + views_of(src@).take(i as int))[q]);
                    if q >= orig.len() {
                        assert((orig + views_of(src@).take(i as int))[q] == views_of(src@).take(
                            i as int,
                        )[q - orig.len()]);
                        assert(views_of(src@).take(i as int)[q - orig.len()] == views_of(
                            src@,
                        )[q - orig.len()]);
                        assert(rhs[q] == views_of(src@).take(i + 1)[q - orig.len()]);
                        assert(views_of(src@).take(i + 1)[q - orig.len()] == views_of(
                            src@,
                        )[q - orig.len()]);
                    }
                } else {
                    assert(q == pre.len());
                    assert(dst@[q]@ == src@[i as int]@);
                    assert(views_of(src@)[i as int] == src@[i as int]@);
                    assert(rhs[q] == views_of(src@).take(i + 1)[i as int]);
                    assert(views_of(src@).take(i + 1)[i as int] == views_of(src@)[i as int]);
                }
            }
            assert(views_of(dst@) =~= rhs);
        }
        i = i + 1;
    }
    proof {
        assert(views_of(src@).take(src@.len() as int) =~= views_of(src@));
    }
}

pub proof fn lemma_concat_push(s: Seq<Seq<u8>>, x: Seq<u8>)
    ensures
        concat_seqs(s.push(x)) == concat_seqs(s) + x,
{
    assert(s.push(x).drop_last() =~= s);
    assert(s.push(x).last() == x);
}

} // verus!
