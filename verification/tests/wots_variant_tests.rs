use signature_benchmark::merkle_aes;
use signature_benchmark::wots_aes;
use signature_benchmark::wots_blake3;
use signature_benchmark::wots_sha;

#[test]
fn wots_aes_chain_test() {
    let start = vec![0u8; 16];
    let mid = wots_aes::chain(&start, 3);
    let end1 = wots_aes::chain(&mid, 7);
    let end2 = wots_aes::chain(&start, 10);
    assert_eq!(end1, end2);
}

#[test]
fn wots_aes_sign_and_verify() {
    let wots = wots_aes::Wots::new();
    let sig = wots.sign(&b"hello world".to_vec());
    assert_eq!(sig.verify(), true);
}

#[test]
fn wots_aes_chain_moves() {
    // One AES-MMO cycle changes the block: the chain is not the identity.
    let start = vec![0u8; 16];
    let one = wots_aes::chain(&start, 1);
    assert_ne!(one, start);
    // The SipHash public key digest has the block width.
    let wots = wots_aes::Wots::from_seed(vec![7u8; 16]);
    assert_eq!(wots.pk.len(), 16);
}

#[test]
fn wots_blake3_sign_and_verify() {
    let wots = wots_blake3::Wots::new();
    let sig = wots.sign(&b"hello world".to_vec());
    assert_eq!(sig.verify(&b"hello world".to_vec()), true);
    assert_eq!(sig.verify(&b"hello".to_vec()), false);
    assert_eq!(sig.verify(&b"hello world 123".to_vec()), false);
    assert_eq!(sig.verify(&b"123 hello world".to_vec()), false);
}

#[test]
fn wots_blake3_hash_chain_test() {
    let start = vec![0u8; 32];
    let mid = wots_blake3::chain(&start, 3);
    let end1 = wots_blake3::chain(&mid, 7);
    let end2 = wots_blake3::chain(&start, 10);
    let end3 = wots_blake3::chain(&end2, 0);
    assert_eq!(end1, end2);
    assert_eq!(end1, end3);
    assert_ne!(end1, start);
    assert_ne!(end1, mid);
    assert_ne!(start, mid);
}

#[test]
fn wots_blake3_base_w_conversion() {
    for t in 0..=255u8 {
        let bw = wots_blake3::base_w(t);
        let mut sum = 0usize;
        let mut value = 1usize;
        for digit in bw.iter().rev() {
            sum += (*digit as usize) * value;
            value *= wots_blake3::W;
        }
        assert_eq!(sum, t as usize);
    }
}

#[test]
fn wots_sha_chain_test() {
    let start = vec![0u8; 16];
    let mid = wots_sha::chain(&start, 3);
    let end1 = wots_sha::chain(&mid, 7);
    let end2 = wots_sha::chain(&start, 10);
    assert_eq!(end1, end2);
}

#[test]
fn wots_sha_sign_and_verify() {
    let wots = wots_sha::Wots::new();
    let sig = wots.sign(&b"hello world".to_vec());
    assert_eq!(sig.verify(), true);
}

#[test]
fn wots_sha_tamper_rejects() {
    let wots = wots_sha::Wots::from_seed(vec![9u8; 16]);
    let mut sig = wots.sign(&b"hello world".to_vec());
    assert_eq!(sig.verify(), true);
    sig.msg_hash[0] ^= 1;
    assert_eq!(sig.verify(), false);
}

#[test]
fn merkle_aes_sign_and_verify() {
    let merkle = merkle_aes::Merkle::new();
    let sig = merkle.sign(&b"hello world".to_vec());
    assert_eq!(sig.verify(&b"hello world".to_vec(), &merkle.pk), true);
    assert_eq!(sig.verify(&b"hello".to_vec(), &merkle.pk), false);
}
