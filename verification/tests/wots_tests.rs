use signature_benchmark::wots::{base_w, chain, Wots, LOG2_W, W};

#[test]
fn wots_sign_and_verify() {
    let wots = Wots::new();
    let sig = wots.sign(&b"hello world".to_vec());
    assert_eq!(sig.verify(&b"hello world".to_vec()), true);
    assert_eq!(sig.verify(&b"hello".to_vec()), false);
    assert_eq!(sig.verify(&b"hello world 123".to_vec()), false);
    assert_eq!(sig.verify(&b"123 hello world".to_vec()), false);
}

#[test]
fn wots_hash_chain_test() {
    let start = vec![0u8; 16];
    let zero_seed = vec![0u8; 16];
    let mid = chain(&start, 3, 0, 0, &zero_seed);
    let end1 = chain(&mid, 7, 0, 3, &zero_seed);
    let end2 = chain(&start, 10, 0, 0, &zero_seed);
    let end3 = chain(&end2, 0, 0, 0, &zero_seed);
    assert_eq!(end1, end2);
    assert_eq!(end1, end3);
    assert_ne!(end1, start);
    assert_ne!(end1, mid);
    assert_ne!(start, mid);
}

#[test]
fn wots_base_w_conversion() {
    for t in 0..=255u8 {
        let bw = base_w(&vec![t], (8 + LOG2_W - 1) / LOG2_W);
        let mut sum = 0usize;
        let mut value = 1usize;
        for digit in bw.iter().rev() {
            sum += (*digit as usize) * value;
            value *= W;
        }
        assert_eq!(sum, t as usize);
    }
}

#[test]
fn wots_fixed_seed_round_trip() {
    let wots = Wots::from_seed(vec![0u8; 16]);
    let sig = wots.sign(&b"hello world".to_vec());
    assert_eq!(sig.verify(&b"hello world".to_vec()), true);
    assert_eq!(sig.verify(&b"hello".to_vec()), false);
    assert_eq!(sig.verify(&b"hello world 123".to_vec()), false);
}

#[test]
fn wots_tamper_rejects() {
    let wots = Wots::from_seed(vec![3u8; 16]);
    let sig = wots.sign(&b"tamper me".to_vec());
    assert_eq!(sig.verify(&b"tamper me".to_vec()), true);

    // A single flipped byte in the message is rejected.
    let mut msg = b"tamper me".to_vec();
    msg[0] ^= 1;
    assert_eq!(sig.verify(&msg), false);

    // A single flipped byte in a signature block is rejected.
    let mut bad = sig.clone();
    bad.signature[0][0] ^= 1;
    assert_eq!(bad.verify(&b"tamper me".to_vec()), false);

    // A single flipped byte in the public key hash is rejected.
    let mut bad = sig.clone();
    bad.pk_hash[5] ^= 0x80;
    assert_eq!(bad.verify(&b"tamper me".to_vec()), false);

    // A single flipped byte in the public seed is rejected.
    let mut bad = sig.clone();
    bad.pk_seed[5] ^= 0x80;
    assert_eq!(bad.verify(&b"tamper me".to_vec()), false);

    // A signature with the wrong number of blocks is rejected.
    let mut bad = sig.clone();
    bad.signature.pop();
    assert_eq!(bad.verify(&b"tamper me".to_vec()), false);
}

#[test]
fn wots_base_w_exact_digits() {
    let bw = base_w(&vec![0xAB], 2);
    assert_eq!(bw, vec![0x0A, 0x0B]);
}
