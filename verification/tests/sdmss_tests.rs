use signature_benchmark::sdmss::Keypair;

#[test]
fn sdmss_sign_and_verify() {
    let mut merkle = Keypair::new();
    let dpk = merkle.deep.pk.clone();

    let sig = merkle.sign(&b"hello".to_vec(), 0, 0);
    assert_eq!(sig.verify(&b"hello".to_vec(), &merkle.shallow.cache[0], &dpk), true);
    assert_eq!(sig.verify(&b"world".to_vec(), &merkle.shallow.cache[0], &dpk), false);

    let sig = merkle.sign(&b"world".to_vec(), 1, 0);
    assert_eq!(sig.verify(&b"world".to_vec(), &merkle.shallow.cache[0], &dpk), true);
    assert_eq!(sig.verify(&b"hello".to_vec(), &merkle.shallow.cache[0], &dpk), false);

    let sig = merkle.sign(&b"".to_vec(), 2, 0);
    assert_eq!(sig.verify(&b"".to_vec(), &merkle.shallow.cache[0], &dpk), true);
    assert_eq!(sig.verify(&b" ".to_vec(), &merkle.shallow.cache[0], &dpk), false);
}

#[test]
fn sdmss_all_wots_keys() {
    let mut merkle = Keypair::new();
    let spk = merkle.shallow.cache.clone();
    let dpk = merkle.deep.pk.clone();

    // Use up all keys in the shallow subtree.
    for i in 0..(1usize << merkle.shallow.height) {
        let message = format!("hello {}", i).into_bytes();
        let sig = merkle.sign(&message, 0, 0);
        assert_eq!(sig.verify(&message, &spk[i], &dpk), true);
    }

    // Use up all keys in the deep subtree.
    for i in 0..(1usize << merkle.deep.height) {
        let message = format!("hello {}", i).into_bytes();
        let sig = merkle.sign(&message, 0, 0);
        assert_eq!(sig.verify(&message, &spk[0], &dpk), true);
    }
}

#[test]
fn update() {
    let mut merkle = Keypair::new();
    let spk = merkle.shallow.cache.clone();
    let dpk = merkle.deep.pk.clone();

    // Use up all keys in the shallow subtree.
    for i in 0..(1usize << merkle.shallow.height) {
        let message = format!("old {}", i).into_bytes();
        let sig = merkle.sign(&message, 0, 0);
        assert_eq!(sig.verify(&message, &spk[i], &dpk), true);
    }

    // Use up all keys in the deep subtree.
    for i in 0..(1usize << merkle.deep.height) {
        let message = format!("old {}", i).into_bytes();
        let sig = merkle.sign(&message, 0, 0);
        assert_eq!(sig.verify(&message, &spk[0], &dpk), true);
    }

    let ctr_s = merkle.shallow.ctr_next;
    let ctr_d = merkle.deep.ctr_next;

    // Use up all keys in the *new* shallow subtree.
    for i in 0..(1usize << merkle.shallow.height) {
        let message = format!("new {}", i).into_bytes();
        let sig = merkle.sign(&message, ctr_s, ctr_d);
        let spk = merkle.shallow.cache.clone();
        let dpk = merkle.deep.pk.clone();
        assert_eq!(sig.verify(&message, &spk[i], &dpk), true);
    }

    // Use up all keys in the *new* deep subtree.
    for i in 0..(1usize << merkle.deep.height) {
        let message = format!("new {}", i).into_bytes();
        let sig = merkle.sign(&message, ctr_s, ctr_d);
        let spk = merkle.shallow.cache.clone();
        let dpk = merkle.deep.pk.clone();
        assert_eq!(sig.verify(&message, &spk[0], &dpk), true);
    }
}

#[test]
fn sdmss_no_wots_keypair_reuse() {
    let mut merkle = Keypair::new();
    let mut shallow_indices: Vec<u32> = Vec::new();
    let mut deep_indices: Vec<u32> = Vec::new();
    let mut pkhs: Vec<Vec<u8>> = Vec::new();

    // Use up all keys in the shallow subtree.
    for _ in 0..(1usize << merkle.shallow.height) {
        let sd_sig = merkle.sign(&b"hello world".to_vec(), 0, 0);
        assert_eq!(sd_sig.deep, false);
        let sig = sd_sig.merkle_sig;
        assert_eq!(shallow_indices.iter().any(|&i| i == sig.index), false);
        assert_eq!(pkhs.iter().any(|p| *p == sig.wots_sig.pk_hash), false);
        shallow_indices.push(sig.index);
        pkhs.push(sig.wots_sig.pk_hash.clone());
    }

    // Use up all keys in the deep subtree.
    for _ in 0..(1usize << merkle.deep.height) {
        let sd_sig = merkle.sign(&b"hello world".to_vec(), 0, 0);
        assert_eq!(sd_sig.deep, true);
        let sig = sd_sig.merkle_sig;
        assert_eq!(deep_indices.iter().any(|&i| i == sig.index), false);
        assert_eq!(pkhs.iter().any(|p| *p == sig.wots_sig.pk_hash), false);
        deep_indices.push(sig.index);
        pkhs.push(sig.wots_sig.pk_hash.clone());
    }
}
