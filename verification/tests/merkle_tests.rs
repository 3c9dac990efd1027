use signature_benchmark::merkle::{
    calculate_leaf, calculate_root_and_cache, hash2, UpdatableMerkleKeypair,
};

#[test]
fn merkle_sign_and_verify() {
    let mut merkle = UpdatableMerkleKeypair::new(7, 7, false);
    let sig = merkle.sign(&b"hello".to_vec());
    assert_eq!(sig.verify(&b"hello".to_vec(), &merkle.pk), true);
    assert_eq!(sig.verify(&b"world".to_vec(), &merkle.pk), false);

    let sig = merkle.sign(&b"world".to_vec());
    assert_eq!(sig.verify(&b"world".to_vec(), &merkle.pk), true);
    assert_eq!(sig.verify(&b"hello".to_vec(), &merkle.pk), false);

    let sig = merkle.sign(&b"".to_vec());
    assert_eq!(sig.verify(&b"".to_vec(), &merkle.pk), true);
    assert_eq!(sig.verify(&b" ".to_vec(), &merkle.pk), false);
}

#[test]
fn merkle_all_wots_keys() {
    let mut merkle = UpdatableMerkleKeypair::new(7, 7, false);
    for _ in 0..(1usize << merkle.height) {
        let sig = merkle.sign(&b"hello".to_vec());
        assert_eq!(sig.verify(&b"hello".to_vec(), &merkle.pk), true);
    }
}

#[test]
fn server_side_caching() {
    let mut merkle = UpdatableMerkleKeypair::new(3, 3, true);
    for i in 0..(1usize << merkle.height) {
        let sig = merkle.sign(&b"hello".to_vec());
        assert_eq!(sig.verify(&b"hello".to_vec(), &merkle.cache[i]), true);
    }
}

#[test]
fn merkle_no_wots_keypair_reuse() {
    let mut merkle = UpdatableMerkleKeypair::new(7, 7, false);
    let mut indices: Vec<u32> = Vec::new();
    let mut pkhs: Vec<Vec<u8>> = Vec::new();

    for _ in 0..(1usize << merkle.height) {
        let sig = merkle.sign(&b"hello world".to_vec());
        assert_eq!(indices.iter().any(|&i| i == sig.index), false);
        assert_eq!(pkhs.iter().any(|p| *p == sig.wots_sig.pk_hash), false);
        indices.push(sig.index);
        pkhs.push(sig.wots_sig.pk_hash.clone());
    }
}

#[test]
fn update_and_reconciliate() {
    let mut merkle = UpdatableMerkleKeypair::new(7, 7, false);
    let sig1 = merkle.sign(&b"hello".to_vec());
    assert_eq!(sig1.verify(&b"hello".to_vec(), &merkle.pk), true);
    let sig2 = merkle.sign(&b"world".to_vec());
    assert_eq!(sig2.verify(&b"world".to_vec(), &merkle.pk), true);

    // Old signatures become invalid under the new pk root.
    merkle.reconciliate();
    assert_eq!(sig1.verify(&b"hello".to_vec(), &merkle.pk), false);
    assert_eq!(sig2.verify(&b"world".to_vec(), &merkle.pk), false);

    // The cache shifted as expected.
    let pkh = calculate_leaf(&merkle.sk_seed, 2);
    assert_eq!(merkle.cache[0], pkh);

    // ...but new signatures are valid again.
    let sig1 = merkle.sign(&b"hello".to_vec());
    let sig2 = merkle.sign(&b"world".to_vec());
    assert_eq!(sig1.verify(&b"hello".to_vec(), &merkle.pk), true);
    assert_eq!(sig2.verify(&b"world".to_vec(), &merkle.pk), true);
}

#[test]
fn full_update() {
    let mut merkle = UpdatableMerkleKeypair::new(2, 2, false);

    for _ in 0..(1usize << merkle.height) {
        let sig = merkle.sign(&b"hello".to_vec());
        assert_eq!(sig.verify(&b"hello".to_vec(), &merkle.pk), true);
    }

    merkle.reconciliate();

    let sig = merkle.sign(&b"hello".to_vec());
    assert_eq!(sig.verify(&b"hello".to_vec(), &merkle.pk), true);
}

#[test]
fn merkle_root_calculation() {
    let leaves: Vec<Vec<u8>> =
        vec![vec![42u8; 16], vec![31u8; 16], vec![93u8; 16], vec![57u8; 16]];

    let (inner1, _) = calculate_root_and_cache(leaves[..2].to_vec(), 0);
    assert_eq!(inner1, hash2(&vec![42u8; 16], &vec![31u8; 16]));

    let (inner2, _) = calculate_root_and_cache(leaves[2..].to_vec(), 0);
    assert_eq!(inner2, hash2(&vec![93u8; 16], &vec![57u8; 16]));

    let (root, _) = calculate_root_and_cache(leaves.to_vec(), 0);
    assert_eq!(root, hash2(&inner1, &inner2));
}

#[test]
fn merkle_low_caching_level() {
    // A partially cached tree signs and verifies just like a fully
    // cached one.
    let mut merkle = UpdatableMerkleKeypair::new(3, 1, false);
    for _ in 0..4 {
        let sig = merkle.sign(&b"hi".to_vec());
        assert_eq!(sig.verify(&b"hi".to_vec(), &merkle.pk), true);
        assert_eq!(sig.verify(&b"ho".to_vec(), &merkle.pk), false);
    }
}
