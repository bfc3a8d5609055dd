use hypercube_signatures::aggregate::{
    get_tl1c_d0, get_tsl_layer, AggregateError, SignatureBundle, SignatureSet,
};
use hypercube_signatures::hash::{hash_chain, HashFunction, SHA256, SHA3_256};
use hypercube_signatures::random::{DeterministicRng, SecureRandom};
use hypercube_signatures::tsl::{TSLConfig, TSL};
use hypercube_signatures::wots::{WotsError, WotsKeypair, WotsParams, WotsSecretKey};

#[test]
fn mod_test_wots_params() {
    let params = WotsParams::new(4, 64);
    assert_eq!(params.w(), 4);
    assert_eq!(params.chains(), 64);
    assert_eq!(params.max_hash_iterations(), 3);
}

#[test]
fn mod_test_wots_keygen() {
    let params = WotsParams::new(4, 8);
    let keypair = WotsKeypair::generate(&params).unwrap();
    assert_eq!(keypair.public_key().chains().len(), 8);
    assert_eq!(keypair.secret_key().chains().len(), 8);
    for i in 0..8 {
        assert_eq!(keypair.public_key().chains()[i].len(), 32);
        assert_eq!(keypair.secret_key().chains()[i].len(), 32);
    }
}

#[test]
fn mod_test_wots_sign_verify() {
    let params = WotsParams::new(4, 8);
    let keypair = WotsKeypair::generate(&params).unwrap();
    let message_digest = vec![1, 2, 0, 3, 1, 2, 0, 3];
    let signature = keypair.sign_raw(&message_digest);
    assert!(keypair.public_key().verify(&message_digest, &signature).unwrap());
}

#[test]
fn mod_test_wots_wrong_message() {
    let params = WotsParams::new(4, 8);
    let keypair = WotsKeypair::generate(&params).unwrap();
    let message_digest = vec![1, 2, 0, 3, 1, 2, 0, 3];
    let wrong_message = vec![0, 2, 0, 3, 1, 2, 0, 3];
    let signature = keypair.sign_raw(&message_digest);
    assert!(!keypair.public_key().verify(&wrong_message, &signature).unwrap());
}

#[test]
fn mod_test_wots_signature_size() {
    let params = WotsParams::new(4, 64);
    let keypair = WotsKeypair::generate(&params).unwrap();
    let message_digest = vec![2; 64];
    let signature = keypair.sign_raw(&message_digest);
    assert_eq!(signature.chains().len(), 64);
    for chain in signature.chains() {
        assert_eq!(chain.len(), 32);
    }
}

#[test]
fn mod_test_wots_hash_chain_computation() {
    let hasher = SHA256::new();
    let input = vec![0x42; 32];
    let h0 = hash_chain(&hasher, &input, 0);
    assert_eq!(h0, input);
    let h1 = hash_chain(&hasher, &input, 1);
    assert_eq!(h1, hasher.hash(&input));
    let h3 = hash_chain(&hasher, &input, 3);
    let temp1 = hasher.hash(&input);
    let temp2 = hasher.hash(&temp1);
    assert_eq!(h3, hasher.hash(&temp2));
}

#[test]
fn mod_test_wots_deterministic_signing() {
    let params = WotsParams::new(4, 8);
    let keypair = WotsKeypair::generate(&params).unwrap();
    let message_digest = vec![1, 2, 0, 3, 1, 2, 0, 3];
    let sig1 = keypair.sign_raw(&message_digest);
    let sig2 = keypair.sign_raw(&message_digest);
    assert_eq!(sig1.chains(), sig2.chains());
}

#[test]
fn mod_test_wots_security_property() {
    let params = WotsParams::new(4, 4);
    let keypair = WotsKeypair::generate(&params).unwrap();
    let msg1 = vec![0, 1, 2, 3];
    let msg2 = vec![1, 2, 3, 0];
    let sig1 = keypair.sign_raw(&msg1);
    let sig2 = keypair.sign_raw(&msg2);
    assert!(keypair.public_key().verify(&msg1, &sig1).unwrap());
    assert!(keypair.public_key().verify(&msg2, &sig2).unwrap());
}

fn deterministic_keypair(w: usize, chains: usize) -> WotsKeypair {
    let mut rng = DeterministicRng::new(b"wots test seed");
    let mut sk = Vec::new();
    for _ in 0..chains {
        sk.push(rng.random_bytes(32));
    }
    WotsKeypair::from_secret_key(WotsSecretKey::from_chains(sk), &WotsParams::new(w, chains))
}

#[test]
fn wots_flipped_digit_fails() {
    let keypair = deterministic_keypair(4, 8);
    let digits = vec![1, 2, 0, 3, 1, 2, 0, 3];
    let sig = keypair.sign_raw(&digits);
    assert!(keypair.public_key().verify(&digits, &sig).unwrap());
    let mut flipped = digits.clone();
    flipped[0] = 2;
    assert!(!keypair.public_key().verify(&flipped, &sig).unwrap());
}

#[test]
fn wots_rejects_malformed_input() {
    let keypair = deterministic_keypair(4, 4);
    let sig = keypair.sign_raw(&[0, 1, 2, 3]);
    assert_eq!(keypair.public_key().verify(&[0, 1, 2], &sig), Err(WotsError::LengthMismatch));
    assert_eq!(
        keypair.public_key().verify(&[0, 1, 2, 4], &sig),
        Err(WotsError::DigitOutOfRange { position: 3, value: 4 })
    );
}

#[test]
fn wots_public_key_is_full_chain() {
    let keypair = deterministic_keypair(5, 3);
    let hasher = SHA256::new();
    for i in 0..3 {
        let expected = hash_chain(&hasher, &keypair.secret_key().chains()[i], 4);
        assert_eq!(keypair.public_key().chains()[i], expected);
        assert_ne!(keypair.public_key().chains()[i], keypair.secret_key().chains()[i]);
    }
}

#[test]
fn wots_signs_an_encoding() {
    let tsl = TSL::new(TSLConfig::with_params(4, 8, 6));
    let keypair = deterministic_keypair(4, 8);
    let sig = keypair.sign(b"message", &tsl);
    let v = tsl.encode(b"message", &[0u8; 32]).unwrap();
    let digits: Vec<usize> = v.components().iter().map(|&x| x - 1).collect();
    assert!(keypair.public_key().verify(&digits, &sig).unwrap());
}

#[test]
fn hash_chain_composes() {
    let hasher = SHA256::new();
    let x = b"chain input".to_vec();
    let a = hash_chain(&hasher, &x, 5);
    let b = hash_chain(&hasher, &hash_chain(&hasher, &x, 2), 3);
    assert_eq!(a, b);
}

#[test]
fn sha256_known_digest() {
    let d = SHA256::new().hash(b"abc");
    assert_eq!(d[0..4].to_vec(), vec![0xba, 0x78, 0x16, 0xbf]);
    assert_eq!(SHA256::new().output_size(), 32);
}

#[test]
fn sha3_known_digest() {
    let d = SHA3_256::new().hash(b"abc");
    assert_eq!(d[0..4].to_vec(), vec![0x3a, 0x98, 0x5d, 0xa7]);
    assert_eq!(d.len(), 32);
}

#[test]
fn deterministic_rng_is_reproducible() {
    let mut a = DeterministicRng::new(b"seed");
    let mut b = DeterministicRng::new(b"seed");
    let x = a.random_bytes(40);
    assert_eq!(x.len(), 40);
    assert_eq!(x, b.random_bytes(40));
    let mut input = b"seed".to_vec();
    input.extend_from_slice(&0u64.to_le_bytes());
    assert_eq!(x[..32].to_vec(), SHA256::new().hash(&input));
    assert_ne!(a.random_bytes(8), x[..8].to_vec());
}

#[test]
fn test_signature_set_basic() {
    let mut set = SignatureSet::new();
    assert!(set.is_empty());
    set.set_message(b"test message".to_vec());
    assert_eq!(set.len(), 0);
}

#[test]
fn test_signature_set_add() {
    let mut set = SignatureSet::new();
    set.set_message(b"test message".to_vec());
    let params = WotsParams::new(16, 32);
    let keypair = WotsKeypair::generate(&params).unwrap();
    let message_digest = vec![5; 32];
    let signature = keypair.sign_raw(&message_digest);
    let result = set.add_signature(signature, keypair.public_key().clone());
    assert!(result.is_ok());
    assert_eq!(set.len(), 1);
}

#[test]
fn signature_set_rejects_mismatched_pairs() {
    let keypair = deterministic_keypair(4, 4);
    let other = deterministic_keypair(4, 3);
    let mut set = SignatureSet::new();
    let sig = keypair.sign_raw(&[0, 1, 2, 3]);
    assert_eq!(
        set.add_signature(sig.clone(), other.public_key().clone()),
        Err(AggregateError::InvalidSignature(0))
    );
    assert!(set.add_signature(sig.clone(), keypair.public_key().clone()).is_ok());
    assert_eq!(set.verify_all(), Ok(true));
    let bundle = set.to_bundle().unwrap();
    assert_eq!(bundle.len(), 1);
    assert!(matches!(
        SignatureBundle::new(vec![sig], vec![], vec![]),
        Err(AggregateError::MismatchedCount)
    ));
}

#[test]
fn test_encoding_functions() {
    let w = 16;
    let v = 32;
    let tsl_layer = get_tsl_layer(w, v);
    assert!(tsl_layer > 0 && tsl_layer <= v * (w - 1));
    let tl1c_d0 = get_tl1c_d0(w, v);
    assert!(tl1c_d0 > 0 && tl1c_d0 <= v * (w - 1));
}

#[test]
fn generated_keys_differ() {
    let params = WotsParams::new(4, 2);
    let a = WotsKeypair::generate(&params).unwrap();
    let b = WotsKeypair::generate(&params).unwrap();
    assert_ne!(a.secret_key().chains()[0], b.secret_key().chains()[0]);
    assert_ne!(a.secret_key().chains()[0], vec![0u8; 32]);
}
