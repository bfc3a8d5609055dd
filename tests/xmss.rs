use hypercube_signatures::xmss::{WOTSPlusKeypair, WOTSPlusParams, XMSSError, XMSSKeypair, XMSSParams, XMSSPrivateKeyState, XMSSSignature};

#[test]
fn keypair_test_xmss_keypair_generation() {
    let params = XMSSParams::new(4, 67, 16);
    let keypair = XMSSKeypair::generate(&params).unwrap();
    assert_eq!(keypair.private_key().leaf_index(), 0);
    assert_eq!(keypair.public_key().root().len(), 32);
    assert_eq!(keypair.public_key().public_seed().len(), 32);
}

#[test]
fn keypair_test_xmss_sign_and_verify_single_message() {
    let params = XMSSParams::new(4, 67, 16);
    let mut keypair = XMSSKeypair::generate(&params).unwrap();
    let message = b"Hello, XMSS!";
    let signature = keypair.sign(message).unwrap();
    assert!(keypair.public_key().verify(message, &signature, keypair.params()));
    assert_eq!(keypair.private_key().leaf_index(), 1);
}

#[test]
fn keypair_test_xmss_sign_multiple_messages() {
    let params = XMSSParams::new(4, 67, 16);
    let mut keypair = XMSSKeypair::generate(&params).unwrap();
    let max_signatures = 1 << params.tree_height();
    for i in 0..max_signatures {
        let message = format!("Message {}", i);
        let signature = keypair.sign(message.as_bytes()).unwrap();
        assert!(keypair.public_key().verify(message.as_bytes(), &signature, keypair.params()));
        assert_eq!(keypair.private_key().leaf_index(), i + 1);
    }
}

#[test]
#[should_panic(expected = "XMSS key exhausted")]
fn keypair_test_xmss_key_exhaustion() {
    let params = XMSSParams::new(2, 67, 16);
    let mut keypair = XMSSKeypair::generate(&params).unwrap();
    let max_signatures = 1 << params.tree_height();
    for i in 0..=max_signatures {
        let message = format!("Message {}", i);
        keypair.sign(message.as_bytes()).expect("XMSS key exhausted");
    }
}

#[test]
fn keypair_test_xmss_deterministic_key_generation() {
    let params = XMSSParams::new(4, 67, 16);
    let seed = [42u8; 96];
    let keypair1 = XMSSKeypair::generate_from_seed(&params, &seed);
    let keypair2 = XMSSKeypair::generate_from_seed(&params, &seed);
    assert_eq!(keypair1.public_key().root(), keypair2.public_key().root());
    assert_eq!(keypair1.public_key().public_seed(), keypair2.public_key().public_seed());
}

#[test]
fn keypair_test_xmss_state_persistence() {
    let params = XMSSParams::new(4, 67, 16);
    let mut keypair = XMSSKeypair::generate(&params).unwrap();
    keypair.sign(b"Message 1").unwrap();
    keypair.sign(b"Message 2").unwrap();
    let state = keypair.private_key().export_state();
    let mut restored_keypair = XMSSKeypair::restore(&params, state);
    assert_eq!(restored_keypair.private_key().leaf_index(), 2);
    let signature = restored_keypair.sign(b"Message 3").unwrap();
    assert!(restored_keypair.public_key().verify(b"Message 3", &signature, restored_keypair.params()));
}

#[test]
fn signature_test_xmss_signature_serialization() {
    let params = XMSSParams::new(4, 67, 16);
    let mut keypair = XMSSKeypair::generate(&params).unwrap();
    let message = b"Test message";
    let signature = keypair.sign(message).unwrap();
    let serialized = signature.to_bytes();
    let deserialized = XMSSSignature::from_bytes(&serialized, &params).unwrap();
    assert!(keypair.public_key().verify(message, &deserialized, keypair.params()));
}

#[test]
fn signature_test_xmss_signature_components() {
    let params = XMSSParams::new(4, 67, 16);
    let mut keypair = XMSSKeypair::generate(&params).unwrap();
    let signature = keypair.sign(b"Component test").unwrap();
    assert_eq!(signature.leaf_index(), 0);
    assert_eq!(signature.randomness().len(), 32);
    assert_eq!(signature.auth_path().nodes().len(), 4);
    assert!(signature.wots_signature().chains().len() > 0);
}

fn seed_bundle() -> Vec<u8> {
    (0..96u8).collect()
}

#[test]
fn xmss_sixteen_signatures_then_refusal() {
    let params = XMSSParams::new(4, 67, 16);
    let mut a = XMSSKeypair::generate_from_seed(&params, &seed_bundle());
    let mut b = XMSSKeypair::generate_from_seed(&params, &seed_bundle());
    assert_eq!(a.public_key().root(), b.public_key().root());
    for i in 0..16 {
        let m = format!("M_{}", i);
        let sa = a.sign(m.as_bytes()).unwrap();
        let sb = b.sign(m.as_bytes()).unwrap();
        assert!(a.public_key().verify(m.as_bytes(), &sa, &params));
        assert_eq!(sa.to_bytes(), sb.to_bytes());
    }
    assert!(a.sign(b"M_16").is_err());
    assert_eq!(a.private_key().leaf_index(), 16);
}

#[test]
fn xmss_export_and_restore() {
    let params = XMSSParams::new(4, 67, 16);
    let mut kp = XMSSKeypair::generate_from_seed(&params, &seed_bundle());
    let s0 = kp.sign(b"M_0").unwrap();
    let state = kp.private_key().export_state();
    let mut restored = XMSSKeypair::restore(&params, state);
    let s1 = restored.sign(b"M_1").unwrap();
    assert!(kp.public_key().verify(b"M_0", &s0, &params));
    assert!(restored.public_key().verify(b"M_1", &s1, &params));
    assert_eq!(restored.private_key().leaf_index(), 2);
}

#[test]
fn xmss_rejects_tampering() {
    let params = XMSSParams::new(3, 16, 8);
    let mut kp = XMSSKeypair::generate_from_seed(&params, &seed_bundle());
    let sig = kp.sign(b"hello").unwrap();
    assert!(kp.public_key().verify(b"hello", &sig, &params));
    assert!(!kp.public_key().verify(b"hellp", &sig, &params));
    let mut bytes = sig.to_bytes();
    bytes[40] ^= 1;
    let forged = XMSSSignature::from_bytes(&bytes, &params).unwrap();
    assert!(!kp.public_key().verify(b"hello", &forged, &params));
    assert!(XMSSSignature::from_bytes(&bytes[1..], &params).is_err());
}

#[test]
fn xmss_signature_wire_format() {
    let params = XMSSParams::new(2, 16, 8);
    let mut kp = XMSSKeypair::generate_from_seed(&params, &seed_bundle());
    kp.sign(b"a").unwrap();
    let sig = kp.sign(b"b").unwrap();
    let bytes = sig.to_bytes();
    assert_eq!(bytes.len(), 4 + 32 + 8 * 32 + 2 * 32);
    assert_eq!(bytes[0..4].to_vec(), vec![0, 0, 0, 1]);
    assert_eq!(bytes[4..36].to_vec(), sig.randomness().to_vec());
}

#[test]
fn xmss_with_hypercube_encoding() {
    let params = XMSSParams::new_with_hypercube(2, 128, true).unwrap();
    assert_eq!(params.winternitz_parameter(), 86);
    assert_eq!(params.len(), 25);
    let mut kp = XMSSKeypair::generate_from_seed(&params, &seed_bundle());
    let sig = kp.sign(b"hypercube").unwrap();
    assert!(kp.public_key().verify(b"hypercube", &sig, &params));
    assert!(!kp.public_key().verify(b"hypercubf", &sig, &params));
}

#[test]
fn xmss_state_persists_in_136_bytes() {
    let params = XMSSParams::new(2, 16, 8);
    let mut kp = XMSSKeypair::generate_from_seed(&params, &seed_bundle());
    kp.sign(b"x").unwrap();
    let state = kp.private_key().export_state();
    let bytes = state.to_bytes();
    assert_eq!(bytes.len(), 136);
    assert_eq!(bytes[0..8].to_vec(), vec![0, 0, 0, 0, 0, 0, 0, 1]);
    assert_eq!(bytes[8..40].to_vec(), (0..32u8).collect::<Vec<u8>>());
    let back = XMSSPrivateKeyState::from_bytes(&bytes).unwrap();
    assert_eq!(back.leaf_index, 1);
    assert_eq!(back.root, state.root);
    let mut restored = XMSSKeypair::restore(&params, back);
    let sig = restored.sign(b"y").unwrap();
    assert_eq!(sig.leaf_index(), 1);
    assert!(restored.public_key().verify(b"y", &sig, &params));
    assert_eq!(
        XMSSPrivateKeyState::from_bytes(&bytes[..135]).err(),
        Some(XMSSError::InvalidLength { expected: 136, actual: 135 })
    );
}

#[test]
fn xmss_refuses_a_regressed_state() {
    let params = XMSSParams::new(2, 16, 8);
    let mut kp = XMSSKeypair::generate_from_seed(&params, &seed_bundle());
    let old_state = kp.private_key().export_state();
    kp.sign(b"first").unwrap();
    let recorded = kp.private_key().leaf_index();
    assert!(matches!(
        XMSSKeypair::restore_checked(&params, old_state, recorded),
        Err(XMSSError::StateRegression { recorded: 1, attempted: 0 })
    ));
    let current = kp.private_key().export_state();
    let resumed = XMSSKeypair::restore_checked(&params, current, recorded).unwrap();
    assert_eq!(resumed.private_key().leaf_index(), 1);
}

#[test]
fn wots_plus_keypair_signs_digest_digits() {
    let params = XMSSParams::new(2, 16, 8);
    let wp = WOTSPlusParams::from_xmss_params(&params);
    let kp = wp.generate_keypair(&[3u8; 32], &[0, 0, 0, 1]);
    let plus = WOTSPlusKeypair::new(kp, params);
    let digest = [0x21u8; 32];
    let sig = plus.sign(&digest);
    // w = 16: digits are the 4-bit groups, low bits first: 0x21 -> 1, 2.
    let digits = vec![1, 2, 1, 2, 1, 2, 1, 2];
    assert!(plus.keypair.public_key().verify(&digits, &sig).unwrap());
    assert_eq!(plus.public_key_hash().len(), 32);
}
