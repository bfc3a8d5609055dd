use hypercube_signatures::counting::binomial;
use hypercube_signatures::hash::{HashFunction, SHA256};
use hypercube_signatures::hypercube::Hypercube;
use hypercube_signatures::mapping::{calculate_layer_size, vertex_to_integer};
use hypercube_signatures::tl1c::TL1CConfig;
use hypercube_signatures::tlfc::TLFCConfig;
use hypercube_signatures::tree::MerkleTree;
use hypercube_signatures::tsl::{TSLConfig, TSL};
use hypercube_signatures::xmss::XMSSParams;
use num_bigint::BigUint;

#[test]
fn test_binomial() {
    assert_eq!(binomial(5, 0), BigUint::from(1u32));
    assert_eq!(binomial(5, 1), BigUint::from(5u32));
    assert_eq!(binomial(5, 2), BigUint::from(10u32));
    assert_eq!(binomial(5, 3), BigUint::from(10u32));
    assert_eq!(binomial(5, 4), BigUint::from(5u32));
    assert_eq!(binomial(5, 5), BigUint::from(1u32));
    assert_eq!(binomial(5, 6), BigUint::from(0u32));
}

#[test]
fn binomial_large_arguments() {
    // C(100, 50) = 100891344545564193334812497256
    let expected: BigUint = "100891344545564193334812497256".parse().unwrap();
    assert_eq!(binomial(100, 50), expected);
    assert_eq!(binomial(100, 97), BigUint::from(161700u32));
}

#[test]
fn tsl_test_tsl_config_creation() {
    let config = TSLConfig::new(128).unwrap();
    assert!(config.w() > 0);
    assert!(config.v() > 0);
    assert!(config.d0() > 0);
    let layer_size_big = calculate_layer_size(config.d0(), config.v(), config.w()).unwrap();
    assert!(layer_size_big > BigUint::from(0u32));
}

#[test]
fn tsl_test_tsl_parameter_selection() {
    let config_128 = TSLConfig::new(128).unwrap();
    assert_eq!(config_128.v(), 25);
    assert_eq!(config_128.w(), 86);
    let config_160 = TSLConfig::new(160).unwrap();
    assert_eq!(config_160.v(), 35);
    assert_eq!(config_160.w(), 56);
    let config_custom = TSLConfig::new_full(128, 30).unwrap();
    assert_eq!(config_custom.v(), 30);
    assert_eq!(config_custom.w(), 44);
}

#[test]
fn tsl_test_tsl_encoding_basic() {
    let (w, v, d0) = (4, 4, 4);
    let tsl = TSL::new(TSLConfig::with_params(w, v, d0));
    let encoded = tsl.encode(b"test message", b"random seed!").unwrap();
    let layer = Hypercube::new(w, v).calculate_layer(&encoded);
    assert_eq!(layer, d0);
}

#[test]
fn tsl_test_tsl_encoding_deterministic() {
    let tsl = TSL::new(TSLConfig::new(128).unwrap());
    let encoded1 = tsl.encode(b"test message", b"random seed").unwrap();
    let encoded2 = tsl.encode(b"test message", b"random seed").unwrap();
    assert_eq!(encoded1.components(), encoded2.components());
}

#[test]
fn tsl_test_tsl_encoding_different_messages() {
    let config = TSLConfig::new(128).unwrap();
    let (w, v, d0) = (config.w(), config.v(), config.d0());
    let tsl = TSL::new(config);
    let encoded1 = tsl.encode(b"message1", b"random seed").unwrap();
    let encoded2 = tsl.encode(b"message2", b"random seed").unwrap();
    let hc = Hypercube::new(w, v);
    assert_eq!(hc.calculate_layer(&encoded1), d0);
    assert_eq!(hc.calculate_layer(&encoded2), d0);
}

#[test]
fn tsl_test_tsl_non_uniform_mapping() {
    let config = TSLConfig::new(128).unwrap();
    let (w, v, d0) = (config.w(), config.v(), config.d0());
    let tsl = TSL::new(config);
    for i in 0..100 {
        let vertex = tsl.map_to_layer(i).unwrap();
        assert_eq!(Hypercube::new(w, v).calculate_layer(&vertex), d0);
    }
}

#[test]
fn tsl_test_tsl_uniform_distribution() {
    let config = TSLConfig::with_params(4, 4, 4);
    let (w, v, d0) = (config.w(), config.v(), config.d0());
    let tsl = TSL::new(config);
    let layer_size = num_traits::ToPrimitive::to_usize(&calculate_layer_size(d0, v, w).unwrap()).unwrap();
    let mut counts = vec![0; layer_size];
    let num_samples = (layer_size * 10).min(1000);
    for i in 0..num_samples {
        let vertex = tsl.map_to_layer(i).unwrap();
        let idx = vertex_to_integer(vertex.components(), w, v, d0).unwrap();
        counts[idx] += 1;
    }
    let expected = num_samples / layer_size;
    for count in counts {
        assert!(count <= expected * 3);
        assert!(count >= expected);
    }
}

#[test]
fn tsl_test_tsl_incomparability() {
    let config = TSLConfig::new(128).unwrap();
    let (w, v, expected_layer) = (config.w(), config.v(), config.d0());
    let tsl = TSL::new(config);
    let vertices: Vec<_> = (0..10).map(|i| tsl.map_to_layer(i).unwrap()).collect();
    let hc = Hypercube::new(w, v);
    for vertex in &vertices {
        assert_eq!(hc.calculate_layer(vertex), expected_layer);
    }
}

#[test]
fn tl1c_test_tl1c_config_creation() {
    let config = TL1CConfig::new(128).unwrap();
    assert!(config.w() > 0);
    assert!(config.v() > 0);
    assert!(config.d0() > 0);
    let mut total = BigUint::from(0u32);
    for d in 0..=config.d0() {
        total += calculate_layer_size(d, config.v(), config.w()).unwrap();
    }
    assert!(total > BigUint::from(0u32));
}

#[test]
fn tlfc_test_tlfc_config_creation() {
    let config = TLFCConfig::new(128).unwrap();
    assert!(config.w() > 0);
    assert!(config.v() > 0);
    assert!(config.d0() > 0);
    assert!(config.c() > 0);
    let mut total = BigUint::from(0u32);
    for d in 0..=config.d0() {
        total += calculate_layer_size(d, config.v(), config.w()).unwrap();
    }
    assert!(total > BigUint::from(0u32));
}

fn tree_leaves(n: usize) -> Vec<Vec<u8>> {
    (0..n).map(|i| SHA256::new().hash(format!("leaf_{}", i).as_bytes())).collect()
}

#[test]
fn tree_test_merkle_tree_construction() {
    let params = XMSSParams::new(3, 67, 16);
    let leaves = tree_leaves(1 << params.tree_height());
    let tree = MerkleTree::build(&leaves, &[0u8; 32], &SHA256::new());
    assert_eq!(tree.root().len(), 32);
    assert_eq!(tree.height(), 3);
}

#[test]
fn tree_test_authentication_path_generation() {
    let params = XMSSParams::new(3, 67, 16);
    let leaves = tree_leaves(1 << params.tree_height());
    let tree = MerkleTree::build(&leaves, &[0u8; 32], &SHA256::new());
    let auth_path = tree.authentication_path(0);
    assert_eq!(auth_path.nodes().len(), 3);
}

#[test]
fn tree_test_authentication_path_verification() {
    let params = XMSSParams::new(3, 67, 16);
    let num_leaves = 1 << params.tree_height();
    let leaves = tree_leaves(num_leaves);
    let hasher = SHA256::new();
    let public_seed = [0u8; 32];
    let tree = MerkleTree::build(&leaves, &public_seed, &hasher);
    for leaf_idx in 0..num_leaves {
        let auth_path = tree.authentication_path(leaf_idx);
        let computed_root = auth_path.compute_root(&leaves[leaf_idx], leaf_idx, &public_seed, &hasher);
        assert_eq!(computed_root, tree.root());
    }
}

#[test]
fn tree_node_hash_layout() {
    let leaves = tree_leaves(2);
    let seed = [7u8; 32];
    let tree = MerkleTree::build(&leaves, &seed, &SHA256::new());
    let mut data = vec![1u8];
    data.extend_from_slice(&seed);
    data.extend_from_slice(&1u32.to_be_bytes());
    data.extend_from_slice(&0u32.to_be_bytes());
    data.extend_from_slice(&leaves[0]);
    data.extend_from_slice(&leaves[1]);
    assert_eq!(tree.root().to_vec(), SHA256::new().hash(&data));
}
