use hypercube_signatures::hypercube::Hypercube;
use hypercube_signatures::hash::{HashFunction, SHA256};
use hypercube_signatures::mapping::{
    big_index_to_vertex, calculate_layer_size, vertex_to_integer, MappingError,
};
use hypercube_signatures::tl1c::{TL1CConfig, TL1C};
use hypercube_signatures::tlfc::{TLFCConfig, TLFC};
use hypercube_signatures::tsl::{TSLConfig, TSL};

#[test]
fn tl1c_test_tl1c_parameter_selection() {
    let config_128 = TL1CConfig::new(128).unwrap();
    assert!(config_128.w() >= 2);
    assert!(config_128.v() > 0);
    assert!(config_128.d0() <= config_128.v() * (config_128.w() - 1));
}

#[test]
fn tl1c_test_tl1c_encoding_basic() {
    let config = TL1CConfig::with_params(4, 4, 3);
    let tl1c = TL1C::new(config);
    let (encoded, checksum) = tl1c.encode_with_checksum(b"test message", b"random seed");
    let hc = Hypercube::new(4, 4);
    let layer = hc.calculate_layer(&encoded);
    assert!(layer <= 3);
    assert_eq!(checksum, layer + 1);
}

#[test]
fn tl1c_test_tl1c_checksum_calculation() {
    let config = TL1CConfig::with_params(4, 4, 3);
    let d0 = config.d0();
    let tl1c = TL1C::new(config);
    for layer in 0..=3 {
        let checksum = tl1c.calculate_checksum(layer);
        assert_eq!(checksum, layer + 1);
        assert!(checksum >= 1);
        assert!(checksum <= d0 + 1);
    }
}

#[test]
fn tl1c_test_tl1c_encoding_deterministic() {
    let tl1c = TL1C::new(TL1CConfig::with_params(4, 4, 3));
    let (encoded1, checksum1) = tl1c.encode_with_checksum(b"test message", b"random seed");
    let (encoded2, checksum2) = tl1c.encode_with_checksum(b"test message", b"random seed");
    assert_eq!(encoded1.components(), encoded2.components());
    assert_eq!(checksum1, checksum2);
}

#[test]
fn tl1c_test_tl1c_uniform_distribution_within_layers() {
    let tl1c = TL1C::new(TL1CConfig::with_params(5, 3, 3));
    let mut layer_counts = vec![0; 4];
    for i in 0..1000 {
        let vertex = tl1c.map_to_top_layers(i);
        let hc = Hypercube::new(5, 3);
        let layer = hc.calculate_layer(&vertex);
        if layer <= 3 {
            layer_counts[layer] += 1;
        }
    }
    for layer in 0..=3 {
        assert!(layer_counts[layer] > 0, "Layer {} should have vertices", layer);
    }
}

#[test]
fn tl1c_test_tl1c_no_vertices_beyond_d0() {
    let tl1c = TL1C::new(TL1CConfig::with_params(4, 4, 3));
    for i in 0..1000 {
        let vertex = tl1c.map_to_top_layers(i);
        let hc = Hypercube::new(4, 4);
        assert!(hc.calculate_layer(&vertex) <= 3, "Vertex should not be in layer > d0");
    }
}

#[test]
fn tl1c_test_tl1c_signature_size() {
    let config = TL1CConfig::with_params(36, 32, 35);
    assert_eq!(config.signature_chains(), 33);
}

#[test]
fn tl1c_test_tl1c_message_to_wots_digest() {
    let tl1c = TL1C::new(TL1CConfig::with_params(4, 4, 3));
    let digest = tl1c.message_to_wots_digest(b"test message", b"random seed");
    assert_eq!(digest.len(), 5);
    for &value in &digest {
        assert!(value >= 1 && value <= 4);
    }
    let vertex_sum: usize = digest[..4].iter().sum();
    let layer = 4 * 4 - vertex_sum;
    assert_eq!(digest[4], layer + 1);
}

#[test]
fn tl1c_test_tl1c_checksum_bounds() {
    let config = TL1CConfig::with_params(12, 8, 10);
    let w = config.w();
    let tl1c = TL1C::new(config);
    for layer in 0..=10 {
        let checksum = tl1c.calculate_checksum(layer);
        assert!(checksum >= 1);
        assert!(checksum <= 11);
        assert!(checksum <= w);
    }
}

#[test]
fn tl1c_digest_for_any_message() {
    let tl1c = TL1C::new(TL1CConfig::with_params(4, 4, 3));
    for m in 0..50u32 {
        let digest = tl1c.message_to_wots_digest(&m.to_le_bytes(), b"r");
        assert_eq!(digest.len(), 5);
        let first: usize = digest[..4].iter().sum();
        assert!(first >= 4 * 4 - 3);
        assert_eq!(digest[4], 4 * 4 - first + 1);
    }
}

#[test]
fn tl1c_config_meets_the_security_bound() {
    let config = TL1CConfig::new(128).unwrap();
    assert_eq!((config.w(), config.v(), config.d0()), (128, 64, 68));
    let config = TL1CConfig::new(160).unwrap();
    assert_eq!((config.w(), config.v(), config.d0()), (128, 64, 109));
    let two = num_bigint::BigUint::from(2u32);
    let mut total = num_bigint::BigUint::from(0u32);
    for d in 0..=109 {
        total += calculate_layer_size(d, 64, 128).unwrap();
    }
    assert!(total >= two.pow(160));
    total -= calculate_layer_size(109, 64, 128).unwrap();
    assert!(total < two.pow(160));
}

#[test]
fn tlfc_config_meets_the_security_bound() {
    let config = TLFCConfig::new(128).unwrap();
    assert_eq!((config.w(), config.v(), config.d0(), config.c()), (128, 64, 68, 8));
    let config = TLFCConfig::new(160).unwrap();
    assert_eq!((config.w(), config.v(), config.d0(), config.c()), (128, 64, 109, 8));
}

#[test]
fn tlfc_test_tlfc_parameter_selection() {
    let config_128 = TLFCConfig::new(128).unwrap();
    assert!(config_128.w() >= 2);
    assert!(config_128.v() > 0);
    assert!(config_128.d0() <= config_128.v() * (config_128.w() - 1));
    assert!(config_128.c() > 0);
}

#[test]
fn tlfc_test_tlfc_encoding_basic() {
    let tlfc = TLFC::new(TLFCConfig::with_params(8, 4, 3, 2));
    let (encoded, checksums) = tlfc.encode_with_checksum(b"test message", b"random seed");
    let hc = Hypercube::new(8, 4);
    assert!(hc.calculate_layer(&encoded) <= 3);
    assert_eq!(checksums.len(), 2);
}

#[test]
fn tlfc_test_tlfc_full_checksum_calculation() {
    let tlfc = TLFC::new(TLFCConfig::with_params(8, 4, 3, 2));
    let components = vec![2, 3, 1, 2];
    let checksums = tlfc.calculate_full_checksum(&components);
    assert_eq!(checksums.len(), 2);
    for &checksum in &checksums {
        assert!(checksum >= 1);
        assert!(checksum <= 8);
    }
}

#[test]
fn tlfc_test_tlfc_encoding_deterministic() {
    let tlfc = TLFC::new(TLFCConfig::with_params(8, 4, 3, 2));
    let (encoded1, checksums1) = tlfc.encode_with_checksum(b"test message", b"random seed");
    let (encoded2, checksums2) = tlfc.encode_with_checksum(b"test message", b"random seed");
    assert_eq!(encoded1.components(), encoded2.components());
    assert_eq!(checksums1, checksums2);
}

#[test]
fn tlfc_test_tlfc_uniform_distribution_within_layers() {
    let tlfc = TLFC::new(TLFCConfig::with_params(5, 3, 3, 1));
    let mut layer_counts = vec![0; 4];
    for i in 0..1000 {
        let vertex = tlfc.map_to_top_layers(i);
        let hc = Hypercube::new(5, 3);
        let layer = hc.calculate_layer(&vertex);
        if layer <= 3 {
            layer_counts[layer] += 1;
        }
    }
    for layer in 0..=3 {
        assert!(layer_counts[layer] > 0, "Layer {} should have vertices", layer);
    }
}

#[test]
fn tlfc_test_tlfc_no_vertices_beyond_d0() {
    let tlfc = TLFC::new(TLFCConfig::with_params(8, 4, 3, 2));
    for i in 0..1000 {
        let vertex = tlfc.map_to_top_layers(i);
        let hc = Hypercube::new(8, 4);
        assert!(hc.calculate_layer(&vertex) <= 3, "Vertex should not be in layer > d0");
    }
}

#[test]
fn tlfc_test_tlfc_signature_size() {
    let config = TLFCConfig::with_params(8, 32, 7, 4);
    assert_eq!(config.signature_chains(), 36);
}

#[test]
fn tlfc_test_tlfc_message_to_wots_digest() {
    let tlfc = TLFC::new(TLFCConfig::with_params(8, 4, 3, 2));
    let digest = tlfc.message_to_wots_digest(b"test message", b"random seed");
    assert_eq!(digest.len(), 6);
    for &value in &digest {
        assert!(value >= 1 && value <= 8);
    }
}

#[test]
fn tlfc_test_tlfc_checksum_properties() {
    let config = TLFCConfig::with_params(8, 4, 3, 2);
    let w = config.w();
    let c = config.c();
    let tlfc = TLFC::new(config);
    let test_cases = vec![vec![1, 1, 1, 1], vec![7, 7, 7, 7], vec![2, 3, 4, 5], vec![1, 2, 1, 2]];
    for components in test_cases {
        let checksums = tlfc.calculate_full_checksum(&components);
        for &checksum in &checksums {
            assert!(checksum >= 1);
            assert!(checksum <= 8);
        }
        for i in 0..c {
            let mut expected = 0;
            for (j, &a_j) in components.iter().enumerate() {
                if j % c == i {
                    expected += (1 << (j % c)) * (w - a_j);
                }
            }
            expected = (expected % w) + 1;
            assert_eq!(checksums[i], expected);
        }
    }
}

#[test]
fn tlfc_checksum_of_the_source_vertex() {
    let tlfc = TLFC::new(TLFCConfig::with_params(8, 4, 3, 2));
    let checksums = tlfc.calculate_full_checksum(&[1, 1, 1, 1]);
    assert_eq!(checksums, vec![((7 + 7) % 8) + 1, ((7 * 2 + 7 * 2) % 8) + 1]);
    assert_eq!(checksums, vec![7, 5]);
}

#[test]
fn tsl_test_tsl_signature_size() {
    let config = TSLConfig::with_params(4, 32, 35);
    assert_eq!(config.signature_chains(), 32);
}

#[test]
fn tsl_config_for_128_bits() {
    // The tabulated layer 384 holds about 2^128 vertices; the first layer
    // above it holding 2^{128 + 3.5} is 428.
    let config = TSLConfig::new(128).unwrap();
    assert_eq!((config.w(), config.v(), config.d0()), (86, 25, 428));
    let l = calculate_layer_size(428, 25, 86).unwrap();
    assert!(&l * &l >= num_bigint::BigUint::from(128u32) * num_bigint::BigUint::from(2u32).pow(256));
    let l = calculate_layer_size(427, 25, 86).unwrap();
    assert!(&l * &l < num_bigint::BigUint::from(128u32) * num_bigint::BigUint::from(2u32).pow(256));
}

#[test]
fn tsl_config_for_160_bits() {
    let config = TSLConfig::new(160).unwrap();
    assert_eq!((config.w(), config.v(), config.d0()), (56, 35, 366));
    let custom = TSLConfig::new_full(128, 30).unwrap();
    assert_eq!((custom.w(), custom.v(), custom.d0()), (44, 30, 258));
}

#[test]
fn tsl_encoding_lands_in_layer_d0() {
    let tsl = TSL::new(TSLConfig::with_params(4, 8, 6));
    let hc = Hypercube::new(4, 8);
    for m in 0..20u32 {
        let v = tsl.encode(&m.to_le_bytes(), b"randomness").unwrap();
        assert_eq!(hc.calculate_layer(&v), 6);
    }
    let a = tsl.encode(b"message", b"r").unwrap();
    let b = tsl.encode(b"message", b"r").unwrap();
    assert_eq!(a, b);
}

#[test]
fn tsl_encoding_with_tabulated_parameters() {
    let tsl = TSL::new(TSLConfig::new(128).unwrap());
    let v = tsl.encode(b"message", b"randomness").unwrap();
    let hc = Hypercube::new(86, 25);
    assert_eq!(hc.calculate_layer(&v), 428);
}

#[test]
fn tsl_map_to_layer_reduces_mod_layer_size() {
    // [2]^3, layer 1 has three vertices: value 4 maps like value 1.
    let tsl = TSL::new(TSLConfig::with_params(2, 3, 1));
    assert_eq!(tsl.map_to_layer(4).unwrap(), tsl.map_to_layer(1).unwrap());
    assert_eq!(tsl.map_to_layer(0).unwrap().components(), &vec![2, 2, 1]);
}

#[test]
fn tsl_encoding_reduces_the_whole_digest() {
    let config = TSLConfig::new(128).unwrap();
    let (w, v, d0) = (config.w(), config.v(), config.d0());
    let tsl = TSL::new(config);
    let l = calculate_layer_size(d0, v, w).unwrap();
    let mut beyond_a_word = 0;
    for m in 0..8u32 {
        let mut input = m.to_le_bytes().to_vec();
        input.extend_from_slice(b"r");
        let z = num_bigint::BigUint::from_bytes_le(&SHA256::new().hash(&input));
        let expected = big_index_to_vertex(&(&z % &l), w, v, d0).unwrap();
        let got = tsl.encode(&m.to_le_bytes(), b"r").unwrap();
        assert_eq!(got.components(), &expected);
        if vertex_to_integer(got.components(), w, v, d0) == Err(MappingError::IntegerOverflow) {
            beyond_a_word += 1;
        }
    }
    assert!(beyond_a_word > 0);
}
