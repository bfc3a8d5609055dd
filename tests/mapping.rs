use hypercube_signatures::mapping::{
    calculate_layer_size, integer_to_vertex, vertex_to_integer, MapToInteger, MappingError,
    NonUniformMappingPsi,
};
use std::collections::HashSet;

fn layer_size_usize(d: usize, v: usize, w: usize) -> usize {
    let n = calculate_layer_size(d, v, w).unwrap();
    num_traits::ToPrimitive::to_usize(&n).unwrap()
}

#[test]
fn mapping_test_vertex_to_integer_basic() {
    let i1 = vertex_to_integer(&vec![1, 2, 2], 2, 3, 1).unwrap();
    let i2 = vertex_to_integer(&vec![2, 1, 2], 2, 3, 1).unwrap();
    let i3 = vertex_to_integer(&vec![2, 2, 1], 2, 3, 1).unwrap();
    assert!(i1 < 3);
    assert!(i2 < 3);
    assert!(i3 < 3);
    assert_ne!(i1, i2);
    assert_ne!(i1, i3);
    assert_ne!(i2, i3);
}

#[test]
fn mapping_test_integer_to_vertex_basic() {
    for i in 0..3 {
        let vertex = integer_to_vertex(i, 2, 3, 1).unwrap();
        assert_eq!(vertex.len(), 3);
        for &x in &vertex {
            assert!(x >= 1 && x <= 2);
        }
        let layer = 3 * 2 - vertex.iter().sum::<usize>();
        assert_eq!(layer, 1);
    }
}

#[test]
fn mapping_test_mapping_bijection() {
    let test_cases = vec![(2, 3, 1), (3, 2, 2), (4, 4, 5)];
    for (w, v, d) in test_cases {
        if d <= v * (w - 1) {
            let layer_size = layer_size_usize(d, v, w);
            for i in 0..layer_size.min(10) {
                let vertex = integer_to_vertex(i, w, v, d).unwrap();
                let i_back = vertex_to_integer(&vertex, w, v, d).unwrap();
                assert_eq!(i, i_back);
            }
        }
    }
}

#[test]
fn mapping_test_map_to_integer_trait() {
    let mapper = MapToInteger::new(4, 3, 2);
    let vertex = vec![3, 3, 4];
    let integer = mapper.map(&vertex).unwrap();
    let layer_size = layer_size_usize(2, 3, 4);
    assert!(integer < layer_size);
}

#[test]
fn mapping_test_mapping_consistency() {
    let (w, v, d) = (3, 3, 3);
    let layer_size = layer_size_usize(d, v, w);
    let mut mapped_integers = HashSet::new();
    for i in 0..layer_size {
        let vertex = integer_to_vertex(i, w, v, d).unwrap();
        let mapped = vertex_to_integer(&vertex, w, v, d).unwrap();
        assert_eq!(i, mapped);
        mapped_integers.insert(mapped);
    }
    assert_eq!(mapped_integers.len(), layer_size);
}

#[test]
fn test_paper_algorithm_bijection() {
    let test_cases = vec![(2, 3, 1), (3, 2, 2), (3, 3, 3), (4, 3, 4), (4, 4, 6)];
    for (w, v, d) in test_cases {
        let layer_size = layer_size_usize(d, v, w);
        for i in 0..layer_size {
            let vertex = integer_to_vertex(i, w, v, d).unwrap();
            assert_eq!(vertex.len(), v);
            for &coord in &vertex {
                assert!(coord >= 1 && coord <= w);
            }
            let layer_sum = v * w - vertex.iter().sum::<usize>();
            assert_eq!(layer_sum, d);
            let i_back = vertex_to_integer(&vertex, w, v, d).unwrap();
            assert_eq!(i, i_back);
        }
    }
}

#[test]
fn test_edge_cases() {
    let vertex = integer_to_vertex(0, 3, 1, 2).unwrap();
    assert_eq!(vertex, vec![1]);
    let (w, v) = (3, 2);
    let d = 2 * (3 - 1);
    let layer_size = layer_size_usize(d, v, w);
    assert_eq!(layer_size, 1);
    let vertex = integer_to_vertex(0, w, v, d).unwrap();
    assert_eq!(vertex, vec![1, 1]);
    assert!(integer_to_vertex(layer_size, w, v, d).is_err());
}

#[test]
fn unrank_lists_layer_one_of_binary_cube() {
    let mut seen = Vec::new();
    for i in 0..3 {
        let x = integer_to_vertex(i, 2, 3, 1).unwrap();
        assert_eq!(x.iter().sum::<usize>(), 5);
        assert!(
            x == vec![1, 2, 2] || x == vec![2, 1, 2] || x == vec![2, 2, 1],
            "unexpected vertex {:?}",
            x
        );
        assert!(!seen.contains(&x));
        seen.push(x);
    }
}

#[test]
fn unrank_follows_complement_order() {
    // Complements in order: (0,1,...) before (1,0,...): rank 0 is (2,2,1).
    assert_eq!(integer_to_vertex(0, 2, 3, 1).unwrap(), vec![2, 2, 1]);
    assert_eq!(integer_to_vertex(1, 2, 3, 1).unwrap(), vec![2, 1, 2]);
    assert_eq!(integer_to_vertex(2, 2, 3, 1).unwrap(), vec![1, 2, 2]);
    assert_eq!(vertex_to_integer(&vec![1, 2, 2], 2, 3, 1).unwrap(), 2);
}

#[test]
fn layer_sizes_of_small_cube_sum_to_total() {
    let mut sum = 0;
    for d in 0..=9 {
        sum += layer_size_usize(d, 3, 4);
    }
    assert_eq!(sum, 64);
    assert_eq!(layer_size_usize(4, 4, 4), 31);
}

#[test]
fn layer_size_exceeds_machine_word() {
    let n = calculate_layer_size(384, 25, 86).unwrap();
    assert!(num_traits::ToPrimitive::to_usize(&n).is_none());
    assert_eq!(n.bits(), 129);
}

#[test]
fn vertex_to_integer_reports_errors() {
    assert_eq!(
        vertex_to_integer(&vec![1, 2], 2, 3, 1),
        Err(MappingError::InvalidLayer { expected: 1, actual: 0 })
    );
    assert_eq!(
        vertex_to_integer(&vec![1, 3, 2], 2, 3, 1),
        Err(MappingError::InvalidCoordinate { position: 1, value: 3, max: 2 })
    );
    assert_eq!(
        vertex_to_integer(&vec![1, 1, 2], 2, 3, 1),
        Err(MappingError::InvalidLayer { expected: 1, actual: 2 })
    );
    assert_eq!(
        integer_to_vertex(3, 2, 3, 1),
        Err(MappingError::IndexOutOfRange { index: 3, max: 3 })
    );
    assert_eq!(
        integer_to_vertex(0, 2, 3, 7),
        Err(MappingError::IndexOutOfRange { index: 0, max: 0 })
    );
}

#[test]
fn rank_overflows_usize_for_large_layers() {
    let mut x = vec![86; 25];
    // Put the whole layer budget at the front: the last vertex in rank order.
    let mut budget = 384;
    for c in x.iter_mut() {
        let y = budget.min(85);
        *c = 86 - y;
        budget -= y;
    }
    assert_eq!(
        vertex_to_integer(&x, 86, 25, 384),
        Err(MappingError::IntegerOverflow)
    );
}

#[test]
fn psi_is_uniform_on_the_layer() {
    let psi = NonUniformMappingPsi::new(3, 3, 3).unwrap();
    let l = num_traits::ToPrimitive::to_usize(&psi.layer_size()).unwrap();
    assert_eq!(l, 7);
    let mut counts = std::collections::HashMap::new();
    for z in 0..(l * 50) {
        let x = psi.map(z).unwrap();
        assert_eq!(3 * 3 - x.iter().sum::<usize>(), 3);
        *counts.entry(x).or_insert(0usize) += 1;
    }
    assert_eq!(counts.len(), l);
    for (_, c) in counts {
        assert_eq!(c, 50);
    }
}

#[test]
fn psi_handles_layers_larger_than_a_word() {
    let psi = NonUniformMappingPsi::new(86, 25, 384).unwrap();
    assert_eq!(psi.layer_size().bits(), 129);
    let x = psi.map(12345).unwrap();
    assert_eq!(x, integer_to_vertex(12345, 86, 25, 384).unwrap());
}

#[test]
fn psi_refuses_a_layer_beyond_the_source() {
    assert!(matches!(
        NonUniformMappingPsi::new(2, 1, 5),
        Err(MappingError::InvalidLayer { expected: 5, actual: 1 })
    ));
}
