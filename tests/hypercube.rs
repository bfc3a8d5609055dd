use hypercube_signatures::encoding::EncodingScheme;
use hypercube_signatures::hypercube::{Hypercube, Vertex};
use hypercube_signatures::layer::{calculate_layer, calculate_layer_size};
use hypercube_signatures::mapping::MapToVertex;

#[test]
fn hypercube_test_hypercube_creation() {
    let hc = Hypercube::new(4, 3);
    assert_eq!(hc.alphabet_size(), 4);
    assert_eq!(hc.dimension(), 3);
    assert_eq!(hc.total_vertices(), 64);
}

#[test]
fn hypercube_test_vertex_creation() {
    let vertex = Vertex::new(vec![1, 2, 3, 4]);
    assert_eq!(vertex.dimension(), 4);
    assert_eq!(vertex.components(), &vec![1, 2, 3, 4]);
}

#[test]
fn hypercube_test_vertex_validation() {
    let hc = Hypercube::new(4, 3);
    assert!(hc.is_valid_vertex(&Vertex::new(vec![1, 2, 3])));
    assert!(hc.is_valid_vertex(&Vertex::new(vec![4, 4, 4])));
    assert!(!hc.is_valid_vertex(&Vertex::new(vec![0, 2, 3])));
    assert!(!hc.is_valid_vertex(&Vertex::new(vec![1, 2, 5])));
    assert!(!hc.is_valid_vertex(&Vertex::new(vec![1, 2])));
    assert!(!hc.is_valid_vertex(&Vertex::new(vec![1, 2, 3, 4])));
}

#[test]
fn hypercube_test_sink_vertex() {
    let hc = Hypercube::new(4, 3);
    let sink = hc.sink_vertex();
    assert_eq!(sink.components(), &vec![4, 4, 4]);
    assert_eq!(hc.calculate_layer(&sink), 0);
}

#[test]
fn hypercube_test_vertex_comparison() {
    let v1 = Vertex::new(vec![1, 2, 3]);
    let v2 = Vertex::new(vec![2, 3, 4]);
    let v3 = Vertex::new(vec![1, 3, 2]);
    assert!(v1.le(&v2));
    assert!(!v2.le(&v1));
    assert!(!v1.le(&v3));
    assert!(!v3.le(&v1));
}

#[test]
fn hypercube_test_layer_membership() {
    let hc = Hypercube::new(4, 3);
    let sink = Vertex::new(vec![4, 4, 4]);
    assert_eq!(hc.calculate_layer(&sink), 0);
    let v1 = Vertex::new(vec![3, 4, 4]);
    assert_eq!(hc.calculate_layer(&v1), 1);
    let source = Vertex::new(vec![1, 1, 1]);
    let max_layer = 3 * (4 - 1);
    assert_eq!(hc.calculate_layer(&source), max_layer);
}

#[test]
fn hypercube_test_hypercube_iteration() {
    let hc = Hypercube::new(2, 3);
    let layer_0_vertices: Vec<_> = hc.vertices_in_layer(0);
    assert_eq!(layer_0_vertices.len(), 1);
    assert_eq!(layer_0_vertices[0].components(), &vec![2, 2, 2]);
    let layer_1_vertices: Vec<_> = hc.vertices_in_layer(1);
    assert_eq!(layer_1_vertices.len(), 3);
}

#[test]
fn hypercube_test_distance_from_sink() {
    let hc = Hypercube::new(4, 3);
    let sink = hc.sink_vertex();
    assert_eq!(hc.distance_from_sink(&sink), 0);
    let v = Vertex::new(vec![2, 3, 4]);
    assert_eq!(hc.distance_from_sink(&v), (4 - 2) + (4 - 3) + (4 - 4));
}

#[test]
fn layer_test_calculate_layer_basic() {
    assert_eq!(calculate_layer(&vec![4, 4, 4], 4), 0);
    assert_eq!(calculate_layer(&vec![3, 4, 4], 4), 1);
    assert_eq!(calculate_layer(&vec![1, 1, 1], 4), 9);
}

#[test]
fn layer_test_calculate_layer_edge_cases() {
    assert_eq!(calculate_layer(&vec![4], 4), 0);
    assert_eq!(calculate_layer(&vec![1], 4), 3);
    let vertex = vec![2; 10];
    assert_eq!(calculate_layer(&vertex, 3), 10 * 3 - 20);
}

#[test]
fn layer_test_vertex_validation() {
    // Components must lie in [1, w]; validation is exercised by the
    // hypercube and mapping tests.
}

#[test]
fn test_layer_test_vertex_validation() {
    // Components must lie in [1, w]; validation is exercised by the
    // hypercube and mapping tests.
}

#[test]
fn layer_test_calculate_layer_size_basic() {
    assert_eq!(calculate_layer_size(0, 3, 2), 1);
    assert_eq!(calculate_layer_size(1, 3, 2), 3);
    assert_eq!(calculate_layer_size(2, 3, 2), 3);
    assert_eq!(calculate_layer_size(3, 3, 2), 1);
}

#[test]
fn layer_test_calculate_layer_size_formula() {
    let size = calculate_layer_size(4, 4, 4);
    assert!(size > 0);
    assert_eq!(calculate_layer_size(10, 3, 2), 0);
}

#[test]
fn layer_test_layer_size_symmetry() {
    let total_vertices = 2_usize.pow(3);
    let mut sum = 0;
    for d in 0..=3 {
        sum += calculate_layer_size(d, 3, 2);
    }
    assert_eq!(sum, total_vertices);
}

#[test]
fn mapping_test_map_to_vertex_trait() {
    let mapper = MapToVertex::new(4, 3, 2);
    let vertex = mapper.map(0).unwrap();
    let layer = 3 * 4 - vertex.iter().sum::<usize>();
    assert_eq!(layer, 2);
}

struct TestEncoding {
    w: usize,
    v: usize,
}

impl EncodingScheme for TestEncoding {
    fn encode(&self, message: &[u8], randomness: &[u8]) -> Vertex {
        let _ = (message, randomness);
        Vertex::new(vec![self.w; self.v])
    }

    fn alphabet_size(&self) -> usize {
        self.w
    }

    fn dimension(&self) -> usize {
        self.v
    }
}

#[test]
fn encoding_test_encoding_trait() {
    let encoding = TestEncoding { w: 4, v: 3 };
    let vertex = encoding.encode(b"test", b"rand");
    assert_eq!(vertex.components(), &vec![4, 4, 4]);
}
