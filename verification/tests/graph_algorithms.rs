//! Searches, centralities and measures of whole graphs.
use std::collections::HashMap;

use graphkit::graph::components::{is_bipartite, wcc};
use graphkit::graph::cores::coreness;
use graphkit::graph::cuts::bridges;
use graphkit::graph::dag::{has_cycle, topological_sort};
use graphkit::graph::distance::{bfs, center, diameter, eccentricity, periphery, radius, shortest_path};
use graphkit::graph::order::degree_centrality;
use graphkit::graph::scc::scc;
use graphkit::graph::triangles::triangle_count;
use graphkit::graph::{Edge, Graph};
use graphkit::quantity::{Compared, Quantity};

/// The double that a quantity stands for.
fn value(q: &Quantity) -> f64 {
    match q {
        Quantity::Bits(b) => f64::from_bits(*b),
        Quantity::Decimal { units, places } => *units as f64 / 10f64.powi(*places as i32),
        Quantity::Count(n) => *n as f64,
        Quantity::Integer(n) => *n as f64,
        Quantity::Sum(a, b) => value(a) + value(b),
        Quantity::Difference(a, b) => value(a) - value(b),
        Quantity::Product(a, b) => value(a) * value(b),
        Quantity::Quotient(a, b) => value(a) / value(b),
        Quantity::Negated(a) => -value(a),
        Quantity::Larger(a, b) => value(a).max(value(b)),
        Quantity::Smaller(a, b) => value(a).min(value(b)),
        Quantity::Log2(a) => value(a).log2(),
        Quantity::Ln(a) => value(a).ln(),
        Quantity::Sqrt(a) => value(a).sqrt(),
        Quantity::Abs(a) => value(a).abs(),
        Quantity::Either(a, b) => value(a) + value(b) - value(a) * value(b),
    }
}

fn compare(a: &Quantity, b: &Quantity) -> Compared {
    match value(a).partial_cmp(&value(b)) {
        Some(std::cmp::Ordering::Less) => Compared::Less,
        Some(std::cmp::Ordering::Equal) => Compared::Equal,
        Some(std::cmp::Ordering::Greater) => Compared::Greater,
        None => Compared::Unordered,
    }
}

fn bits(q: &Quantity) -> u64 {
    value(q).to_bits()
}

fn quantity(x: f64) -> Quantity {
    Quantity::Bits(x.to_bits())
}

fn values<K: Copy + Eq + std::hash::Hash>(m: &HashMap<K, Quantity>) -> HashMap<K, f64> {
    m.iter().map(|(k, q)| (*k, value(q))).collect()
}

fn network(vertices: &[u64], pairs: &[(u64, u64)]) -> Graph {
    let edges = pairs.iter().map(|&(from, to)| Edge { from, to }).collect();
    Graph::new(vertices.to_vec(), edges).unwrap()
}

/// The graph with the given edges, and their ends in the order in which they are first named.
fn build_graph(pairs: &[(u64, u64)]) -> Graph {
    let mut vertices: Vec<u64> = Vec::new();
    for &(from, to) in pairs {
        if !vertices.contains(&from) {
            vertices.push(from);
        }
        if !vertices.contains(&to) {
            vertices.push(to);
        }
    }
    network(&vertices, pairs)
}

fn pagerank(g: &Graph, damping: f64, max_iter: usize, epsilon: f64) -> HashMap<u64, f64> {
    let ranks = graphkit::graph::ranks::pagerank(g, &compare, &bits, &quantity(damping), max_iter, &quantity(epsilon));
    values(&ranks)
}

fn eigenvector_centrality(g: &Graph, max_iter: usize, epsilon: f64) -> HashMap<u64, f64> {
    values(&graphkit::graph::ranks::eigenvector_centrality(g, &compare, &bits, max_iter, &quantity(epsilon)))
}

fn clustering_coefficient(g: &Graph) -> HashMap<u64, f64> {
    values(&graphkit::graph::triangles::clustering_coefficient(g))
}

fn betweenness_centrality(g: &Graph) -> HashMap<u64, f64> {
    values(&graphkit::graph::betweenness::betweenness_centrality(g, &bits))
}

fn closeness_centrality(g: &Graph) -> HashMap<u64, f64> {
    values(&graphkit::graph::centrality::closeness_centrality(g))
}

fn harmonic_centrality(g: &Graph) -> HashMap<u64, f64> {
    values(&graphkit::graph::centrality::harmonic_centrality(g))
}

fn average_path_length(g: &Graph) -> f64 {
    value(&graphkit::graph::centrality::average_path_length(g))
}

fn graph_density(g: &Graph) -> f64 {
    value(&graphkit::graph::triangles::graph_density(g))
}

fn global_clustering_coefficient(g: &Graph) -> f64 {
    value(&graphkit::graph::triangles::global_clustering_coefficient(g))
}

fn degree_assortativity(g: &Graph) -> f64 {
    value(&graphkit::graph::richness::degree_assortativity(g, &compare))
}

fn small_world_coefficient(g: &Graph) -> f64 {
    value(&graphkit::graph::triangles::small_world_coefficient(g, &compare))
}

fn rich_club_coefficient(g: &Graph, max_k: usize) -> HashMap<usize, f64> {
    values(&graphkit::graph::richness::rich_club_coefficient(g, max_k))
}

fn modularity(g: &Graph, partition: &HashMap<u64, usize>) -> f64 {
    value(&graphkit::graph::partition::modularity(g, partition))
}

fn conductance(g: &Graph, partition: &HashMap<u64, usize>) -> HashMap<usize, f64> {
    values(&graphkit::graph::partition::conductance(g, partition))
}

fn normalized_cut(g: &Graph, partition: &HashMap<u64, usize>) -> HashMap<usize, f64> {
    values(&graphkit::graph::partition::normalized_cut(g, partition))
}

#[test]
fn test_bfs() {
    let storage = build_graph(&[(1, 2), (2, 3), (3, 1)]);
    let path = bfs(&storage, 1u64);
    assert!(path.contains(&1u64));
    assert!(path.contains(&3u64));
}

#[test]
fn test_pagerank() {
    let storage = build_graph(&[(1, 2), (2, 3), (3, 1)]);
    let ranks = pagerank(&storage, 0.85, 100, 1e-6);
    assert_eq!(ranks.len(), 3);
    let total: f64 = ranks.values().sum();
    assert!((total - 1.0).abs() < 0.1, "sum={}", total);
}

#[test]
fn test_triangle_count() {
    let storage = build_graph(&[(1, 2), (2, 3), (3, 1)]);
    assert_eq!(triangle_count(&storage), 1);
}

#[test]
fn test_shortest_path() {
    let storage = build_graph(&[(1, 2), (2, 3), (3, 4)]);
    let path = shortest_path(&storage, 1u64, 4u64);
    assert_eq!(
        path,
        Some(vec![
            1u64,
            2u64,
            3u64,
            4u64
        ])
    );
}

#[test]
fn test_shortest_path_same_node() {
    let storage = build_graph(&[(1, 2)]);
    let path = shortest_path(&storage, 1u64, 1u64);
    assert_eq!(path, Some(vec![1u64]));
}

#[test]
fn test_shortest_path_no_path() {
    let storage = network(&[1, 2], &[]);
    let path = shortest_path(&storage, 1u64, 2u64);
    assert_eq!(path, None);
}

#[test]
fn lib_test_degree_centrality() {
    let storage = build_graph(&[(1, 2), (1, 3), (2, 3)]);
    let deg = degree_centrality(&storage);
    assert_eq!(deg.len(), 3);
    // Node 2 has in-degree 1 (from 1) + out-degree 1 (to 3) = 2
    // Node 1 has out-degree 2 (to 2, 3)
    // Node 3 has in-degree 2 (from 1, 2)
    assert!(deg[0].1 >= 2);
}

#[test]
fn test_wcc() {
    let storage = build_graph(&[(1, 2), (2, 3), (4, 5)]);
    let components = wcc(&storage);
    assert_eq!(components.len(), 5);
    assert_eq!(components[&1u64], components[&2u64]);
    assert_eq!(components[&2u64], components[&3u64]);
    assert_ne!(components[&3u64], components[&4u64]);
    assert_eq!(components[&4u64], components[&5u64]);
}

#[test]
fn test_clustering_coefficient() {
    // Triangle: 1-2-3-1, plus 1-4 (dangling)
    let storage = build_graph(&[(1, 2), (2, 3), (3, 1), (1, 4)]);
    let cc = clustering_coefficient(&storage);
    assert_eq!(cc.len(), 4);
    // Node 1 has neighbors {2,3,4}; edges between them: 2-3 only => 1/3
    assert!((cc[&1u64] - 1.0 / 3.0).abs() < 1e-6);
    // Nodes 2,3 have neighbors {1,2,3} (closed triangle) => CC = 1.0
    assert!((cc[&2u64] - 1.0).abs() < 1e-6);
    assert!((cc[&3u64] - 1.0).abs() < 1e-6);
    // Node 4 has only one neighbor, CC = 0
    assert_eq!(cc[&4u64], 0.0);
}

#[test]
fn test_betweenness_centrality() {
    // Line graph: 1-2-3-4
    let storage = build_graph(&[(1, 2), (2, 3), (3, 4)]);
    let bc = betweenness_centrality(&storage);
    assert_eq!(bc.len(), 4);
    // Middle nodes should have higher betweenness
    assert!(bc[&2u64] > bc[&1u64]);
    assert!(bc[&3u64] > bc[&1u64]);
}

#[test]
fn test_closeness_centrality() {
    let storage = build_graph(&[(1, 2), (2, 3), (3, 4)]);
    let cc = closeness_centrality(&storage);
    assert_eq!(cc.len(), 4);
    // Middle nodes should have higher closeness
    assert!(cc[&2u64] > cc[&1u64]);
    assert!(cc[&3u64] > cc[&4u64]);
}

#[test]
fn test_scc() {
    // Two SCCs: {1,2,3} cycle and {4,5} cycle
    let storage = build_graph(&[(1, 2), (2, 3), (3, 1), (4, 5), (5, 4)]);
    let comps = scc(&storage);
    assert_eq!(comps.len(), 5);
    assert_eq!(comps[&1u64], comps[&2u64]);
    assert_eq!(comps[&2u64], comps[&3u64]);
    assert_eq!(comps[&4u64], comps[&5u64]);
    assert_ne!(comps[&3u64], comps[&4u64]);
}

#[test]
fn test_has_cycle() {
    let storage = build_graph(&[(1, 2), (2, 3), (3, 1)]);
    assert!(has_cycle(&storage));

    let storage2 = build_graph(&[(1, 2), (2, 3)]);
    assert!(!has_cycle(&storage2));
}

#[test]
fn test_topological_sort() {
    let storage = build_graph(&[(1, 2), (1, 3), (2, 4), (3, 4)]);
    let sorted = topological_sort(&storage).unwrap();
    assert_eq!(sorted.len(), 4);
    // 1 must come before 2, 3, 4
    let pos1 = sorted.iter().position(|g| *g == 1u64).unwrap();
    let pos2 = sorted.iter().position(|g| *g == 2u64).unwrap();
    let pos4 = sorted.iter().position(|g| *g == 4u64).unwrap();
    assert!(pos1 < pos2);
    assert!(pos2 < pos4);

    // Cycle -> None
    let storage2 = build_graph(&[(1, 2), (2, 3), (3, 1)]);
    assert!(topological_sort(&storage2).is_none());
}

#[test]
fn test_bridges() {
    // Line: 1-2-3, all edges are bridges
    let storage = build_graph(&[(1, 2), (2, 3)]);
    let b = bridges(&storage);
    assert_eq!(b.len(), 2);

    // Triangle: no bridges
    let storage2 = build_graph(&[(1, 2), (2, 3), (3, 1)]);
    let b2 = bridges(&storage2);
    assert_eq!(b2.len(), 0);
}

#[test]
fn test_is_bipartite() {
    // Even cycle (4 nodes): bipartite
    let storage = build_graph(&[(1, 2), (2, 3), (3, 4), (4, 1)]);
    assert!(is_bipartite(&storage));

    // Triangle: not bipartite
    let storage2 = build_graph(&[(1, 2), (2, 3), (3, 1)]);
    assert!(!is_bipartite(&storage2));
}

#[test]
fn test_diameter() {
    // Line: 1-2-3-4, diameter = 3
    let storage = build_graph(&[(1, 2), (2, 3), (3, 4)]);
    assert_eq!(diameter(&storage), 3);

    // Triangle: diameter = 1
    let storage2 = build_graph(&[(1, 2), (2, 3), (3, 1)]);
    assert_eq!(diameter(&storage2), 1);

    // Empty graph
    let storage3 = build_graph(&[]);
    assert_eq!(diameter(&storage3), 0);
}

#[test]
fn test_eccentricity() {
    // Line: 1-2-3-4
    let storage = build_graph(&[(1, 2), (2, 3), (3, 4)]);
    let ecc = eccentricity(&storage);
    // Endpoints have eccentricity 3, middle have 2
    assert_eq!(ecc[&1u64], 3);
    assert_eq!(ecc[&4u64], 3);
    assert_eq!(ecc[&2u64], 2);
    assert_eq!(ecc[&3u64], 2);
}

#[test]
fn test_average_path_length() {
    // Triangle: 3 edges, each pair distance 1, avg = 1.0
    let storage = build_graph(&[(1, 2), (2, 3), (3, 1)]);
    let avg = average_path_length(&storage);
    assert!((avg - 1.0).abs() < 1e-6);

    // Line 1-2-3: distances (1,2,1) = 4/3
    let storage2 = build_graph(&[(1, 2), (2, 3)]);
    let avg2 = average_path_length(&storage2);
    assert!((avg2 - 4.0 / 3.0).abs() < 1e-6);
}

#[test]
fn test_eigenvector_centrality() {
    // Star: center (1) connected to 2,3,4
    let storage = build_graph(&[(1, 2), (1, 3), (1, 4)]);
    let ev = eigenvector_centrality(&storage, 100, 1e-6);
    assert_eq!(ev.len(), 4);
    // Center should have higher centrality than leaves
    assert!(ev[&1u64] > ev[&2u64]);
}

#[test]
fn test_radius() {
    // Line: 1-2-3-4, radius = 2 (center vertices 2,3)
    let storage = build_graph(&[(1, 2), (2, 3), (3, 4)]);
    assert_eq!(radius(&storage), 2);

    // Triangle: radius = 1
    let storage2 = build_graph(&[(1, 2), (2, 3), (3, 1)]);
    assert_eq!(radius(&storage2), 1);
}

#[test]
fn test_harmonic_centrality() {
    // Star: center connected to leaves
    let storage = build_graph(&[(1, 2), (1, 3), (1, 4)]);
    let hc = harmonic_centrality(&storage);
    // Center reaches 3 leaves at dist 1 = 3.0
    assert!((hc[&1u64] - 3.0).abs() < 1e-6);
    // Leaf reaches center at dist 1, other leaves at dist 2 (via center)
    let leaf = hc[&2u64];
    assert!((leaf - (1.0 + 0.5 + 0.5)).abs() < 1e-6);
}

#[test]
fn test_graph_density() {
    let storage = build_graph(&[]);
    assert_eq!(graph_density(&storage), 0.0);

    // Triangle: 3 edges / (3*2) = 0.5
    let storage = build_graph(&[(1, 2), (2, 3), (3, 1)]);
    assert!((graph_density(&storage) - 0.5).abs() < 1e-6);

    // Complete directed graph on 4 nodes: 12 edges / (4*3) = 1.0
    let storage2 = build_graph(&[
            (1, 2),
            (1, 3),
            (1, 4),
            (2, 1),
            (2, 3),
            (2, 4),
            (3, 1),
            (3, 2),
            (3, 4),
            (4, 1),
            (4, 2),
            (4, 3),
        ],
    );
    assert!((graph_density(&storage2) - 1.0).abs() < 1e-6);
}

#[test]
fn test_global_clustering_coefficient() {
    let storage = build_graph(&[]);
    assert_eq!(global_clustering_coefficient(&storage), 0.0);

    // Triangle: each node has 2 neighbors connected by 1 edge => 3 closed / 3 total = 1.0
    let storage = build_graph(&[(1, 2), (2, 3), (3, 1)]);
    assert!((global_clustering_coefficient(&storage) - 1.0).abs() < 1e-6);

    // Square (no diagonals): no triangles => 0.0
    let storage2 = build_graph(&[(1, 2), (2, 3), (3, 4), (4, 1)]);
    assert_eq!(global_clustering_coefficient(&storage2), 0.0);
}

#[test]
fn test_coreness() {
    // k-core decomposition of a triangle with a dangling node
    // 1-2-3 forms a triangle (2-core), 4 attached to 1 (1-core)
    let storage = build_graph(&[(1, 2), (2, 3), (3, 1), (1, 4)]);
    let c = coreness(&storage);
    assert_eq!(c[&1u64], 2);
    assert_eq!(c[&2u64], 2);
    assert_eq!(c[&3u64], 2);
    assert_eq!(c[&4u64], 1);
}

#[test]
fn test_degree_assortativity() {
    let storage = build_graph(&[]);
    assert_eq!(degree_assortativity(&storage), 0.0);

    // Path graph: degrees 1-2-2-1, edges connect high to low -> negative assortativity
    let storage = build_graph(&[(1, 2), (2, 3), (3, 4)]);
    let r = degree_assortativity(&storage);
    assert!(
        r < 0.0,
        "path graph should have negative assortativity, got {}",
        r
    );

    // Regular graph (bidirectional ring): all nodes degree 2 -> assortativity ~0
    let storage2 = build_graph(&[
            (1, 2),
            (2, 3),
            (3, 4),
            (4, 1),
            (2, 1),
            (3, 2),
            (4, 3),
            (1, 4),
        ],
    );
    let r2 = degree_assortativity(&storage2);
    assert!(
        r2.abs() < 0.5,
        "ring graph should have near-zero assortativity, got {}",
        r2
    );
}

#[test]
fn test_rich_club_coefficient() {
    // Bidirectional clique of 4 nodes: all have degree 6, rich-club should be 1.0 for k=2
    let storage = build_graph(&[
            (1, 2),
            (1, 3),
            (1, 4),
            (2, 1),
            (2, 3),
            (2, 4),
            (3, 1),
            (3, 2),
            (3, 4),
            (4, 1),
            (4, 2),
            (4, 3),
        ],
    );
    let rc = rich_club_coefficient(&storage, 5);
    assert!(rc.contains_key(&2));
    assert!(
        (rc[&2] - 1.0).abs() < 1e-6,
        "clique should have phi=1.0, got {}",
        rc[&2]
    );
}

#[test]
fn test_small_world_coefficient() {
    let storage = build_graph(&[]);
    assert_eq!(small_world_coefficient(&storage), 0.0);

    // Graph with triangles (for clustering) and shortcuts (for short paths)
    // Two triangles {1,2,3} and {4,5,6} connected by shortcut 3-4
    let storage = build_graph(&[
            (1, 2),
            (2, 3),
            (3, 1),
            (2, 1),
            (3, 2),
            (1, 3),
            (4, 5),
            (5, 6),
            (6, 4),
            (5, 4),
            (6, 5),
            (4, 6),
            (3, 4),
            (4, 3),
        ],
    );
    let sigma = small_world_coefficient(&storage);
    assert!(
        sigma > 0.0,
        "small-world coefficient should be positive, got {}",
        sigma
    );
}

#[test]
fn test_periphery() {
    // Line: 1-2-3-4, periphery = {1, 4}
    let storage = build_graph(&[(1, 2), (2, 3), (3, 4)]);
    let p = periphery(&storage);
    assert_eq!(p.len(), 2);
    assert!(p.contains(&1u64));
    assert!(p.contains(&4u64));
}

#[test]
fn test_center() {
    // Line: 1-2-3-4, center = {2, 3}
    let storage = build_graph(&[(1, 2), (2, 3), (3, 4)]);
    let c = center(&storage);
    assert_eq!(c.len(), 2);
    assert!(c.contains(&2u64));
    assert!(c.contains(&3u64));
}

#[test]
fn test_modularity() {
    // Two triangles: {1,2,3} and {4,5,6}
    let storage = build_graph(&[(1, 2), (2, 3), (3, 1), (4, 5), (5, 6), (6, 4)]);
    let mut partition = HashMap::new();
    partition.insert(1u64, 0);
    partition.insert(2u64, 0);
    partition.insert(3u64, 0);
    partition.insert(4u64, 1);
    partition.insert(5u64, 1);
    partition.insert(6u64, 1);
    let q = modularity(&storage, &partition);
    assert!(
        q > 0.3,
        "two disconnected triangles should have positive modularity, got {}",
        q
    );
}

#[test]
fn test_conductance() {
    // Two triangles connected by one edge: 3-4
    let storage = build_graph(&[(1, 2), (2, 3), (3, 1), (3, 4), (4, 5), (5, 6), (6, 4)],
    );
    let mut partition = HashMap::new();
    partition.insert(1u64, 0);
    partition.insert(2u64, 0);
    partition.insert(3u64, 0);
    partition.insert(4u64, 1);
    partition.insert(5u64, 1);
    partition.insert(6u64, 1);
    let cond = conductance(&storage, &partition);
    assert!(cond.contains_key(&0));
    assert!(cond.contains_key(&1));
    // Conductance should be positive (one edge crossing)
    assert!(*cond.get(&0).unwrap() > 0.0);
}

#[test]
fn test_normalized_cut() {
    // Two triangles connected by one edge
    let storage = build_graph(&[(1, 2), (2, 3), (3, 1), (3, 4), (4, 5), (5, 6), (6, 4)],
    );
    let mut partition = HashMap::new();
    partition.insert(1u64, 0);
    partition.insert(2u64, 0);
    partition.insert(3u64, 0);
    partition.insert(4u64, 1);
    partition.insert(5u64, 1);
    partition.insert(6u64, 1);
    let nc = normalized_cut(&storage, &partition);
    assert!(nc.contains_key(&0));
    assert!(nc.contains_key(&1));
    assert!(*nc.get(&0).unwrap() > 0.0);
}
