//! Shares of degree, closeness and betweenness, and scores that settle.
use std::collections::HashMap;

use graphkit::graph::paths::count_paths_of_length;
use graphkit::graph::{Edge, Graph};
use graphkit::quantity::{Compared, Quantity};

/// The double that a quantity stands for.
fn value(q: &Quantity) -> f64 {
    match q {
        Quantity::Bits(b) => f64::from_bits(*b),
        Quantity::Decimal { units, places } => *units as f64 / 10f64.powi(*places as i32),
        Quantity::Count(n) => *n as f64,
        Quantity::Integer(n) => *n as f64,
        Quantity::Sum(a, b) => value(a) + value(b),
        Quantity::Difference(a, b) => value(a) - value(b),
        Quantity::Product(a, b) => value(a) * value(b),
        Quantity::Quotient(a, b) => value(a) / value(b),
        Quantity::Negated(a) => -value(a),
        Quantity::Larger(a, b) => value(a).max(value(b)),
        Quantity::Smaller(a, b) => value(a).min(value(b)),
        Quantity::Log2(a) => value(a).log2(),
        Quantity::Ln(a) => value(a).ln(),
        Quantity::Sqrt(a) => value(a).sqrt(),
        Quantity::Abs(a) => value(a).abs(),
        Quantity::Either(a, b) => value(a) + value(b) - value(a) * value(b),
    }
}

fn compare(a: &Quantity, b: &Quantity) -> Compared {
    match value(a).partial_cmp(&value(b)) {
        Some(std::cmp::Ordering::Less) => Compared::Less,
        Some(std::cmp::Ordering::Equal) => Compared::Equal,
        Some(std::cmp::Ordering::Greater) => Compared::Greater,
        None => Compared::Unordered,
    }
}

fn bits(q: &Quantity) -> u64 {
    value(q).to_bits()
}

fn quantity(x: f64) -> Quantity {
    Quantity::Bits(x.to_bits())
}

fn values<K: Copy + Eq + std::hash::Hash>(m: &HashMap<K, Quantity>) -> HashMap<K, f64> {
    m.iter().map(|(k, q)| (*k, value(q))).collect()
}

fn network(vertices: &[u64], pairs: &[(u64, u64)]) -> Graph {
    let edges = pairs.iter().map(|&(from, to)| Edge { from, to }).collect();
    Graph::new(vertices.to_vec(), edges).unwrap()
}

/// The graph with the given edges, and their ends in the order in which they are first named.
fn build_graph(pairs: &[(u64, u64)]) -> Graph {
    let mut vertices: Vec<u64> = Vec::new();
    for &(from, to) in pairs {
        if !vertices.contains(&from) {
            vertices.push(from);
        }
        if !vertices.contains(&to) {
            vertices.push(to);
        }
    }
    network(&vertices, pairs)
}

fn degree_centrality(g: &Graph) -> HashMap<u64, f64> {
    values(&graphkit::graph::centrality::degree_centrality(g))
}

fn betweenness_centrality(g: &Graph) -> HashMap<u64, f64> {
    values(&graphkit::graph::centrality::betweenness_centrality(g, &bits))
}

fn closeness_centrality(g: &Graph) -> HashMap<u64, f64> {
    values(&graphkit::graph::centrality::closeness_centrality(g))
}

fn hits(g: &Graph, max_iter: usize, epsilon: f64) -> (HashMap<u64, f64>, HashMap<u64, f64>) {
    let (auth, hub) = graphkit::graph::ranks::hits(g, &compare, &bits, max_iter, &quantity(epsilon));
    (values(&auth), values(&hub))
}

fn katz_centrality(g: &Graph, alpha: f64, max_iter: usize, epsilon: f64) -> HashMap<u64, f64> {
    let katz = graphkit::graph::ranks::katz_centrality(g, &compare, &bits, &quantity(alpha), max_iter, &quantity(epsilon));
    values(&katz)
}

#[test]
fn centrality_test_degree_centrality() {
    // Triangle: each node has degree 2
    let storage = build_graph(&[(1, 2), (2, 3), (3, 1)]);
    let dc = degree_centrality(&storage);
    assert_eq!(dc.len(), 3);
    // n=3, max degree = 2, so centrality = 2/2 = 1.0 for each
    assert!((dc[&1u64] - 1.0).abs() < 1e-6);
    assert!((dc[&2u64] - 1.0).abs() < 1e-6);
    assert!((dc[&3u64] - 1.0).abs() < 1e-6);
}

#[test]
fn test_degree_centrality_star() {
    // Star: 1 connected to 2,3,4
    let storage = build_graph(&[(1, 2), (1, 3), (1, 4)]);
    let dc = degree_centrality(&storage);
    // n=4, center has degree 3 -> 3/3 = 1.0, leaves have degree 1 -> 1/3
    assert!((dc[&1u64] - 1.0).abs() < 1e-6);
    assert!((dc[&2u64] - 1.0 / 3.0).abs() < 1e-6);
}

#[test]
fn test_betweenness_centrality_line() {
    // Line graph: 1-2-3-4
    let storage = build_graph(&[(1, 2), (2, 3), (3, 4)]);
    let bc = betweenness_centrality(&storage);
    assert_eq!(bc.len(), 4);
    // Middle nodes should have higher betweenness
    assert!(bc[&2u64] > bc[&1u64]);
    assert!(bc[&3u64] > bc[&1u64]);
    // End nodes have zero betweenness in an undirected line
    assert_eq!(bc[&1u64], 0.0);
    assert_eq!(bc[&4u64], 0.0);
}

#[test]
fn test_betweenness_centrality_star() {
    // Star: 1 connected to 2,3,4,5
    let storage = build_graph(&[(1, 2), (1, 3), (1, 4), (1, 5)]);
    let bc = betweenness_centrality(&storage);
    // Center node lies on all shortest paths between leaves
    assert!(bc[&1u64] > 0.0);
    // Leaves have zero betweenness
    assert_eq!(bc[&2u64], 0.0);
}

#[test]
fn test_closeness_centrality_line() {
    // Line: 1-2-3-4
    let storage = build_graph(&[(1, 2), (2, 3), (3, 4)]);
    let cc = closeness_centrality(&storage);
    assert_eq!(cc.len(), 4);
    // Middle nodes should have higher closeness
    assert!(cc[&2u64] > cc[&1u64]);
    assert!(cc[&3u64] > cc[&4u64]);
}

#[test]
fn test_closeness_centrality_isolated() {
    let storage = network(&[1, 2], &[]);
    let cc = closeness_centrality(&storage);
    assert_eq!(cc[&1u64], 0.0);
    assert_eq!(cc[&2u64], 0.0);
}

#[test]
fn test_hits_simple() {
    // Simple directed graph: 1 -> 2, 3 -> 2
    let storage = build_graph(&[(1, 2), (3, 2)]);
    let (auth, hub) = hits(&storage, 100, 1e-6);
    assert_eq!(auth.len(), 3);
    assert_eq!(hub.len(), 3);
    // Node 2 has highest authority (two incoming links)
    assert!(auth[&2u64] >= auth[&1u64]);
    assert!(auth[&2u64] >= auth[&3u64]);
}

#[test]
fn test_hits_cycle() {
    let storage = build_graph(&[(1, 2), (2, 3), (3, 1)]);
    let (auth, hub) = hits(&storage, 100, 1e-6);
    // Symmetric cycle should have roughly equal scores
    assert!((auth[&1u64] - auth[&2u64]).abs() < 1e-3);
    assert!((hub[&1u64] - hub[&2u64]).abs() < 1e-3);
}

#[test]
fn test_hits_empty() {
    let storage = build_graph(&[]);
    let (auth, hub) = hits(&storage, 100, 1e-6);
    assert!(auth.is_empty());
    assert!(hub.is_empty());
}

#[test]
fn test_katz_line() {
    let storage = build_graph(&[(1, 2), (2, 3), (3, 4)]);
    let katz = katz_centrality(&storage, 0.1, 100, 1e-6);
    assert_eq!(katz.len(), 4);
    // Middle nodes should have higher centrality
    assert!(katz[&2u64] > katz[&1u64]);
    assert!(katz[&3u64] > katz[&4u64]);
}

#[test]
fn test_katz_star() {
    let storage = build_graph(&[(1, 2), (1, 3), (1, 4), (1, 5)]);
    let katz = katz_centrality(&storage, 0.1, 100, 1e-6);
    // Center node should have highest centrality
    assert!(katz[&1u64] > katz[&2u64]);
}

#[test]
fn test_count_paths_of_length() {
    let storage = build_graph(&[(1, 2), (2, 3), (3, 1)]);
    // Length 1 paths from each node
    let p1 = count_paths_of_length(&storage, 1);
    assert_eq!(p1[&1u64], 2); // 1->2, 1<-3
    assert_eq!(p1[&2u64], 2);
    assert_eq!(p1[&3u64], 2);
}

#[test]
fn test_katz_empty() {
    let storage = build_graph(&[]);
    let katz = katz_centrality(&storage, 0.1, 100, 1e-6);
    assert!(katz.is_empty());
}

#[test]
fn many_shortest_paths_are_shared_out() {
    // A grid of twelve by twelve vertices
    let mut pairs: Vec<(u64, u64)> = Vec::new();
    for x in 0..12u64 {
        for y in 0..12u64 {
            if x < 11 {
                pairs.push((x * 12 + y, x * 12 + y + 12));
            }
            if y < 11 {
                pairs.push((x * 12 + y, x * 12 + y + 1));
            }
        }
    }
    let bc = betweenness_centrality(&build_graph(&pairs));
    assert_eq!(bc.len(), 144);
    assert!((bc[&0] - bc[&143]).abs() < 1e-6);
    assert!(bc[&66] > bc[&0]);
    // The inner vertices of all shortest paths, pair by pair
    let mut inner = 0.0;
    for a in 0..144i64 {
        for b in 0..a {
            inner += ((a / 12 - b / 12).abs() + (a % 12 - b % 12).abs() - 1) as f64;
        }
    }
    assert!((bc.values().sum::<f64>() - inner).abs() < 1e-6);
}
