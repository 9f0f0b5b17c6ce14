//! Communities, links and random walks.
use std::collections::HashMap;

use graphkit::graph::distance::diameter;
use graphkit::graph::links::{common_neighbors_count, soundarajan_hopcroft};
use graphkit::graph::unionfind::connected_components;
use graphkit::graph::walks::Bias;
use graphkit::graph::{Edge, Graph};
use graphkit::quantity::{Compared, Quantity};

/// The double that a quantity stands for.
fn value(q: &Quantity) -> f64 {
    match q {
        Quantity::Bits(b) => f64::from_bits(*b),
        Quantity::Decimal { units, places } => *units as f64 / 10f64.powi(*places as i32),
        Quantity::Count(n) => *n as f64,
        Quantity::Integer(n) => *n as f64,
        Quantity::Sum(a, b) => value(a) + value(b),
        Quantity::Difference(a, b) => value(a) - value(b),
        Quantity::Product(a, b) => value(a) * value(b),
        Quantity::Quotient(a, b) => value(a) / value(b),
        Quantity::Negated(a) => -value(a),
        Quantity::Larger(a, b) => value(a).max(value(b)),
        Quantity::Smaller(a, b) => value(a).min(value(b)),
        Quantity::Log2(a) => value(a).log2(),
        Quantity::Ln(a) => value(a).ln(),
        Quantity::Sqrt(a) => value(a).sqrt(),
        Quantity::Abs(a) => value(a).abs(),
        Quantity::Either(a, b) => value(a) + value(b) - value(a) * value(b),
    }
}

fn compare(a: &Quantity, b: &Quantity) -> Compared {
    match value(a).partial_cmp(&value(b)) {
        Some(std::cmp::Ordering::Less) => Compared::Less,
        Some(std::cmp::Ordering::Equal) => Compared::Equal,
        Some(std::cmp::Ordering::Greater) => Compared::Greater,
        None => Compared::Unordered,
    }
}

fn bits(q: &Quantity) -> u64 {
    value(q).to_bits()
}

fn quantity(x: f64) -> Quantity {
    Quantity::Bits(x.to_bits())
}

fn values<K: Copy + Eq + std::hash::Hash>(m: &HashMap<K, Quantity>) -> HashMap<K, f64> {
    m.iter().map(|(k, q)| (*k, value(q))).collect()
}

fn network(vertices: &[u64], pairs: &[(u64, u64)]) -> Graph {
    let edges = pairs.iter().map(|&(from, to)| Edge { from, to }).collect();
    Graph::new(vertices.to_vec(), edges).unwrap()
}

/// The graph with the given edges, and their ends in the order in which they are first named.
fn build_graph(pairs: &[(u64, u64)]) -> Graph {
    let mut vertices: Vec<u64> = Vec::new();
    for &(from, to) in pairs {
        if !vertices.contains(&from) {
            vertices.push(from);
        }
        if !vertices.contains(&to) {
            vertices.push(to);
        }
    }
    network(&vertices, pairs)
}

fn louvain(g: &Graph) -> HashMap<u64, u64> {
    graphkit::graph::community::louvain(g, &compare, &bits)
}

fn eigenvector_centrality(g: &Graph, max_iter: usize, epsilon: f64) -> HashMap<u64, f64> {
    values(&graphkit::graph::community::eigenvector_centrality(g, &compare, &bits, max_iter, &quantity(epsilon)))
}

fn adamic_adar(g: &Graph, a: u64, b: u64) -> f64 {
    value(&graphkit::graph::links::adamic_adar(g, a, b))
}

fn preferential_attachment(g: &Graph, a: u64, b: u64) -> f64 {
    value(&graphkit::graph::links::preferential_attachment(g, a, b))
}

fn resource_allocation(g: &Graph, a: u64, b: u64) -> f64 {
    value(&graphkit::graph::links::resource_allocation(g, a, b))
}

fn predict_links(g: &Graph, top_k: usize) -> Vec<(u64, u64, f64)> {
    graphkit::graph::links::predict_links(g, &compare, top_k).iter().map(|l| (l.a, l.b, value(&l.score))).collect()
}

fn bias(p: f64, q: f64) -> Bias {
    Bias { p: quantity(p), q: quantity(q) }
}

fn simple_random_walk(g: &Graph, start: u64, length: usize) -> Vec<u64> {
    graphkit::graph::walks::simple_random_walk(g, &compare, start, length)
}

fn biased_random_walk(g: &Graph, start: u64, length: usize, p: f64, q: f64) -> Vec<u64> {
    graphkit::graph::walks::biased_random_walk(g, &compare, start, length, &bias(p, q))
}

fn generate_walks(g: &Graph, walks_per_node: usize, length: usize, p: f64, q: f64) -> Vec<Vec<u64>> {
    graphkit::graph::walks::generate_walks(g, &compare, walks_per_node, length, &bias(p, q))
}

#[test]
fn test_label_propagation_basic() {
    let a: u64 = 1;
    let b: u64 = 2;
    let c: u64 = 3;
    let storage = network(&[a, b, c], &[(a, b), (b, c)]);

    let communities = graphkit::graph::community::label_propagation(&storage, 10);
    assert_eq!(communities.len(), 3);
}

#[test]
fn test_connected_components_basic() {
    let a: u64 = 1;
    let b: u64 = 2;
    let c: u64 = 3;
    let storage = network(&[a, b, c], &[(a, b)]);

    let components = connected_components(&storage);
    assert_eq!(components[&a], components[&b]);
    // c is isolated
    assert_eq!(components[&c], c);
}

#[test]
fn test_louvain_basic() {
    let a: u64 = 1;
    let b: u64 = 2;
    let c: u64 = 3;
    let d: u64 = 4;
    let storage = network(&[a, b, c, d], &[(a, b), (b, c), (c, d)]);

    let communities = louvain(&storage);
    assert_eq!(communities.len(), 4);
}

#[test]
fn test_eigenvector_centrality_basic() {
    let a: u64 = 1;
    let b: u64 = 2;
    let c: u64 = 3;
    let storage = network(&[a, b, c], &[(a, b), (b, c)]);

    let ec = eigenvector_centrality(&storage, 100, 1e-6);
    assert_eq!(ec.len(), 3);
    // b should have highest centrality (degree 2)
    assert!(ec[&b] >= ec[&a]);
    assert!(ec[&b] >= ec[&c]);
}

#[test]
fn test_diameter_line() {
    let a: u64 = 1;
    let b: u64 = 2;
    let c: u64 = 3;
    let d: u64 = 4;
    let storage = network(&[a, b, c, d], &[(a, b), (b, c), (c, d)]);

    assert_eq!(diameter(&storage), 3);
}

#[test]
fn test_diameter_empty() {
    let storage = build_graph(&[]);
    assert_eq!(diameter(&storage), 0);
}

#[test]
fn test_simple_random_walk() {
    let storage = build_graph(&[(1, 2), (2, 3), (3, 1)]);
    let walk = simple_random_walk(&storage, 1u64, 5);
    assert_eq!(walk[0], 1u64);
    assert_eq!(walk.len(), 6); // start + 5 steps
}

#[test]
fn test_biased_random_walk() {
    let storage = build_graph(&[(1, 2), (2, 3), (3, 1)]);
    let walk = biased_random_walk(&storage, 1u64, 5, 1.0, 1.0);
    assert_eq!(walk[0], 1u64);
    assert_eq!(walk.len(), 6);
}

#[test]
fn test_generate_walks() {
    let storage = build_graph(&[(1, 2), (2, 3), (3, 1)]);
    let walks = generate_walks(&storage, 2, 3, 1.0, 1.0);
    assert_eq!(walks.len(), 6); // 3 nodes * 2 walks
    for w in &walks {
        assert_eq!(w.len(), 4); // start + 3 steps
    }
}

#[test]
fn test_random_walk_isolated() {
    let storage = network(&[1], &[]);
    let walk = simple_random_walk(&storage, 1u64, 5);
    assert_eq!(walk, vec![1u64]);
}

#[test]
fn test_label_propagation_cliques() {
    // Cliques 1-2-3 and 4-5-6, and a bridge
    let storage = build_graph(&[(1, 2), (2, 3), (3, 1), (4, 5), (5, 6), (6, 4), (3, 4)]);
    let communities = graphkit::graph::labels::label_propagation(&storage, 100);
    assert_eq!(communities.len(), 6);
    // Within each clique, labels should converge (or at least not crash)
    assert_eq!(communities[&1u64], communities[&2u64]);
    assert_eq!(communities[&2u64], communities[&3u64]);
    assert_eq!(communities[&4u64], communities[&5u64]);
    assert_eq!(communities[&5u64], communities[&6u64]);
}

#[test]
fn test_label_propagation_empty() {
    let storage = build_graph(&[]);
    let communities = graphkit::graph::labels::label_propagation(&storage, 10);
    assert!(communities.is_empty());
}

#[test]
fn test_adamic_adar() {
    // Square with diagonal: 1-2-3-4-1, plus 1-3
    let storage = build_graph(&[(1, 2), (2, 3), (3, 4), (4, 1), (1, 3)]);
    // Nodes 2 and 4 share neighbors {1, 3}
    let score = adamic_adar(&storage, 2u64, 4u64);
    assert!(score > 0.0);
}

#[test]
fn test_preferential_attachment() {
    // Star: 1 connected to 2,3,4,5
    let storage = build_graph(&[(1, 2), (1, 3), (1, 4), (1, 5)]);
    let pa = preferential_attachment(&storage, 2u64, 3u64);
    // Both have degree 1 -> 1*1 = 1
    assert_eq!(pa, 1.0);
}

#[test]
fn test_resource_allocation() {
    let storage = build_graph(&[(1, 2), (2, 3), (3, 1)]);
    let ra = resource_allocation(&storage, 1u64, 2u64);
    // Already connected; but RA still computes via common neighbor 3
    assert!(ra > 0.0);
}

#[test]
fn test_common_neighbors_count() {
    let storage = build_graph(&[(1, 2), (2, 3), (3, 1)]);
    assert_eq!(common_neighbors_count(&storage, 1u64, 2u64), 1);
}

#[test]
fn test_soundarajan_hopcroft_same_community() {
    let storage = build_graph(&[(1, 2), (2, 3), (3, 1), (4, 5)]);
    let mut comm = HashMap::new();
    comm.insert(1u64, 0);
    comm.insert(2u64, 0);
    comm.insert(3u64, 0);
    comm.insert(4u64, 1);
    comm.insert(5u64, 1);
    // 1 and 2 are in same community, share neighbor 3 (also same community)
    let score = soundarajan_hopcroft(&storage, 1u64, 2u64, &comm);
    assert_eq!(score, 1);
}

#[test]
fn test_soundarajan_hopcroft_different_community() {
    let storage = build_graph(&[(1, 2), (2, 3), (3, 1)]);
    let mut comm = HashMap::new();
    comm.insert(1u64, 0);
    comm.insert(2u64, 1);
    comm.insert(3u64, 0);
    let score = soundarajan_hopcroft(&storage, 1u64, 2u64, &comm);
    assert_eq!(score, 0);
}

#[test]
fn test_predict_links() {
    // Square: 1-2-3-4-1 (no diagonal)
    let storage = build_graph(&[(1, 2), (2, 3), (3, 4), (4, 1)]);
    let predictions = predict_links(&storage, 10);
    // Pair (1,3) and (2,4) are not connected
    assert!(predictions.len() >= 1);
}
