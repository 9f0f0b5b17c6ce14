//! Cut vertices, cliques, colorings and cores.
use std::collections::HashMap;

use graphkit::graph::cliques::{clique_number, cliques_containing, maximal_cliques};
use graphkit::graph::coloring::{chromatic_number, dsatur_coloring, greedy_coloring};
use graphkit::graph::cores::{core_decomposition, degeneracy, k_core};
use graphkit::graph::cuts::{articulation_points, is_biconnected};
use graphkit::graph::{Edge, Graph};
use graphkit::quantity::{Compared, Quantity};

/// The double that a quantity stands for.
fn value(q: &Quantity) -> f64 {
    match q {
        Quantity::Bits(b) => f64::from_bits(*b),
        Quantity::Decimal { units, places } => *units as f64 / 10f64.powi(*places as i32),
        Quantity::Count(n) => *n as f64,
        Quantity::Integer(n) => *n as f64,
        Quantity::Sum(a, b) => value(a) + value(b),
        Quantity::Difference(a, b) => value(a) - value(b),
        Quantity::Product(a, b) => value(a) * value(b),
        Quantity::Quotient(a, b) => value(a) / value(b),
        Quantity::Negated(a) => -value(a),
        Quantity::Larger(a, b) => value(a).max(value(b)),
        Quantity::Smaller(a, b) => value(a).min(value(b)),
        Quantity::Log2(a) => value(a).log2(),
        Quantity::Ln(a) => value(a).ln(),
        Quantity::Sqrt(a) => value(a).sqrt(),
        Quantity::Abs(a) => value(a).abs(),
        Quantity::Either(a, b) => value(a) + value(b) - value(a) * value(b),
    }
}

fn compare(a: &Quantity, b: &Quantity) -> Compared {
    match value(a).partial_cmp(&value(b)) {
        Some(std::cmp::Ordering::Less) => Compared::Less,
        Some(std::cmp::Ordering::Equal) => Compared::Equal,
        Some(std::cmp::Ordering::Greater) => Compared::Greater,
        None => Compared::Unordered,
    }
}

fn bits(q: &Quantity) -> u64 {
    value(q).to_bits()
}

fn quantity(x: f64) -> Quantity {
    Quantity::Bits(x.to_bits())
}

fn values<K: Copy + Eq + std::hash::Hash>(m: &HashMap<K, Quantity>) -> HashMap<K, f64> {
    m.iter().map(|(k, q)| (*k, value(q))).collect()
}

fn network(vertices: &[u64], pairs: &[(u64, u64)]) -> Graph {
    let edges = pairs.iter().map(|&(from, to)| Edge { from, to }).collect();
    Graph::new(vertices.to_vec(), edges).unwrap()
}

/// The graph with the given edges, and their ends in the order in which they are first named.
fn build_graph(pairs: &[(u64, u64)]) -> Graph {
    let mut vertices: Vec<u64> = Vec::new();
    for &(from, to) in pairs {
        if !vertices.contains(&from) {
            vertices.push(from);
        }
        if !vertices.contains(&to) {
            vertices.push(to);
        }
    }
    network(&vertices, pairs)
}

fn is_valid_coloring(g: &Graph, coloring: &HashMap<u64, usize>) -> bool {
    for (gid, &c) in coloring {
        for other in g.out_edges(*gid) {
            if let Some(&co) = coloring.get(&other) {
                if co == c {
                    return false;
                }
            }
        }
    }
    true
}

#[test]
fn test_articulation_points_line() {
    let storage = build_graph(&[(1, 2), (2, 3), (3, 4)]);
    let ap = articulation_points(&storage);
    // Nodes 2 and 3 are articulation points in a line
    assert_eq!(ap.len(), 2);
    assert!(ap.contains(&2u64));
    assert!(ap.contains(&3u64));
}

#[test]
fn test_articulation_points_cycle() {
    let storage = build_graph(&[(1, 2), (2, 3), (3, 4), (4, 1)]);
    let ap = articulation_points(&storage);
    // Cycle has no articulation points
    assert!(ap.is_empty());
}

#[test]
fn test_articulation_points_star() {
    let storage = build_graph(&[(1, 2), (1, 3), (1, 4), (1, 5)]);
    let ap = articulation_points(&storage);
    // Center node is the only articulation point
    assert_eq!(ap.len(), 1);
    assert!(ap.contains(&1u64));
}

#[test]
fn test_articulation_points_two_cycles() {
    // Two cycles sharing a single node (3)
    let storage = build_graph(&[(1, 2), (2, 3), (3, 1), (3, 4), (4, 5), (5, 3)]);
    let ap = articulation_points(&storage);
    // Node 3 is the only articulation point
    assert_eq!(ap.len(), 1);
    assert!(ap.contains(&3u64));
}

#[test]
fn test_is_biconnected() {
    let storage = build_graph(&[(1, 2), (2, 3), (3, 1)]);
    assert!(is_biconnected(&storage));

    let storage2 = build_graph(&[(1, 2), (2, 3)]);
    assert!(!is_biconnected(&storage2));
}

#[test]
fn test_maximal_cliques_triangle() {
    let storage = build_graph(&[(1, 2), (2, 3), (3, 1)]);
    let cliques = maximal_cliques(&storage);
    assert_eq!(cliques.len(), 1);
    assert_eq!(cliques[0].len(), 3);
}

#[test]
fn test_maximal_cliques_two_triangles() {
    // Two triangles sharing an edge: 1-2-3-1 and 2-3-4-2
    let storage = build_graph(&[(1, 2), (2, 3), (3, 1), (2, 4), (4, 3)]);
    let cliques = maximal_cliques(&storage);
    // Both triangles are maximal cliques of size 3
    assert_eq!(cliques.len(), 2);
    for c in &cliques {
        assert_eq!(c.len(), 3);
    }
}

#[test]
fn test_maximal_cliques_line() {
    let storage = build_graph(&[(1, 2), (2, 3), (3, 4)]);
    let cliques = maximal_cliques(&storage);
    // Each edge is a maximal clique of size 2
    assert_eq!(cliques.len(), 3);
    for c in &cliques {
        assert_eq!(c.len(), 2);
    }
}

#[test]
fn test_clique_number() {
    let storage = build_graph(&[(1, 2), (2, 3), (3, 1), (3, 4)]);
    assert_eq!(clique_number(&storage), 3);
}

#[test]
fn test_cliques_containing() {
    let storage = build_graph(&[(1, 2), (2, 3), (3, 1)]);
    let cliques = cliques_containing(&storage, 1u64);
    assert_eq!(cliques.len(), 1);
    assert!(cliques[0].contains(&1u64));
}

#[test]
fn test_greedy_triangle() {
    let storage = build_graph(&[(1, 2), (2, 3), (3, 1)]);
    let coloring = greedy_coloring(&storage);
    assert_eq!(coloring.len(), 3);
    assert!(is_valid_coloring(&storage, &coloring));
    assert_eq!(chromatic_number(&coloring), 3);
}

#[test]
fn test_greedy_bipartite() {
    // Square (even cycle): 2-colorable
    let storage = build_graph(&[(1, 2), (2, 3), (3, 4), (4, 1)]);
    let coloring = greedy_coloring(&storage);
    assert!(is_valid_coloring(&storage, &coloring));
    assert_eq!(chromatic_number(&coloring), 2);
}

#[test]
fn test_dsatur_triangle() {
    let storage = build_graph(&[(1, 2), (2, 3), (3, 1)]);
    let coloring = dsatur_coloring(&storage);
    assert_eq!(coloring.len(), 3);
    assert!(is_valid_coloring(&storage, &coloring));
    assert_eq!(chromatic_number(&coloring), 3);
}

#[test]
fn test_dsatur_bipartite() {
    let storage = build_graph(&[(1, 2), (2, 3), (3, 4), (4, 1)]);
    let coloring = dsatur_coloring(&storage);
    assert!(is_valid_coloring(&storage, &coloring));
    assert_eq!(chromatic_number(&coloring), 2);
}

#[test]
fn test_empty_graph() {
    let storage = build_graph(&[]);
    let coloring = greedy_coloring(&storage);
    assert!(coloring.is_empty());
    assert_eq!(chromatic_number(&coloring), 0);
}

#[test]
fn test_core_decomposition_triangle() {
    let storage = build_graph(&[(1, 2), (2, 3), (3, 1)]);
    let cores = core_decomposition(&storage);
    // Triangle: each vertex has degree 2, so core number = 2
    assert_eq!(cores[&1u64], 2);
    assert_eq!(cores[&2u64], 2);
    assert_eq!(cores[&3u64], 2);
}

#[test]
fn test_core_decomposition_triangle_with_tail() {
    // Triangle 1-2-3-1, plus tail 3-4
    let storage = build_graph(&[(1, 2), (2, 3), (3, 1), (3, 4)]);
    let cores = core_decomposition(&storage);
    // Node 4 has degree 1, so core number = 1
    assert_eq!(cores[&4u64], 1);
    // Nodes 1,2,3 still form a triangle with effective core 2
    assert_eq!(cores[&1u64], 2);
    assert_eq!(cores[&2u64], 2);
    assert_eq!(cores[&3u64], 2);
}

#[test]
fn test_k_core() {
    let storage = build_graph(&[(1, 2), (2, 3), (3, 1), (3, 4)]);
    let k2 = k_core(&storage, 2);
    assert_eq!(k2.len(), 3);
    assert!(k2.contains(&1u64));
    assert!(k2.contains(&2u64));
    assert!(k2.contains(&3u64));
}

#[test]
fn test_degeneracy() {
    let storage = build_graph(&[(1, 2), (2, 3), (3, 1)]);
    assert_eq!(degeneracy(&storage), 2);
}
