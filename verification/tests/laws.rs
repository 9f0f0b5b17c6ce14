//! What holds of every graph and of every number, on some of them.
use std::collections::HashMap;

use graphkit::graph::cliques::{clique_number, cliques_containing, maximal_cliques};
use graphkit::graph::coloring::{chromatic_number, dsatur_coloring, greedy_coloring};
use graphkit::graph::community::louvain;
use graphkit::graph::components::{is_bipartite, wcc};
use graphkit::graph::cores::{core_decomposition, coreness, k_core};
use graphkit::graph::cuts::{articulation_points, bridges};
use graphkit::graph::dag::{has_cycle, topological_sort};
use graphkit::graph::distance::{bfs, center, diameter, eccentricity, periphery, radius, shortest_path};
use graphkit::graph::labels::label_propagation;
use graphkit::graph::links::{adamic_adar, predict_links, resource_allocation};
use graphkit::graph::order::degree_centrality;
use graphkit::graph::paths::count_paths_of_length;
use graphkit::graph::ranks::{hits, katz_centrality, pagerank};
use graphkit::graph::scc::scc;
use graphkit::graph::triangles::{clustering_coefficient, triangle_count};
use graphkit::graph::unionfind::connected_components;
use graphkit::graph::walks::{biased_random_walk, fast_rng, generate_walks, simple_random_walk, Bias, FastRng};
use graphkit::graph::{Edge, Graph};
use graphkit::procedure::codes::MgpError;
use graphkit::procedure::entities::{
    mgp_edge_get_id, mgp_edge_id, mgp_graph, mgp_graph_get_vertex_by_id, mgp_vertex_get_id, mgp_vertex_id,
};
use graphkit::procedure::value::{mgp_edge, mgp_vertex};
use graphkit::quantity::{Compared, Quantity};

/// The double that a quantity stands for.
fn value(q: &Quantity) -> f64 {
    match q {
        Quantity::Bits(b) => f64::from_bits(*b),
        Quantity::Decimal { units, places } => *units as f64 / 10f64.powi(*places as i32),
        Quantity::Count(n) => *n as f64,
        Quantity::Integer(n) => *n as f64,
        Quantity::Sum(a, b) => value(a) + value(b),
        Quantity::Difference(a, b) => value(a) - value(b),
        Quantity::Product(a, b) => value(a) * value(b),
        Quantity::Quotient(a, b) => value(a) / value(b),
        Quantity::Negated(a) => -value(a),
        Quantity::Larger(a, b) => value(a).max(value(b)),
        Quantity::Smaller(a, b) => value(a).min(value(b)),
        Quantity::Log2(a) => value(a).log2(),
        Quantity::Ln(a) => value(a).ln(),
        Quantity::Sqrt(a) => value(a).sqrt(),
        Quantity::Abs(a) => value(a).abs(),
        Quantity::Either(a, b) => value(a) + value(b) - value(a) * value(b),
    }
}

fn compare(a: &Quantity, b: &Quantity) -> Compared {
    match value(a).partial_cmp(&value(b)) {
        Some(std::cmp::Ordering::Less) => Compared::Less,
        Some(std::cmp::Ordering::Equal) => Compared::Equal,
        Some(std::cmp::Ordering::Greater) => Compared::Greater,
        None => Compared::Unordered,
    }
}

fn bits(q: &Quantity) -> u64 {
    value(q).to_bits()
}

fn quantity(x: f64) -> Quantity {
    Quantity::Bits(x.to_bits())
}

fn values<K: Copy + Eq + std::hash::Hash>(m: &HashMap<K, Quantity>) -> HashMap<K, f64> {
    m.iter().map(|(k, q)| (*k, value(q))).collect()
}

fn network(vertices: &[u64], pairs: &[(u64, u64)]) -> Graph {
    let edges = pairs.iter().map(|&(from, to)| Edge { from, to }).collect();
    Graph::new(vertices.to_vec(), edges).unwrap()
}

/// The graph with the given edges, and their ends in the order in which they are first named.
fn build_graph(pairs: &[(u64, u64)]) -> Graph {
    let mut vertices: Vec<u64> = Vec::new();
    for &(from, to) in pairs {
        if !vertices.contains(&from) {
            vertices.push(from);
        }
        if !vertices.contains(&to) {
            vertices.push(to);
        }
    }
    network(&vertices, pairs)
}

/// Two triangles that share an edge, a tail, a pair apart, and a vertex alone.
fn sample() -> Graph {
    network(
        &[1, 2, 3, 4, 5, 6, 7, 8],
        &[(1, 2), (2, 3), (3, 1), (2, 4), (4, 3), (4, 5), (6, 7)],
    )
}

#[test]
fn graphs_are_made_of_known_vertices() {
    assert!(Graph::new(vec![1, 1], vec![]).is_none());
    assert!(Graph::new(vec![1], vec![Edge { from: 1, to: 2 }]).is_none());
    let g = Graph::new(vec![1, 2], vec![Edge { from: 1, to: 2 }, Edge { from: 1, to: 2 }, Edge { from: 2, to: 2 }]).unwrap();
    assert_eq!(g.neighbors(2), vec![2, 1, 1, 2]);
}

#[test]
fn rankings_list_every_vertex_once() {
    let g = sample();
    let ranking = degree_centrality(&g);
    let mut seen: Vec<u64> = ranking.iter().map(|r| r.0).collect();
    assert_eq!(ranking[0].1, 3);
    for pair in ranking.windows(2) {
        assert!(pair[0].1 >= pair[1].1);
    }
    seen.sort();
    assert_eq!(seen, *g.vertices());
}

#[test]
fn components_are_told_alike() {
    let g = sample();
    let numbered = wcc(&g);
    let represented = connected_components(&g);
    for a in g.vertices() {
        for b in g.vertices() {
            assert_eq!(numbered[a] == numbered[b], represented[a] == represented[b]);
            assert_eq!(numbered[a] == numbered[b], shortest_path(&g, *a, *b).is_some());
            let there = shortest_path(&g, *a, *b).map(|p| p.len());
            let back = shortest_path(&g, *b, *a).map(|p| p.len());
            assert_eq!(there, back);
        }
    }
}

#[test]
fn triangles_are_counted_once() {
    let complete = build_graph(&[(1, 2), (1, 3), (1, 4), (2, 3), (2, 4), (3, 4)]);
    assert_eq!(triangle_count(&complete), 4);
    assert_eq!(triangle_count(&sample()), 2);
    let clustering = values(&clustering_coefficient(&sample()));
    assert_eq!(clustering[&1], 1.0);
    assert_eq!(clustering[&5], 0.0);
}

#[test]
fn every_edge_lies_in_a_maximal_clique() {
    let g = sample();
    let cliques = maximal_cliques(&g);
    for e in g.edges() {
        assert!(cliques.iter().any(|c| c.contains(&e.from) && c.contains(&e.to)));
    }
    assert_eq!(clique_number(&g), 3);
    assert!(cliques.iter().any(|c| *c == vec![8]));
}

#[test]
fn cliques_are_listed_once() {
    let g = build_graph(&[(1, 2), (2, 3), (3, 4), (4, 5), (5, 1)]);
    let mut cliques = maximal_cliques(&g);
    cliques.sort();
    assert_eq!(cliques, vec![vec![1, 2], vec![1, 5], vec![2, 3], vec![3, 4], vec![4, 5]]);
    let mut around = cliques_containing(&g, 1);
    around.sort();
    assert_eq!(around, vec![vec![1, 2], vec![1, 5]]);
}

#[test]
fn colors_are_counted_once() {
    let coloring: HashMap<u64, usize> = [(1, 0), (2, 2), (3, 2)].into_iter().collect();
    assert_eq!(chromatic_number(&coloring), 2);
    assert_eq!(chromatic_number(&HashMap::new()), 0);
}

#[test]
fn isolated_vertices_get_the_first_color() {
    let g = network(&[1], &[]);
    assert_eq!(dsatur_coloring(&g), [(1, 0)].into_iter().collect());
    let g = network(&[9, 1, 2], &[(1, 2)]);
    let coloring = dsatur_coloring(&g);
    assert_eq!(coloring[&9], 0);
    assert_ne!(coloring[&1], coloring[&2]);
}

#[test]
fn edges_from_a_vertex_to_itself_make_no_cliques() {
    let g = network(&[1, 2, 3], &[(1, 1), (1, 2), (3, 3)]);
    let mut cliques: Vec<Vec<u64>> = maximal_cliques(&g);
    for c in cliques.iter_mut() {
        c.sort();
    }
    assert!(cliques.iter().all(|c| *c == vec![1, 2] || *c == vec![3]));
    assert!(cliques.contains(&vec![1, 2]) && cliques.contains(&vec![3]));
    assert_eq!(clique_number(&g), 2);
}

#[test]
fn colors_are_proper_and_leave_no_gap() {
    let g = build_graph(&[(1, 2), (2, 3), (3, 1), (3, 4), (4, 5), (5, 3)]);
    for coloring in [greedy_coloring(&g), dsatur_coloring(&g)] {
        for e in g.edges() {
            assert_ne!(coloring[&e.from], coloring[&e.to]);
        }
        for c in 0..chromatic_number(&coloring) {
            assert!(coloring.values().any(|x| *x == c));
        }
    }
}

#[test]
fn orders_and_cycles_exclude_each_other() {
    for pairs in [vec![(1, 2), (2, 3)], vec![(1, 2), (2, 1)], vec![(1, 1)], vec![]] {
        let g = build_graph(&pairs);
        assert_eq!(topological_sort(&g).is_none(), has_cycle(&g));
    }
}

#[test]
fn strong_components_lie_within_weak_ones() {
    let g = build_graph(&[(1, 2), (2, 1), (2, 3), (3, 4), (4, 3)]);
    let strong = scc(&g);
    assert_eq!(strong[&1], strong[&2]);
    assert_eq!(strong[&3], strong[&4]);
    assert_ne!(strong[&2], strong[&3]);
    let weak = wcc(&g);
    assert_eq!(weak[&1], weak[&4]);
}

#[test]
fn bridges_and_cut_vertices_disconnect() {
    let g = sample();
    let found = bridges(&g);
    assert_eq!(found.len(), 2);
    assert!(found.contains(&(4, 5)) || found.contains(&(5, 4)));
    assert!(found.contains(&(6, 7)) || found.contains(&(7, 6)));
    assert_eq!(articulation_points(&g), vec![4]);
    // Of two edges between the same vertices neither is a bridge
    let doubled = build_graph(&[(1, 2), (2, 1), (2, 3)]);
    let found = bridges(&doubled);
    assert!(found == vec![(2, 3)] || found == vec![(3, 2)]);
}

#[test]
fn distances_bound_each_other() {
    let g = build_graph(&[(1, 2), (2, 3), (3, 4), (4, 5)]);
    assert_eq!((radius(&g), diameter(&g)), (2, 4));
    assert_eq!(center(&g), vec![3]);
    assert_eq!(periphery(&g), vec![1, 5]);
    let far = eccentricity(&g);
    for v in g.vertices() {
        assert!(radius(&g) <= far[v] && far[v] <= diameter(&g));
    }
    assert_eq!(bfs(&g, 3), vec![3, 4, 2, 5, 1]);
}

#[test]
fn cores_are_nested() {
    let g = sample();
    let cores = coreness(&g);
    assert_eq!(cores[&1], 2);
    assert_eq!(cores[&5], 1);
    assert_eq!(cores[&8], 0);
    for v in k_core(&g, 2) {
        assert!(k_core(&g, 1).contains(&v));
    }
    assert_eq!(core_decomposition(&g)[&1], 2);
}

#[test]
fn shared_neighbors_make_links_likely() {
    let g = build_graph(&[(1, 2), (2, 3), (3, 4), (4, 1)]);
    // 1 and 3 share 2 and 4, which have two neighbors each
    assert_eq!(value(&resource_allocation(&g, 1, 3)), 1.0);
    assert!((value(&adamic_adar(&g, 1, 3)) - 2.0 / 2f64.ln()).abs() < 1e-12);
    let links = predict_links(&g, &compare, 1);
    assert_eq!(links.len(), 1);
    assert_eq!(predict_links(&g, &compare, 10).len(), 2);
    assert!(is_bipartite(&g));
}

#[test]
fn the_best_links_come_first() {
    let g = build_graph(&[(1, 2), (2, 3), (3, 4), (4, 1), (4, 5), (5, 6)]);
    let all = predict_links(&g, &compare, 100);
    for (i, l) in all.iter().enumerate() {
        assert_ne!(l.a, l.b);
        assert!(!g.neighbors(l.a).contains(&l.b));
        assert_eq!(value(&l.score), value(&adamic_adar(&g, l.a, l.b)));
        for m in &all[i + 1..] {
            assert!(value(&l.score) >= value(&m.score));
            assert!((l.a, l.b) != (m.a, m.b) && (l.a, l.b) != (m.b, m.a));
        }
    }
    let few = predict_links(&g, &compare, 2);
    assert_eq!(few.len(), 2);
    assert_eq!(value(&few[1].score), value(&all[1].score));
}

#[test]
fn different_states_stay_different() {
    let mut a = FastRng { state: 1 };
    let mut b = FastRng { state: 2 };
    for _ in 0..100 {
        a.next_u64();
        b.next_u64();
        assert_ne!(a.state, b.state);
    }
    let mut x = fast_rng();
    let mut y = fast_rng();
    assert_eq!(x.next_u64(), y.next_u64());
    let f = value(&x.next_fraction());
    assert!((0.0..1.0).contains(&f));
}

#[test]
fn walks_follow_edges() {
    let g = sample();
    let walk = simple_random_walk(&g, &compare, 1, 20);
    for pair in walk.windows(2) {
        assert!(g.neighbors(pair[0]).contains(&pair[1]));
    }
    let bias = Bias { p: quantity(0.25), q: quantity(4.0) };
    let walks = generate_walks(&g, &compare, 1, 5, &bias);
    assert_eq!(walks.len(), 8);
    assert_eq!(walks[7], vec![8]);
}

#[test]
fn a_low_in_out_parameter_stays_near() {
    let g = build_graph(&[(1, 2), (1, 3), (2, 3), (2, 4), (3, 5)]);
    let near = Bias { p: quantity(1e12), q: quantity(1e-12) };
    let walk = biased_random_walk(&g, &compare, 1, 2, &near);
    assert!(walk[2] == 2 || walk[2] == 3);
    let far = Bias { p: quantity(1e12), q: quantity(1e12) };
    let walk = biased_random_walk(&g, &compare, 1, 2, &far);
    assert!(walk[2] == 4 || walk[2] == 5);
}

#[test]
fn numbers_differ_where_states_do() {
    let (mut a, mut b, mut zero) = (FastRng { state: 1 }, FastRng { state: 2 }, FastRng { state: 0 });
    for _ in 0..100 {
        assert_ne!(a.next_u64(), b.next_u64());
        assert_ne!(a.state, 0);
        assert_eq!(zero.next_u64(), 0);
    }
}

#[test]
fn moving_never_names_a_new_community() {
    let g = build_graph(&[(1, 2), (2, 3), (3, 1), (4, 5), (5, 6), (6, 4), (3, 4)]);
    let communities = louvain(&g, &compare, &bits);
    assert!(communities.values().all(|c| *c < 6));
    assert_eq!(communities[&1], communities[&2]);
    let alone = network(&[7, 9], &[]);
    let apart = louvain(&alone, &compare, &bits);
    assert_eq!((apart[&7], apart[&9]), (0, 1));
    assert_eq!(label_propagation(&alone, 3).len(), 2);
}

#[test]
fn ranks_settle_where_every_vertex_is_alike() {
    let g = build_graph(&[(1, 2), (2, 3), (3, 1)]);
    let third = 1.0 / 3.0;
    let ranks = values(&pagerank(&g, &compare, &bits, &quantity(0.85), 100, &quantity(1e-6)));
    for v in g.vertices() {
        assert!((ranks[v] - third).abs() < 1e-9);
    }
    // No steps: the shares at the start
    let start = values(&pagerank(&g, &compare, &bits, &quantity(0.85), 0, &quantity(1e-6)));
    assert_eq!(start[&1], third);
    // One step from one: one, and a tenth for each of two neighbors
    let katz = values(&katz_centrality(&g, &compare, &bits, &quantity(0.1), 1, &quantity(0.0)));
    assert!((katz[&1] - 1.2).abs() < 1e-12);
    let (auth, hub) = hits(&g, &compare, &bits, 1, &quantity(0.0));
    assert!((value(&auth[&1]) - third.sqrt()).abs() < 1e-12);
    assert!((value(&hub[&1]) - third.sqrt()).abs() < 1e-12);
}

#[test]
fn paths_are_counted_by_length() {
    let g = build_graph(&[(1, 2), (2, 3)]);
    let two = count_paths_of_length(&g, 2);
    assert_eq!((two[&1], two[&2], two[&3]), (2, 2, 2));
}

#[test]
fn numbers_of_vertices_survive_the_interface() {
    for gid in [0u64, 1, u64::MAX, 1 << 63] {
        let v = mgp_vertex { gid, graph: 3 };
        let mut id = mgp_vertex_id { as_int: 0 };
        assert_eq!(mgp_vertex_get_id(Some(&v), Some(&mut id)), MgpError::NoError);
        let mut back: Option<mgp_vertex> = None;
        assert_eq!(mgp_graph_get_vertex_by_id(Some(&mgp_graph { address: 3 }), id, true, None, Some(&mut back)), MgpError::NoError);
        assert_eq!(back, Some(v));
        let mut edge_id = mgp_edge_id { as_int: 0 };
        mgp_edge_get_id(Some(&mgp_edge { gid, graph: 3 }), Some(&mut edge_id));
        assert_eq!(edge_id.as_int, id.as_int);
    }
}

#[test]
fn answers_have_numbers_of_their_own() {
    let all = [
        MgpError::NoError,
        MgpError::UnknownError,
        MgpError::UnableToAllocate,
        MgpError::InsufficientBuffer,
        MgpError::OutOfRange,
        MgpError::LogicError,
        MgpError::DeletedObject,
        MgpError::InvalidArgument,
        MgpError::KeyAlreadyExists,
        MgpError::ImmutableObject,
        MgpError::ValueConversion,
        MgpError::SerializationError,
        MgpError::AuthorizationError,
        MgpError::NotYetImplemented,
    ];
    for (i, e) in all.iter().enumerate() {
        assert_eq!(e.code(), i as i32);
    }
}
