//! Searches in vector and text indices, and what is handed out of their answers.
use vstd::prelude::*;

use crate::procedure::codes::MgpError;
use crate::procedure::collections::Entries;
use crate::procedure::entities::{given, mgp_graph};
use crate::procedure::indices::list_value;
use crate::procedure::memory::mgp_memory;
use crate::procedure::property::{held_text, hold_text};
use crate::procedure::value::{mgp_list, mgp_map, mgp_value, mgp_vertex, opt_view, MapEntry, Val, ValueInner};
use crate::quantity::{bits_of, reads, Quantity};

verus! {

/// A number of a vector that is searched for. Doubles are held by their bit patterns.
#[derive(Clone, Copy, Debug, PartialEq, Eq, Structural)]
pub enum Coordinate {
    Double(u64),
    Int(i64),
}

/// A vertex that a vector search found, and how far away it is.
#[derive(Debug)]
pub struct Hit {
    pub node: u64,
    pub distance: Quantity,
}

/// A vertex that a text search found, and how well it fits.
#[derive(Debug)]
pub struct Match {
    pub gid: u64,
    pub score: Quantity,
}

/// What a text search answers.
#[derive(Debug)]
pub enum TextFound {
    NoIndex,
    Failed,
    Matches(Vec<Match>),
}

/// Whether a value is a number.
pub open spec fn is_number(v: Val) -> bool {
    v is Double || v is Int
}

/// The number that a value holds.
pub open spec fn coordinate(v: Val) -> Coordinate {
    match v {
        Val::Double(bits) => Coordinate::Double(bits),
        Val::Int(n) => Coordinate::Int(n),
        _ => Coordinate::Int(0),
    }
}

/// The numbers of a list that holds nothing else.
pub open spec fn coordinates(items: Seq<Val>) -> Option<Seq<Coordinate>> {
    if forall|i: int| 0 <= i < items.len() ==> is_number(#[trigger] items[i]) {
        Some(Seq::new(items.len(), |i: int| coordinate(items[i])))
    } else {
        None
    }
}

/// The numbers of a list that holds nothing else.
pub fn read_coordinates(query: &mgp_list) -> (r: Option<Vec<Coordinate>>)
    ensures
        opt_view(r) == coordinates(query@),
{
    let mut v: Vec<Coordinate> = Vec::new();
    let mut i: usize = 0;
    while i < query.items.len()
        invariant
            i <= query.items@.len(),
            v@.len() == i,
            forall|j: int| 0 <= j < i ==> is_number(#[trigger] query@[j]) && v@[j] == coordinate(query@[j]),
        decreases query.items@.len() - i,
    {
        assert(query@[i as int] == query.items@[i as int]@);
        match &query.items[i].inner {
            ValueInner::Double(bits) => {
                v.push(Coordinate::Double(*bits));
            },
            ValueInner::Int(n) => {
                v.push(Coordinate::Int(*n));
            },
            _ => {
                assert(!is_number(query@[i as int]));
                return None;
            },
        }
        i += 1;
    }
    assert(coordinates(query@)->0 =~= v@);
    Some(v)
}

/// How many results are wanted: the number that is asked for, or ten.
pub open spec fn wanted_results(result_size: i32) -> usize {
    if result_size > 0 {
        result_size as usize
    } else {
        10
    }
}

fn count_wanted(result_size: i32) -> (r: usize)
    ensures
        r == wanted_results(result_size),
{
    if result_size > 0 {
        result_size as usize
    } else {
        10
    }
}

/// How similar something is that is so far away: one over one more than the distance.
pub open spec fn similarity(distance: Quantity) -> Quantity {
    Quantity::quotient(Quantity::Count(1), Quantity::sum(Quantity::Count(1), distance))
}

/// What is handed out of a hit: the vertex, its distance and its similarity.
pub open spec fn hit_value<B: Fn(&Quantity) -> u64>(bits: B, graph: u64, hit: Hit) -> Val {
    Val::List(
        seq![
            Val::Vertex(mgp_vertex { gid: hit.node, graph }),
            Val::Double(bits_of(bits, hit.distance)),
            Val::Double(bits_of(bits, similarity(hit.distance))),
        ],
    )
}

/// What is handed out of a match: the vertex and its score.
pub open spec fn match_value<B: Fn(&Quantity) -> u64>(bits: B, graph: u64, found: Match) -> Val {
    Val::List(
        seq![Val::Vertex(mgp_vertex { gid: found.gid, graph }), Val::Double(bits_of(bits, found.score))],
    )
}

/// What is handed out of hits.
pub open spec fn hit_list<B: Fn(&Quantity) -> u64>(bits: B, graph: u64, hits: Seq<Hit>) -> Seq<Val> {
    Seq::new(hits.len(), |i: int| hit_value(bits, graph, hits[i]))
}

/// What is handed out of matches.
pub open spec fn match_list<B: Fn(&Quantity) -> u64>(bits: B, graph: u64, found: Seq<Match>) -> Seq<Val> {
    Seq::new(found.len(), |i: int| match_value(bits, graph, found[i]))
}

fn vertex_value(gid: u64, graph: u64) -> (r: mgp_value)
    ensures
        r@ == Val::Vertex(mgp_vertex { gid, graph }),
{
    mgp_value { inner: ValueInner::Vertex(mgp_vertex { gid, graph }) }
}

fn double_value<B: Fn(&Quantity) -> u64>(bits: &B, q: &Quantity) -> (r: mgp_value)
    requires
        reads(*bits),
    ensures
        r@ == Val::Double(bits_of(*bits, *q)),
{
    mgp_value { inner: ValueInner::Double(bits(q)) }
}

/// Makes the list that is handed out of hits.
pub fn list_hits<B: Fn(&Quantity) -> u64>(bits: &B, graph: u64, hits: &Vec<Hit>) -> (r: mgp_list)
    requires
        reads(*bits),
    ensures
        r@ == hit_list(*bits, graph, hits@),
{
    let mut items: Vec<mgp_value> = Vec::new();
    let mut i: usize = 0;
    while i < hits.len()
        invariant
            reads(*bits),
            i <= hits@.len(),
            items@.len() == i,
            forall|j: int| 0 <= j < i ==> (#[trigger] items@[j])@ == hit_value(*bits, graph, hits@[j]),
        decreases hits@.len() - i,
    {
        let one = Quantity::Count(1);
        let near = Quantity::Count(1).over(one.plus(hits[i].distance.clone()));
        let mut triple: Vec<mgp_value> = Vec::new();
        triple.push(vertex_value(hits[i].node, graph));
        triple.push(double_value(bits, &hits[i].distance));
        triple.push(double_value(bits, &near));
        let list = mgp_list { items: triple };
        assert(list@ =~= hit_value(*bits, graph, hits@[i as int])->List_0);
        items.push(list_value(list));
        i += 1;
    }
    let r = mgp_list { items };
    assert(r@ =~= hit_list(*bits, graph, hits@));
    r
}

/// Makes the list that is handed out of matches.
pub fn list_matches<B: Fn(&Quantity) -> u64>(bits: &B, graph: u64, found: &Vec<Match>) -> (r: mgp_list)
    requires
        reads(*bits),
    ensures
        r@ == match_list(*bits, graph, found@),
{
    let mut items: Vec<mgp_value> = Vec::new();
    let mut i: usize = 0;
    while i < found.len()
        invariant
            reads(*bits),
            i <= found@.len(),
            items@.len() == i,
            forall|j: int| 0 <= j < i ==> (#[trigger] items@[j])@ == match_value(*bits, graph, found@[j]),
        decreases found@.len() - i,
    {
        let mut pair: Vec<mgp_value> = Vec::new();
        pair.push(vertex_value(found[i].gid, graph));
        pair.push(double_value(bits, &found[i].score));
        let list = mgp_list { items: pair };
        assert(list@ =~= match_value(*bits, graph, found@[i as int])->List_0);
        items.push(list_value(list));
        i += 1;
    }
    let r = mgp_list { items };
    assert(r@ =~= match_list(*bits, graph, found@));
    r
}

/// The map that tells why a search failed.
pub open spec fn error_entries(msg: Seq<char>) -> Entries {
    seq![("error_msg"@, Val::Text(held_text(msg)))]
}

/// The map that tells what a search found.
pub open spec fn result_entries(items: Seq<Val>) -> Entries {
    seq![("search_results"@, Val::List(items))]
}

fn hand_out_error(result: &mut Option<mgp_map>, msg: &str) -> (e: MgpError)
    ensures
        e is NoError,
        opt_view(*final(result)) == Some(error_entries(msg@)),
{
    let mut items: Vec<MapEntry> = Vec::new();
    items.push(MapEntry { key: "error_msg".to_string(), value: mgp_value { inner: ValueInner::String(hold_text(msg)) } });
    let map = mgp_map { items };
    assert(map@ =~= error_entries(msg@));
    *result = Some(map);
    MgpError::NoError
}

/// Hands out a map that tells why a search failed.
pub fn build_search_error_result(result: Option<&mut Option<mgp_map>>, msg: &str) -> (e: MgpError)
    ensures
        e == given(result is None),
        result matches Some(r) ==> opt_view(*final(r)) == Some(error_entries(msg@)),
{
    match result {
        Some(r) => hand_out_error(r, msg),
        None => MgpError::InvalidArgument,
    }
}

fn hand_out_results(result: &mut Option<mgp_map>, list: mgp_list) -> (e: MgpError)
    ensures
        e is NoError,
        opt_view(*final(result)) == Some(result_entries(list@)),
{
    let mut items: Vec<MapEntry> = Vec::new();
    items.push(MapEntry { key: "search_results".to_string(), value: list_value(list) });
    let map = mgp_map { items };
    assert(map@ =~= result_entries(list@));
    *result = Some(map);
    MgpError::NoError
}

/// Whether hits are what a search for a vector gave.
pub open spec fn was_searched<S: Fn(&str, &Vec<Coordinate>, usize) -> Vec<Hit>>(
    search: S,
    name: &str,
    query: Seq<Coordinate>,
    k: usize,
    hits: Seq<Hit>,
) -> bool {
    exists|v: Vec<Coordinate>, r: Vec<Hit>| v@ == query && r@ == hits && #[trigger] call_ensures(search, (name, &v, k), r)
}

/// Whether a map is what a search for a vector hands out. `dimension` tells the dimension of an index,
/// if there is one.
pub open spec fn hands_out_hits<D: Fn(&str) -> Option<usize>, S: Fn(&str, &Vec<Coordinate>, usize) -> Vec<Hit>, B: Fn(
    &Quantity,
) -> u64>(
    dimension: D,
    search: S,
    bits: B,
    graph: u64,
    name: &str,
    query: Seq<Val>,
    k: usize,
    written: Option<Entries>,
) -> bool {
    match coordinates(query) {
        None => written == Some(error_entries("Vector search query must contain only numeric values"@)),
        Some(v) => exists|dim: Option<usize>| #[trigger]
            call_ensures(dimension, (name,), dim) && match dim {
                None => written == Some(error_entries("Vector index not found"@)),
                Some(d) => if v.len() != d {
                    written == Some(error_entries("Query vector dimension mismatch"@))
                } else {
                    exists|hits: Seq<Hit>| #[trigger]
                        was_searched(search, name, v, k, hits) && written == Some(result_entries(hit_list(bits, graph, hits)))
                },
            },
    }
}

/// Searches a vector index for the vertices nearest to a vector, and hands out a map with what was
/// found, or why nothing was. `dimension` tells the dimension of an index; `search` finds so many
/// vertices.
pub fn mgp_graph_search_vector_index<
    D: Fn(&str) -> Option<usize>,
    S: Fn(&str, &Vec<Coordinate>, usize) -> Vec<Hit>,
    B: Fn(&Quantity) -> u64,
>(
    g: Option<&mgp_graph>,
    index_name: Option<&str>,
    query: Option<&mgp_list>,
    result_size: i32,
    _memory: Option<&mgp_memory>,
    dimension: &D,
    search: &S,
    bits: &B,
    result: Option<&mut Option<mgp_map>>,
) -> (e: MgpError)
    requires
        g is Some && index_name is Some && query is Some && result is Some && coordinates(query->0@) is Some ==> call_requires(
            *dimension,
            (index_name->0,),
        ),
        g is Some && index_name is Some && query is Some && result is Some ==> forall|v: Vec<Coordinate>|
            coordinates(query->0@) == Some(v@) && call_ensures(*dimension, (index_name->0,), Some(v@.len() as usize))
                ==> #[trigger] call_requires(*search, (index_name->0, &v, wanted_results(result_size))),
        reads(*bits),
    ensures
        e == given(g is None || index_name is None || query is None || result is None),
        result matches Some(r) ==> if e is NoError {
            hands_out_hits(
                *dimension,
                *search,
                *bits,
                g->0.address,
                index_name->0,
                query->0@,
                wanted_results(result_size),
                opt_view(*final(r)),
            )
        } else {
            *final(r) == *r
        },
{
    match (g, index_name, query, result) {
        (Some(graph), Some(name), Some(q), Some(r)) => match read_coordinates(q) {
            None => hand_out_error(r, "Vector search query must contain only numeric values"),
            Some(v) => {
                let dim = dimension(name);
                assert(call_ensures(*dimension, (name,), dim));
                match dim {
                    None => hand_out_error(r, "Vector index not found"),
                    Some(d) => {
                        if v.len() != d {
                            hand_out_error(r, "Query vector dimension mismatch")
                        } else {
                            let k: usize = count_wanted(result_size);
                            let hits = search(name, &v, k);
                            assert(call_ensures(*search, (name, &v, k), hits));
                            assert(was_searched(*search, name, v@, k, hits@));
                            hand_out_results(r, list_hits(bits, graph.address, &hits))
                        }
                    },
                }
            },
        },
        _ => MgpError::InvalidArgument,
    }
}

/// What a search for a vector answers that hands out a list, once the dimension is told.
pub open spec fn hits_error(query: Option<Seq<Coordinate>>, dim: Option<usize>) -> MgpError {
    match query {
        None => MgpError::ValueConversion,
        Some(v) => match dim {
            Some(d) => if v.len() != d {
                MgpError::InvalidArgument
            } else {
                MgpError::NoError
            },
            None => MgpError::NoError,
        },
    }
}

/// Searches a vector index for the vertices nearest to a vector, and hands out a list of
/// `[vertex, distance, similarity]`, which is empty where there is no index.
pub fn mgp_search_vector_index<
    D: Fn(&str) -> Option<usize>,
    S: Fn(&str, &Vec<Coordinate>, usize) -> Vec<Hit>,
    B: Fn(&Quantity) -> u64,
>(
    g: Option<&mgp_graph>,
    index_name: Option<&str>,
    query: Option<&mgp_list>,
    result_size: i32,
    dimension: &D,
    search: &S,
    bits: &B,
    result: Option<&mut Option<mgp_list>>,
) -> (e: MgpError)
    requires
        g is Some && index_name is Some && query is Some && result is Some && coordinates(query->0@) is Some ==> call_requires(
            *dimension,
            (index_name->0,),
        ),
        g is Some && index_name is Some && query is Some && result is Some ==> forall|v: Vec<Coordinate>|
            coordinates(query->0@) == Some(v@) && call_ensures(*dimension, (index_name->0,), Some(v@.len() as usize))
                ==> #[trigger] call_requires(*search, (index_name->0, &v, wanted_results(result_size))),
        reads(*bits),
    ensures
        g is None || index_name is None || query is None || result is None ==> e is InvalidArgument,
        g is Some && index_name is Some && query is Some && result is Some && coordinates(query->0@) is None
            ==> e is ValueConversion,
        g is Some && index_name is Some && query is Some && result is Some && coordinates(query->0@) is Some
            ==> exists|dim: Option<usize>| #[trigger]
            call_ensures(*dimension, (index_name->0,), dim) && e == hits_error(coordinates(query->0@), dim) && match dim {
                None => opt_view(*final(result->0)) == Some(Seq::<Val>::empty()),
                Some(_) => e is NoError ==> exists|hits: Seq<Hit>| #[trigger]
                    was_searched(*search, index_name->0, coordinates(query->0@)->0, wanted_results(result_size), hits)
                        && opt_view(*final(result->0)) == Some(hit_list(*bits, g->0.address, hits)),
            },
        result matches Some(r) ==> !(e is NoError) ==> *final(r) == *r,
{
    match (g, index_name, query, result) {
        (Some(graph), Some(name), Some(q), Some(r)) => match read_coordinates(q) {
            None => MgpError::ValueConversion,
            Some(v) => {
                let dim = dimension(name);
                assert(call_ensures(*dimension, (name,), dim));
                match dim {
                    None => {
                        let list = mgp_list { items: Vec::new() };
                        assert(list@ =~= Seq::empty());
                        *r = Some(list);
                        MgpError::NoError
                    },
                    Some(d) => {
                        if v.len() != d {
                            MgpError::InvalidArgument
                        } else {
                            let k: usize = count_wanted(result_size);
                            let hits = search(name, &v, k);
                            assert(call_ensures(*search, (name, &v, k), hits));
                            assert(was_searched(*search, name, v@, k, hits@));
                            *r = Some(list_hits(bits, graph.address, &hits));
                            MgpError::NoError
                        }
                    },
                }
            },
        },
        _ => MgpError::InvalidArgument,
    }
}

/// The map that is handed out of what a text search answers.
pub open spec fn text_entries_found<B: Fn(&Quantity) -> u64>(bits: B, graph: u64, found: TextFound) -> Entries {
    match found {
        TextFound::NoIndex => error_entries("Text index not found"@),
        TextFound::Failed => error_entries("Text search failed"@),
        TextFound::Matches(v) => result_entries(match_list(bits, graph, v@)),
    }
}

/// The list that is handed out of what a text search answers.
pub open spec fn text_list_found<B: Fn(&Quantity) -> u64>(bits: B, graph: u64, found: TextFound) -> Seq<Val> {
    match found {
        TextFound::Matches(v) => match_list(bits, graph, v@),
        _ => Seq::empty(),
    }
}

/// Searches a text index and hands out a map with what was found, or why nothing was. `search` finds
/// so many vertices.
pub fn mgp_graph_search_text_index<S: Fn(&str, &str, usize) -> TextFound, B: Fn(&Quantity) -> u64>(
    g: Option<&mgp_graph>,
    index_name: Option<&str>,
    search_query: Option<&str>,
    _search_mode: i32,
    limit: usize,
    _memory: Option<&mgp_memory>,
    search: &S,
    bits: &B,
    result: Option<&mut Option<mgp_map>>,
) -> (e: MgpError)
    requires
        g is Some && index_name is Some && search_query is Some && result is Some ==> call_requires(
            *search,
            (index_name->0, search_query->0, limit),
        ),
        reads(*bits),
    ensures
        e == given(g is None || index_name is None || search_query is None || result is None),
        result matches Some(r) ==> if e is NoError {
            exists|found: TextFound| #[trigger]
                call_ensures(*search, (index_name->0, search_query->0, limit), found) && opt_view(*final(r)) == Some(
                    text_entries_found(*bits, g->0.address, found),
                )
        } else {
            *final(r) == *r
        },
{
    match (g, index_name, search_query, result) {
        (Some(graph), Some(name), Some(q), Some(r)) => {
            let found = search(name, q, limit);
            assert(call_ensures(*search, (name, q, limit), found));
            match found {
                TextFound::NoIndex => hand_out_error(r, "Text index not found"),
                TextFound::Failed => hand_out_error(r, "Text search failed"),
                TextFound::Matches(v) => hand_out_results(r, list_matches(bits, graph.address, &v)),
            }
        },
        _ => MgpError::InvalidArgument,
    }
}

/// Searches a text index and hands out a list of `[vertex, score]`, which is empty where there is no
/// index or the search failed.
pub fn mgp_search_text_index<S: Fn(&str, &str, usize) -> TextFound, B: Fn(&Quantity) -> u64>(
    g: Option<&mgp_graph>,
    index_name: Option<&str>,
    query: Option<&str>,
    limit: usize,
    search: &S,
    bits: &B,
    result: Option<&mut Option<mgp_list>>,
) -> (e: MgpError)
    requires
        g is Some && index_name is Some && query is Some && result is Some ==> call_requires(
            *search,
            (index_name->0, query->0, limit),
        ),
        reads(*bits),
    ensures
        e == given(g is None || index_name is None || query is None || result is None),
        result matches Some(r) ==> if e is NoError {
            exists|found: TextFound| #[trigger]
                call_ensures(*search, (index_name->0, query->0, limit), found) && opt_view(*final(r)) == Some(
                    text_list_found(*bits, g->0.address, found),
                )
        } else {
            *final(r) == *r
        },
{
    match (g, index_name, query, result) {
        (Some(graph), Some(name), Some(q), Some(r)) => {
            let found = search(name, q, limit);
            assert(call_ensures(*search, (name, q, limit), found));
            let list = match &found {
                TextFound::Matches(v) => list_matches(bits, graph.address, v),
                _ => {
                    let list = mgp_list { items: Vec::new() };
                    assert(list@ =~= Seq::empty());
                    list
                },
            };
            *r = Some(list);
            MgpError::NoError
        },
        _ => MgpError::InvalidArgument,
    }
}

/// Searches a vector index on edges: there is none.
pub fn mgp_graph_search_vector_index_on_edges(
    g: Option<&mgp_graph>,
    index_name: Option<&str>,
    query: Option<&mgp_list>,
    _result_size: i32,
    _memory: Option<&mgp_memory>,
    result: Option<&mut Option<mgp_map>>,
) -> (e: MgpError)
    ensures
        e == given(g is None || index_name is None || query is None || result is None),
        result matches Some(r) ==> opt_view(*final(r)) == if e is NoError {
            Some(error_entries("Edge vector search not yet implemented"@))
        } else {
            opt_view(*r)
        },
{
    match (g, index_name, query) {
        (Some(_), Some(_), Some(_)) => build_search_error_result(result, "Edge vector search not yet implemented"),
        _ => MgpError::InvalidArgument,
    }
}

/// Searches a text index on edges: there is none.
pub fn mgp_graph_search_text_edge_index(
    _g: Option<&mgp_graph>,
    _index_name: Option<&str>,
    _search_query: Option<&str>,
    _search_mode: i32,
    _limit: usize,
    _memory: Option<&mgp_memory>,
    result: Option<&mut Option<mgp_map>>,
) -> (e: MgpError)
    ensures
        e == given(result is None),
        result matches Some(r) ==> opt_view(*final(r)) == Some(error_entries("Edge text search not yet implemented"@)),
{
    build_search_error_result(result, "Edge text search not yet implemented")
}

/// Sums up over a text index: this cannot be done.
pub fn mgp_graph_aggregate_over_text_index(
    _g: Option<&mgp_graph>,
    _index_name: Option<&str>,
    _search_query: Option<&str>,
    _aggregation_query: Option<&str>,
    _memory: Option<&mgp_memory>,
    result: Option<&mut Option<mgp_map>>,
) -> (e: MgpError)
    ensures
        e == given(result is None),
        result matches Some(r) ==> opt_view(*final(r)) == Some(error_entries("Text index aggregation not yet implemented"@)),
{
    build_search_error_result(result, "Text index aggregation not yet implemented")
}

/// Sums up over a text index on edges: this cannot be done.
pub fn mgp_graph_aggregate_over_text_edge_index(
    _g: Option<&mgp_graph>,
    _index_name: Option<&str>,
    _search_query: Option<&str>,
    _aggregation_query: Option<&str>,
    _memory: Option<&mgp_memory>,
    result: Option<&mut Option<mgp_map>>,
) -> (e: MgpError)
    ensures
        e == given(result is None),
        result matches Some(r) ==> opt_view(*final(r)) == Some(error_entries("Edge text index aggregation not yet implemented"@)),
{
    build_search_error_result(result, "Edge text index aggregation not yet implemented")
}

} // verus!
