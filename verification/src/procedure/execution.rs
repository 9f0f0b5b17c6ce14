//! Queries that a procedure runs, and the messages of a stream.
use vstd::prelude::*;

use crate::procedure::codes::{mgp_source_type, MgpError};
use crate::procedure::collections::{mgp_map_update, Entries};
use crate::procedure::entities::{given, mgp_graph};
use crate::procedure::memory::mgp_memory;
use crate::procedure::property::{
    as_entries, held_text, hold_text, lemma_as_entries, named_views, property_value_to_mgp_value, NamedValue,
};
use crate::procedure::value::{mgp_map, opt_view};

verus! {

/// What a query found: the names of its columns, and rows of named values.
#[derive(Debug)]
pub struct QueryResult {
    pub columns: Vec<String>,
    pub rows: Vec<Vec<NamedValue>>,
}

/// The rows of a query, one after the other.
#[derive(Debug)]
pub struct mgp_execution_result {
    pub columns: Vec<String>,
    pub rows: Vec<mgp_map>,
    pub current: usize,
}

/// The names of the columns of a query.
#[derive(Debug)]
pub struct mgp_execution_headers {
    pub columns: Vec<String>,
}

/// The rows of a query, one after the other.
pub struct Rows {
    pub columns: Seq<Seq<char>>,
    pub rows: Seq<Entries>,
    pub current: usize,
}

/// The models of texts.
pub open spec fn texts(v: Seq<String>) -> Seq<Seq<char>> {
    Seq::new(v.len(), |i: int| v[i]@)
}

/// The models of maps.
pub open spec fn map_views(v: Seq<mgp_map>) -> Seq<Entries> {
    Seq::new(v.len(), |i: int| v[i]@)
}

impl View for mgp_execution_result {
    type V = Rows;

    open spec fn view(&self) -> Rows {
        Rows { columns: texts(self.columns@), rows: map_views(self.rows@), current: self.current }
    }
}

impl View for mgp_execution_headers {
    type V = Seq<Seq<char>>;

    open spec fn view(&self) -> Seq<Seq<char>> {
        texts(self.columns@)
    }
}

/// The entries that a row of named values becomes.
pub open spec fn row_entries(row: Seq<NamedValue>) -> Entries {
    as_entries(named_views(row), row.len())
}

/// The rows that are handed out of what a query found.
pub open spec fn rows_of(found: QueryResult) -> Rows {
    Rows {
        columns: Seq::new(found.columns@.len(), |i: int| held_text(found.columns@[i]@)),
        rows: Seq::new(found.rows@.len(), |i: int| row_entries(found.rows@[i]@)),
        current: 0,
    }
}

fn row_to_map(row: &Vec<NamedValue>) -> (map: mgp_map)
    ensures
        map@ == row_entries(row@),
{
    let ghost all = named_views(row@);
    let mut map = mgp_map { items: Vec::new() };
    let mut i: usize = 0;
    assert(map@ =~= as_entries(all, 0));
    while i < row.len()
        invariant
            all == named_views(row@),
            i <= row@.len(),
            map@ == as_entries(all, i as nat),
        decreases row@.len() - i,
    {
        proof {
            lemma_as_entries(all, i as nat);
        }
        let key = hold_text(row[i].name.as_str());
        let value = property_value_to_mgp_value(&row[i].value);
        mgp_map_update(Some(&mut map), Some(key.as_str()), Some(&value));
        i += 1;
    }
    map
}

fn hold_columns(columns: &Vec<String>) -> (r: Vec<String>)
    ensures
        texts(r@) == Seq::new(columns@.len(), |i: int| held_text(columns@[i]@)),
{
    let mut r: Vec<String> = Vec::new();
    let mut i: usize = 0;
    while i < columns.len()
        invariant
            i <= columns@.len(),
            r@.len() == i,
            forall|j: int| 0 <= j < i ==> (#[trigger] r@[j])@ == held_text(columns@[j]@),
        decreases columns@.len() - i,
    {
        r.push(hold_text(columns[i].as_str()));
        i += 1;
    }
    assert(texts(r@) =~= Seq::new(columns@.len(), |i: int| held_text(columns@[i]@)));
    r
}

fn rows_to_maps(rows: &Vec<Vec<NamedValue>>) -> (r: Vec<mgp_map>)
    ensures
        map_views(r@) == Seq::new(rows@.len(), |i: int| row_entries(rows@[i]@)),
{
    let mut r: Vec<mgp_map> = Vec::new();
    let mut i: usize = 0;
    while i < rows.len()
        invariant
            i <= rows@.len(),
            r@.len() == i,
            forall|j: int| 0 <= j < i ==> (#[trigger] r@[j])@ == row_entries(rows@[j]@),
        decreases rows@.len() - i,
    {
        r.push(row_to_map(&rows[i]));
        i += 1;
    }
    assert(map_views(r@) =~= Seq::new(rows@.len(), |i: int| row_entries(rows@[i]@)));
    r
}

/// Hands out what a query found, or nothing with an error where it failed.
pub fn hand_out_rows(found: Option<QueryResult>, result: Option<&mut Option<mgp_execution_result>>) -> (e: MgpError)
    ensures
        e == given(result is None || found is None),
        result matches Some(r) ==> opt_view(*final(r)) == match found {
            Some(q) => Some(rows_of(q)),
            None => None,
        },
{
    match result {
        Some(r) => match found {
            Some(q) => {
                let columns = hold_columns(&q.columns);
                let rows = rows_to_maps(&q.rows);
                *r = Some(mgp_execution_result { columns, rows, current: 0 });
                MgpError::NoError
            },
            None => {
                *r = None;
                MgpError::InvalidArgument
            },
        },
        None => MgpError::InvalidArgument,
    }
}

/// Runs a query on a graph and hands out what it found. `execute` runs a query; it finds nothing
/// where the query fails.
pub fn mgp_execute_query<F: FnOnce(&mgp_graph, &str) -> Option<QueryResult>>(
    graph: &mgp_graph,
    query: &str,
    _params: Option<&mgp_map>,
    _memory: Option<&mgp_memory>,
    execute: F,
    result: Option<&mut Option<mgp_execution_result>>,
) -> (e: MgpError)
    requires
        result is Some ==> call_requires(execute, (graph, query)),
    ensures
        result is None ==> e is InvalidArgument,
        result matches Some(r) ==> exists|found: Option<QueryResult>|
            {
                &&& #[trigger] call_ensures(execute, (graph, query), found)
                &&& e == given(found is None)
                &&& opt_view(*final(r)) == match found {
                    Some(q) => Some(rows_of(q)),
                    None => None,
                }
            },
{
    if result.is_none() {
        return MgpError::InvalidArgument;
    }
    let found = execute(graph, query);
    assert(call_ensures(execute, (graph, query), found));
    hand_out_rows(found, result)
}

/// Hands out the next row, or none where there is no more.
pub fn mgp_pull_one(result: &mut mgp_execution_result, _memory: Option<&mgp_memory>, out_map: Option<&mut Option<mgp_map>>) -> (e: MgpError)
    ensures
        e == given(out_map is None),
        final(result)@ == if out_map is Some && old(result)@.current < old(result)@.rows.len() {
            Rows { current: (old(result)@.current + 1) as usize, ..old(result)@ }
        } else {
            old(result)@
        },
        out_map matches Some(o) ==> opt_view(*final(o)) == if old(result)@.current < old(result)@.rows.len() {
            Some(old(result)@.rows[old(result)@.current as int])
        } else {
            None
        },
{
    match out_map {
        Some(o) => {
            if result.current < result.rows.len() {
                *o = Some(result.rows[result.current].clone());
                result.current = result.current + 1;
            } else {
                *o = None;
            }
            MgpError::NoError
        },
        None => MgpError::InvalidArgument,
    }
}

/// How many rows are still to come.
pub open spec fn rows_left(r: Rows) -> int {
    if r.current < r.rows.len() {
        r.rows.len() - r.current
    } else {
        0
    }
}

/// The rows after some were pulled.
pub open spec fn after_pulls(r: Rows, n: nat) -> Rows
    decreases n,
{
    if n == 0 {
        r
    } else {
        let before = after_pulls(r, (n - 1) as nat);
        if before.current < before.rows.len() {
            Rows { current: (before.current + 1) as usize, ..before }
        } else {
            before
        }
    }
}

/// Pulling hands out every row once, in order: after `n` pulls the next row is the `n`th, until none
/// is left.
pub proof fn pulling_hands_out_rows_in_order(r: Rows, n: nat)
    requires
        r.current == 0,
        r.rows.len() <= usize::MAX,
    ensures
        after_pulls(r, n).rows == r.rows,
        after_pulls(r, n).columns == r.columns,
        n <= r.rows.len() ==> after_pulls(r, n).current == n && rows_left(after_pulls(r, n)) == r.rows.len() - n,
        n >= r.rows.len() ==> rows_left(after_pulls(r, n)) == 0,
    decreases n,
{
    if n > 0 {
        pulling_hands_out_rows_in_order(r, (n - 1) as nat);
    }
}

fn copy_texts(v: &Vec<String>) -> (r: Vec<String>)
    ensures
        texts(r@) == texts(v@),
{
    let mut r: Vec<String> = Vec::new();
    let mut i: usize = 0;
    while i < v.len()
        invariant
            i <= v@.len(),
            r@.len() == i,
            forall|j: int| 0 <= j < i ==> (#[trigger] r@[j])@ == v@[j]@,
        decreases v@.len() - i,
    {
        r.push(v[i].clone());
        i += 1;
    }
    assert(texts(r@) =~= texts(v@));
    r
}

/// Hands out the names of the columns.
pub fn mgp_fetch_execution_headers(result: &mgp_execution_result, out_headers: Option<&mut Option<mgp_execution_headers>>) -> (e: MgpError)
    ensures
        e == given(out_headers is None),
        out_headers matches Some(o) ==> opt_view(*final(o)) == Some(result@.columns),
{
    match out_headers {
        Some(o) => {
            let columns = copy_texts(&result.columns);
            *o = Some(mgp_execution_headers { columns });
            MgpError::NoError
        },
        None => MgpError::InvalidArgument,
    }
}

/// Tells how many columns there are.
pub fn mgp_execution_headers_size(headers: &mgp_execution_headers, result: Option<&mut usize>) -> (e: MgpError)
    ensures
        e == given(result is None),
        result matches Some(r) ==> *final(r) == headers@.len(),
{
    match result {
        Some(r) => {
            *r = headers.columns.len();
            MgpError::NoError
        },
        None => MgpError::InvalidArgument,
    }
}

/// Hands out the name of a column, or none with an error where there is no such column.
pub fn mgp_execution_headers_at(headers: &mgp_execution_headers, index: usize, result: Option<&mut Option<String>>) -> (e: MgpError)
    ensures
        e == if result is None {
            MgpError::InvalidArgument
        } else if index < headers@.len() {
            MgpError::NoError
        } else {
            MgpError::OutOfRange
        },
        result matches Some(r) ==> opt_view(*final(r)) == if index < headers@.len() {
            Some(headers@[index as int])
        } else {
            None
        },
{
    match result {
        Some(r) => {
            if index < headers.columns.len() {
                *r = Some(headers.columns[index].clone());
                MgpError::NoError
            } else {
                *r = None;
                MgpError::OutOfRange
            }
        },
        None => MgpError::InvalidArgument,
    }
}

/// A message of a stream. None is ever at hand.
#[derive(Debug)]
pub struct mgp_message {}

/// The messages of a stream. There are none.
#[derive(Debug)]
pub struct mgp_messages {}

/// Tells where a message comes from.
pub fn mgp_message_source_type(_message: Option<&mgp_message>, result: Option<&mut mgp_source_type>) -> (e: MgpError)
    ensures
        e == given(result is None),
        result matches Some(r) ==> *final(r) == mgp_source_type::Kafka,
{
    match result {
        Some(r) => {
            *r = mgp_source_type::Kafka;
            MgpError::NoError
        },
        None => MgpError::InvalidArgument,
    }
}

/// Hands out what a message holds: nothing.
pub fn mgp_message_payload(_message: Option<&mgp_message>, result: Option<&mut Option<String>>) -> (e: MgpError)
    ensures
        e == given(result is None),
        result matches Some(r) ==> *final(r) == None::<String>,
{
    match result {
        Some(r) => {
            *r = None::<String>;
            MgpError::NoError
        },
        None => MgpError::InvalidArgument,
    }
}

/// Tells how much a message holds: nothing.
pub fn mgp_message_payload_size(_message: Option<&mgp_message>, result: Option<&mut usize>) -> (e: MgpError)
    ensures
        e == given(result is None),
        result matches Some(r) ==> *final(r) == 0,
{
    match result {
        Some(r) => {
            *r = 0;
            MgpError::NoError
        },
        None => MgpError::InvalidArgument,
    }
}

/// Hands out the topic of a message: there is none.
pub fn mgp_message_topic_name(_message: Option<&mgp_message>, result: Option<&mut Option<String>>) -> (e: MgpError)
    ensures
        e == given(result is None),
        result matches Some(r) ==> *final(r) == None::<String>,
{
    match result {
        Some(r) => {
            *r = None::<String>;
            MgpError::NoError
        },
        None => MgpError::InvalidArgument,
    }
}

/// Hands out the key of a message: there is none.
pub fn mgp_message_key(_message: Option<&mgp_message>, result: Option<&mut Option<String>>) -> (e: MgpError)
    ensures
        e == given(result is None),
        result matches Some(r) ==> *final(r) == None::<String>,
{
    match result {
        Some(r) => {
            *r = None::<String>;
            MgpError::NoError
        },
        None => MgpError::InvalidArgument,
    }
}

/// Tells how long the key of a message is: there is none.
pub fn mgp_message_key_size(_message: Option<&mgp_message>, result: Option<&mut usize>) -> (e: MgpError)
    ensures
        e == given(result is None),
        result matches Some(r) ==> *final(r) == 0,
{
    match result {
        Some(r) => {
            *r = 0;
            MgpError::NoError
        },
        None => MgpError::InvalidArgument,
    }
}

/// Tells when a message came: at the epoch.
pub fn mgp_message_timestamp(_message: Option<&mgp_message>, result: Option<&mut i64>) -> (e: MgpError)
    ensures
        e == given(result is None),
        result matches Some(r) ==> *final(r) == 0,
{
    match result {
        Some(r) => {
            *r = 0;
            MgpError::NoError
        },
        None => MgpError::InvalidArgument,
    }
}

/// Tells where in its topic a message stands: at the start.
pub fn mgp_message_offset(_message: Option<&mgp_message>, result: Option<&mut i64>) -> (e: MgpError)
    ensures
        e == given(result is None),
        result matches Some(r) ==> *final(r) == 0,
{
    match result {
        Some(r) => {
            *r = 0;
            MgpError::NoError
        },
        None => MgpError::InvalidArgument,
    }
}

/// Tells how many messages there are: none.
pub fn mgp_messages_size(_messages: Option<&mgp_messages>, result: Option<&mut usize>) -> (e: MgpError)
    ensures
        e == given(result is None),
        result matches Some(r) ==> *final(r) == 0,
{
    match result {
        Some(r) => {
            *r = 0;
            MgpError::NoError
        },
        None => MgpError::InvalidArgument,
    }
}

/// Hands out a message: there is none at any position.
pub fn mgp_messages_at(_messages: Option<&mgp_messages>, _index: usize, result: Option<&mut Option<mgp_message>>) -> (e: MgpError)
    ensures
        e == if result is None {
            MgpError::InvalidArgument
        } else {
            MgpError::OutOfRange
        },
        result matches Some(r) ==> *final(r) is None,
{
    match result {
        Some(r) => {
            *r = None;
            MgpError::OutOfRange
        },
        None => MgpError::InvalidArgument,
    }
}

} // verus!
