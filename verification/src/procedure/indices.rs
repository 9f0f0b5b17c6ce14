//! Indices and constraints: what is asked of the storage, and what is told of its answers.
//!
//! The storage is reached through functions: they make or drop what they are asked to, and tell
//! whether they did.
use vstd::prelude::*;

use crate::procedure::codes::MgpError;
use crate::procedure::entities::{given, label_names, mgp_graph, VertexSnapshot};
use crate::procedure::execution::texts;
use crate::procedure::memory::mgp_memory;
use crate::procedure::property::{held_text, hold_text, named_views, property_at, NamedValue, PropertyValue, Stored};
use crate::procedure::value::{
    flag, lemma_list_value, mgp_list, mgp_map, mgp_value, opt_view, to_flag, MapEntry, Val, ValueInner,
};
use crate::text::{signed_decimal, signed_text};

verus! {

/// Whether an answer stands behind a flag that was written.
pub open spec fn answered<F: FnOnce(&str) -> bool>(ask: F, label: &str, written: i32) -> bool {
    exists|done: bool| #[trigger] call_ensures(ask, (label,), done) && written == flag(done)
}

/// Whether an answer about a label and a property stands behind a flag that was written.
pub open spec fn pair_answered<F: FnOnce(&str, &str) -> bool>(ask: F, label: &str, property: &str, written: i32) -> bool {
    exists|done: bool| #[trigger] call_ensures(ask, (label, property), done) && written == flag(done)
}

/// Makes an index on a label; the result tells whether there was none.
pub fn mgp_create_label_index<F: FnOnce(&str) -> bool>(g: Option<&mgp_graph>, label: Option<&str>, create: F, result: Option<&mut i32>) -> (e: MgpError)
    requires
        g is Some && label is Some && result is Some ==> call_requires(create, (label->0,)),
    ensures
        e == given(g is None || label is None || result is None),
        result matches Some(r) ==> if e is NoError {
            answered(create, label->0, *final(r))
        } else {
            *final(r) == *r
        },
{
    match (g, label, result) {
        (Some(_), Some(l), Some(r)) => {
            let done = create(l);
            *r = to_flag(done);
            assert(call_ensures(create, (l,), done));
            MgpError::NoError
        },
        _ => MgpError::InvalidArgument,
    }
}

/// Drops the index on a label; the result tells whether there was one.
pub fn mgp_drop_label_index<F: FnOnce(&str) -> bool>(g: Option<&mgp_graph>, label: Option<&str>, remove: F, result: Option<&mut i32>) -> (e: MgpError)
    requires
        g is Some && label is Some && result is Some ==> call_requires(remove, (label->0,)),
    ensures
        e == given(g is None || label is None || result is None),
        result matches Some(r) ==> if e is NoError {
            answered(remove, label->0, *final(r))
        } else {
            *final(r) == *r
        },
{
    match (g, label, result) {
        (Some(_), Some(l), Some(r)) => {
            let done = remove(l);
            *r = to_flag(done);
            assert(call_ensures(remove, (l,), done));
            MgpError::NoError
        },
        _ => MgpError::InvalidArgument,
    }
}

/// Makes an index on a property under a label; the result tells whether there was none.
pub fn mgp_create_label_property_index<F: FnOnce(&str, &str) -> bool>(
    g: Option<&mgp_graph>,
    label: Option<&str>,
    property: Option<&str>,
    create: F,
    result: Option<&mut i32>,
) -> (e: MgpError)
    requires
        g is Some && label is Some && property is Some && result is Some ==> call_requires(create, (label->0, property->0)),
    ensures
        e == given(g is None || label is None || property is None || result is None),
        result matches Some(r) ==> if e is NoError {
            pair_answered(create, label->0, property->0, *final(r))
        } else {
            *final(r) == *r
        },
{
    match (g, label, property, result) {
        (Some(_), Some(l), Some(p), Some(r)) => {
            let done = create(l, p);
            *r = to_flag(done);
            assert(call_ensures(create, (l, p), done));
            MgpError::NoError
        },
        _ => MgpError::InvalidArgument,
    }
}

/// Drops the index on a property under a label; the result tells whether there was one.
pub fn mgp_drop_label_property_index<F: FnOnce(&str, &str) -> bool>(
    g: Option<&mgp_graph>,
    label: Option<&str>,
    property: Option<&str>,
    remove: F,
    result: Option<&mut i32>,
) -> (e: MgpError)
    requires
        g is Some && label is Some && property is Some && result is Some ==> call_requires(remove, (label->0, property->0)),
    ensures
        e == given(g is None || label is None || property is None || result is None),
        result matches Some(r) ==> if e is NoError {
            pair_answered(remove, label->0, property->0, *final(r))
        } else {
            *final(r) == *r
        },
{
    match (g, label, property, result) {
        (Some(_), Some(l), Some(p), Some(r)) => {
            let done = remove(l, p);
            *r = to_flag(done);
            assert(call_ensures(remove, (l, p), done));
            MgpError::NoError
        },
        _ => MgpError::InvalidArgument,
    }
}

/// Whether a constraint is there, by the answer of the storage.
pub open spec fn is_there<F: FnOnce(&str, &str) -> bool>(has: F, label: &str, property: &str, there: bool) -> bool {
    call_ensures(has, (label, property), there)
}

/// Whether a constraint over several properties is there, by the answer of the storage.
pub open spec fn are_there<F: FnOnce(&str, &Vec<String>) -> bool>(has: F, label: &str, properties: Vec<String>, there: bool) -> bool {
    call_ensures(has, (label, &properties), there)
}

/// Asks that every vertex with a label has a property. Nothing is done where this was asked before; the
/// result tells.
pub fn mgp_create_existence_constraint<H: FnOnce(&str, &str) -> bool, W: FnOnce(&str, &str)>(
    g: Option<&mgp_graph>,
    label: Option<&str>,
    property: Option<&str>,
    has: H,
    ask: W,
    result: Option<&mut i32>,
) -> (e: MgpError)
    requires
        g is Some && label is Some && property is Some && result is Some ==> call_requires(has, (label->0, property->0)),
        g is Some && label is Some && property is Some && result is Some && is_there(has, label->0, property->0, false)
            ==> call_requires(ask, (label->0, property->0)),
    ensures
        e == given(g is None || label is None || property is None || result is None),
        result matches Some(r) ==> if e is NoError {
            exists|there: bool|
                {
                    &&& #[trigger] is_there(has, label->0, property->0, there)
                    &&& *final(r) == flag(!there)
                    &&& !there ==> call_ensures(ask, (label->0, property->0), ())
                }
        } else {
            *final(r) == *r
        },
{
    match (g, label, property, result) {
        (Some(_), Some(l), Some(p), Some(r)) => {
            let there = has(l, p);
            assert(is_there(has, l, p, there));
            if !there {
                ask(l, p);
            }
            *r = to_flag(!there);
            MgpError::NoError
        },
        _ => MgpError::InvalidArgument,
    }
}

/// Takes back that every vertex with a label has a property. Nothing is done where this was not asked;
/// the result tells.
pub fn mgp_drop_existence_constraint<H: FnOnce(&str, &str) -> bool, W: FnOnce(&str, &str)>(
    g: Option<&mgp_graph>,
    label: Option<&str>,
    property: Option<&str>,
    has: H,
    remove: W,
    result: Option<&mut i32>,
) -> (e: MgpError)
    requires
        g is Some && label is Some && property is Some && result is Some ==> call_requires(has, (label->0, property->0)),
        g is Some && label is Some && property is Some && result is Some && is_there(has, label->0, property->0, true)
            ==> call_requires(remove, (label->0, property->0)),
    ensures
        e == given(g is None || label is None || property is None || result is None),
        result matches Some(r) ==> if e is NoError {
            exists|there: bool|
                {
                    &&& #[trigger] is_there(has, label->0, property->0, there)
                    &&& *final(r) == flag(there)
                    &&& there ==> call_ensures(remove, (label->0, property->0), ())
                }
        } else {
            *final(r) == *r
        },
{
    match (g, label, property, result) {
        (Some(_), Some(l), Some(p), Some(r)) => {
            let there = has(l, p);
            assert(is_there(has, l, p, there));
            if there {
                remove(l, p);
            }
            *r = to_flag(there);
            MgpError::NoError
        },
        _ => MgpError::InvalidArgument,
    }
}

/// The texts of a list that holds nothing else.
pub open spec fn all_texts(items: Seq<Val>) -> Option<Seq<Seq<char>>> {
    if forall|i: int| 0 <= i < items.len() ==> #[trigger] items[i] is Text {
        Some(Seq::new(items.len(), |i: int| items[i]->Text_0))
    } else {
        None
    }
}

/// The texts of a list that holds nothing else.
pub fn collect_texts(list: &mgp_list) -> (r: Option<Vec<String>>)
    ensures
        r is Some <==> all_texts(list@) is Some,
        r matches Some(names) ==> all_texts(list@) == Some(texts(names@)),
{
    let mut names: Vec<String> = Vec::new();
    let mut i: usize = 0;
    while i < list.items.len()
        invariant
            i <= list.items@.len(),
            names@.len() == i,
            forall|j: int| 0 <= j < i ==> #[trigger] list@[j] == Val::Text(names@[j]@),
        decreases list.items@.len() - i,
    {
        assert(list@[i as int] == list.items@[i as int]@);
        match &list.items[i].inner {
            ValueInner::String(s) => {
                names.push(s.clone());
            },
            _ => {
                assert(!(list@[i as int] is Text));
                return None;
            },
        }
        i += 1;
    }
    assert(all_texts(list@)->0 =~= texts(names@));
    Some(names)
}

/// A constraint over several properties: the label, and the names of the properties.
pub type UniqueKey = (Seq<char>, Seq<Seq<char>>);

/// Whether a storage answers by the constraints that it holds.
pub open spec fn answers_by<H: FnOnce(&str, &Vec<String>) -> bool>(has: H, held: Set<UniqueKey>) -> bool {
    forall|l: &str, names: Vec<String>, there: bool| #[trigger]
        are_there(has, l, names, there) ==> there == held.contains((l@, texts(names@)))
}

/// What the creation of a constraint tells: the storage is asked for it exactly where it says that it
/// does not hold it.
pub open spec fn was_created<H: FnOnce(&str, &Vec<String>) -> bool, W: FnOnce(&str, &Vec<String>)>(
    has: H,
    ask: W,
    label: &str,
    properties: Seq<Val>,
    told: i32,
) -> bool {
    exists|names: Vec<String>, there: bool|
        {
            &&& #[trigger] are_there(has, label, names, there)
            &&& all_texts(properties) == Some(texts(names@))
            &&& told == flag(!there)
            &&& !there ==> call_ensures(ask, (label, &names), ())
        }
}

/// The constraints that a storage holds once it was told to create one, if it was.
pub open spec fn held_after(held: Set<UniqueKey>, key: UniqueKey, told: i32) -> Set<UniqueKey> {
    if told == flag(true) {
        held.insert(key)
    } else {
        held
    }
}

/// A constraint is there once it was created, whether it was before or not. Creating it again tells so
/// and changes nothing.
pub proof fn creating_again_changes_nothing<
    H: FnOnce(&str, &Vec<String>) -> bool,
    W: FnOnce(&str, &Vec<String>),
    H2: FnOnce(&str, &Vec<String>) -> bool,
    W2: FnOnce(&str, &Vec<String>),
>(has: H, ask: W, has_then: H2, ask_then: W2, held: Set<UniqueKey>, label: &str, properties: Seq<Val>, first: i32, second: i32)
    requires
        all_texts(properties) is Some,
        answers_by(has, held),
        was_created(has, ask, label, properties, first),
        answers_by(has_then, held_after(held, (label@, all_texts(properties)->0), first)),
        was_created(has_then, ask_then, label, properties, second),
    ensures
        ({
            let key = (label@, all_texts(properties)->0);
            let then = held_after(held, key, first);
            &&& first == flag(!held.contains(key))
            &&& then == held.insert(key)
            &&& second == flag(false)
            &&& held_after(then, key, second) == then
        }),
{
    let key = (label@, all_texts(properties)->0);
    if held.contains(key) {
        assert(held.insert(key) =~= held);
    }
}

/// Asks that no two vertices with a label agree in some properties. Nothing is done where this was asked
/// before; the result tells. The list names the properties and holds nothing else.
pub fn mgp_create_unique_constraint<H: FnOnce(&str, &Vec<String>) -> bool, W: FnOnce(&str, &Vec<String>)>(
    g: Option<&mgp_graph>,
    label: Option<&str>,
    properties: Option<&mgp_list>,
    has: H,
    ask: W,
    result: Option<&mut i32>,
) -> (e: MgpError)
    requires
        g is Some && label is Some && properties is Some && result is Some ==> forall|names: Vec<String>|
            all_texts(properties->0@) == Some(texts(names@)) ==> #[trigger] call_requires(has, (label->0, &names)),
        g is Some && label is Some && properties is Some && result is Some ==> forall|names: Vec<String>|
            all_texts(properties->0@) == Some(texts(names@)) && are_there(has, label->0, names, false) ==> #[trigger] call_requires(
                ask,
                (label->0, &names),
            ),
    ensures
        e == given(
            g is None || label is None || properties is None || result is None || all_texts(properties->0@) is None,
        ),
        result matches Some(r) ==> if e is NoError {
            was_created(has, ask, label->0, properties->0@, *final(r))
        } else {
            *final(r) == *r
        },
{
    match (g, label, properties, result) {
        (Some(_), Some(l), Some(p), Some(r)) => match collect_texts(p) {
            Some(names) => {
                let there = has(l, &names);
                assert(are_there(has, l, names, there));
                if !there {
                    ask(l, &names);
                }
                *r = to_flag(!there);
                MgpError::NoError
            },
            None => MgpError::InvalidArgument,
        },
        _ => MgpError::InvalidArgument,
    }
}

/// Takes back that no two vertices with a label agree in some properties. Nothing is done where this was
/// not asked; the result tells. The list names the properties and holds nothing else.
pub fn mgp_drop_unique_constraint<H: FnOnce(&str, &Vec<String>) -> bool, W: FnOnce(&str, &Vec<String>)>(
    g: Option<&mgp_graph>,
    label: Option<&str>,
    properties: Option<&mgp_list>,
    has: H,
    remove: W,
    result: Option<&mut i32>,
) -> (e: MgpError)
    requires
        g is Some && label is Some && properties is Some && result is Some ==> forall|names: Vec<String>|
            all_texts(properties->0@) == Some(texts(names@)) ==> #[trigger] call_requires(has, (label->0, &names)),
        g is Some && label is Some && properties is Some && result is Some ==> forall|names: Vec<String>|
            all_texts(properties->0@) == Some(texts(names@)) && are_there(has, label->0, names, true) ==> #[trigger] call_requires(
                remove,
                (label->0, &names),
            ),
    ensures
        e == given(
            g is None || label is None || properties is None || result is None || all_texts(properties->0@) is None,
        ),
        result matches Some(r) ==> if e is NoError {
            exists|names: Vec<String>, there: bool|
                {
                    &&& #[trigger] are_there(has, label->0, names, there)
                    &&& all_texts(properties->0@) == Some(texts(names@))
                    &&& *final(r) == flag(there)
                    &&& there ==> call_ensures(remove, (label->0, &names), ())
                }
        } else {
            *final(r) == *r
        },
{
    match (g, label, properties, result) {
        (Some(_), Some(l), Some(p), Some(r)) => match collect_texts(p) {
            Some(names) => {
                let there = has(l, &names);
                assert(are_there(has, l, names, there));
                if there {
                    remove(l, &names);
                }
                *r = to_flag(there);
                MgpError::NoError
            },
            None => MgpError::InvalidArgument,
        },
        _ => MgpError::InvalidArgument,
    }
}

/// A vertex of the storage.
#[derive(Debug)]
pub struct VertexRecord {
    pub gid: u64,
    pub snapshot: VertexSnapshot,
}

/// The directory that the text index of a label stands in.
pub open spec fn text_index_path(label: Seq<char>) -> Seq<char> {
    "/tmp/mg_text_idx_"@ + label
}

fn make_text_index_path(label: &str) -> (r: String)
    ensures
        r@ == text_index_path(label@),
{
    let mut r = "/tmp/mg_text_idx_".to_string();
    r.append(label);
    r
}

/// The texts among the first `k` values.
pub open spec fn texts_among(items: Seq<Val>, k: nat) -> Seq<Seq<char>>
    decreases k,
{
    if k == 0 || k > items.len() {
        Seq::empty()
    } else {
        match items[k - 1] {
            Val::Text(s) => texts_among(items, (k - 1) as nat).push(s),
            _ => texts_among(items, (k - 1) as nat),
        }
    }
}

/// The properties that a text index holds: those that are named, or one by the name of value where
/// none is.
pub open spec fn text_index_fields(props: Option<Seq<Val>>) -> Seq<Seq<char>> {
    match props {
        Some(items) => if items.len() == 0 {
            seq!["value"@]
        } else {
            texts_among(items, items.len())
        },
        None => seq!["value"@],
    }
}

/// The model of a list that may be missing.
pub open spec fn list_view(list: Option<&mgp_list>) -> Option<Seq<Val>> {
    match list {
        Some(l) => Some(l@),
        None => None,
    }
}

fn default_fields() -> (r: Vec<String>)
    ensures
        texts(r@) == seq!["value"@],
{
    let mut r: Vec<String> = Vec::new();
    r.push("value".to_string());
    assert(texts(r@) =~= seq!["value"@]);
    r
}

/// The properties that a text index holds.
pub fn find_text_index_fields(props: Option<&mgp_list>) -> (r: Vec<String>)
    ensures
        texts(r@) == text_index_fields(list_view(props)),
{
    match props {
        Some(list) => {
            if list.items.len() == 0 {
                return default_fields();
            }
            let mut names: Vec<String> = Vec::new();
            let mut i: usize = 0;
            assert(texts(names@) =~= texts_among(list@, 0));
            while i < list.items.len()
                invariant
                    i <= list.items@.len(),
                    texts(names@) == texts_among(list@, i as nat),
                decreases list.items@.len() - i,
            {
                assert(list@[i as int] == list.items@[i as int]@);
                let ghost before = texts(names@);
                match &list.items[i].inner {
                    ValueInner::String(s) => {
                        names.push(s.clone());
                        assert(texts(names@) =~= before.push(s@));
                    },
                    _ => {},
                }
                i += 1;
            }
            names
        },
        None => default_fields(),
    }
}

/// The text that is shown for a double.
pub open spec fn double_text<S: Fn(u64) -> String>(show: S, bits: u64) -> Seq<char> {
    (choose|s: String| call_ensures(show, (bits,), s))@
}

/// A way of showing doubles that may be asked for any and gives one text for each.
pub open spec fn shows_doubles<S: Fn(u64) -> String>(show: S) -> bool {
    &&& forall|bits: u64| #[trigger] call_requires(show, (bits,))
    &&& forall|bits: u64, s: String| #[trigger] call_ensures(show, (bits,), s) ==> s@ == double_text(show, bits)
}

/// The text that a property value is indexed by: texts, numbers and truth values have one.
pub open spec fn indexed_text<S: Fn(u64) -> String>(show: S, v: Stored) -> Option<Seq<char>> {
    match v {
        Stored::Text(s) => Some(s),
        Stored::Int(n) => Some(signed_decimal(n as int)),
        Stored::Double(bits) => Some(double_text(show, bits)),
        Stored::Bool(b) => Some(
            if b {
                "true"@
            } else {
                "false"@
            },
        ),
        _ => None,
    }
}

/// A field of a text index, and the text that a vertex has in it.
#[derive(Debug)]
pub struct TextEntry {
    pub field: String,
    pub text: String,
}

/// The models of text entries.
pub open spec fn entry_views(v: Seq<TextEntry>) -> Seq<(Seq<char>, Seq<char>)> {
    Seq::new(v.len(), |i: int| (v[i].field@, v[i].text@))
}

/// What a vertex has in the first `k` fields of a text index.
pub open spec fn text_entries<S: Fn(u64) -> String>(
    show: S,
    fields: Seq<Seq<char>>,
    properties: Seq<(Seq<char>, Stored)>,
    k: nat,
) -> Seq<(Seq<char>, Seq<char>)>
    decreases k,
{
    if k == 0 || k > fields.len() {
        Seq::empty()
    } else {
        let before = text_entries(show, fields, properties, (k - 1) as nat);
        match indexed_text(show, property_at(properties, fields[k - 1], properties.len())) {
            Some(t) => before.push((fields[k - 1], t)),
            None => before,
        }
    }
}

/// Where the last property under a name stands among the first `k`.
pub open spec fn last_position(items: Seq<(Seq<char>, Stored)>, name: Seq<char>, k: nat) -> Option<int>
    decreases k,
{
    if k == 0 || k > items.len() {
        None
    } else if items[k - 1].0 == name {
        Some(k - 1)
    } else {
        last_position(items, name, (k - 1) as nat)
    }
}

proof fn lemma_last_position(items: Seq<(Seq<char>, Stored)>, name: Seq<char>, k: nat)
    requires
        k <= items.len(),
    ensures
        property_at(items, name, k) == match last_position(items, name, k) {
            Some(i) => items[i].1,
            None => Stored::Null,
        },
        last_position(items, name, k) matches Some(i) ==> 0 <= i < k,
    decreases k,
{
    if k > 0 && items[k - 1].0 != name {
        lemma_last_position(items, name, (k - 1) as nat);
    }
}

fn find_last(items: &Vec<NamedValue>, name: &str) -> (r: Option<usize>)
    ensures
        last_position(named_views(items@), name@, items@.len()) == match r {
            Some(i) => Some(i as int),
            None => None,
        },
        r matches Some(i) ==> i < items@.len(),
{
    let wanted = name.to_string();
    let ghost all = named_views(items@);
    let mut i: usize = items.len();
    while i > 0
        invariant
            wanted@ == name@,
            all == named_views(items@),
            i <= items@.len(),
            last_position(all, name@, items@.len()) == last_position(all, name@, i as nat),
        decreases i,
    {
        if items[i - 1].name == wanted {
            return Some(i - 1);
        }
        i -= 1;
    }
    None
}

fn show_value<S: Fn(u64) -> String>(show: &S, v: &PropertyValue) -> (r: Option<String>)
    requires
        shows_doubles(*show),
    ensures
        opt_view(r) == indexed_text(*show, v@),
{
    match v {
        PropertyValue::String(s) => Some(s.clone()),
        PropertyValue::Int(n) => Some(signed_text(*n)),
        PropertyValue::Double(bits) => Some(show(*bits)),
        PropertyValue::Bool(b) => Some(
            if *b {
                "true".to_string()
            } else {
                "false".to_string()
            },
        ),
        _ => None,
    }
}

/// What a vertex has in the fields of a text index.
pub fn find_text_entries<S: Fn(u64) -> String>(show: &S, fields: &Vec<String>, properties: &Vec<NamedValue>) -> (r: Vec<TextEntry>)
    requires
        shows_doubles(*show),
    ensures
        entry_views(r@) == text_entries(*show, texts(fields@), named_views(properties@), fields@.len()),
{
    let ghost names = texts(fields@);
    let ghost all = named_views(properties@);
    let mut r: Vec<TextEntry> = Vec::new();
    let mut i: usize = 0;
    assert(entry_views(r@) =~= text_entries(*show, names, all, 0));
    while i < fields.len()
        invariant
            shows_doubles(*show),
            names == texts(fields@),
            all == named_views(properties@),
            i <= fields@.len(),
            entry_views(r@) == text_entries(*show, names, all, i as nat),
        decreases fields@.len() - i,
    {
        let ghost before = entry_views(r@);
        proof {
            lemma_last_position(all, names[i as int], all.len());
        }
        match find_last(properties, fields[i].as_str()) {
            Some(p) => {
                assert(all[p as int].1 == properties@[p as int].value@);
                match show_value(show, &properties[p].value) {
                    Some(text) => {
                        let entry = TextEntry { field: fields[i].clone(), text };
                        r.push(entry);
                        assert(entry_views(r@) =~= before.push((entry.field@, entry.text@)));
                    },
                    None => {},
                }
            },
            None => {},
        }
        i += 1;
    }
    r
}

/// Whether a vertex has a label.
pub open spec fn has_label(v: VertexRecord, label: Seq<char>) -> bool {
    label_names(v.snapshot).contains(label)
}

fn carries_label(v: &VertexRecord, label: &str) -> (r: bool)
    ensures
        r == has_label(*v, label@),
{
    let wanted = label.to_string();
    let mut i: usize = 0;
    while i < v.snapshot.labels.len()
        invariant
            wanted@ == label@,
            i <= v.snapshot.labels@.len(),
            forall|j: int| 0 <= j < i ==> (#[trigger] v.snapshot.labels@[j])@ != label@,
        decreases v.snapshot.labels@.len() - i,
    {
        if v.snapshot.labels[i] == wanted {
            assert(label_names(v.snapshot)[i as int] == label@);
            return true;
        }
        i += 1;
    }
    assert forall|j: int| 0 <= j < label_names(v.snapshot).len() implies label_names(v.snapshot)[j] != label@ by {
        assert(v.snapshot.labels@[j]@ != label@);
    }
    false
}

/// A vertex, and the texts that it has in the fields of a text index.
#[derive(Debug)]
pub struct TextRecord {
    pub gid: u64,
    pub entries: Vec<TextEntry>,
}

/// The models of text records.
pub open spec fn record_views(v: Seq<TextRecord>) -> Seq<(u64, Seq<(Seq<char>, Seq<char>)>)> {
    Seq::new(v.len(), |i: int| (v[i].gid, entry_views(v[i].entries@)))
}

/// The texts of those of the first `k` vertices that have a label, in order.
pub open spec fn records_among<S: Fn(u64) -> String>(
    show: S,
    all: Seq<VertexRecord>,
    label: Seq<char>,
    fields: Seq<Seq<char>>,
    k: nat,
) -> Seq<(u64, Seq<(Seq<char>, Seq<char>)>)>
    decreases k,
{
    if k == 0 || k > all.len() {
        Seq::empty()
    } else {
        let before = records_among(show, all, label, fields, (k - 1) as nat);
        let v = all[k - 1];
        if has_label(v, label) {
            before.push((v.gid, text_entries(show, fields, named_views(v.snapshot.properties@), fields.len())))
        } else {
            before
        }
    }
}

/// Whether records are those that a text index is filled with.
pub open spec fn are_records<S: Fn(u64) -> String>(
    records: Seq<TextRecord>,
    show: S,
    all: Seq<VertexRecord>,
    label: Seq<char>,
    fields: Seq<Seq<char>>,
) -> bool {
    record_views(records) == records_among(show, all, label, fields, all.len())
}

/// The texts of the vertices that have a label.
pub fn find_records<S: Fn(u64) -> String>(show: &S, all: &Vec<VertexRecord>, label: &str, fields: &Vec<String>) -> (r: Vec<TextRecord>)
    requires
        shows_doubles(*show),
    ensures
        are_records(r@, *show, all@, label@, texts(fields@)),
{
    let mut r: Vec<TextRecord> = Vec::new();
    let mut i: usize = 0;
    assert(record_views(r@) =~= records_among(*show, all@, label@, texts(fields@), 0));
    while i < all.len()
        invariant
            shows_doubles(*show),
            i <= all@.len(),
            record_views(r@) == records_among(*show, all@, label@, texts(fields@), i as nat),
        decreases all@.len() - i,
    {
        let ghost before = record_views(r@);
        if carries_label(&all[i], label) {
            let entries = find_text_entries(show, fields, &all[i].snapshot.properties);
            let record = TextRecord { gid: all[i].gid, entries };
            r.push(record);
            assert(record_views(r@) =~= before.push((record.gid, entry_views(record.entries@))));
        }
        i += 1;
    }
    r
}

/// Whether the index of a label was made, for some fields.
pub open spec fn index_made<C: FnOnce(&str, &Vec<String>) -> bool>(create: C, label: Seq<char>, fields: Seq<Seq<char>>) -> bool {
    exists|path: &str, names: Vec<String>|
        path@ == text_index_path(label) && texts(names@) == fields && #[trigger] call_ensures(create, (path, &names), true)
}

/// What making a text index answers.
pub open spec fn made_or_failed(made: bool) -> MgpError {
    if made {
        MgpError::NoError
    } else {
        MgpError::SerializationError
    }
}

/// Makes a text index over properties of the vertices with a label, and indexes the vertices that are
/// there. `create` makes an index in a directory, for some fields, and tells whether it could;
/// `vertices` tells all vertices; `index` takes the texts of those with the label; `show` tells the text
/// of a double.
pub fn mgp_create_text_index<
    C: FnOnce(&str, &Vec<String>) -> bool,
    V: FnOnce() -> Vec<VertexRecord>,
    I: FnOnce(&Vec<TextRecord>),
    S: Fn(u64) -> String,
>(g: Option<&mgp_graph>, label: Option<&str>, props: Option<&mgp_list>, create: C, vertices: V, index: I, show: &S) -> (e: MgpError)
    requires
        g is Some && label is Some ==> forall|path: &str, fields: Vec<String>|
            path@ == text_index_path(label->0@) && texts(fields@) == text_index_fields(list_view(props))
                ==> #[trigger] call_requires(create, (path, &fields)),
        g is Some && label is Some && index_made(create, label->0@, text_index_fields(list_view(props))) ==> call_requires(
            vertices,
            (),
        ),
        g is Some && label is Some && index_made(create, label->0@, text_index_fields(list_view(props))) ==> forall|
            all: Vec<VertexRecord>,
            records: Vec<TextRecord>,
        |
            call_ensures(vertices, (), all) && #[trigger] are_records(
                records@,
                *show,
                all@,
                label->0@,
                text_index_fields(list_view(props)),
            ) ==> call_requires(index, (&records,)),
        shows_doubles(*show),
    ensures
        g is None || label is None ==> e is InvalidArgument,
        g is Some && label is Some ==> exists|path: &str, fields: Vec<String>, made: bool|
            {
                &&& #[trigger] call_ensures(create, (path, &fields), made)
                &&& path@ == text_index_path(label->0@)
                &&& texts(fields@) == text_index_fields(list_view(props))
                &&& e == made_or_failed(made)
            },
        e is NoError ==> exists|all: Vec<VertexRecord>, records: Vec<TextRecord>|
            {
                &&& #[trigger] call_ensures(vertices, (), all)
                &&& #[trigger] call_ensures(index, (&records,), ())
                &&& are_records(records@, *show, all@, label->0@, text_index_fields(list_view(props)))
            },
{
    match (g, label) {
        (Some(_), Some(l)) => {
            let fields = find_text_index_fields(props);
            let path = make_text_index_path(l);
            let directory = path.as_str();
            let made = create(directory, &fields);
            assert(call_ensures(create, (directory, &fields), made));
            if made {
                let all = vertices();
                assert(call_ensures(vertices, (), all));
                let records = find_records(show, &all, l, &fields);
                assert(are_records(records@, *show, all@, l@, text_index_fields(list_view(props))));
                index(&records);
                assert(call_ensures(index, (&records,), ()));
                MgpError::NoError
            } else {
                MgpError::SerializationError
            }
        },
        _ => MgpError::InvalidArgument,
    }
}

/// Drops the text index of a label. `remove` takes the label and the directory.
pub fn mgp_drop_text_index<R: FnOnce(&str, &str)>(g: Option<&mgp_graph>, label: Option<&str>, remove: R) -> (e: MgpError)
    requires
        g is Some && label is Some ==> forall|path: &str|
            path@ == text_index_path(label->0@) ==> #[trigger] call_requires(remove, (label->0, path)),
    ensures
        e == given(g is None || label is None),
        e is NoError ==> exists|path: &str| path@ == text_index_path(label->0@) && #[trigger] call_ensures(remove, (label->0, path), ()),
{
    match (g, label) {
        (Some(_), Some(l)) => {
            let path = make_text_index_path(l);
            let directory = path.as_str();
            remove(l, directory);
            assert(call_ensures(remove, (l, directory), ()));
            MgpError::NoError
        },
        _ => MgpError::InvalidArgument,
    }
}

/// How the distance of two vectors is measured.
#[derive(Clone, Copy, Debug, PartialEq, Eq, Structural)]
pub enum Distance {
    Cosine,
    Euclidean,
    Dot,
}

/// The distance that a name stands for.
pub open spec fn distance_named(name: Option<Seq<char>>) -> Distance {
    match name {
        Some(s) => if s == "euclidean"@ || s == "l2"@ {
            Distance::Euclidean
        } else if s == "dot"@ || s == "inner_product"@ {
            Distance::Dot
        } else {
            Distance::Cosine
        },
        None => Distance::Cosine,
    }
}

/// The model of a text that may be missing.
pub open spec fn text_view(s: Option<&str>) -> Option<Seq<char>> {
    match s {
        Some(t) => Some(t@),
        None => None,
    }
}

/// The distance that a name stands for.
pub fn find_distance(metric: Option<&str>) -> (r: Distance)
    ensures
        r == distance_named(text_view(metric)),
{
    match metric {
        Some(m) => {
            let name = m.to_string();
            if name == "euclidean".to_string() || name == "l2".to_string() {
                Distance::Euclidean
            } else if name == "dot".to_string() || name == "inner_product".to_string() {
                Distance::Dot
            } else {
                Distance::Cosine
            }
        },
        None => Distance::Cosine,
    }
}

/// The numbers that a function reads from a property value, as bit patterns.
pub open spec fn vector_of<R: Fn(&PropertyValue) -> Option<Vec<u32>>>(read: R, p: PropertyValue) -> Option<Seq<u32>> {
    opt_view(choose|r: Option<Vec<u32>>| call_ensures(read, (&p,), r))
}

/// A reading of property values that may be asked of any and gives one answer for each.
pub open spec fn reads_vectors<R: Fn(&PropertyValue) -> Option<Vec<u32>>>(read: R) -> bool {
    &&& forall|p: PropertyValue| #[trigger] call_requires(read, (&p,))
    &&& forall|p: PropertyValue, r: Option<Vec<u32>>| #[trigger] call_ensures(read, (&p,), r) ==> opt_view(r) == vector_of(read, p)
}

/// The vector of a vertex.
#[derive(Debug)]
pub struct VectorEntry {
    pub vector: Vec<u32>,
    pub gid: u64,
}

/// The models of vectors of vertices.
pub open spec fn vector_views(v: Seq<VectorEntry>) -> Seq<(Seq<u32>, u64)> {
    Seq::new(v.len(), |i: int| (v[i].vector@, v[i].gid))
}

/// The property of a vertex under a name; null where there is none.
pub open spec fn held_property(v: VertexRecord, property: Seq<char>) -> PropertyValue {
    let items = v.snapshot.properties@;
    match last_position(named_views(items), property, items.len()) {
        Some(i) => items[i].value,
        None => PropertyValue::Null,
    }
}

/// The vectors of the first `k` vertices that have a label and a vector of a dimension.
pub open spec fn vectors_among<R: Fn(&PropertyValue) -> Option<Vec<u32>>>(
    read: R,
    all: Seq<VertexRecord>,
    label: Seq<char>,
    property: Seq<char>,
    dimension: nat,
    k: nat,
) -> Seq<(Seq<u32>, u64)>
    decreases k,
{
    if k == 0 || k > all.len() {
        Seq::empty()
    } else {
        let before = vectors_among(read, all, label, property, dimension, (k - 1) as nat);
        match vector_of(read, held_property(all[k - 1], property)) {
            Some(v) => if has_label(all[k - 1], label) && v.len() == dimension {
                before.push((v, all[k - 1].gid))
            } else {
                before
            },
            None => before,
        }
    }
}

fn read_property<R: Fn(&PropertyValue) -> Option<Vec<u32>>>(read: &R, v: &VertexRecord, property: &str) -> (r: Option<Vec<u32>>)
    requires
        reads_vectors(*read),
    ensures
        opt_view(r) == vector_of(*read, held_property(*v, property@)),
{
    match find_last(&v.snapshot.properties, property) {
        Some(p) => {
            let r = read(&v.snapshot.properties[p].value);
            assert(call_ensures(*read, (&v.snapshot.properties@[p as int].value,), r));
            r
        },
        None => {
            let null = PropertyValue::Null;
            let r = read(&null);
            assert(call_ensures(*read, (&null,), r));
            r
        },
    }
}

/// The vectors of the vertices that have a label and a vector of a dimension.
pub fn find_vectors<R: Fn(&PropertyValue) -> Option<Vec<u32>>>(
    read: &R,
    all: &Vec<VertexRecord>,
    label: &str,
    property: &str,
    dimension: usize,
) -> (r: Vec<VectorEntry>)
    requires
        reads_vectors(*read),
    ensures
        vector_views(r@) == vectors_among(*read, all@, label@, property@, dimension as nat, all@.len()),
{
    let mut r: Vec<VectorEntry> = Vec::new();
    let mut i: usize = 0;
    assert(vector_views(r@) =~= vectors_among(*read, all@, label@, property@, dimension as nat, 0));
    while i < all.len()
        invariant
            reads_vectors(*read),
            i <= all@.len(),
            vector_views(r@) == vectors_among(*read, all@, label@, property@, dimension as nat, i as nat),
        decreases all@.len() - i,
    {
        let ghost before = vector_views(r@);
        if carries_label(&all[i], label) {
            match read_property(read, &all[i], property) {
                Some(vector) => {
                    if vector.len() == dimension {
                        let entry = VectorEntry { vector, gid: all[i].gid };
                        r.push(entry);
                        assert(vector_views(r@) =~= before.push((entry.vector@, entry.gid)));
                    }
                },
                None => {},
            }
        }
        i += 1;
    }
    r
}

/// The dimension of a vector index: the one that is asked for, or a default where it is zero.
pub open spec fn dimension_of(dim: usize) -> usize {
    if dim > 0 {
        dim
    } else {
        128
    }
}

/// The property that a vector index is made for: the first of a list, which must be a text.
pub open spec fn vector_property(props: Option<Seq<Val>>) -> Option<Seq<char>> {
    match props {
        Some(items) => if items.len() > 0 {
            match items[0] {
                Val::Text(s) => Some(s),
                _ => None,
            }
        } else {
            None
        },
        None => None,
    }
}

fn find_vector_property(props: Option<&mgp_list>) -> (r: Option<String>)
    ensures
        opt_view(r) == vector_property(list_view(props)),
{
    match props {
        Some(list) => {
            if list.items.len() == 0 {
                return None;
            }
            assert(list@[0] == list.items@[0]@);
            match &list.items[0].inner {
                ValueInner::String(s) => Some(s.clone()),
                _ => None,
            }
        },
        None => None,
    }
}

/// What a vector index is made of.
#[derive(Debug)]
pub struct VectorIndexPlan {
    pub label: String,
    pub property: String,
    pub dimension: usize,
    pub distance: Distance,
    pub vectors: Vec<VectorEntry>,
}

/// Whether a plan is the one of a vector index that is asked for, over some vertices.
pub open spec fn is_vector_plan<R: Fn(&PropertyValue) -> Option<Vec<u32>>>(
    plan: VectorIndexPlan,
    read: R,
    all: Seq<VertexRecord>,
    label: Seq<char>,
    props: Option<Seq<Val>>,
    dim: usize,
    metric: Option<Seq<char>>,
) -> bool {
    &&& plan.label@ == label
    &&& Some(plan.property@) == vector_property(props)
    &&& plan.dimension == dimension_of(dim)
    &&& plan.distance == distance_named(metric)
    &&& vector_views(plan.vectors@) == vectors_among(read, all, label, plan.property@, plan.dimension as nat, all.len())
}

/// Makes a vector index over a property of the vertices with a label, with the vectors that are
/// there. `vertices` tells all vertices; `read` tells the vector that a property value holds; `build`
/// makes the index.
pub fn mgp_create_vector_index<
    V: FnOnce() -> Vec<VertexRecord>,
    R: Fn(&PropertyValue) -> Option<Vec<u32>>,
    B: FnOnce(&VectorIndexPlan),
>(
    g: Option<&mgp_graph>,
    label: Option<&str>,
    props: Option<&mgp_list>,
    dim: usize,
    metric: Option<&str>,
    vertices: V,
    read: &R,
    build: B,
) -> (e: MgpError)
    requires
        g is Some && label is Some && vector_property(list_view(props)) is Some ==> call_requires(vertices, ()),
        reads_vectors(*read),
        g is Some && label is Some && vector_property(list_view(props)) is Some ==> forall|
            all: Vec<VertexRecord>,
            plan: VectorIndexPlan,
        |
            call_ensures(vertices, (), all) && #[trigger] is_vector_plan(
                plan,
                *read,
                all@,
                label->0@,
                list_view(props),
                dim,
                text_view(metric),
            ) ==> call_requires(build, (&plan,)),
    ensures
        e == given(g is None || label is None || vector_property(list_view(props)) is None),
        e is NoError ==> exists|all: Vec<VertexRecord>, plan: VectorIndexPlan|
            {
                &&& #[trigger] call_ensures(vertices, (), all)
                &&& #[trigger] call_ensures(build, (&plan,), ())
                &&& is_vector_plan(plan, *read, all@, label->0@, list_view(props), dim, text_view(metric))
            },
{
    match (g, label) {
        (Some(_), Some(l)) => match find_vector_property(props) {
            Some(property) => {
                let dimension: usize = if dim > 0 {
                    dim
                } else {
                    128
                };
                let distance = find_distance(metric);
                let all = vertices();
                assert(call_ensures(vertices, (), all));
                let vectors = find_vectors(read, &all, l, property.as_str(), dimension);
                let plan = VectorIndexPlan { label: l.to_string(), property, dimension, distance, vectors };
                assert(is_vector_plan(plan, *read, all@, l@, list_view(props), dim, text_view(metric)));
                build(&plan);
                assert(call_ensures(build, (&plan,), ()));
                MgpError::NoError
            },
            None => MgpError::InvalidArgument,
        },
        _ => MgpError::InvalidArgument,
    }
}

/// Drops the vector index of a label.
pub fn mgp_drop_vector_index<R: FnOnce(&str)>(g: Option<&mgp_graph>, label: Option<&str>, remove: R) -> (e: MgpError)
    requires
        g is Some && label is Some ==> call_requires(remove, (label->0,)),
    ensures
        e == given(g is None || label is None),
        e is NoError ==> call_ensures(remove, (label->0,), ()),
{
    match (g, label) {
        (Some(_), Some(l)) => {
            remove(l);
            MgpError::NoError
        },
        _ => MgpError::InvalidArgument,
    }
}

/// A label and a property.
#[derive(Debug)]
pub struct LabelProperty {
    pub label: String,
    pub property: String,
}

/// What a constraint asks for.
#[derive(Clone, Copy, Debug, PartialEq, Eq, Structural)]
pub enum ConstraintKind {
    Existence,
    Unique,
}

/// A constraint on a property under a label.
#[derive(Debug)]
pub struct Constraint {
    pub kind: ConstraintKind,
    pub label: String,
    pub property: String,
}

/// The list of labels that is handed out.
pub open spec fn label_list(labels: Seq<String>) -> Seq<Val> {
    Seq::new(labels.len(), |i: int| Val::Text(held_text(labels[i]@)))
}

/// The map that is handed out for a label and a property.
pub open spec fn pair_entries(label: Seq<char>, property: Seq<char>) -> Val {
    Val::Mapping(seq![("label"@, Val::Text(held_text(label))), ("property"@, Val::Text(held_text(property)))])
}

/// The list of labels and properties that is handed out.
pub open spec fn pair_list(pairs: Seq<LabelProperty>) -> Seq<Val> {
    Seq::new(pairs.len(), |i: int| pair_entries(pairs[i].label@, pairs[i].property@))
}

/// The list that is handed out of the constraints of a kind among the first `k`.
pub open spec fn constraint_list(constraints: Seq<Constraint>, kind: ConstraintKind, k: nat) -> Seq<Val>
    decreases k,
{
    if k == 0 || k > constraints.len() {
        Seq::empty()
    } else {
        let before = constraint_list(constraints, kind, (k - 1) as nat);
        let c = constraints[k - 1];
        if c.kind == kind {
            before.push(pair_entries(c.label@, c.property@))
        } else {
            before
        }
    }
}

fn text_value(s: &str) -> (r: mgp_value)
    ensures
        r@ == Val::Text(held_text(s@)),
{
    mgp_value { inner: ValueInner::String(hold_text(s)) }
}

fn pair_value(label: &str, property: &str) -> (r: mgp_value)
    ensures
        r@ == pair_entries(label@, property@),
{
    let mut items: Vec<MapEntry> = Vec::new();
    items.push(MapEntry { key: "label".to_string(), value: text_value(label) });
    items.push(MapEntry { key: "property".to_string(), value: text_value(property) });
    let r = mgp_value { inner: ValueInner::Mapping(mgp_map { items }) };
    assert(r@->Mapping_0 =~= pair_entries(label@, property@)->Mapping_0);
    r
}

fn make_label_list(labels: &Vec<String>) -> (r: mgp_list)
    ensures
        r@ == label_list(labels@),
{
    let mut items: Vec<mgp_value> = Vec::new();
    let mut i: usize = 0;
    while i < labels.len()
        invariant
            i <= labels@.len(),
            items@.len() == i,
            forall|j: int| 0 <= j < i ==> (#[trigger] items@[j])@ == Val::Text(held_text(labels@[j]@)),
        decreases labels@.len() - i,
    {
        items.push(text_value(labels[i].as_str()));
        i += 1;
    }
    let r = mgp_list { items };
    assert(r@ =~= label_list(labels@));
    r
}

fn make_pair_list(pairs: &Vec<LabelProperty>) -> (r: mgp_list)
    ensures
        r@ == pair_list(pairs@),
{
    let mut items: Vec<mgp_value> = Vec::new();
    let mut i: usize = 0;
    while i < pairs.len()
        invariant
            i <= pairs@.len(),
            items@.len() == i,
            forall|j: int| 0 <= j < i ==> (#[trigger] items@[j])@ == pair_entries(pairs@[j].label@, pairs@[j].property@),
        decreases pairs@.len() - i,
    {
        items.push(pair_value(pairs[i].label.as_str(), pairs[i].property.as_str()));
        i += 1;
    }
    let r = mgp_list { items };
    assert(r@ =~= pair_list(pairs@));
    r
}

fn make_constraint_list(constraints: &Vec<Constraint>, kind: ConstraintKind) -> (r: mgp_list)
    ensures
        r@ == constraint_list(constraints@, kind, constraints@.len()),
{
    let mut r = mgp_list { items: Vec::new() };
    let mut i: usize = 0;
    assert(r@ =~= constraint_list(constraints@, kind, 0));
    while i < constraints.len()
        invariant
            i <= constraints@.len(),
            r@ == constraint_list(constraints@, kind, i as nat),
        decreases constraints@.len() - i,
    {
        if constraints[i].kind == kind {
            let ghost before = r@;
            let v = pair_value(constraints[i].label.as_str(), constraints[i].property.as_str());
            r.items.push(v);
            assert(r@ =~= before.push(v@));
        }
        i += 1;
    }
    r
}

fn hand_out_list(list: mgp_list, result: Option<&mut Option<mgp_list>>) -> (e: MgpError)
    ensures
        e == given(result is None),
        result matches Some(r) ==> opt_view(*final(r)) == Some(list@),
{
    match result {
        Some(r) => {
            *r = Some(list);
            MgpError::NoError
        },
        None => MgpError::InvalidArgument,
    }
}

/// Lists the labels that have an index.
pub fn mgp_list_all_label_indices(
    g: Option<&mgp_graph>,
    labels: &Vec<String>,
    _memory: Option<&mgp_memory>,
    result: Option<&mut Option<mgp_list>>,
) -> (e: MgpError)
    ensures
        e == given(g is None || result is None),
        result matches Some(r) ==> opt_view(*final(r)) == if g is Some {
            Some(label_list(labels@))
        } else {
            opt_view(*r)
        },
{
    match g {
        Some(_) => hand_out_list(make_label_list(labels), result),
        None => MgpError::InvalidArgument,
    }
}

/// Lists the properties that have an index, with their labels.
pub fn mgp_list_all_label_property_indices(
    g: Option<&mgp_graph>,
    pairs: &Vec<LabelProperty>,
    _memory: Option<&mgp_memory>,
    result: Option<&mut Option<mgp_list>>,
) -> (e: MgpError)
    ensures
        e == given(g is None || result is None),
        result matches Some(r) ==> opt_view(*final(r)) == if g is Some {
            Some(pair_list(pairs@))
        } else {
            opt_view(*r)
        },
{
    match g {
        Some(_) => hand_out_list(make_pair_list(pairs), result),
        None => MgpError::InvalidArgument,
    }
}

/// Lists the properties whose values must differ, with their labels.
pub fn mgp_list_all_unique_constraints(
    g: Option<&mgp_graph>,
    constraints: &Vec<Constraint>,
    _memory: Option<&mgp_memory>,
    result: Option<&mut Option<mgp_list>>,
) -> (e: MgpError)
    ensures
        e == given(g is None || result is None),
        result matches Some(r) ==> opt_view(*final(r)) == if g is Some {
            Some(constraint_list(constraints@, ConstraintKind::Unique, constraints@.len()))
        } else {
            opt_view(*r)
        },
{
    match g {
        Some(_) => hand_out_list(make_constraint_list(constraints, ConstraintKind::Unique), result),
        None => MgpError::InvalidArgument,
    }
}

/// Lists the properties that must be there, with their labels.
pub fn mgp_list_all_existence_constraints(
    g: Option<&mgp_graph>,
    constraints: &Vec<Constraint>,
    _memory: Option<&mgp_memory>,
    result: Option<&mut Option<mgp_list>>,
) -> (e: MgpError)
    ensures
        e == given(g is None || result is None),
        result matches Some(r) ==> opt_view(*final(r)) == if g is Some {
            Some(constraint_list(constraints@, ConstraintKind::Existence, constraints@.len()))
        } else {
            opt_view(*r)
        },
{
    match g {
        Some(_) => hand_out_list(make_constraint_list(constraints, ConstraintKind::Existence), result),
        None => MgpError::InvalidArgument,
    }
}

/// Tells the indices of a graph: the labels, and the properties with their labels.
pub fn mgp_graph_show_index_info(
    g: Option<&mgp_graph>,
    labels: &Vec<String>,
    pairs: &Vec<LabelProperty>,
    _memory: Option<&mgp_memory>,
    result: Option<&mut Option<mgp_map>>,
) -> (e: MgpError)
    ensures
        e == given(g is None || result is None),
        result matches Some(r) ==> opt_view(*final(r)) == if g is Some {
            Some(
                seq![
                    ("label_indices"@, Val::List(label_list(labels@))),
                    ("label_property_indices"@, Val::List(pair_list(pairs@))),
                ],
            )
        } else {
            opt_view(*r)
        },
{
    match (g, result) {
        (Some(_), Some(r)) => {
            let first = list_value(make_label_list(labels));
            let second = list_value(make_pair_list(pairs));
            let mut items: Vec<MapEntry> = Vec::new();
            items.push(MapEntry { key: "label_indices".to_string(), value: first });
            items.push(MapEntry { key: "label_property_indices".to_string(), value: second });
            let map = mgp_map { items };
            assert(map@ =~= seq![("label_indices"@, first@), ("label_property_indices"@, second@)]);
            *r = Some(map);
            MgpError::NoError
        },
        _ => MgpError::InvalidArgument,
    }
}

/// The value that holds a list.
pub fn list_value(list: mgp_list) -> (r: mgp_value)
    ensures
        r@ == Val::List(list@),
{
    let r = mgp_value { inner: ValueInner::List(list) };
    proof {
        lemma_list_value(r);
    }
    r
}

} // verus!
