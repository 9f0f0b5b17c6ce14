//! Lists and maps.
use vstd::prelude::*;

use crate::procedure::codes::MgpError;
use crate::procedure::memory::mgp_memory;
use crate::procedure::value::{mgp_list, mgp_map, mgp_value, opt_view, flag, to_flag, MapEntry, Val};

verus! {

/// The entries of a map, in the order in which they came.
pub type Entries = Seq<(Seq<char>, Val)>;

/// Whether no key occurs twice.
pub open spec fn keys_differ(m: Entries) -> bool {
    forall|i: int, j: int| 0 <= i < j < m.len() ==> (#[trigger] m[i]).0 != (#[trigger] m[j]).0
}

/// Whether a key occurs.
pub open spec fn has_key(m: Entries, key: Seq<char>) -> bool {
    exists|i: int| 0 <= i < m.len() && (#[trigger] m[i]).0 == key
}

/// Where a key occurs.
pub open spec fn key_position(m: Entries, key: Seq<char>) -> int {
    choose|i: int| 0 <= i < m.len() && (#[trigger] m[i]).0 == key
}

/// The value under a key, if there is one.
pub open spec fn lookup(m: Entries, key: Seq<char>) -> Option<Val> {
    if has_key(m, key) {
        Some(m[key_position(m, key)].1)
    } else {
        None
    }
}

/// In a map without repeated keys, the entry at a position is what is found under its key.
pub proof fn lemma_lookup(m: Entries, i: int)
    requires
        keys_differ(m),
        0 <= i < m.len(),
    ensures
        has_key(m, m[i].0),
        key_position(m, m[i].0) == i,
        lookup(m, m[i].0) == Some(m[i].1),
{
    let j = key_position(m, m[i].0);
    assert(0 <= j < m.len() && m[j].0 == m[i].0);
    if i < j {
        assert(m[i].0 != m[j].0);
    }
    if j < i {
        assert(m[j].0 != m[i].0);
    }
}

/// A value that was put under a new key is found there, and nothing else changes.
pub proof fn inserted_value_is_found(m: Entries, key: Seq<char>, v: Val, other: Seq<char>)
    requires
        keys_differ(m),
        !has_key(m, key),
    ensures
        keys_differ(m.push((key, v))),
        lookup(m.push((key, v)), key) == Some(v),
        other != key ==> lookup(m.push((key, v)), other) == lookup(m, other),
{
    let n = m.push((key, v));
    assert forall|i: int, j: int| 0 <= i < j < n.len() implies (#[trigger] n[i]).0 != (#[trigger] n[j]).0 by {
        assert(n[i] == m[i]);
        if j < m.len() {
            assert(n[j] == m[j]);
        }
    }
    lemma_lookup(n, m.len() as int);
    if other != key {
        if has_key(m, other) {
            let i = key_position(m, other);
            assert(n[i] == m[i]);
            lemma_lookup(n, i);
            lemma_lookup(m, i);
        } else if has_key(n, other) {
            let i = key_position(n, other);
            assert(m[i] == n[i]);
        }
    }
}

/// A value that was put in the place of another is found under its key, and nothing else changes.
pub proof fn replaced_value_is_found(m: Entries, key: Seq<char>, v: Val, other: Seq<char>)
    requires
        keys_differ(m),
        has_key(m, key),
    ensures
        keys_differ(m.update(key_position(m, key), (key, v))),
        lookup(m.update(key_position(m, key), (key, v)), key) == Some(v),
        other != key ==> lookup(m.update(key_position(m, key), (key, v)), other) == lookup(m, other),
{
    let k = key_position(m, key);
    let n = m.update(k, (key, v));
    assert forall|i: int| 0 <= i < n.len() implies (#[trigger] n[i]).0 == m[i].0 by {}
    assert forall|i: int, j: int| 0 <= i < j < n.len() implies (#[trigger] n[i]).0 != (#[trigger] n[j]).0 by {
        assert(m[i].0 != m[j].0);
    }
    lemma_lookup(n, k);
    if other != key {
        if has_key(m, other) {
            let i = key_position(m, other);
            assert(n[i] == m[i]);
            lemma_lookup(n, i);
            lemma_lookup(m, i);
        } else if has_key(n, other) {
            let i = key_position(n, other);
            assert(m[i].0 == n[i].0);
        }
    }
}

/// What was erased is not found any more, and nothing else changes.
pub proof fn erased_value_is_gone(m: Entries, key: Seq<char>, other: Seq<char>)
    requires
        keys_differ(m),
        has_key(m, key),
    ensures
        keys_differ(m.remove(key_position(m, key))),
        lookup(m.remove(key_position(m, key)), key) == None::<Val>,
        other != key ==> lookup(m.remove(key_position(m, key)), other) == lookup(m, other),
{
    let k = key_position(m, key);
    let n = m.remove(k);
    assert forall|i: int| 0 <= i < n.len() implies #[trigger] n[i] == m[if i < k { i } else { i + 1 }] by {}
    assert forall|i: int, j: int| 0 <= i < j < n.len() implies (#[trigger] n[i]).0 != (#[trigger] n[j]).0 by {
        let a = if i < k { i } else { i + 1 };
        let b = if j < k { j } else { j + 1 };
        assert(m[a].0 != m[b].0);
    }
    if has_key(n, key) {
        let i = key_position(n, key);
        let a = if i < k { i } else { i + 1 };
        assert(m[a].0 == key);
        lemma_lookup(m, a);
        lemma_lookup(m, k);
    }
    if other != key {
        if has_key(m, other) {
            let a = key_position(m, other);
            let i = if a < k { a } else { a - 1 };
            assert(n[i] == m[a]);
            lemma_lookup(n, i);
            lemma_lookup(m, a);
        } else if has_key(n, other) {
            let i = key_position(n, other);
            let a = if i < k { i } else { i + 1 };
            assert(m[a] == n[i]);
        }
    }
}

/// Makes a list without items; the capacity is a hint.
pub fn mgp_list_make_empty(_capacity: usize, _memory: Option<&mgp_memory>, result: Option<&mut Option<mgp_list>>) -> (e: MgpError)
    ensures
        e == if result is None {
            MgpError::InvalidArgument
        } else {
            MgpError::NoError
        },
        result matches Some(r) ==> opt_view(*final(r)) == Some(Seq::<Val>::empty()),
{
    match result {
        Some(r) => {
            let list = mgp_list { items: Vec::new() };
            assert(list@ =~= Seq::<Val>::empty());
            *r = Some(list);
            MgpError::NoError
        },
        None => MgpError::InvalidArgument,
    }
}

/// Puts a copy of a value behind the items of a list.
pub fn mgp_list_append(list: Option<&mut mgp_list>, val: Option<&mgp_value>) -> (e: MgpError)
    ensures
        e == if list is None || val is None {
            MgpError::InvalidArgument
        } else {
            MgpError::NoError
        },
        list matches Some(l) ==> final(l)@ == match val {
            Some(v) => l@.push(v@),
            None => l@,
        },
{
    match (list, val) {
        (Some(l), Some(v)) => {
            let ghost before = l@;
            l.items.push(v.clone());
            assert(l@ =~= before.push(v@));
            MgpError::NoError
        },
        _ => MgpError::InvalidArgument,
    }
}

/// Puts a copy of a value behind the items of a list, which grows where it must.
pub fn mgp_list_append_extend(list: Option<&mut mgp_list>, val: Option<&mgp_value>) -> (e: MgpError)
    ensures
        e == if list is None || val is None {
            MgpError::InvalidArgument
        } else {
            MgpError::NoError
        },
        list matches Some(l) ==> final(l)@ == match val {
            Some(v) => l@.push(v@),
            None => l@,
        },
{
    mgp_list_append(list, val)
}

/// Puts a value behind the items of a list.
pub fn mgp_list_append_move(list: Option<&mut mgp_list>, val: Option<&mgp_value>) -> (e: MgpError)
    ensures
        e == if list is None || val is None {
            MgpError::InvalidArgument
        } else {
            MgpError::NoError
        },
        list matches Some(l) ==> final(l)@ == match val {
            Some(v) => l@.push(v@),
            None => l@,
        },
{
    mgp_list_append(list, val)
}

/// Tells the number of items.
pub fn mgp_list_size(list: Option<&mgp_list>, result: Option<&mut usize>) -> (e: MgpError)
    ensures
        e == if list is None || result is None {
            MgpError::InvalidArgument
        } else {
            MgpError::NoError
        },
        result matches Some(r) ==> *final(r) == match list {
            Some(l) => l@.len() as usize,
            None => *r,
        },
        list matches Some(l) ==> l@.len() <= usize::MAX,
{
    match (list, result) {
        (Some(l), Some(r)) => {
            *r = l.items.len();
            MgpError::NoError
        },
        (Some(l), None) => {
            assert(l@.len() == l.items.len());
            MgpError::InvalidArgument
        },
        _ => MgpError::InvalidArgument,
    }
}

/// What the access to a position answers.
pub open spec fn access_error(missing: bool, index: nat, len: nat) -> MgpError {
    if missing {
        MgpError::InvalidArgument
    } else if index >= len {
        MgpError::OutOfRange
    } else {
        MgpError::NoError
    }
}

/// Hands out the item at a position.
pub fn mgp_list_at(list: Option<&mgp_list>, index: usize, result: Option<&mut Option<mgp_value>>) -> (e: MgpError)
    ensures
        e == access_error(list is None || result is None, index as nat, list->0@.len()),
        result matches Some(r) ==> opt_view(*final(r)) == if e is NoError {
            Some(list->0@[index as int])
        } else {
            opt_view(*r)
        },
{
    match (list, result) {
        (Some(l), Some(r)) => {
            if index >= l.items.len() {
                return MgpError::OutOfRange;
            }
            *r = Some(l.items[index].clone());
            MgpError::NoError
        },
        _ => MgpError::InvalidArgument,
    }
}

/// Makes room for more items: a hint, which changes nothing that can be seen.
pub fn mgp_list_reserve(list: Option<&mut mgp_list>, _n: usize) -> (e: MgpError)
    ensures
        e == if list is None {
            MgpError::InvalidArgument
        } else {
            MgpError::NoError
        },
        list matches Some(l) ==> *final(l) == *l,
{
    match list {
        Some(_) => MgpError::NoError,
        None => MgpError::InvalidArgument,
    }
}

/// Copies a list.
pub fn mgp_list_copy(list: Option<&mgp_list>, _memory: Option<&mgp_memory>, result: Option<&mut Option<mgp_list>>) -> (e: MgpError)
    ensures
        e == if list is None || result is None {
            MgpError::InvalidArgument
        } else {
            MgpError::NoError
        },
        result matches Some(r) ==> opt_view(*final(r)) == match list {
            Some(l) => Some(l@),
            None => opt_view(*r),
        },
{
    match (list, result) {
        (Some(l), Some(r)) => {
            *r = Some(l.clone());
            MgpError::NoError
        },
        _ => MgpError::InvalidArgument,
    }
}

/// Tells whether a list holds something that was deleted: it never does.
pub fn mgp_list_contains_deleted(_list: Option<&mgp_list>, result: Option<&mut i32>) -> (e: MgpError)
    ensures
        e == if result is None {
            MgpError::InvalidArgument
        } else {
            MgpError::NoError
        },
        result matches Some(r) ==> *final(r) == 0,
{
    match result {
        Some(r) => {
            *r = 0;
            MgpError::NoError
        },
        None => MgpError::InvalidArgument,
    }
}

/// Makes a map without entries.
pub fn mgp_map_make_empty(_memory: Option<&mgp_memory>, result: Option<&mut Option<mgp_map>>) -> (e: MgpError)
    ensures
        e == if result is None {
            MgpError::InvalidArgument
        } else {
            MgpError::NoError
        },
        result matches Some(r) ==> opt_view(*final(r)) == Some(Entries::empty()),
{
    match result {
        Some(r) => {
            let map = mgp_map { items: Vec::new() };
            assert(map@ =~= Entries::empty());
            *r = Some(map);
            MgpError::NoError
        },
        None => MgpError::InvalidArgument,
    }
}

/// Makes a map without entries, whose entries have no order.
pub fn mgp_unordered_map_make_empty(memory: Option<&mgp_memory>, result: Option<&mut Option<mgp_map>>) -> (e: MgpError)
    ensures
        e == if result is None {
            MgpError::InvalidArgument
        } else {
            MgpError::NoError
        },
        result matches Some(r) ==> opt_view(*final(r)) == Some(Entries::empty()),
{
    mgp_map_make_empty(memory, result)
}

/// Finds the position of a key.
pub fn find_key(map: &mgp_map, key: &str) -> (r: Option<usize>)
    ensures
        r is Some <==> has_key(map@, key@),
        r matches Some(i) ==> i < map@.len() && map@[i as int].0 == key@,
        r matches Some(i) ==> keys_differ(map@) ==> i == key_position(map@, key@),
{
    let wanted = key.to_string();
    let mut i: usize = 0;
    while i < map.items.len()
        invariant
            wanted@ == key@,
            i <= map.items@.len(),
            forall|j: int| 0 <= j < i ==> (#[trigger] map@[j]).0 != key@,
        decreases map.items@.len() - i,
    {
        assert(map@[i as int].0 == map.items@[i as int].key@);
        if map.items[i].key == wanted {
            proof {
                if keys_differ(map@) {
                    lemma_lookup(map@, i as int);
                }
            }
            return Some(i);
        }
        i += 1;
    }
    None
}

/// Puts a copy of a value under a new key.
pub fn mgp_map_insert(map: Option<&mut mgp_map>, key: Option<&str>, val: Option<&mgp_value>) -> (e: MgpError)
    ensures
        e == if map is None || key is None || val is None {
            MgpError::InvalidArgument
        } else if has_key(map->0@, key->0@) {
            MgpError::KeyAlreadyExists
        } else {
            MgpError::NoError
        },
        map matches Some(m) ==> final(m)@ == if e is NoError {
            m@.push((key->0@, val->0@))
        } else {
            m@
        },
{
    match (map, key, val) {
        (Some(m), Some(k), Some(v)) => {
            if find_key(m, k).is_some() {
                return MgpError::KeyAlreadyExists;
            }
            let ghost before = m@;
            m.items.push(MapEntry { key: k.to_string(), value: v.clone() });
            assert(m@ =~= before.push((k@, v@)));
            MgpError::NoError
        },
        _ => MgpError::InvalidArgument,
    }
}

/// The entries with a value under a key, new or in the place of the one before.
pub open spec fn updated(m: Entries, key: Seq<char>, v: Val) -> Entries {
    if has_key(m, key) {
        m.update(key_position(m, key), (key, v))
    } else {
        m.push((key, v))
    }
}

/// Puts a copy of a value under a key, in the place of the one before.
pub fn mgp_map_update(map: Option<&mut mgp_map>, key: Option<&str>, val: Option<&mgp_value>) -> (e: MgpError)
    requires
        map matches Some(m) ==> keys_differ(m@),
    ensures
        e == if map is None || key is None || val is None {
            MgpError::InvalidArgument
        } else {
            MgpError::NoError
        },
        map matches Some(m) ==> final(m)@ == if e is NoError {
            updated(m@, key->0@, val->0@)
        } else {
            m@
        },
{
    match (map, key, val) {
        (Some(m), Some(k), Some(v)) => {
            let ghost before = m@;
            match find_key(m, k) {
                Some(i) => {
                    m.items.set(i, MapEntry { key: k.to_string(), value: v.clone() });
                    assert(m@ =~= before.update(i as int, (k@, v@)));
                },
                None => {
                    m.items.push(MapEntry { key: k.to_string(), value: v.clone() });
                    assert(m@ =~= before.push((k@, v@)));
                },
            }
            MgpError::NoError
        },
        _ => MgpError::InvalidArgument,
    }
}

/// The entries without the one under a key.
pub open spec fn erased(m: Entries, key: Seq<char>) -> Entries {
    if has_key(m, key) {
        m.remove(key_position(m, key))
    } else {
        m
    }
}

/// Takes out the value under a key, if there is one.
pub fn mgp_map_erase(map: Option<&mut mgp_map>, key: Option<&str>) -> (e: MgpError)
    requires
        map matches Some(m) ==> keys_differ(m@),
    ensures
        e == if map is None || key is None {
            MgpError::InvalidArgument
        } else {
            MgpError::NoError
        },
        map matches Some(m) ==> final(m)@ == if e is NoError {
            erased(m@, key->0@)
        } else {
            m@
        },
{
    match (map, key) {
        (Some(m), Some(k)) => {
            let ghost before = m@;
            match find_key(m, k) {
                Some(i) => {
                    m.items.remove(i);
                    assert(m@ =~= before.remove(i as int));
                },
                None => {},
            }
            MgpError::NoError
        },
        _ => MgpError::InvalidArgument,
    }
}

/// Tells the number of entries.
pub fn mgp_map_size(map: Option<&mgp_map>, result: Option<&mut usize>) -> (e: MgpError)
    ensures
        e == if map is None || result is None {
            MgpError::InvalidArgument
        } else {
            MgpError::NoError
        },
        result matches Some(r) ==> *final(r) == match map {
            Some(m) => m@.len() as usize,
            None => *r,
        },
        map matches Some(m) ==> m@.len() <= usize::MAX,
{
    match (map, result) {
        (Some(m), Some(r)) => {
            *r = m.items.len();
            MgpError::NoError
        },
        (Some(m), None) => {
            assert(m@.len() == m.items.len());
            MgpError::InvalidArgument
        },
        _ => MgpError::InvalidArgument,
    }
}

/// Hands out the value under a key.
pub fn mgp_map_at(map: Option<&mgp_map>, key: Option<&str>, result: Option<&mut Option<mgp_value>>) -> (e: MgpError)
    requires
        map matches Some(m) ==> keys_differ(m@),
    ensures
        e == if map is None || key is None || result is None {
            MgpError::InvalidArgument
        } else if has_key(map->0@, key->0@) {
            MgpError::NoError
        } else {
            MgpError::OutOfRange
        },
        result matches Some(r) ==> opt_view(*final(r)) == if e is NoError {
            lookup(map->0@, key->0@)
        } else {
            opt_view(*r)
        },
{
    match (map, key, result) {
        (Some(m), Some(k), Some(r)) => match find_key(m, k) {
            Some(i) => {
                *r = Some(m.items[i].value.clone());
                MgpError::NoError
            },
            None => MgpError::OutOfRange,
        },
        _ => MgpError::InvalidArgument,
    }
}

/// Tells whether a key occurs.
pub fn mgp_key_exists(map: Option<&mgp_map>, key: Option<&str>, result: Option<&mut i32>) -> (e: MgpError)
    ensures
        e == if map is None || key is None || result is None {
            MgpError::InvalidArgument
        } else {
            MgpError::NoError
        },
        result matches Some(r) ==> *final(r) == if e is NoError {
            flag(has_key(map->0@, key->0@))
        } else {
            *r
        },
{
    match (map, key, result) {
        (Some(m), Some(k), Some(r)) => {
            *r = to_flag(find_key(m, k).is_some());
            MgpError::NoError
        },
        _ => MgpError::InvalidArgument,
    }
}

/// Copies a map.
pub fn mgp_map_copy(map: Option<&mgp_map>, _memory: Option<&mgp_memory>, result: Option<&mut Option<mgp_map>>) -> (e: MgpError)
    ensures
        e == if map is None || result is None {
            MgpError::InvalidArgument
        } else {
            MgpError::NoError
        },
        result matches Some(r) ==> opt_view(*final(r)) == match map {
            Some(m) => Some(m@),
            None => opt_view(*r),
        },
{
    match (map, result) {
        (Some(m), Some(r)) => {
            *r = Some(m.clone());
            MgpError::NoError
        },
        _ => MgpError::InvalidArgument,
    }
}

/// Tells whether a map holds something that was deleted: it never does.
pub fn mgp_map_contains_deleted(_map: Option<&mgp_map>, result: Option<&mut i32>) -> (e: MgpError)
    ensures
        e == if result is None {
            MgpError::InvalidArgument
        } else {
            MgpError::NoError
        },
        result matches Some(r) ==> *final(r) == 0,
{
    match result {
        Some(r) => {
            *r = 0;
            MgpError::NoError
        },
        None => MgpError::InvalidArgument,
    }
}

/// Puts a value under a new key.
pub fn mgp_map_insert_move(map: Option<&mut mgp_map>, key: Option<&str>, val: Option<&mgp_value>) -> (e: MgpError)
    ensures
        e == if map is None || key is None || val is None {
            MgpError::InvalidArgument
        } else if has_key(map->0@, key->0@) {
            MgpError::KeyAlreadyExists
        } else {
            MgpError::NoError
        },
        map matches Some(m) ==> final(m)@ == if e is NoError {
            m@.push((key->0@, val->0@))
        } else {
            m@
        },
{
    mgp_map_insert(map, key, val)
}

/// Puts a value under a key, in the place of the one before.
pub fn mgp_map_update_move(map: Option<&mut mgp_map>, key: Option<&str>, val: Option<&mgp_value>) -> (e: MgpError)
    requires
        map matches Some(m) ==> keys_differ(m@),
    ensures
        e == if map is None || key is None || val is None {
            MgpError::InvalidArgument
        } else {
            MgpError::NoError
        },
        map matches Some(m) ==> final(m)@ == if e is NoError {
            updated(m@, key->0@, val->0@)
        } else {
            m@
        },
{
    mgp_map_update(map, key, val)
}

/// An entry of a map, as an iteration hands it out.
#[derive(Debug)]
pub struct mgp_map_item {
    pub key: String,
    pub value: mgp_value,
}

impl View for mgp_map_item {
    type V = (Seq<char>, Val);

    open spec fn view(&self) -> (Seq<char>, Val) {
        (self.key@, self.value@)
    }
}

/// An iteration over the entries of a map.
#[derive(Debug)]
pub struct mgp_map_items_iterator {
    pub items: mgp_map,
    pub pos: usize,
}

/// Starts an iteration over the entries of a map.
pub fn mgp_map_iter_items(map: Option<&mgp_map>, result: Option<&mut Option<mgp_map_items_iterator>>) -> (e: MgpError)
    ensures
        e == if map is None || result is None {
            MgpError::InvalidArgument
        } else {
            MgpError::NoError
        },
        result matches Some(r) ==> match map {
            Some(m) => *final(r) is Some && (*final(r))->0.items@ == m@ && (*final(r))->0.pos == 0,
            None => *final(r) == *r,
        },
{
    match (map, result) {
        (Some(m), Some(r)) => {
            *r = Some(mgp_map_items_iterator { items: m.clone(), pos: 0 });
            MgpError::NoError
        },
        _ => MgpError::InvalidArgument,
    }
}

/// The entry at a position, if there is one.
pub open spec fn entry_at(m: Entries, pos: nat) -> Option<(Seq<char>, Val)> {
    if pos < m.len() {
        Some(m[pos as int])
    } else {
        None
    }
}

/// The position after a position, up to the end.
pub open spec fn position_after(len: nat, pos: usize) -> usize {
    if pos < len {
        (pos + 1) as usize
    } else {
        pos
    }
}

/// Hands out the next entry, and moves on; there is none at the end.
pub fn mgp_map_items_iterator_get(
    it: Option<&mut mgp_map_items_iterator>,
    result: Option<&mut Option<mgp_map_item>>,
) -> (e: MgpError)
    ensures
        e == if it is None || result is None {
            MgpError::InvalidArgument
        } else {
            MgpError::NoError
        },
        it matches Some(i) ==> final(i).items@ == i.items@ && final(i).pos == if result is Some {
            position_after(i.items@.len(), i.pos)
        } else {
            i.pos
        },
        result matches Some(r) ==> opt_view(*final(r)) == match it {
            Some(i) => entry_at(i.items@, i.pos as nat),
            None => opt_view(*r),
        },
{
    match (it, result) {
        (Some(i), Some(r)) => {
            if i.pos >= i.items.items.len() {
                *r = None;
                return MgpError::NoError;
            }
            let entry = &i.items.items[i.pos];
            let item = mgp_map_item { key: entry.key.clone(), value: entry.value.clone() };
            i.pos = i.pos + 1;
            *r = Some(item);
            MgpError::NoError
        },
        _ => MgpError::InvalidArgument,
    }
}

/// Hands out the next entry, and moves on; there is none at the end.
pub fn mgp_map_items_iterator_next(
    it: Option<&mut mgp_map_items_iterator>,
    result: Option<&mut Option<mgp_map_item>>,
) -> (e: MgpError)
    ensures
        e == if it is None || result is None {
            MgpError::InvalidArgument
        } else {
            MgpError::NoError
        },
        it matches Some(i) ==> final(i).items@ == i.items@ && final(i).pos == if result is Some {
            position_after(i.items@.len(), i.pos)
        } else {
            i.pos
        },
        result matches Some(r) ==> opt_view(*final(r)) == match it {
            Some(i) => entry_at(i.items@, i.pos as nat),
            None => opt_view(*r),
        },
{
    mgp_map_items_iterator_get(it, result)
}

/// Hands out the key of an entry.
pub fn mgp_map_item_key(item: Option<&mgp_map_item>, result: Option<&mut Option<String>>) -> (e: MgpError)
    ensures
        e == if item is None || result is None {
            MgpError::InvalidArgument
        } else {
            MgpError::NoError
        },
        result matches Some(r) ==> opt_view(*final(r)) == match item {
            Some(i) => Some(i@.0),
            None => opt_view(*r),
        },
{
    match (item, result) {
        (Some(i), Some(r)) => {
            *r = Some(i.key.clone());
            MgpError::NoError
        },
        _ => MgpError::InvalidArgument,
    }
}

/// Hands out the value of an entry.
pub fn mgp_map_item_value(item: Option<&mgp_map_item>, result: Option<&mut Option<mgp_value>>) -> (e: MgpError)
    ensures
        e == if item is None || result is None {
            MgpError::InvalidArgument
        } else {
            MgpError::NoError
        },
        result matches Some(r) ==> opt_view(*final(r)) == match item {
            Some(i) => Some(i@.1),
            None => opt_view(*r),
        },
{
    match (item, result) {
        (Some(i), Some(r)) => {
            *r = Some(i.value.clone());
            MgpError::NoError
        },
        _ => MgpError::InvalidArgument,
    }
}

} // verus!
