//! The modules that were loaded, and the procedures that they brought.
use vstd::prelude::*;
use vstd::string::*;
use vstd::utf8::*;

use crate::procedure::codes::{error_name, MgpError};
use crate::procedure::execution::texts;
use crate::procedure::registration::{mgp_module, Procedure};
use crate::text::{decimal, push_number};

verus! {

/// A procedure of a loaded module, with its callback by address.
#[derive(Debug)]
pub struct LoadedProc {
    pub name: String,
    pub callback: usize,
    pub is_write: bool,
}

/// A loaded module, with the library that it stands in by its handle.
#[derive(Debug)]
pub struct LoadedModule {
    pub name: String,
    pub handle: usize,
    pub procs: Vec<LoadedProc>,
}

/// A procedure of a loaded module.
pub struct Entry {
    pub name: Seq<char>,
    pub callback: usize,
    pub is_write: bool,
}

/// A loaded module.
pub struct Loaded {
    pub name: Seq<char>,
    pub handle: usize,
    pub procs: Seq<Entry>,
}

impl View for LoadedProc {
    type V = Entry;

    open spec fn view(&self) -> Entry {
        Entry { name: self.name@, callback: self.callback, is_write: self.is_write }
    }
}

impl View for LoadedModule {
    type V = Loaded;

    open spec fn view(&self) -> Loaded {
        Loaded {
            name: self.name@,
            handle: self.handle,
            procs: Seq::new(self.procs@.len(), |i: int| self.procs@[i]@),
        }
    }
}

/// All modules that are loaded, in the order in which they were.
#[derive(Debug)]
pub struct ModuleRegistry {
    pub modules: Vec<LoadedModule>,
}

impl View for ModuleRegistry {
    type V = Seq<Loaded>;

    open spec fn view(&self) -> Seq<Loaded> {
        Seq::new(self.modules@.len(), |i: int| self.modules@[i]@)
    }
}

/// The procedures that a module brings, as the registry keeps them.
pub open spec fn entries_of(procs: Seq<Procedure>) -> Seq<Entry> {
    Seq::new(procs.len(), |i: int| Entry { name: procs[i].name, callback: procs[i].callback, is_write: procs[i].is_write })
}

/// The name of the file that a path leads to: what stands behind the last slash, leaving out slashes
/// and single dots at the end. A path that ends with two dots names no file.
pub open spec fn file_name(path: Seq<char>) -> Option<Seq<char>>
    decreases path.len(),
{
    if path.len() == 0 {
        None
    } else if path.last() == '/' || last_part(path) == seq!['.'] {
        file_name(path.drop_last())
    } else if last_part(path) == seq!['.', '.'] {
        None
    } else {
        Some(last_part(path))
    }
}

/// What stands behind the last slash of a text.
pub open spec fn last_part(path: Seq<char>) -> Seq<char>
    decreases path.len(),
{
    if path.len() == 0 || path.last() == '/' {
        Seq::empty()
    } else {
        last_part(path.drop_last()).push(path.last())
    }
}

/// The name of the module in a library: the name of its file, or a name of its own where it has none.
pub open spec fn module_name(path: Seq<char>) -> Seq<char> {
    match file_name(path) {
        Some(name) => name,
        None => "unknown"@,
    }
}

/// The names of the modules, in order.
pub open spec fn names(modules: Seq<Loaded>) -> Seq<Seq<char>> {
    Seq::new(modules.len(), |i: int| modules[i].name)
}

/// Where the first module with a name stands, among those from `k` on.
pub open spec fn position_from(modules: Seq<Loaded>, name: Seq<char>, k: int) -> Option<int>
    decreases modules.len() - k,
{
    if k < 0 || k >= modules.len() {
        None
    } else if modules[k].name == name {
        Some(k)
    } else {
        position_from(modules, name, k + 1)
    }
}

/// The full name of a procedure: the module, a point, and its own name.
pub open spec fn qualified(module: Seq<char>, name: Seq<char>) -> Seq<char> {
    module + seq!['.'] + name
}

/// The first procedure of a module with a full name, among those from `k` on.
pub open spec fn proc_from(m: Loaded, full_name: Seq<char>, k: int) -> Option<usize>
    decreases m.procs.len() - k,
{
    if k < 0 || k >= m.procs.len() {
        None
    } else if qualified(m.name, m.procs[k].name) == full_name {
        Some(m.procs[k].callback)
    } else {
        proc_from(m, full_name, k + 1)
    }
}

/// The first procedure with a full name, among the modules from `k` on.
pub open spec fn found_from(modules: Seq<Loaded>, full_name: Seq<char>, k: int) -> Option<usize>
    decreases modules.len() - k,
{
    if k < 0 || k >= modules.len() {
        None
    } else {
        match proc_from(modules[k], full_name, 0) {
            Some(callback) => Some(callback),
            None => found_from(modules, full_name, k + 1),
        }
    }
}

/// Whether a text ends with another.
pub open spec fn ends_with(s: Seq<char>, end: Seq<char>) -> bool {
    s.len() >= end.len() && s.skip(s.len() - end.len()) == end
}

/// Whether a path leads to a library, by the extension of its file. A name that is nothing but the
/// extension has none.
pub open spec fn is_library(path: Seq<char>) -> bool {
    match file_name(path) {
        Some(name) => (ends_with(name, ".so"@) && name.len() > 3) || (ends_with(name, ".dylib"@) && name.len() > 6),
        None => false,
    }
}

proof fn lemma_last_part(path: Seq<char>, start: int)
    requires
        0 <= start <= path.len(),
        start > 0 ==> path[start - 1] == '/',
        forall|i: int| start <= i < path.len() ==> path[i] != '/',
    ensures
        last_part(path) == path.skip(start),
    decreases path.len(),
{
    if path.len() > start {
        lemma_last_part(path.drop_last(), start);
        assert(path.drop_last().skip(start).push(path.last()) =~= path.skip(start));
    } else {
        assert(path.skip(start) =~= Seq::empty());
    }
}

fn is_dots(s: &str, dots: usize) -> (r: bool)
    requires
        1 <= dots <= 2,
    ensures
        r == if dots == 1 {
            s@ == seq!['.']
        } else {
            s@ == seq!['.', '.']
        },
{
    let r = s.unicode_len() == dots && s.get_char(0) == '.' && s.get_char(dots - 1) == '.';
    proof {
        if r {
            if dots == 1 {
                assert(s@ =~= seq!['.']);
            } else {
                assert(s@ =~= seq!['.', '.']);
            }
        } else {
            if dots == 1 && s@ == seq!['.'] {
                assert(s@.len() == 1 && s@[0] == '.');
            }
            if dots == 2 && s@ == seq!['.', '.'] {
                assert(s@.len() == 2 && s@[0] == '.' && s@[1] == '.');
            }
        }
    }
    r
}

/// The name of the file that a path leads to.
pub fn find_file_name(path: &str) -> (r: Option<&str>)
    ensures
        match r {
            Some(name) => file_name(path@) == Some(name@),
            None => file_name(path@) is None,
        },
    decreases path@.len(),
{
    let len: usize = path.unicode_len();
    if len == 0 {
        return None;
    }
    let shorter = path.substring_char(0, len - 1);
    assert(shorter@ =~= path@.drop_last());
    if path.get_char(len - 1) == '/' {
        return find_file_name(shorter);
    }
    let mut start: usize = len;
    while start > 0 && path.get_char(start - 1) != '/'
        invariant
            start <= len == path@.len(),
            forall|i: int| start <= i < len ==> path@[i] != '/',
        decreases start,
    {
        start -= 1;
    }
    let part = path.substring_char(start, len);
    proof {
        lemma_last_part(path@, start as int);
        assert(part@ =~= path@.skip(start as int));
    }
    if is_dots(part, 1) {
        return find_file_name(shorter);
    }
    if is_dots(part, 2) {
        return None;
    }
    Some(part)
}

/// The name of the module in a library.
pub fn find_module_name(path: &str) -> (r: String)
    ensures
        r@ == module_name(path@),
{
    match find_file_name(path) {
        Some(name) => name.to_string(),
        None => "unknown".to_string(),
    }
}

fn text_ends_with(s: &str, end: &str) -> (r: bool)
    ensures
        r == ends_with(s@, end@),
{
    let m: usize = s.unicode_len();
    let n: usize = end.unicode_len();
    if m < n {
        return false;
    }
    let tail = s.substring_char(m - n, m).to_string();
    assert(tail@ =~= s@.skip(m - n));
    tail == end.to_string()
}

/// Decides whether a path leads to a library.
pub fn leads_to_library(path: &str) -> (r: bool)
    ensures
        r == is_library(path@),
{
    match find_file_name(path) {
        Some(name) => (text_ends_with(name, ".so") && name.unicode_len() > 3) || (text_ends_with(name, ".dylib") && name.unicode_len() > 6),
        None => false,
    }
}

/// Where a text first has the null character, in bytes.
pub open spec fn null_position(s: Seq<char>) -> Option<int> {
    let bytes = encode_utf8(s);
    if bytes.contains(0u8) {
        Some(first_null(bytes, 0))
    } else {
        None
    }
}

/// Where the first null byte stands, from a position on.
pub open spec fn first_null(bytes: Seq<u8>, k: int) -> int
    decreases bytes.len() - k,
{
    if k < 0 || k >= bytes.len() || bytes[k] == 0 {
        k
    } else {
        first_null(bytes, k + 1)
    }
}

fn find_null(s: &str) -> (r: Option<usize>)
    ensures
        null_position(s@) == match r {
            Some(i) => Some(i as int),
            None => None,
        },
{
    let bytes = s.as_bytes();
    let mut i: usize = 0;
    while i < bytes.len()
        invariant
            i <= bytes@.len(),
            bytes@ == encode_utf8(s@),
            first_null(bytes@, 0) == first_null(bytes@, i as int),
            forall|j: int| 0 <= j < i ==> bytes@[j] != 0,
        decreases bytes@.len() - i,
    {
        if bytes[i] == 0 {
            assert(bytes@.contains(0u8));
            return Some(i);
        }
        i += 1;
    }
    None
}

/// The model of the name of a loaded module, or of what went wrong.
pub open spec fn told(r: Result<String, String>) -> Result<Seq<char>, Seq<char>> {
    match r {
        Ok(s) => Ok(s@),
        Err(s) => Err(s@),
    }
}

/// What is told of a path that cannot be handed on.
pub open spec fn invalid_path(position: int) -> Seq<char> {
    "invalid path: nul byte found in provided data at position: "@ + decimal(position as nat)
}

/// What is told where a library cannot be opened.
pub open spec fn open_failed(path: Seq<char>, reason: Seq<char>) -> Seq<char> {
    "dlopen failed for "@ + path + ": "@ + reason
}

/// What is told where a library has no module in it.
pub open spec fn no_module(reason: Seq<char>) -> Seq<char> {
    "module has no mgp_module_init: "@ + reason
}

/// What is told where a module did not start.
pub open spec fn start_failed(e: MgpError) -> Seq<char> {
    "mgp_module_init returned error "@ + error_name(e)
}

/// What a module did when it was started: what it registered, and its answer.
#[derive(Debug)]
pub struct Started {
    pub module: mgp_module,
    pub answer: MgpError,
}

/// The module that is loaded once it has started.
pub open spec fn loaded_module(path: Seq<char>, handle: usize, started: Started) -> Loaded {
    Loaded { name: module_name(path), handle, procs: entries_of(started.module@.procs) }
}

/// Whether the modules, and what is told, are what starting the module of an open library leads to.
pub open spec fn has_started<I: FnOnce(usize) -> Started, C: FnOnce(usize)>(
    init: I,
    close: C,
    path: Seq<char>,
    handle: usize,
    entry: usize,
    before: Seq<Loaded>,
    after: Seq<Loaded>,
    r: Result<Seq<char>, Seq<char>>,
) -> bool {
    exists|started: Started| #[trigger]
        call_ensures(init, (entry,), started) && if started.answer is NoError {
            after == before.push(loaded_module(path, handle, started)) && r == Ok::<Seq<char>, Seq<char>>(module_name(path))
        } else {
            call_ensures(close, (handle,), ()) && after == before && r == Err::<Seq<char>, Seq<char>>(
                start_failed(started.answer),
            )
        }
}

/// Whether the modules, and what is told, are what the module of an open library leads to.
pub open spec fn was_looked_up<L: FnOnce(usize) -> Result<usize, String>, I: FnOnce(usize) -> Started, C: FnOnce(usize)>(
    lookup: L,
    init: I,
    close: C,
    path: Seq<char>,
    handle: usize,
    before: Seq<Loaded>,
    after: Seq<Loaded>,
    r: Result<Seq<char>, Seq<char>>,
) -> bool {
    exists|found: Result<usize, String>| #[trigger]
        call_ensures(lookup, (handle,), found) && match found {
            Ok(entry) => has_started(init, close, path, handle, entry, before, after, r),
            Err(reason) => call_ensures(close, (handle,), ()) && after == before && r == Err::<Seq<char>, Seq<char>>(
                no_module(reason@),
            ),
        }
}

/// Whether the modules, and what is told, are what loading from a path leads to.
pub open spec fn was_loaded<O: FnOnce(&str) -> Result<usize, String>, L: FnOnce(usize) -> Result<usize, String>, I: FnOnce(usize) -> Started, C: FnOnce(usize)>(
    open: O,
    lookup: L,
    init: I,
    close: C,
    path: &str,
    before: Seq<Loaded>,
    after: Seq<Loaded>,
    r: Result<Seq<char>, Seq<char>>,
) -> bool {
    match null_position(path@) {
        Some(i) => after == before && r == Err::<Seq<char>, Seq<char>>(invalid_path(i)),
        None => exists|opened: Result<usize, String>| #[trigger]
            call_ensures(open, (path,), opened) && match opened {
                Ok(handle) => was_looked_up(lookup, init, close, path@, handle, before, after, r),
                Err(reason) => after == before && r == Err::<Seq<char>, Seq<char>>(open_failed(path@, reason@)),
            },
    }
}

/// Whether a path leads to a library that was opened.
pub open spec fn was_opened<O: FnOnce(&str) -> Result<usize, String>>(open: O, path: &str, handle: usize) -> bool {
    call_ensures(open, (path,), Ok::<usize, String>(handle))
}

/// Whether a path may be loaded from, step by step: a path that can be handed on is opened, what is opened
/// is searched, what is found there is started. A library is closed where nothing was found in it, or where
/// what was found did not start, and else stays open.
pub open spec fn may_load<O: FnOnce(&str) -> Result<usize, String>, L: FnOnce(usize) -> Result<usize, String>, I: FnOnce(usize) -> Started, C: FnOnce(usize)>(
    open: O,
    lookup: L,
    init: I,
    close: C,
    path: &str,
) -> bool {
    &&& null_position(path@) is None ==> call_requires(open, (path,))
    &&& forall|h: usize| #[trigger] was_opened(open, path, h) ==> call_requires(lookup, (h,))
    &&& forall|h: usize, f: usize|
        #[trigger] was_opened(open, path, h) && #[trigger] call_ensures(lookup, (h,), Ok::<usize, String>(f)) ==> call_requires(
            init,
            (f,),
        )
    &&& forall|h: usize, reason: String|
        #[trigger] was_opened(open, path, h) && #[trigger] call_ensures(lookup, (h,), Err::<usize, String>(reason)) ==> call_requires(
            close,
            (h,),
        )
    &&& forall|h: usize, f: usize, started: Started|
        #[trigger] was_opened(open, path, h) && #[trigger] call_ensures(lookup, (h,), Ok::<usize, String>(f)) && #[trigger] call_ensures(
            init,
            (f,),
            started,
        ) && !(started.answer is NoError) ==> call_requires(close, (h,))
}

/// Loads a module from a library. `open` opens the library; `lookup` finds the function in it that
/// starts the module; `init` starts it; `close` closes the library again where there is no module to
/// be had from it. What the module registered is kept, and its name told.
pub fn load_module<O: FnOnce(&str) -> Result<usize, String>, L: FnOnce(usize) -> Result<usize, String>, I: FnOnce(usize) -> Started, C: FnOnce(usize)>(
    registry: &mut ModuleRegistry,
    path: &str,
    open: O,
    lookup: L,
    init: I,
    close: C,
) -> (r: Result<String, String>)
    requires
        may_load(open, lookup, init, close, path),
    ensures
        was_loaded(open, lookup, init, close, path, old(registry)@, final(registry)@, told(r)),
{
    match find_null(path) {
        Some(i) => {
            let mut text = "invalid path: nul byte found in provided data at position: ".to_string();
            push_number(&mut text, i as u64);
            return Err(text);
        },
        None => {},
    }
    let opened = open(path);
    assert(call_ensures(open, (path,), opened));
    let handle: usize = match &opened {
        Ok(h) => *h,
        Err(reason) => {
            let mut text = "dlopen failed for ".to_string();
            text.append(path);
            text.append(": ");
            text.append(reason.as_str());
            return Err(text);
        },
    };
    assert(was_opened(open, path, handle));
    let found = lookup(handle);
    assert(call_ensures(lookup, (handle,), found));
    let entry: usize = match &found {
        Ok(f) => *f,
        Err(reason) => {
            close(handle);
            let mut text = "module has no mgp_module_init: ".to_string();
            text.append(reason.as_str());
            assert(was_looked_up(lookup, init, close, path@, handle, old(registry)@, registry@, Err(text@)));
            return Err(text);
        },
    };
    let started = init(entry);
    assert(call_ensures(init, (entry,), started));
    if started.answer != MgpError::NoError {
        close(handle);
        let mut text = "mgp_module_init returned error ".to_string();
        text.append(started.answer.name());
        assert(has_started(init, close, path@, handle, entry, old(registry)@, registry@, Err(text@)));
        return Err(text);
    }
    let name = find_module_name(path);
    let procs = collect_procs(&started.module);
    let loaded = LoadedModule { name: name.clone(), handle, procs };
    registry.modules.push(loaded);
    proof {
        assert(loaded@.procs =~= entries_of(started.module@.procs));
        assert(registry@ =~= old(registry)@.push(loaded@));
        assert(has_started(init, close, path@, handle, entry, old(registry)@, registry@, Ok(name@)));
        assert(was_looked_up(lookup, init, close, path@, handle, old(registry)@, registry@, Ok(name@)));
    }
    Ok(name)
}

fn collect_procs(module: &mgp_module) -> (r: Vec<LoadedProc>)
    ensures
        Seq::new(r@.len(), |i: int| r@[i]@) == entries_of(module@.procs),
{
    let mut r: Vec<LoadedProc> = Vec::new();
    let mut i: usize = 0;
    while i < module.procs.len()
        invariant
            i <= module.procs@.len(),
            r@.len() == i,
            forall|j: int| 0 <= j < i ==> (#[trigger] r@[j])@ == entries_of(module@.procs)[j],
        decreases module.procs@.len() - i,
    {
        let p = &module.procs[i];
        r.push(LoadedProc { name: p.name.clone(), callback: p.callback, is_write: p.is_write });
        i += 1;
    }
    assert(Seq::new(r@.len(), |i: int| r@[i]@) =~= entries_of(module@.procs));
    r
}

/// What is told where there is no module with a name.
pub open spec fn not_found(name: Seq<char>) -> Seq<char> {
    "module "@ + name + " not found"@
}

/// The modules without the first one with a name.
pub open spec fn without(modules: Seq<Loaded>, name: Seq<char>) -> Seq<Loaded> {
    match position_from(modules, name, 0) {
        Some(i) => modules.remove(i),
        None => modules,
    }
}

fn find_module(registry: &ModuleRegistry, name: &str) -> (r: Option<usize>)
    ensures
        position_from(registry@, name@, 0) == match r {
            Some(i) => Some(i as int),
            None => None,
        },
        r matches Some(i) ==> i < registry.modules@.len(),
{
    let wanted = name.to_string();
    let mut i: usize = 0;
    while i < registry.modules.len()
        invariant
            wanted@ == name@,
            i <= registry.modules@.len(),
            position_from(registry@, name@, 0) == position_from(registry@, name@, i as int),
        decreases registry.modules@.len() - i,
    {
        if registry.modules[i].name == wanted {
            return Some(i);
        }
        i += 1;
    }
    None
}

/// Unloads the first module with a name. `close` closes the library that it stands in.
pub fn unload_module<C: FnOnce(usize)>(registry: &mut ModuleRegistry, name: &str, close: C) -> (r: Result<(), String>)
    requires
        position_from(old(registry)@, name@, 0) matches Some(i) ==> call_requires(close, (old(registry)@[i].handle,)),
    ensures
        final(registry)@ == without(old(registry)@, name@),
        match position_from(old(registry)@, name@, 0) {
            Some(i) => r is Ok && call_ensures(close, (old(registry)@[i].handle,), ()),
            None => r is Err && r->Err_0@ == not_found(name@),
        },
{
    match find_module(registry, name) {
        Some(i) => {
            let module = registry.modules.remove(i);
            close(module.handle);
            assert(registry@ =~= old(registry)@.remove(i as int));
            Ok(())
        },
        None => {
            let mut text = "module ".to_string();
            text.append(name);
            text.append(" not found");
            Err(text)
        },
    }
}

/// Tells the names of all loaded modules.
pub fn loaded_module_names(registry: &ModuleRegistry) -> (r: Vec<String>)
    ensures
        texts(r@) == names(registry@),
{
    let mut r: Vec<String> = Vec::new();
    let mut i: usize = 0;
    while i < registry.modules.len()
        invariant
            i <= registry.modules@.len(),
            r@.len() == i,
            forall|j: int| 0 <= j < i ==> (#[trigger] r@[j])@ == registry@[j].name,
        decreases registry.modules@.len() - i,
    {
        r.push(registry.modules[i].name.clone());
        i += 1;
    }
    assert(texts(r@) =~= names(registry@));
    r
}

fn find_in_module(m: &LoadedModule, full_name: &String) -> (r: Option<usize>)
    ensures
        r == proc_from(m@, full_name@, 0),
{
    let mut i: usize = 0;
    while i < m.procs.len()
        invariant
            i <= m.procs@.len(),
            proc_from(m@, full_name@, 0) == proc_from(m@, full_name@, i as int),
        decreases m.procs@.len() - i,
    {
        let mut name = m.name.clone();
        proof {
            reveal_strlit(".");
            assert("."@ =~= seq!['.']);
        }
        name.append(".");
        name.append(m.procs[i].name.as_str());
        assert(name@ =~= qualified(m@.name, m@.procs[i as int].name));
        if name == *full_name {
            return Some(m.procs[i].callback);
        }
        i += 1;
    }
    None
}

/// Finds a procedure by its full name.
pub fn find_proc(registry: &ModuleRegistry, full_name: &str) -> (r: Option<usize>)
    ensures
        r == found_from(registry@, full_name@, 0),
{
    let wanted = full_name.to_string();
    let mut i: usize = 0;
    while i < registry.modules.len()
        invariant
            wanted@ == full_name@,
            i <= registry.modules@.len(),
            found_from(registry@, full_name@, 0) == found_from(registry@, full_name@, i as int),
        decreases registry.modules@.len() - i,
    {
        match find_in_module(&registry.modules[i], &wanted) {
            Some(callback) => {
                return Some(callback);
            },
            None => {},
        }
        i += 1;
    }
    None
}

/// The paths among the first `k` that lead to libraries.
pub open spec fn libraries(paths: Seq<String>, k: nat) -> Seq<Seq<char>>
    decreases k,
{
    if k == 0 || k > paths.len() {
        Seq::empty()
    } else {
        let before = libraries(paths, (k - 1) as nat);
        if is_library(paths[k - 1]@) {
            before.push(paths[k - 1]@)
        } else {
            before
        }
    }
}

/// Whether the modules went through some states, one for each path that was loaded from.
pub open spec fn were_loaded<O: FnOnce(&str) -> Result<usize, String>, L: FnOnce(usize) -> Result<usize, String>, I: FnOnce(usize) -> Started, C: FnOnce(usize)>(
    open: O,
    lookup: L,
    init: I,
    close: C,
    paths: Seq<Seq<char>>,
    states: Seq<Seq<Loaded>>,
    results: Seq<Result<String, String>>,
) -> bool {
    &&& results.len() == paths.len()
    &&& states.len() == paths.len() + 1
    &&& forall|i: int|
        0 <= i < paths.len() ==> exists|p: &str|
            p@ == paths[i] && #[trigger] was_loaded(open, lookup, init, close, p, states[i], states[i + 1], told(#[trigger] results[i]))
}

/// Whether a path was loaded from, with whatever outcome.
pub open spec fn was_tried<O: FnOnce(&str) -> Result<usize, String>, L: FnOnce(usize) -> Result<usize, String>, I: FnOnce(usize) -> Started, C: FnOnce(usize)>(
    open: O,
    lookup: L,
    init: I,
    close: C,
    path: Seq<char>,
) -> bool {
    exists|p: &str, before: Seq<Loaded>, after: Seq<Loaded>, r: Result<Seq<char>, Seq<char>>|
        p@ == path && #[trigger] was_loaded(open, lookup, init, close, p, before, after, r)
}

/// Whether a path is the next of some paths to load from: each one before it was tried.
pub open spec fn is_next_path<O: FnOnce(&str) -> Result<usize, String>, L: FnOnce(usize) -> Result<usize, String>, I: FnOnce(usize) -> Started, C: FnOnce(usize)>(
    open: O,
    lookup: L,
    init: I,
    close: C,
    paths: Seq<Seq<char>>,
    k: int,
    p: &str,
) -> bool {
    &&& 0 <= k < paths.len()
    &&& p@ == paths[k]
    &&& forall|j: int| 0 <= j < k ==> was_tried(open, lookup, init, close, #[trigger] paths[j])
}

/// Whether some paths may be loaded from in turn.
pub open spec fn may_load_in_turn<O: FnOnce(&str) -> Result<usize, String>, L: FnOnce(usize) -> Result<usize, String>, I: FnOnce(usize) -> Started, C: FnOnce(usize)>(
    open: O,
    lookup: L,
    init: I,
    close: C,
    paths: Seq<Seq<char>>,
) -> bool {
    forall|k: int, p: &str| #[trigger]
        is_next_path(open, lookup, init, close, paths, k, p) ==> may_load(open, lookup, init, close, p)
}

/// The libraries among the first paths come first among those of more paths.
proof fn lemma_libraries_grow(paths: Seq<String>, i: nat, n: nat)
    requires
        i <= n <= paths.len(),
    ensures
        libraries(paths, i).len() <= libraries(paths, n).len(),
        forall|j: int| 0 <= j < libraries(paths, i).len() ==> #[trigger] libraries(paths, n)[j] == libraries(paths, i)[j],
    decreases n - i,
{
    if i < n {
        lemma_libraries_grow(paths, i, (n - 1) as nat);
    }
}

/// What loading leads to by functions that pass on what others do is what it leads to by those others.
proof fn lemma_passed_on<
    O: FnOnce(&str) -> Result<usize, String>,
    L: FnOnce(usize) -> Result<usize, String>,
    I: FnOnce(usize) -> Started,
    C: FnOnce(usize),
    O2: FnOnce(&str) -> Result<usize, String>,
    L2: FnOnce(usize) -> Result<usize, String>,
    I2: FnOnce(usize) -> Started,
    C2: FnOnce(usize),
>(
    open: O,
    lookup: L,
    init: I,
    close: C,
    open2: O2,
    lookup2: L2,
    init2: I2,
    close2: C2,
    path: &str,
    before: Seq<Loaded>,
    after: Seq<Loaded>,
    r: Result<Seq<char>, Seq<char>>,
)
    requires
        forall|p: &str, x: Result<usize, String>| #[trigger] call_ensures(open2, (p,), x) ==> call_ensures(open, (p,), x),
        forall|h: usize, x: Result<usize, String>| #[trigger] call_ensures(lookup2, (h,), x) ==> call_ensures(lookup, (h,), x),
        forall|f: usize, x: Started| #[trigger] call_ensures(init2, (f,), x) ==> call_ensures(init, (f,), x),
        forall|h: usize| #[trigger] call_ensures(close2, (h,), ()) ==> call_ensures(close, (h,), ()),
        was_loaded(open2, lookup2, init2, close2, path, before, after, r),
    ensures
        was_loaded(open, lookup, init, close, path, before, after, r),
{
    if null_position(path@) is None {
        let opened = choose|opened: Result<usize, String>| #[trigger]
            call_ensures(open2, (path,), opened) && match opened {
                Ok(handle) => was_looked_up(lookup2, init2, close2, path@, handle, before, after, r),
                Err(reason) => after == before && r == Err::<Seq<char>, Seq<char>>(open_failed(path@, reason@)),
            };
        assert(call_ensures(open, (path,), opened));
        if let Ok(handle) = opened {
            let found = choose|found: Result<usize, String>| #[trigger]
                call_ensures(lookup2, (handle,), found) && match found {
                    Ok(entry) => has_started(init2, close2, path@, handle, entry, before, after, r),
                    Err(reason) => call_ensures(close2, (handle,), ()) && after == before && r == Err::<Seq<char>, Seq<char>>(
                        no_module(reason@),
                    ),
                };
            assert(call_ensures(lookup, (handle,), found));
            if let Ok(entry) = found {
                let started = choose|started: Started| #[trigger]
                    call_ensures(init2, (entry,), started) && if started.answer is NoError {
                        after == before.push(loaded_module(path@, handle, started)) && r == Ok::<Seq<char>, Seq<char>>(
                            module_name(path@),
                        )
                    } else {
                        call_ensures(close2, (handle,), ()) && after == before && r == Err::<Seq<char>, Seq<char>>(
                            start_failed(started.answer),
                        )
                    };
                assert(call_ensures(init, (entry,), started));
                assert(has_started(init, close, path@, handle, entry, before, after, r));
            }
            assert(was_looked_up(lookup, init, close, path@, handle, before, after, r));
        }
    }
}

/// Loads a module from each path of a directory that leads to a library, in order.
pub fn scan_and_load_directory<O: Fn(&str) -> Result<usize, String>, L: Fn(usize) -> Result<usize, String>, I: Fn(usize) -> Started, C: Fn(usize)>(
    registry: &mut ModuleRegistry,
    paths: &Vec<String>,
    open: &O,
    lookup: &L,
    init: &I,
    close: &C,
) -> (r: Vec<Result<String, String>>)
    requires
        may_load_in_turn(*open, *lookup, *init, *close, libraries(paths@, paths@.len())),
    ensures
        exists|states: Seq<Seq<Loaded>>|
            {
                &&& #[trigger] were_loaded(*open, *lookup, *init, *close, libraries(paths@, paths@.len()), states, r@)
                &&& states[0] == old(registry)@
                &&& states.last() == final(registry)@
            },
{
    let mut r: Vec<Result<String, String>> = Vec::new();
    let ghost mut states: Seq<Seq<Loaded>> = seq![registry@];
    let mut i: usize = 0;
    while i < paths.len()
        invariant
            may_load_in_turn(*open, *lookup, *init, *close, libraries(paths@, paths@.len())),
            i <= paths@.len(),
            were_loaded(*open, *lookup, *init, *close, libraries(paths@, i as nat), states, r@),
            states[0] == old(registry)@,
            states.last() == registry@,
        decreases paths@.len() - i,
    {
        let path = paths[i].as_str();
        if leads_to_library(path) {
            let ghost done = libraries(paths@, i as nat);
            let ghost before = states;
            let ghost results = r@;
            proof {
                let all = libraries(paths@, paths@.len());
                let k = done.len() as int;
                lemma_libraries_grow(paths@, i as nat, paths@.len());
                lemma_libraries_grow(paths@, (i + 1) as nat, paths@.len());
                assert(libraries(paths@, (i + 1) as nat) == done.push(path@));
                assert(all[k] == done.push(path@)[k]);
                assert forall|j: int| 0 <= j < k implies was_tried(*open, *lookup, *init, *close, #[trigger] all[j]) by {
                    assert(all[j] == done[j]);
                    let p = choose|p: &str|
                        p@ == done[j] && #[trigger] was_loaded(*open, *lookup, *init, *close, p, before[j], before[j + 1], told(results[j]));
                    assert(was_loaded(*open, *lookup, *init, *close, p, before[j], before[j + 1], told(results[j])));
                }
                assert(is_next_path(*open, *lookup, *init, *close, all, k, path));
            }
            let open_once = |p: &str| -> (x: Result<usize, String>)
                requires
                    call_requires(*open, (p,)),
                ensures
                    call_ensures(*open, (p,), x),
                { open(p) };
            let lookup_once = |h: usize| -> (x: Result<usize, String>)
                requires
                    call_requires(*lookup, (h,)),
                ensures
                    call_ensures(*lookup, (h,), x),
                { lookup(h) };
            let init_once = |f: usize| -> (x: Started)
                requires
                    call_requires(*init, (f,)),
                ensures
                    call_ensures(*init, (f,), x),
                { init(f) };
            let close_once = |h: usize|
                requires
                    call_requires(*close, (h,)),
                ensures
                    call_ensures(*close, (h,), ()),
                { close(h) };
            proof {
                assert forall|h: usize| #[trigger] was_opened(open_once, path, h) implies was_opened(*open, path, h) by {}
                assert(may_load(open_once, lookup_once, init_once, close_once, path));
            }
            let result = load_module(registry, path, open_once, lookup_once, init_once, close_once);
            proof {
                lemma_passed_on(
                    *open,
                    *lookup,
                    *init,
                    *close,
                    open_once,
                    lookup_once,
                    init_once,
                    close_once,
                    path,
                    before.last(),
                    registry@,
                    told(result),
                );
            }
            r.push(result);
            proof {
                states = before.push(registry@);
                assert(was_loaded(*open, *lookup, *init, *close, path, before.last(), registry@, told(result)));
                assert forall|j: int| 0 <= j < done.push(path@).len() implies exists|p: &str|
                    p@ == done.push(path@)[j] && #[trigger] was_loaded(
                        *open,
                        *lookup,
                        *init,
                        *close,
                        p,
                        states[j],
                        states[j + 1],
                        told(#[trigger] r@[j]),
                    ) by {
                    if j < done.len() {
                        assert(r@[j] == results[j]);
                        assert(states[j] == before[j]);
                        assert(states[j + 1] == before[j + 1]);
                        let p = choose|p: &str|
                            p@ == done[j] && #[trigger] was_loaded(*open, *lookup, *init, *close, p, before[j], before[j + 1], told(results[j]));
                        assert(was_loaded(*open, *lookup, *init, *close, p, states[j], states[j + 1], told(r@[j])));
                    } else {
                        assert(states[j] == before.last());
                        assert(states[j + 1] == registry@);
                        assert(was_loaded(*open, *lookup, *init, *close, path, states[j], states[j + 1], told(r@[j])));
                    }
                }
                assert(were_loaded(*open, *lookup, *init, *close, done.push(path@), states, r@));
            }
        }
        i += 1;
    }
    r
}

proof fn lemma_position_from(modules: Seq<Loaded>, m: Loaded, k: int)
    requires
        0 <= k <= modules.len(),
        forall|i: int| 0 <= i < modules.len() ==> (#[trigger] modules[i]).name != m.name,
    ensures
        position_from(modules.push(m), m.name, k) == Some(modules.len() as int),
    decreases modules.len() - k,
{
    if k < modules.len() {
        assert(modules.push(m)[k] == modules[k]);
        lemma_position_from(modules, m, k + 1);
    } else {
        assert(modules.push(m)[k] == m);
    }
}

/// Unloading a module that was just loaded leads back, unless one of its name was there before.
pub proof fn unloading_undoes_loading(modules: Seq<Loaded>, m: Loaded)
    requires
        forall|i: int| 0 <= i < modules.len() ==> (#[trigger] modules[i]).name != m.name,
    ensures
        without(modules.push(m), m.name) == modules,
{
    lemma_position_from(modules, m, 0);
    assert(modules.push(m).remove(modules.len() as int) =~= modules);
}

proof fn lemma_found_from(modules: Seq<Loaded>, m: Loaded, full_name: Seq<char>, k: int)
    requires
        0 <= k <= modules.len(),
    ensures
        found_from(modules.push(m), full_name, k) == match found_from(modules, full_name, k) {
            Some(callback) => Some(callback),
            None => proc_from(m, full_name, 0),
        },
    decreases modules.len() - k,
{
    if k < modules.len() {
        assert(modules.push(m)[k] == modules[k]);
        lemma_found_from(modules, m, full_name, k + 1);
    } else {
        assert(modules.push(m)[k] == m);
        assert(found_from(modules.push(m), full_name, k + 1) is None);
    }
}

proof fn lemma_proc_from(m: Loaded, full_name: Seq<char>, i: int, k: int)
    requires
        0 <= k <= i < m.procs.len(),
        qualified(m.name, m.procs[i].name) == full_name,
    ensures
        proc_from(m, full_name, k) is Some,
    decreases i - k,
{
    if k < i {
        lemma_proc_from(m, full_name, i, k + 1);
    }
}

/// What was found before a module was loaded is found after, and each procedure that the module
/// brings is found under its full name.
pub proof fn loading_makes_procedures_known(modules: Seq<Loaded>, m: Loaded, i: int, full_name: Seq<char>)
    requires
        0 <= i < m.procs.len(),
    ensures
        found_from(modules, full_name, 0) is Some ==> found_from(modules.push(m), full_name, 0) == found_from(modules, full_name, 0),
        found_from(modules.push(m), qualified(m.name, m.procs[i].name), 0) is Some,
{
    let own = qualified(m.name, m.procs[i].name);
    lemma_found_from(modules, m, full_name, 0);
    lemma_found_from(modules, m, own, 0);
    lemma_proc_from(m, own, i, 0);
}

} // verus!
