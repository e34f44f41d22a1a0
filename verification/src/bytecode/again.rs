//! What was read is written the same way again, part by part.
use vstd::prelude::*;
use crate::bytecode::attr_writer;
use crate::bytecode::attrs::TablesV;
use crate::bytecode::attrs;
use crate::bytecode::debug;
use crate::bytecode::debug_roundtrip;
use crate::bytecode::debug_writer::DebugPool;
use crate::bytecode::debug_writer;
use crate::bytecode::strings;
use crate::ir::attr::AttrV;
use crate::ir::types::TypeV;
use crate::ir::location::{FileV, LocationV, ScopeV, SubprogramV};

verus! {

// ---------------------------------------------------------------------------
// Attributes
// ---------------------------------------------------------------------------

/// What is read back of attributes, one by one.
pub proof fn lemma_normal_list(s: Seq<AttrV>, n: int)
    requires
        0 <= n <= s.len(),
    ensures
        attr_writer::normal_list(s, n).len() == n,
        forall|i: int|
            0 <= i < n ==> #[trigger] attr_writer::normal_list(s, n)[i] == attr_writer::normal_attr(
                s[i],
            ),
    decreases n,
{
    if n > 0 {
        lemma_normal_list(s, n - 1);
    }
}

/// What is read back of named attributes has the same names.
pub proof fn lemma_normal_dict(s: Seq<(Seq<char>, AttrV)>, n: int)
    requires
        0 <= n <= s.len(),
    ensures
        attr_writer::normal_dict(s, n).len() == n,
        forall|i: int|
            0 <= i < n ==> #[trigger] attr_writer::normal_dict(s, n)[i] == (
                s[i].0,
                attr_writer::normal_attr(s[i].1),
            ),
    decreases n,
{
    if n > 0 {
        lemma_normal_dict(s, n - 1);
    }
}

/// What is read back of hints has the same architectures and the same names.
pub proof fn lemma_normal_hints(s: Seq<(Seq<char>, Seq<(Seq<char>, AttrV)>)>, n: int)
    requires
        0 <= n <= s.len(),
    ensures
        attr_writer::normal_hints(s, n).len() == n,
        forall|i: int|
            0 <= i < n ==> #[trigger] attr_writer::normal_hints(s, n)[i] == (
                s[i].0,
                attr_writer::normal_dict(s[i].1, s[i].1.len() as int),
            ),
    decreases n,
{
    if n > 0 {
        lemma_normal_hints(s, n - 1);
    }
}

proof fn lemma_pattern_again(v: u64, ty: TypeV)
    ensures
        attrs::float_pattern(attrs::float_pattern(v as int, ty) as int, ty)
            == attrs::float_pattern(v as int, ty),
{
    let x = v as int;
    assert(0 <= x % 0x100 < 0x100 && 0 <= x % 0x1_0000 < 0x1_0000);
    assert(0 <= x % 0x1_0000_0000 < 0x1_0000_0000);
    assert(x % 0x1_0000_0000_0000_0000 == x);
}

/// An attribute that was read asks for the same and has the same bytes.
pub proof fn lemma_attr_again(a: AttrV, u: TablesV, t: TablesV, c: int)
    ensures
        attr_writer::attr_consts(attr_writer::normal_attr(a)) == attr_writer::attr_consts(a),
        attr_writer::intern_attr(u, attr_writer::normal_attr(a)) == attr_writer::intern_attr(u, a),
        attr_writer::attr_bytes(attr_writer::normal_attr(a), t, c) == attr_writer::attr_bytes(
            a,
            t,
            c,
        ),
    decreases a, 0int,
{
    match a {
        AttrV::Float(v, ty) => lemma_pattern_again(v, ty),
        AttrV::Array(s) => {
            lemma_normal_list(s, s.len() as int);
            lemma_list_again(s, u, t, c, s.len() as int);
        },
        AttrV::Dict(s) => {
            lemma_normal_dict(s, s.len() as int);
            lemma_dict_again(s, u, t, c, s.len() as int);
        },
        AttrV::Hints(s) => {
            lemma_normal_hints(s, s.len() as int);
            lemma_hints_again(s, u, t, c, s.len() as int);
        },
        _ => {},
    }
}

/// The first `n` of some attributes that were read.
pub proof fn lemma_list_again(s: Seq<AttrV>, u: TablesV, t: TablesV, c: int, n: int)
    requires
        0 <= n <= s.len(),
    ensures
        ({
            let q = attr_writer::normal_list(s, s.len() as int);
            &&& q.len() == s.len()
            &&& attr_writer::list_consts(q, n) == attr_writer::list_consts(s, n)
            &&& attr_writer::intern_list(u, q, n) == attr_writer::intern_list(u, s, n)
            &&& attr_writer::list_bytes(q, t, c, n) == attr_writer::list_bytes(s, t, c, n)
        }),
    decreases s, n,
{
    lemma_normal_list(s, s.len() as int);
    if n > 0 {
        lemma_list_again(s, u, t, c, n - 1);
        let q = attr_writer::normal_list(s, s.len() as int);
        assert(q[n - 1] == attr_writer::normal_attr(s[n - 1]));
        lemma_attr_again(
            s[n - 1],
            attr_writer::intern_list(u, s, n - 1),
            t,
            c + attr_writer::list_consts(s, n - 1).len(),
        );
    }
}

/// The first `n` of some named attributes that were read.
pub proof fn lemma_dict_again(s: Seq<(Seq<char>, AttrV)>, u: TablesV, t: TablesV, c: int, n: int)
    requires
        0 <= n <= s.len(),
    ensures
        ({
            let q = attr_writer::normal_dict(s, s.len() as int);
            &&& q.len() == s.len()
            &&& attr_writer::dict_consts(q, n) == attr_writer::dict_consts(s, n)
            &&& attr_writer::intern_dict(u, q, n) == attr_writer::intern_dict(u, s, n)
            &&& attr_writer::dict_bytes(q, t, c, n) == attr_writer::dict_bytes(s, t, c, n)
        }),
    decreases s, n,
{
    lemma_normal_dict(s, s.len() as int);
    if n > 0 {
        lemma_dict_again(s, u, t, c, n - 1);
        let q = attr_writer::normal_dict(s, s.len() as int);
        assert(q[n - 1] == (s[n - 1].0, attr_writer::normal_attr(s[n - 1].1)));
        lemma_attr_again(
            s[n - 1].1,
            attr_writer::with_string(attr_writer::intern_dict(u, s, n - 1), s[n - 1].0),
            t,
            c + attr_writer::dict_consts(s, n - 1).len(),
        );
    }
}

/// The first `n` architectures that were read.
pub proof fn lemma_hints_again(
    s: Seq<(Seq<char>, Seq<(Seq<char>, AttrV)>)>,
    u: TablesV,
    t: TablesV,
    c: int,
    n: int,
)
    requires
        0 <= n <= s.len(),
    ensures
        ({
            let q = attr_writer::normal_hints(s, s.len() as int);
            &&& q.len() == s.len()
            &&& attr_writer::hints_consts(q, n) == attr_writer::hints_consts(s, n)
            &&& attr_writer::intern_hints(u, q, n) == attr_writer::intern_hints(u, s, n)
            &&& attr_writer::hints_bytes(q, t, c, n) == attr_writer::hints_bytes(s, t, c, n)
        }),
    decreases s, n,
{
    lemma_normal_hints(s, s.len() as int);
    if n > 0 {
        lemma_hints_again(s, u, t, c, n - 1);
        let q = attr_writer::normal_hints(s, s.len() as int);
        let e = s[n - 1].1;
        assert(q[n - 1] == (s[n - 1].0, attr_writer::normal_dict(e, e.len() as int)));
        lemma_dict_again(
            e,
            attr_writer::with_string(attr_writer::intern_hints(u, s, n - 1), s[n - 1].0),
            t,
            c + attr_writer::hints_consts(s, n - 1).len(),
            e.len() as int,
        );
    }
}

// ---------------------------------------------------------------------------
// Debug information
// ---------------------------------------------------------------------------

proof fn lemma_index_stays<A>(l: Seq<A>, m: Seq<A>, x: A)
    requires
        l.contains(x),
        l.len() <= m.len(),
        m.take(l.len() as int) == l,
        m.no_duplicates(),
    ensures
        m.contains(x),
        m.index_of(x) == l.index_of(x),
{
    let i = l.index_of(x);
    assert(l[i] == x);
    assert(m.take(l.len() as int)[i] == m[i]);
    assert(m[m.index_of(x)] == x);
}

proof fn lemma_string_again(p: DebugPool, s: Seq<char>, q: DebugPool)
    requires
        p.strings.contains(s),
        debug_writer::pool_grows(p, q),
        debug_writer::pool_wf(q),
    ensures
        debug_writer::with_string(q, s) == q,
        debug_writer::string_id(q.strings, s) == debug_writer::string_id(p.strings, s),
{
    lemma_index_stays(p.strings, q.strings, s);
}

proof fn lemma_entry_again(p: DebugPool, e: Seq<u8>, q: DebugPool)
    requires
        p.entries.contains(e),
        debug_writer::pool_grows(p, q),
        debug_writer::pool_wf(q),
    ensures
        debug_writer::with_entry(q, e) == (q, debug_writer::entry_id(p.entries, e)),
{
    lemma_index_stays(p.entries, q.entries, e);
}

proof fn lemma_entry_held(p: DebugPool, e: Seq<u8>)
    ensures
        debug_writer::with_entry(p, e).0.entries.contains(e),
        debug_writer::with_entry(p, e).0.strings == p.strings,
{
    if !p.entries.contains(e) {
        assert(p.entries.push(e)[p.entries.len() as int] == e);
    }
}

/// Two strings, asked for one after the other.
proof fn lemma_strings_held(p: DebugPool, x: Seq<char>, y: Seq<char>)
    requires
        debug_writer::pool_wf(p),
    ensures
        ({
            let q = debug_writer::with_string(debug_writer::with_string(p, x), y);
            &&& q.strings.contains(x)
            &&& q.strings.contains(y)
            &&& q.entries == p.entries
            &&& q.strings.no_duplicates()
        }),
{
    let l = strings::intern(p.strings, x);
    let m = strings::intern(l, y);
    strings::lemma_intern(p.strings, x);
    strings::lemma_intern(l, y);
    let i = l.index_of(x);
    assert(m.take(l.len() as int)[i] == m[i]);
}

proof fn lemma_file_again(p: DebugPool, f: FileV, q: DebugPool)
    requires
        debug_writer::pool_wf(p),
        debug_writer::pool_wf(q),
        debug_writer::pool_grows(debug_writer::file_attr(p, f).0, q),
    ensures
        debug_writer::file_attr(q, f) == (q, debug_writer::file_attr(p, f).1),
{
    let p1 = debug_writer::with_string(debug_writer::with_string(p, f.name), f.directory);
    let e = debug_writer::entry_bytes(
        debug::DEBUG_FILE,
        seq![
            debug_writer::string_id(p1.strings, f.name),
            debug_writer::string_id(p1.strings, f.directory),
        ],
    );
    let end = debug_writer::with_entry(p1, e).0;
    lemma_strings_held(p, f.name, f.directory);
    lemma_entry_held(p1, e);
    lemma_string_again(end, f.name, q);
    lemma_string_again(end, f.directory, q);
    lemma_entry_again(end, e, q);
}

proof fn lemma_unit_again(p: DebugPool, file: u64, q: DebugPool)
    requires
        debug_writer::pool_wf(q),
        debug_writer::pool_grows(debug_writer::unit_attr(p, file).0, q),
    ensures
        debug_writer::unit_attr(q, file) == (q, debug_writer::unit_attr(p, file).1),
{
    let e = debug_writer::entry_bytes(debug::DEBUG_COMPILE_UNIT, seq![file]);
    lemma_entry_held(p, e);
    lemma_entry_again(debug_writer::with_entry(p, e).0, e, q);
}

proof fn lemma_subprogram_entry_again(
    p: DebugPool,
    file: u64,
    line: u64,
    name: Seq<char>,
    linkage_name: Seq<char>,
    unit: u64,
    scope_line: u64,
    q: DebugPool,
)
    requires
        debug_writer::pool_wf(p),
        debug_writer::pool_wf(q),
        debug_writer::pool_grows(
            debug_writer::subprogram_entry(p, file, line, name, linkage_name, unit, scope_line).0,
            q,
        ),
    ensures
        debug_writer::subprogram_entry(q, file, line, name, linkage_name, unit, scope_line) == (
            q,
            debug_writer::subprogram_entry(p, file, line, name, linkage_name, unit, scope_line).1,
        ),
{
    let p1 = debug_writer::with_string(debug_writer::with_string(p, name), linkage_name);
    let e = debug_writer::entry_bytes(
        debug::DEBUG_SUBPROGRAM,
        seq![
            file,
            line,
            debug_writer::string_id(p1.strings, name),
            debug_writer::string_id(p1.strings, linkage_name),
            unit,
            scope_line,
        ],
    );
    let end = debug_writer::with_entry(p1, e).0;
    lemma_strings_held(p, name, linkage_name);
    lemma_entry_held(p1, e);
    lemma_string_again(end, name, q);
    lemma_string_again(end, linkage_name, q);
    lemma_entry_again(end, e, q);
}

proof fn lemma_subprogram_again(p: DebugPool, sp: SubprogramV, q: DebugPool)
    requires
        debug_writer::pool_wf(p),
        debug_writer::pool_wf(q),
        debug_writer::pool_grows(debug_writer::subprogram_attr(p, sp).0, q),
    ensures
        debug_writer::subprogram_attr(q, sp) == (q, debug_writer::subprogram_attr(p, sp).1),
{
    let (p1, file) = debug_writer::file_attr(p, sp.file);
    let (p2, unit_file) = debug_writer::file_attr(p1, sp.compile_unit);
    let (p3, unit) = debug_writer::unit_attr(p2, unit_file);
    let end = debug_writer::subprogram_attr(p, sp).0;
    debug_writer::lemma_file_attr(p, sp.file);
    debug_writer::lemma_file_attr(p1, sp.compile_unit);
    debug_writer::lemma_unit_attr(p2, unit_file);
    debug_writer::lemma_subprogram_entry(
        p3,
        file,
        sp.line as u64,
        sp.name,
        sp.linkage_name,
        unit,
        sp.scope_line as u64,
    );
    debug_writer::lemma_pool_grows(p3, end, q);
    debug_writer::lemma_pool_grows(p2, p3, q);
    debug_writer::lemma_pool_grows(p1, p2, q);
    lemma_file_again(p, sp.file, q);
    lemma_file_again(p1, sp.compile_unit, q);
    lemma_unit_again(p2, unit_file, q);
    lemma_subprogram_entry_again(
        p3,
        file,
        sp.line as u64,
        sp.name,
        sp.linkage_name,
        unit,
        sp.scope_line as u64,
        q,
    );
}

proof fn lemma_scope_again(p: DebugPool, s: ScopeV, q: DebugPool)
    requires
        debug_writer::pool_wf(p),
        debug_writer::pool_wf(q),
        debug_writer::pool_grows(debug_writer::scope_attr(p, s).0, q),
    ensures
        debug_writer::scope_attr(q, s) == (q, debug_writer::scope_attr(p, s).1),
    decreases s,
{
    match s {
        ScopeV::Subprogram(sp) => lemma_subprogram_again(p, sp, q),
        ScopeV::LexicalBlock(parent, file, line, column) => {
            let (p1, scope) = debug_writer::scope_attr(p, *parent);
            let (p2, f) = debug_writer::file_attr(p1, file);
            let fields = seq![scope, f, line as u64, column as u64];
            let e = debug_writer::entry_bytes(debug::DEBUG_LEXICAL_BLOCK, fields);
            let end = debug_writer::with_entry(p2, e).0;
            debug_writer::lemma_scope_attr(p, *parent);
            debug_writer::lemma_file_attr(p1, file);
            debug_writer::lemma_pool_grows(p1, p1, p2);
            debug_writer::lemma_with_entry(p2, debug::DEBUG_LEXICAL_BLOCK, fields);
            debug_writer::lemma_pool_grows(p2, end, q);
            debug_writer::lemma_pool_grows(p1, p2, q);
            lemma_scope_again(p, *parent, q);
            lemma_file_again(p1, file, q);
            lemma_entry_held(p2, e);
            lemma_entry_again(end, e, q);
        },
    }
}

/// The scope of a function has been asked for: `id` stands for it.
pub open spec fn scope_held(p: DebugPool, scope: Option<ScopeV>, id: u64) -> bool {
    match scope {
        Some(x) => id != 0 && forall|q: DebugPool|
            debug_writer::pool_wf(q) && #[trigger] debug_writer::pool_grows(p, q)
                ==> debug_writer::scope_attr(q, x) == (q, id),
        None => id == 0,
    }
}

/// A scope stays known.
pub proof fn lemma_scope_held(p: DebugPool, scope: Option<ScopeV>, id: u64, u: DebugPool)
    requires
        scope_held(p, scope, id),
        debug_writer::pool_grows(p, u),
    ensures
        scope_held(u, scope, id),
{
    match scope {
        Some(x) => {
            assert forall|q: DebugPool|
                debug_writer::pool_wf(q) && #[trigger] debug_writer::pool_grows(
                    u,
                    q,
                ) implies debug_writer::scope_attr(q, x) == (q, id) by {
                debug_writer::lemma_pool_grows(p, u, q);
            }
        },
        None => {},
    }
}

/// A location that was read asks for the same debug attributes.
pub proof fn lemma_location_again(p: DebugPool, id: u64, scope: Option<ScopeV>, l: LocationV)
    requires
        debug_writer::pool_wf(p),
        scope_held(p, scope, id),
    ensures
        debug_writer::location_attr(p, id, debug_roundtrip::read_location(scope, l))
            == debug_writer::location_attr(p, id, l),
    decreases l,
{
    debug_writer::lemma_pool_grows(p, p, p);
    match l {
        LocationV::CallSite(callee, caller) => {
            lemma_location_again(p, id, scope, *callee);
            let (p1, x) = debug_writer::location_attr(p, id, *callee);
            debug_writer::lemma_location_attr(p, id, *callee);
            lemma_scope_held(p, scope, id, p1);
            lemma_location_again(p1, id, scope, *caller);
        },
        _ => {},
    }
}

/// What was asked for a function: its scope is known, and what is read back of
/// its location and of its display name asks for the same.
pub proof fn lemma_function_again(
    p: DebugPool,
    name: Seq<char>,
    display: Seq<char>,
    l: LocationV,
)
    requires
        debug_writer::pool_wf(p),
        debug_writer::function_scope(p, name, display, l).0.entries.len() <= u32::MAX,
    ensures
        ({
            let scope = debug_roundtrip::scope_for(name, display, l);
            let (p1, id) = debug_writer::function_scope(p, name, display, l);
            let (m, shown) = debug::located(debug_roundtrip::read_location(scope, l), name);
            let display2 = match shown {
                Some(s) => s,
                None => name,
            };
            &&& scope_held(p1, scope, id)
            &&& debug_writer::function_scope(p, name, display2, m) == (p1, id)
            &&& debug_writer::location_attr(p1, id, m) == debug_writer::location_attr(p1, id, l)
        }),
{
    let scope = debug_roundtrip::scope_for(name, display, l);
    let (p1, id) = debug_writer::function_scope(p, name, display, l);
    debug_writer::lemma_function_scope(p, name, display, l);
    debug_writer::lemma_pool_grows(p1, p1, p1);
    match scope {
        Some(x) => {
            lemma_scope_of_function(p, name, display, l, x);
            lemma_location_again(p1, id, scope, l);
        },
        None => {
            lemma_location_again(p1, id, scope, l);
        },
    }
}

/// The scope of a function is asked for as any scope is.
proof fn lemma_scope_of_function(
    p: DebugPool,
    name: Seq<char>,
    display: Seq<char>,
    l: LocationV,
    x: ScopeV,
)
    requires
        debug_writer::pool_wf(p),
        debug_writer::function_scope(p, name, display, l).0.entries.len() <= u32::MAX,
        debug_roundtrip::scope_for(name, display, l) == Some(x),
    ensures
        debug_writer::function_scope(p, name, display, l) == debug_writer::scope_attr(p, x),
        debug_writer::function_scope(p, name, display, l).1 != 0,
        scope_held(
            debug_writer::function_scope(p, name, display, l).0,
            Some(x),
            debug_writer::function_scope(p, name, display, l).1,
        ),
        l matches LocationV::DebugInfo(f, line, column, ScopeV::Subprogram(sp)) ==> (sp
            == debug::derived_scope(f, line, sp.name, name) ==> debug_writer::function_scope(
            p,
            name,
            sp.name,
            LocationV::FileLineCol(f, line, column),
        ) == debug_writer::scope_attr(p, x)),
{
    let (p1, id) = debug_writer::function_scope(p, name, display, l);
    match l {
        LocationV::FileLineCol(f, line, column) => {
            lemma_derived_scope(p, f, line, column, display, name);
        },
        LocationV::DebugInfo(f, line, column, ScopeV::Subprogram(sp)) => {
            lemma_derived_scope(p, f, line, column, sp.name, name);
        },
        _ => {},
    }
    lemma_scope_id(p, x);
    assert forall|q: DebugPool|
        debug_writer::pool_wf(q) && #[trigger] debug_writer::pool_grows(
            p1,
            q,
        ) implies debug_writer::scope_attr(q, x) == (q, id) by {
        lemma_scope_again(p, x, q);
    }
}

/// The scope that a bare source location gives a function.
proof fn lemma_derived_scope(
    p: DebugPool,
    path: Seq<char>,
    line: u32,
    column: u32,
    display: Seq<char>,
    name: Seq<char>,
)
    requires
        debug_writer::pool_wf(p),
    ensures
        debug_writer::function_scope(
            p,
            name,
            display,
            LocationV::FileLineCol(path, line, column),
        ) == debug_writer::scope_attr(
            p,
            ScopeV::Subprogram(debug::derived_scope(path, line, display, name)),
        ),
{
    let f = debug::file_of_path(path);
    let (p1, file) = debug_writer::file_attr(p, f);
    debug_writer::lemma_file_attr(p, f);
    debug_writer::lemma_pool_grows(p1, p1, p1);
    lemma_file_again(p, f, p1);
}

/// Ids of scopes are not zero.
pub proof fn lemma_scope_id(p: DebugPool, x: ScopeV)
    requires
        debug_writer::pool_wf(p),
        debug_writer::scope_attr(p, x).0.entries.len() <= u32::MAX,
    ensures
        debug_writer::scope_attr(p, x).1 != 0,
{
    match x {
        ScopeV::Subprogram(sp) => {
            let (p1, file) = debug_writer::file_attr(p, sp.file);
            let (p2, unit_file) = debug_writer::file_attr(p1, sp.compile_unit);
            let (p3, unit) = debug_writer::unit_attr(p2, unit_file);
            let p4 = debug_writer::with_string(
                debug_writer::with_string(p3, sp.name),
                sp.linkage_name,
            );
            let e = debug_writer::entry_bytes(
                debug::DEBUG_SUBPROGRAM,
                seq![
                    file,
                    sp.line as u64,
                    debug_writer::string_id(p4.strings, sp.name),
                    debug_writer::string_id(p4.strings, sp.linkage_name),
                    unit,
                    sp.scope_line as u64,
                ],
            );
            lemma_entry_id(p4, e);
        },
        ScopeV::LexicalBlock(parent, file, line, column) => {
            let (p1, scope) = debug_writer::scope_attr(p, *parent);
            let (p2, f) = debug_writer::file_attr(p1, file);
            let e = debug_writer::entry_bytes(
                debug::DEBUG_LEXICAL_BLOCK,
                seq![scope, f, line as u64, column as u64],
            );
            lemma_entry_id(p2, e);
        },
    }
}

/// Ids of entries are not zero.
pub proof fn lemma_entry_id(p: DebugPool, e: Seq<u8>)
    requires
        debug_writer::with_entry(p, e).0.entries.len() <= u32::MAX,
    ensures
        debug_writer::with_entry(p, e).1 != 0,
{
    lemma_entry_held(p, e);
    let l = debug_writer::with_entry(p, e).0.entries;
    assert(l[l.index_of(e)] == e);
}

} // verus!
