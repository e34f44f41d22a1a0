//! Which strings are asked for while functions are collected: what is in the
//! tables before does not change it.
use vstd::prelude::*;
use crate::bytecode::again;
use crate::bytecode::attr_writer;
use crate::bytecode::attrs::TablesV;
use crate::bytecode::body_writer;
use crate::bytecode::collect::CollectV;
use crate::bytecode::collect;
use crate::bytecode::debug;
use crate::bytecode::debug_writer::DebugPool;
use crate::bytecode::debug_writer;
use crate::bytecode::layout::Step;
use crate::bytecode::layout;
use crate::bytecode::node::{BlockN, OpN};
use crate::bytecode::records::RecordV;
use crate::bytecode::records;
use crate::bytecode::strings;
use crate::ir::attr::AttrV;
use crate::ir::location::{FileV, LocationV, ScopeV, SubprogramV};

verus! {

/// Where one table holds a string, another does.
pub open spec fn less(a: Seq<Seq<char>>, b: Seq<Seq<char>>, w: Seq<char>) -> bool {
    a.contains(w) ==> b.contains(w)
}

/// A table holds what was asked for, and what it held.
pub proof fn lemma_intern_holds(l: Seq<Seq<char>>, x: Seq<char>, w: Seq<char>)
    ensures
        strings::intern(l, x).contains(w) == (l.contains(w) || x == w),
{
    let m = strings::intern(l, x);
    if !l.contains(x) {
        assert(m[l.len() as int] == x);
    }
    if l.contains(w) {
        let i = l.index_of(w);
        assert(m[i] == w);
    }
    if m.contains(w) && x != w {
        let i = m.index_of(w);
        assert(m[i] == w);
        assert(l[i] == w);
    }
}

// ---------------------------------------------------------------------------
// Debug information
// ---------------------------------------------------------------------------

proof fn lemma_less_file(p: DebugPool, q: DebugPool, f: FileV, w: Seq<char>)
    requires
        less(p.strings, q.strings, w),
    ensures
        less(
            debug_writer::file_attr(p, f).0.strings,
            debug_writer::file_attr(q, f).0.strings,
            w,
        ),
{
    lemma_intern_holds(p.strings, f.name, w);
    lemma_intern_holds(q.strings, f.name, w);
    lemma_intern_holds(strings::intern(p.strings, f.name), f.directory, w);
    lemma_intern_holds(strings::intern(q.strings, f.name), f.directory, w);
}

/// The strings behind two names.
pub proof fn lemma_names_held(p: DebugPool, x: Seq<char>, y: Seq<char>, w: Seq<char>)
    ensures
        debug_writer::with_string(debug_writer::with_string(p, x), y).strings.contains(w) == (
        p.strings.contains(w) || x == w || y == w),
{
    lemma_intern_holds(p.strings, x, w);
    lemma_intern_holds(strings::intern(p.strings, x), y, w);
}

/// A function in the debug information, whose name is then among the strings.
pub proof fn lemma_less_subprogram(p: DebugPool, q: DebugPool, sp: SubprogramV, w: Seq<char>)
    requires
        less(p.strings, q.strings, w),
    ensures
        less(
            debug_writer::subprogram_attr(p, sp).0.strings,
            debug_writer::subprogram_attr(q, sp).0.strings,
            w,
        ),
        debug_writer::subprogram_attr(p, sp).0.strings.contains(sp.name),
{
    let (p1, _) = debug_writer::file_attr(p, sp.file);
    let (q1, _) = debug_writer::file_attr(q, sp.file);
    lemma_less_file(p, q, sp.file, w);
    let (p2, _) = debug_writer::file_attr(p1, sp.compile_unit);
    let (q2, _) = debug_writer::file_attr(q1, sp.compile_unit);
    lemma_less_file(p1, q1, sp.compile_unit, w);
    lemma_names_held(p2, sp.name, sp.linkage_name, w);
    lemma_names_held(q2, sp.name, sp.linkage_name, w);
    lemma_names_held(p2, sp.name, sp.linkage_name, sp.name);
}

proof fn lemma_less_scope(p: DebugPool, q: DebugPool, s: ScopeV, w: Seq<char>)
    requires
        less(p.strings, q.strings, w),
    ensures
        less(
            debug_writer::scope_attr(p, s).0.strings,
            debug_writer::scope_attr(q, s).0.strings,
            w,
        ),
    decreases s,
{
    match s {
        ScopeV::Subprogram(sp) => lemma_less_subprogram(p, q, sp, w),
        ScopeV::LexicalBlock(parent, file, line, column) => {
            lemma_less_scope(p, q, *parent, w);
            let (p1, _) = debug_writer::scope_attr(p, *parent);
            let (q1, _) = debug_writer::scope_attr(q, *parent);
            lemma_less_file(p1, q1, file, w);
        },
    }
}

/// Whether nothing is written for a location.
pub open spec fn nowhere(l: LocationV, scoped: bool) -> bool
    decreases l,
{
    match l {
        LocationV::Unknown => true,
        LocationV::FileLineCol(_, _, _) => !scoped,
        LocationV::DebugInfo(_, _, _, _) => false,
        LocationV::CallSite(callee, _) => nowhere(*callee, scoped),
    }
}

proof fn lemma_nowhere(p: DebugPool, current: u64, l: LocationV)
    requires
        debug_writer::pool_wf(p),
        debug_writer::location_attr(p, current, l).0.entries.len() <= u32::MAX,
    ensures
        (debug_writer::location_attr(p, current, l).1 == 0) == nowhere(l, current != 0),
    decreases l,
{
    match l {
        LocationV::Unknown => {},
        LocationV::FileLineCol(filename, line, column) => {
            if current != 0 {
                lemma_placed(p, current, filename, line, column);
            }
        },
        LocationV::DebugInfo(filename, line, column, scope) => {
            let (p1, s) = debug_writer::scope_attr(p, scope);
            lemma_placed(p1, s, filename, line, column);
        },
        LocationV::CallSite(callee, caller) => {
            let (p1, x) = debug_writer::location_attr(p, current, *callee);
            debug_writer::lemma_location_attr(p, current, *callee);
            debug_writer::lemma_location_attr(p1, current, *caller);
            lemma_nowhere(p, current, *callee);
            if x != 0 {
                let (p2, y) = debug_writer::location_attr(p1, current, *caller);
                again::lemma_entry_id(
                    p2,
                    debug_writer::entry_bytes(debug::DEBUG_CALL_SITE, seq![x, y]),
                );
            }
        },
    }
}

proof fn lemma_placed(p: DebugPool, scope: u64, filename: Seq<char>, line: u32, column: u32)
    requires
        debug_writer::loc_attr(p, scope, filename, line as u64, column as u64).0.entries.len() <= u32::MAX,
    ensures
        debug_writer::loc_attr(p, scope, filename, line as u64, column as u64).1 != 0,
{
    let p1 = debug_writer::with_string(p, filename);
    again::lemma_entry_id(
        p1,
        debug_writer::entry_bytes(
            debug::DEBUG_LOC,
            seq![
                scope,
                debug_writer::string_id(p1.strings, filename),
                line as u64,
                column as u64,
            ],
        ),
    );
}

proof fn lemma_less_location(
    p: DebugPool,
    q: DebugPool,
    x: u64,
    y: u64,
    l: LocationV,
    w: Seq<char>,
)
    requires
        debug_writer::pool_wf(p),
        debug_writer::pool_wf(q),
        debug_writer::location_attr(p, x, l).0.entries.len() <= u32::MAX,
        debug_writer::location_attr(q, y, l).0.entries.len() <= u32::MAX,
        (x == 0) == (y == 0),
        less(p.strings, q.strings, w),
    ensures
        less(
            debug_writer::location_attr(p, x, l).0.strings,
            debug_writer::location_attr(q, y, l).0.strings,
            w,
        ),
    decreases l,
{
    match l {
        LocationV::Unknown => {},
        LocationV::FileLineCol(filename, _, _) => {
            lemma_intern_holds(p.strings, filename, w);
            lemma_intern_holds(q.strings, filename, w);
        },
        LocationV::DebugInfo(filename, _, _, scope) => {
            lemma_less_scope(p, q, scope, w);
            lemma_intern_holds(debug_writer::scope_attr(p, scope).0.strings, filename, w);
            lemma_intern_holds(debug_writer::scope_attr(q, scope).0.strings, filename, w);
        },
        LocationV::CallSite(callee, caller) => {
            let (p1, _) = debug_writer::location_attr(p, x, *callee);
            let (q1, _) = debug_writer::location_attr(q, y, *callee);
            debug_writer::lemma_location_attr(p, x, *callee);
            debug_writer::lemma_location_attr(q, y, *callee);
            debug_writer::lemma_location_attr(p1, x, *caller);
            debug_writer::lemma_location_attr(q1, y, *caller);
            lemma_less_location(p, q, x, y, *callee, w);
            lemma_nowhere(p, x, *callee);
            lemma_nowhere(q, y, *callee);
            if !nowhere(*callee, x != 0) {
                lemma_less_location(p1, q1, x, y, *caller, w);
            }
        },
    }
}

proof fn lemma_less_function(
    p: DebugPool,
    q: DebugPool,
    name: Seq<char>,
    display: Seq<char>,
    l: LocationV,
    w: Seq<char>,
)
    requires
        debug_writer::pool_wf(p),
        debug_writer::pool_wf(q),
        debug_writer::function_scope(p, name, display, l).0.entries.len() <= u32::MAX,
        debug_writer::function_scope(q, name, display, l).0.entries.len() <= u32::MAX,
        less(p.strings, q.strings, w),
    ensures
        less(
            debug_writer::function_scope(p, name, display, l).0.strings,
            debug_writer::function_scope(q, name, display, l).0.strings,
            w,
        ),
        (debug_writer::function_scope(p, name, display, l).1 == 0) == (
        debug_writer::function_scope(q, name, display, l).1 == 0),
{
    match l {
        LocationV::FileLineCol(filename, line, _) => {
            let f = debug::file_of_path(filename);
            lemma_less_file(p, q, f, w);
            lemma_derived(p, name, display, filename, line, w);
            lemma_derived(q, name, display, filename, line, w);
        },
        LocationV::DebugInfo(_, _, _, scope) => {
            lemma_less_scope(p, q, scope, w);
            again::lemma_scope_id(p, scope);
            again::lemma_scope_id(q, scope);
        },
        _ => {},
    }
}

/// The scope that a function has from a bare location.
proof fn lemma_derived(
    p: DebugPool,
    name: Seq<char>,
    display: Seq<char>,
    filename: Seq<char>,
    line: u32,
    w: Seq<char>,
)
    requires
        ({
            let (p1, file) = debug_writer::file_attr(p, debug::file_of_path(filename));
            let (p2, unit) = debug_writer::unit_attr(p1, file);
            debug_writer::subprogram_entry(
                p2,
                file,
                line as u64,
                display,
                name,
                unit,
                line as u64,
            ).0.entries.len() <= u32::MAX
        }),
    ensures
        ({
            let (p1, file) = debug_writer::file_attr(p, debug::file_of_path(filename));
            let (p2, unit) = debug_writer::unit_attr(p1, file);
            let (p3, id) = debug_writer::subprogram_entry(
                p2,
                file,
                line as u64,
                display,
                name,
                unit,
                line as u64,
            );
            &&& id != 0
            &&& p3.strings.contains(w) == (p1.strings.contains(w) || display == w || name == w)
        }),
{
    let (p1, file) = debug_writer::file_attr(p, debug::file_of_path(filename));
    let (p2, unit) = debug_writer::unit_attr(p1, file);
    lemma_names_held(p2, display, name, w);
    let p3 = debug_writer::with_string(debug_writer::with_string(p2, display), name);
    again::lemma_entry_id(
        p3,
        debug_writer::entry_bytes(
            debug::DEBUG_SUBPROGRAM,
            seq![
                file,
                line as u64,
                debug_writer::string_id(p3.strings, display),
                debug_writer::string_id(p3.strings, name),
                unit,
                line as u64,
            ],
        ),
    );
}

// ---------------------------------------------------------------------------
// Attributes
// ---------------------------------------------------------------------------

proof fn lemma_less_attr(t: TablesV, u: TablesV, a: AttrV, w: Seq<char>)
    requires
        less(t.strings, u.strings, w),
    ensures
        less(
            attr_writer::intern_attr(t, a).strings,
            attr_writer::intern_attr(u, a).strings,
            w,
        ),
    decreases a, 0int,
{
    match a {
        AttrV::Str(s) => {
            lemma_intern_holds(t.strings, s, w);
            lemma_intern_holds(u.strings, s, w);
        },
        AttrV::Array(s) => lemma_less_list(t, u, s, w, s.len() as int),
        AttrV::Dict(s) => lemma_less_dict(t, u, s, w, s.len() as int),
        AttrV::Hints(s) => lemma_less_hints(t, u, s, w, s.len() as int),
        _ => {},
    }
}

proof fn lemma_less_list(t: TablesV, u: TablesV, s: Seq<AttrV>, w: Seq<char>, n: int)
    requires
        less(t.strings, u.strings, w),
    ensures
        less(
            attr_writer::intern_list(t, s, n).strings,
            attr_writer::intern_list(u, s, n).strings,
            w,
        ),
    decreases s, n,
{
    if 0 < n <= s.len() {
        lemma_less_list(t, u, s, w, n - 1);
        lemma_less_attr(
            attr_writer::intern_list(t, s, n - 1),
            attr_writer::intern_list(u, s, n - 1),
            s[n - 1],
            w,
        );
    }
}

proof fn lemma_less_dict(
    t: TablesV,
    u: TablesV,
    s: Seq<(Seq<char>, AttrV)>,
    w: Seq<char>,
    n: int,
)
    requires
        less(t.strings, u.strings, w),
    ensures
        less(
            attr_writer::intern_dict(t, s, n).strings,
            attr_writer::intern_dict(u, s, n).strings,
            w,
        ),
    decreases s, n,
{
    if 0 < n <= s.len() {
        lemma_less_dict(t, u, s, w, n - 1);
        let t1 = attr_writer::intern_dict(t, s, n - 1);
        let u1 = attr_writer::intern_dict(u, s, n - 1);
        lemma_intern_holds(t1.strings, s[n - 1].0, w);
        lemma_intern_holds(u1.strings, s[n - 1].0, w);
        lemma_less_attr(
            attr_writer::with_string(t1, s[n - 1].0),
            attr_writer::with_string(u1, s[n - 1].0),
            s[n - 1].1,
            w,
        );
    }
}

proof fn lemma_less_hints(
    t: TablesV,
    u: TablesV,
    s: Seq<(Seq<char>, Seq<(Seq<char>, AttrV)>)>,
    w: Seq<char>,
    n: int,
)
    requires
        less(t.strings, u.strings, w),
    ensures
        less(
            attr_writer::intern_hints(t, s, n).strings,
            attr_writer::intern_hints(u, s, n).strings,
            w,
        ),
    decreases s, n,
{
    if 0 < n <= s.len() {
        lemma_less_hints(t, u, s, w, n - 1);
        let t1 = attr_writer::intern_hints(t, s, n - 1);
        let u1 = attr_writer::intern_hints(u, s, n - 1);
        lemma_intern_holds(t1.strings, s[n - 1].0, w);
        lemma_intern_holds(u1.strings, s[n - 1].0, w);
        lemma_less_dict(
            attr_writer::with_string(t1, s[n - 1].0),
            attr_writer::with_string(u1, s[n - 1].0),
            s[n - 1].1,
            w,
            s[n - 1].1.len() as int,
        );
    }
}

// ---------------------------------------------------------------------------
// Operations and functions
// ---------------------------------------------------------------------------

/// Two states of collecting: where one has a string, so has the other, and both
/// are within a function that has a scope, or neither is.
pub open spec fn less_state(s: CollectV, u: CollectV, w: Seq<char>) -> bool {
    &&& collect::collect_wf(s)
    &&& collect::collect_wf(u)
    &&& less(s.t.strings, u.t.strings, w)
    &&& (s.scope == 0) == (u.scope == 0)
}

/// Debug attributes can be counted in both states.
pub open spec fn counted(s: CollectV, u: CollectV) -> bool {
    s.entries.len() <= u32::MAX && u.entries.len() <= u32::MAX
}

proof fn lemma_less_step(t: TablesV, u: TablesV, op: OpN, step: Step, w: Seq<char>)
    requires
        less(t.strings, u.strings, w),
    ensures
        less(
            collect::collect_step(t, op, step).strings,
            collect::collect_step(u, op, step).strings,
            w,
        ),
{
    match step {
        Step::Str(name) | Step::StrIf(_, name) => {
            lemma_intern_holds(t.strings, body_writer::str_value(op, name), w);
            lemma_intern_holds(u.strings, body_writer::str_value(op, name), w);
        },
        Step::Tagged(name) => lemma_less_attr(t, u, body_writer::any_value(op, name), w),
        Step::Array(name) => {
            let l = body_writer::list_value(op, name);
            lemma_less_list(t, u, l, w, l.len() as int);
        },
        Step::HintsIf(_) | Step::HintsFirstIf(_) => {
            let l = body_writer::hints_value(op);
            lemma_less_hints(t, u, l, w, l.len() as int);
        },
        Step::DictIf(_, name) => {
            let l = body_writer::dict_value(op, name);
            lemma_less_dict(t, u, l, w, l.len() as int);
        },
        _ => {},
    }
}

proof fn lemma_less_steps(
    s: CollectV,
    u: CollectV,
    op: OpN,
    v13_3: bool,
    steps: Seq<Step>,
    k: int,
    w: Seq<char>,
)
    requires
        less_state(s, u, w),
        body_writer::check_steps(op, steps, k) is None,
        body_writer::check_regions(op.regions, v13_3, op.regions.len() as int) is None,
        counted(
            collect::collect_steps(s, op, v13_3, steps, k),
            collect::collect_steps(u, op, v13_3, steps, k),
        ),
    ensures
        less_state(
            collect::collect_steps(s, op, v13_3, steps, k),
            collect::collect_steps(u, op, v13_3, steps, k),
            w,
        ),
    decreases op, 0int, k,
{
    if k > 0 {
        let s1 = collect::collect_steps(s, op, v13_3, steps, k - 1);
        let u1 = collect::collect_steps(u, op, v13_3, steps, k - 1);
        let n = op.regions.len() as int;
        collect::lemma_collect_steps(s, op, v13_3, steps, k - 1);
        collect::lemma_collect_steps(u, op, v13_3, steps, k - 1);
        collect::lemma_collect_steps(s, op, v13_3, steps, k);
        collect::lemma_collect_steps(u, op, v13_3, steps, k);
        collect::lemma_collect_regions(s1, op.regions, v13_3, n);
        collect::lemma_collect_regions(u1, op.regions, v13_3, n);
        lemma_less_steps(s, u, op, v13_3, steps, k - 1, w);
        if body_writer::is_regions(steps[k - 1]) {
            lemma_less_regions(s1, u1, op.regions, v13_3, n, w);
        } else {
            lemma_less_step(s1.t, u1.t, op, steps[k - 1], w);
        }
    }
}

proof fn lemma_less_op(s: CollectV, u: CollectV, op: OpN, v13_3: bool, w: Seq<char>)
    requires
        less_state(s, u, w),
        body_writer::check_op(op, v13_3) is None,
        counted(collect::collect_op(s, op, v13_3), collect::collect_op(u, op, v13_3)),
    ensures
        less_state(collect::collect_op(s, op, v13_3), collect::collect_op(u, op, v13_3), w),
    decreases op, 1int, 0int,
{
    let steps = layout::layout(op.opcode, v13_3);
    let s1 = collect::record_location(s, op.location);
    let u1 = collect::record_location(u, op.location);
    collect::lemma_record_location(s, op.location);
    collect::lemma_record_location(u, op.location);
    collect::lemma_collect_steps(s1, op, v13_3, steps, steps.len() as int);
    collect::lemma_collect_steps(u1, op, v13_3, steps, steps.len() as int);
    lemma_less_location(collect::pool(s), collect::pool(u), s.scope, u.scope, op.location, w);
    lemma_less_steps(s1, u1, op, v13_3, steps, steps.len() as int, w);
}

proof fn lemma_less_ops(
    s: CollectV,
    u: CollectV,
    ops: Seq<OpN>,
    v13_3: bool,
    n: int,
    w: Seq<char>,
)
    requires
        less_state(s, u, w),
        body_writer::check_ops(ops, v13_3, n) is None,
        counted(collect::collect_ops(s, ops, v13_3, n), collect::collect_ops(u, ops, v13_3, n)),
    ensures
        less_state(
            collect::collect_ops(s, ops, v13_3, n),
            collect::collect_ops(u, ops, v13_3, n),
            w,
        ),
    decreases ops, 0int, n,
{
    if 0 < n <= ops.len() {
        let s1 = collect::collect_ops(s, ops, v13_3, n - 1);
        let u1 = collect::collect_ops(u, ops, v13_3, n - 1);
        collect::lemma_collect_ops(s, ops, v13_3, n - 1);
        collect::lemma_collect_ops(u, ops, v13_3, n - 1);
        collect::lemma_collect_op(s1, ops[n - 1], v13_3);
        collect::lemma_collect_op(u1, ops[n - 1], v13_3);
        lemma_less_ops(s, u, ops, v13_3, n - 1, w);
        lemma_less_op(s1, u1, ops[n - 1], v13_3, w);
    }
}

proof fn lemma_less_blocks(
    s: CollectV,
    u: CollectV,
    bs: Seq<BlockN>,
    v13_3: bool,
    n: int,
    w: Seq<char>,
)
    requires
        less_state(s, u, w),
        body_writer::check_blocks(bs, v13_3, n) is None,
        counted(
            collect::collect_blocks(s, bs, v13_3, n),
            collect::collect_blocks(u, bs, v13_3, n),
        ),
    ensures
        less_state(
            collect::collect_blocks(s, bs, v13_3, n),
            collect::collect_blocks(u, bs, v13_3, n),
            w,
        ),
    decreases bs, 0int, n,
{
    if 0 < n <= bs.len() {
        let b = bs[n - 1];
        let k = b.ops.len() as int;
        let s1 = collect::collect_blocks(s, bs, v13_3, n - 1);
        let u1 = collect::collect_blocks(u, bs, v13_3, n - 1);
        let s2 = CollectV { t: collect::with_types(s1.t, b.arg_types), ..s1 };
        let u2 = CollectV { t: collect::with_types(u1.t, b.arg_types), ..u1 };
        collect::lemma_collect_blocks(s, bs, v13_3, n - 1);
        collect::lemma_collect_blocks(u, bs, v13_3, n - 1);
        collect::lemma_with_types(s1.t, b.arg_types);
        collect::lemma_with_types(u1.t, b.arg_types);
        collect::lemma_collect_ops(s2, b.ops, v13_3, k);
        collect::lemma_collect_ops(u2, b.ops, v13_3, k);
        lemma_less_blocks(s, u, bs, v13_3, n - 1, w);
        lemma_less_ops(s2, u2, b.ops, v13_3, k, w);
    }
}

proof fn lemma_less_regions(
    s: CollectV,
    u: CollectV,
    rs: Seq<Seq<BlockN>>,
    v13_3: bool,
    n: int,
    w: Seq<char>,
)
    requires
        less_state(s, u, w),
        body_writer::check_regions(rs, v13_3, n) is None,
        counted(
            collect::collect_regions(s, rs, v13_3, n),
            collect::collect_regions(u, rs, v13_3, n),
        ),
    ensures
        less_state(
            collect::collect_regions(s, rs, v13_3, n),
            collect::collect_regions(u, rs, v13_3, n),
            w,
        ),
    decreases rs, 0int, n,
{
    if 0 < n <= rs.len() {
        let k = rs[n - 1].len() as int;
        let s1 = collect::collect_regions(s, rs, v13_3, n - 1);
        let u1 = collect::collect_regions(u, rs, v13_3, n - 1);
        collect::lemma_collect_regions(s, rs, v13_3, n - 1);
        collect::lemma_collect_regions(u, rs, v13_3, n - 1);
        collect::lemma_collect_blocks(s1, rs[n - 1], v13_3, k);
        collect::lemma_collect_blocks(u1, rs[n - 1], v13_3, k);
        lemma_less_regions(s, u, rs, v13_3, n - 1, w);
        lemma_less_blocks(s1, u1, rs[n - 1], v13_3, k, w);
    }
}

proof fn lemma_less_record(s: CollectV, u: CollectV, r: RecordV, v13_3: bool, w: Seq<char>)
    requires
        collect::collect_wf(s),
        collect::collect_wf(u),
        less(s.t.strings, u.t.strings, w),
        records::record_checked(r, v13_3),
        counted(records::collect_record(s, r, v13_3), records::collect_record(u, r, v13_3)),
    ensures
        less(
            records::collect_record(s, r, v13_3).t.strings,
            records::collect_record(u, r, v13_3).t.strings,
            w,
        ),
{
    let n = r.ops.len() as int;
    let s1 = records::collect_head(s, r);
    let u1 = records::collect_head(u, r);
    let s2 = records::collect_scope(s1, r);
    let u2 = records::collect_scope(u1, r);
    let s3 = records::collect_record_hints(s2, r);
    let u3 = records::collect_record_hints(u2, r);
    records::lemma_collect_head(s, r);
    records::lemma_collect_head(u, r);
    records::lemma_collect_scope(s1, r);
    records::lemma_collect_scope(u1, r);
    records::lemma_collect_record_hints(s2, r);
    records::lemma_collect_record_hints(u2, r);
    collect::lemma_collect_ops(s3, r.ops, v13_3, n);
    collect::lemma_collect_ops(u3, r.ops, v13_3, n);
    lemma_intern_holds(s.t.strings, r.name, w);
    lemma_intern_holds(u.t.strings, r.name, w);
    lemma_less_function_part(s1, u1, r, w);
    match r.hints {
        Some(h) => lemma_less_attr(s2.t, u2.t, h, w),
        None => {},
    }
    lemma_less_ops(s3, u3, r.ops, v13_3, n, w);
}

proof fn lemma_less_function_part(s: CollectV, u: CollectV, r: RecordV, w: Seq<char>)
    requires
        collect::collect_wf(s),
        collect::collect_wf(u),
        less(s.t.strings, u.t.strings, w),
        counted(records::collect_scope(s, r), records::collect_scope(u, r)),
    ensures
        less(
            records::collect_scope(s, r).t.strings,
            records::collect_scope(u, r).t.strings,
            w,
        ),
        (records::collect_scope(s, r).scope == 0) == (records::collect_scope(u, r).scope == 0),
{
    let d = records::display_of(r);
    let p = collect::pool(s);
    let q = collect::pool(u);
    let (p1, x) = debug_writer::function_scope(p, r.name, d, r.location);
    let (q1, y) = debug_writer::function_scope(q, r.name, d, r.location);
    debug_writer::lemma_function_scope(p, r.name, d, r.location);
    debug_writer::lemma_function_scope(q, r.name, d, r.location);
    debug_writer::lemma_location_attr(p1, x, r.location);
    debug_writer::lemma_location_attr(q1, y, r.location);
    lemma_less_function(p, q, r.name, d, r.location, w);
    lemma_less_location(p1, q1, x, y, r.location, w);
}

/// Functions ask for the same strings, whatever has been asked for before.
pub proof fn lemma_less_records(
    s: CollectV,
    u: CollectV,
    rs: Seq<RecordV>,
    v13_3: bool,
    n: int,
    w: Seq<char>,
)
    requires
        0 <= n <= rs.len(),
        collect::collect_wf(s),
        collect::collect_wf(u),
        less(s.t.strings, u.t.strings, w),
        forall|i: int| 0 <= i < rs.len() ==> records::record_checked(#[trigger] rs[i], v13_3),
        counted(
            records::collect_records(s, rs, v13_3, n),
            records::collect_records(u, rs, v13_3, n),
        ),
    ensures
        less(
            records::collect_records(s, rs, v13_3, n).t.strings,
            records::collect_records(u, rs, v13_3, n).t.strings,
            w,
        ),
    decreases n,
{
    if n > 0 {
        let s1 = records::collect_records(s, rs, v13_3, n - 1);
        let u1 = records::collect_records(u, rs, v13_3, n - 1);
        records::lemma_collect_records(s, rs, v13_3, n - 1);
        records::lemma_collect_records(u, rs, v13_3, n - 1);
        records::lemma_collect_record(s1, rs[n - 1], v13_3);
        records::lemma_collect_record(u1, rs[n - 1], v13_3);
        lemma_less_records(s, u, rs, v13_3, n - 1, w);
        lemma_less_record(s1, u1, rs[n - 1], v13_3, w);
    }
}

} // verus!
