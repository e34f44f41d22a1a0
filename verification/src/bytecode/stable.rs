//! What was written and read is stable: reading it is the same each time, and so
//! are the bytes that it is written to.
use vstd::prelude::*;
use crate::bytecode::asked;
use crate::bytecode::attr_writer;
use crate::bytecode::attrs::TablesV;
use crate::bytecode::body;
use crate::bytecode::body_roundtrip;
use crate::bytecode::body_writer;
use crate::bytecode::collect::CollectV;
use crate::bytecode::collect;
use crate::bytecode::debug;
use crate::bytecode::debug_writer;
use crate::bytecode::enums::BytecodeVersion;
use crate::bytecode::file_roundtrip;
use crate::bytecode::func_roundtrip;
use crate::bytecode::identity;
use crate::bytecode::layout::{AttrName, Step};
use crate::bytecode::layout;
use crate::bytecode::layout_facts;
use crate::bytecode::mentioned;
use crate::bytecode::node::{BlockN, OpN};
use crate::bytecode::ops_again;
use crate::bytecode::prescan;
use crate::bytecode::reader::FileN;
use crate::bytecode::reader;
use crate::bytecode::records::RecordV;
use crate::bytecode::records;
use crate::bytecode::restore;
use crate::bytecode::strings;
use crate::bytecode::writer;
use crate::error::{ReadError, WriteError};
use crate::ir::location::{LocationV, ScopeV};
use crate::ir::module::{GlobalV, ModuleV};

verus! {

// ---------------------------------------------------------------------------
// Reading with other tables
// ---------------------------------------------------------------------------

/// Names that may be left out, and are not in the first tables, are not in the others
/// either.
pub open spec fn names_kept(t: TablesV, u: TablesV) -> bool {
    forall|x: AttrName|
        layout_facts::has_default(x) && mentioned::without(t, #[trigger] layout::name_text(x))
            ==> mentioned::without(u, layout::name_text(x))
}

/// Whether an integer is left out does not depend on which of the tables it is.
proof fn lemma_default_kept(
    op: OpN,
    t: TablesV,
    u: TablesV,
    v13_3: bool,
    scope: Option<ScopeV>,
    i: int,
)
    requires
        mentioned::keys_in(body_roundtrip::read_op(op, t, v13_3, scope).attributes, u),
        names_kept(t, u),
        0 <= i < layout::layout(op.opcode, v13_3).len(),
    ensures
        layout::layout(op.opcode, v13_3)[i] matches Step::IntOr(name, _)
            ==> t.strings.contains(layout::name_text(name)) == u.strings.contains(
            layout::name_text(name),
        ),
{
    let steps = layout::layout(op.opcode, v13_3);
    let k = steps.len() as int;
    match steps[i] {
        Step::IntOr(name, _) => {
            layout_facts::lemma_defaults(op.opcode, v13_3);
            assert(layout_facts::has_default(name));
            let w = layout::name_text(name);
            if t.strings.contains(w) {
                let s = ops_again::read_part(op, t, v13_3, scope, k).attributes;
                ops_again::lemma_found(op, t, v13_3, scope, i, k);
                mentioned::lemma_key_found(s, w, u, s.len() as int);
            } else {
                assert(mentioned::without(t, w));
            }
        },
        _ => {},
    }
}

proof fn lemma_steps_same(
    op: OpN,
    t: TablesV,
    u: TablesV,
    v13_3: bool,
    scope: Option<ScopeV>,
    k: int,
)
    requires
        mentioned::op_known(body_roundtrip::read_op(op, t, v13_3, scope), u),
        names_kept(t, u),
        0 <= k <= layout::layout(op.opcode, v13_3).len(),
    ensures
        ops_again::read_part(op, u, v13_3, scope, k) == ops_again::read_part(
            op,
            t,
            v13_3,
            scope,
            k,
        ),
    decreases op, 0int, k,
{
    if k > 0 {
        let steps = layout::layout(op.opcode, v13_3);
        let n = op.regions.len() as int;
        lemma_steps_same(op, t, u, v13_3, scope, k - 1);
        if body_writer::is_regions(steps[k - 1]) {
            ops_again::lemma_regions_read(op, t, v13_3, scope, k - 1, steps.len() as int);
            let q = body_roundtrip::read_op(op, t, v13_3, scope);
            assert(mentioned::regions_known(q.regions, u, q.regions.len() as int));
            lemma_regions_len(op.regions, t, v13_3, scope, n);
            lemma_regions_same(op.regions, t, u, v13_3, scope, n);
        } else if !body::is_value_step(steps[k - 1]) {
            lemma_default_kept(op, t, u, v13_3, scope, k - 1);
        }
    }
}

proof fn lemma_op_same(op: OpN, t: TablesV, u: TablesV, v13_3: bool, scope: Option<ScopeV>)
    requires
        mentioned::op_known(body_roundtrip::read_op(op, t, v13_3, scope), u),
        names_kept(t, u),
    ensures
        body_roundtrip::read_op(op, u, v13_3, scope) == body_roundtrip::read_op(
            op,
            t,
            v13_3,
            scope,
        ),
    decreases op, 1int, 0int,
{
    lemma_steps_same(op, t, u, v13_3, scope, layout::layout(op.opcode, v13_3).len() as int);
}

proof fn lemma_ops_len(ops: Seq<OpN>, t: TablesV, v13_3: bool, scope: Option<ScopeV>, n: int)
    requires
        0 <= n <= ops.len(),
    ensures
        body_roundtrip::read_ops(ops, t, v13_3, scope, n).len() == n,
    decreases n,
{
    if n > 0 {
        lemma_ops_len(ops, t, v13_3, scope, n - 1);
    }
}

proof fn lemma_blocks_len(bs: Seq<BlockN>, t: TablesV, v13_3: bool, scope: Option<ScopeV>, n: int)
    requires
        0 <= n <= bs.len(),
    ensures
        body_roundtrip::read_blocks(bs, t, v13_3, scope, n).len() == n,
    decreases n,
{
    if n > 0 {
        lemma_blocks_len(bs, t, v13_3, scope, n - 1);
    }
}

proof fn lemma_regions_len(
    rs: Seq<Seq<BlockN>>,
    t: TablesV,
    v13_3: bool,
    scope: Option<ScopeV>,
    n: int,
)
    requires
        0 <= n <= rs.len(),
    ensures
        body_roundtrip::read_regions(rs, t, v13_3, scope, n).len() == n,
    decreases n,
{
    if n > 0 {
        lemma_regions_len(rs, t, v13_3, scope, n - 1);
    }
}

proof fn lemma_ops_same(
    ops: Seq<OpN>,
    t: TablesV,
    u: TablesV,
    v13_3: bool,
    scope: Option<ScopeV>,
    n: int,
)
    requires
        0 <= n <= ops.len(),
        mentioned::ops_known(body_roundtrip::read_ops(ops, t, v13_3, scope, n), u, n),
        names_kept(t, u),
    ensures
        body_roundtrip::read_ops(ops, u, v13_3, scope, n) == body_roundtrip::read_ops(
            ops,
            t,
            v13_3,
            scope,
            n,
        ),
    decreases ops, 0int, n,
{
    if n > 0 {
        let q = body_roundtrip::read_ops(ops, t, v13_3, scope, n - 1);
        let x = body_roundtrip::read_op(ops[n - 1], t, v13_3, scope);
        lemma_ops_len(ops, t, v13_3, scope, n - 1);
        mentioned::lemma_ops_prefix(q, x, u, n - 1);
        assert(q.push(x)[n - 1] == x);
        lemma_ops_same(ops, t, u, v13_3, scope, n - 1);
        lemma_op_same(ops[n - 1], t, u, v13_3, scope);
    }
}

proof fn lemma_blocks_same(
    bs: Seq<BlockN>,
    t: TablesV,
    u: TablesV,
    v13_3: bool,
    scope: Option<ScopeV>,
    n: int,
)
    requires
        0 <= n <= bs.len(),
        mentioned::blocks_known(body_roundtrip::read_blocks(bs, t, v13_3, scope, n), u, n),
        names_kept(t, u),
    ensures
        body_roundtrip::read_blocks(bs, u, v13_3, scope, n) == body_roundtrip::read_blocks(
            bs,
            t,
            v13_3,
            scope,
            n,
        ),
    decreases bs, 0int, n,
{
    if n > 0 {
        let q = body_roundtrip::read_blocks(bs, t, v13_3, scope, n - 1);
        let x = body_roundtrip::read_block(bs[n - 1], t, v13_3, scope);
        let k = bs[n - 1].ops.len() as int;
        lemma_blocks_len(bs, t, v13_3, scope, n - 1);
        lemma_ops_len(bs[n - 1].ops, t, v13_3, scope, k);
        mentioned::lemma_blocks_prefix(q, x, u, n - 1);
        assert(q.push(x)[n - 1] == x);
        lemma_blocks_same(bs, t, u, v13_3, scope, n - 1);
        lemma_ops_same(bs[n - 1].ops, t, u, v13_3, scope, k);
        assert(body_roundtrip::read_block(bs[n - 1], u, v13_3, scope) == x);
    }
}

proof fn lemma_regions_same(
    rs: Seq<Seq<BlockN>>,
    t: TablesV,
    u: TablesV,
    v13_3: bool,
    scope: Option<ScopeV>,
    n: int,
)
    requires
        0 <= n <= rs.len(),
        mentioned::regions_known(body_roundtrip::read_regions(rs, t, v13_3, scope, n), u, n),
        names_kept(t, u),
    ensures
        body_roundtrip::read_regions(rs, u, v13_3, scope, n) == body_roundtrip::read_regions(
            rs,
            t,
            v13_3,
            scope,
            n,
        ),
    decreases rs, 0int, n,
{
    if n > 0 {
        let k = rs[n - 1].len() as int;
        let q = body_roundtrip::read_regions(rs, t, v13_3, scope, n - 1);
        let x = body_roundtrip::read_blocks(rs[n - 1], t, v13_3, scope, k);
        lemma_regions_len(rs, t, v13_3, scope, n - 1);
        lemma_blocks_len(rs[n - 1], t, v13_3, scope, k);
        mentioned::lemma_regions_prefix(q, x, u, n - 1);
        assert(q.push(x)[n - 1] == x);
        lemma_regions_same(rs, t, u, v13_3, scope, n - 1);
        lemma_blocks_same(rs[n - 1], t, u, v13_3, scope, k);
    }
}

// ---------------------------------------------------------------------------
// Functions without a string
// ---------------------------------------------------------------------------

/// The display name that is read back of a function is among the strings.
proof fn lemma_display_held(s: CollectV, r: RecordV, v13_3: bool)
    requires
        collect::collect_wf(s),
        records::record_checked(r, v13_3),
    ensures
        func_roundtrip::read_function(r, s.t, v13_3).di_name matches Some(x)
            ==> records::collect_record(s, r, v13_3).t.strings.contains(x),
{
    let n = r.ops.len() as int;
    let s1 = records::collect_head(s, r);
    let s2 = records::collect_scope(s1, r);
    let s3 = records::collect_record_hints(s2, r);
    let p = collect::pool(s1);
    let d = records::display_of(r);
    let (p1, x) = debug_writer::function_scope(p, r.name, d, r.location);
    records::lemma_collect_head(s, r);
    records::lemma_collect_scope(s1, r);
    records::lemma_collect_record_hints(s2, r);
    collect::lemma_collect_ops(s3, r.ops, v13_3, n);
    debug_writer::lemma_function_scope(p, r.name, d, r.location);
    debug_writer::lemma_location_attr(p1, x, r.location);
    match r.location {
        LocationV::FileLineCol(filename, _, _) => {
            let (q1, file) = debug_writer::file_attr(p, debug::file_of_path(filename));
            asked::lemma_names_held(debug_writer::unit_attr(q1, file).0, d, r.name, d);
            lemma_string_stays(p1.strings, s2.t.strings, d);
            lemma_string_stays(s2.t.strings, s3.t.strings, d);
            lemma_string_stays(
                s3.t.strings,
                records::collect_record(s, r, v13_3).t.strings,
                d,
            );
        },
        LocationV::DebugInfo(_, _, _, ScopeV::Subprogram(sp)) => {
            asked::lemma_less_subprogram(p, p, sp, sp.name);
            lemma_string_stays(p1.strings, s2.t.strings, sp.name);
            lemma_string_stays(s2.t.strings, s3.t.strings, sp.name);
            lemma_string_stays(
                s3.t.strings,
                records::collect_record(s, r, v13_3).t.strings,
                sp.name,
            );
        },
        _ => {},
    }
}

proof fn lemma_string_stays(l: Seq<Seq<char>>, m: Seq<Seq<char>>, x: Seq<char>)
    requires
        strings::extends(l, m),
        l.contains(x),
    ensures
        m.contains(x),
{
    let i = l.index_of(x);
    assert(m.take(l.len() as int)[i] == m[i]);
}

proof fn lemma_displays_held(s: CollectV, rs: Seq<RecordV>, v13_3: bool, i: int, n: int)
    requires
        collect::collect_wf(s),
        0 <= i < n <= rs.len(),
        forall|i: int| 0 <= i < rs.len() ==> records::record_checked(#[trigger] rs[i], v13_3),
    ensures
        func_roundtrip::read_function(rs[i], s.t, v13_3).di_name matches Some(x)
            ==> records::collect_records(s, rs, v13_3, n).t.strings.contains(x),
{
    let u = records::collect_records(s, rs, v13_3, i);
    records::lemma_collect_records(s, rs, v13_3, i);
    lemma_display_held(u, rs[i], v13_3);
    file_roundtrip::lemma_records_grow(s, rs, v13_3, i + 1, n);
    match func_roundtrip::read_function(rs[i], s.t, v13_3).di_name {
        Some(x) => {
            lemma_string_stays(
                records::collect_records(s, rs, v13_3, i + 1).t.strings,
                records::collect_records(s, rs, v13_3, n).t.strings,
                x,
            );
        },
        None => {},
    }
}

/// The tree of a function that was read does not hold an optional name that the
/// tables do not hold.
proof fn lemma_entry_free(r: RecordV, t: TablesV, v13_3: bool, w: Seq<char>)
    requires
        records::record_checked(r, v13_3),
        records::record_covered(t, r, v13_3),
        mentioned::ops_known(r.ops, t, r.ops.len() as int),
        mentioned::without(t, w),
        mentioned::optional_name(w),
        func_roundtrip::read_function(r, t, v13_3).di_name matches Some(x)
            ==> t.strings.contains(x),
    ensures
        ({
            let op = restore::entry_tree(func_roundtrip::read_function(r, t, v13_3));
            &&& mentioned::free_dict(op.attributes, w, op.attributes.len() as int)
            &&& mentioned::regions_free(op.regions, w, op.regions.len() as int)
        }),
{
    let f = func_roundtrip::read_function(r, t, v13_3);
    let op = restore::entry_tree(f);
    let s = op.attributes;
    let scope = func_roundtrip::record_scope(r);
    let y = choose|y: AttrName|
        layout_facts::has_default(y) && #[trigger] layout::name_text(y) == w;
    layout_facts::lemma_names_differ(AttrName::SymName, y);
    layout_facts::lemma_names_differ(AttrName::DiName, y);
    layout_facts::lemma_names_differ(AttrName::FunctionType, y);
    layout_facts::lemma_names_differ(AttrName::OptimizationHints, y);
    match r.hints {
        Some(h) => mentioned::lemma_covered_free(h, t, w),
        None => {},
    }
    assert forall|i: int| 0 <= i < s.len() implies (#[trigger] s[i]).0 != w && mentioned::free(
        s[i].1,
        w,
    ) by {}
    mentioned::lemma_each_free(s, w, s.len() as int);
    mentioned::lemma_read_ops_free(r.ops, t, v13_3, scope, r.ops.len() as int, w);
    let b = BlockN { arg_types: f.inputs, ops: f.ops };
    reveal_with_fuel(mentioned::blocks_free, 2);
    reveal_with_fuel(mentioned::regions_free, 2);
    assert(seq![b][0] == b && seq![seq![b]][0] == seq![b]);
    assert(mentioned::blocks_free(seq![b], w, 1));
}

// ---------------------------------------------------------------------------
// Files
// ---------------------------------------------------------------------------

/// The contents that are read of the file that a module was written to.
pub open spec fn contents(
    m: ModuleV,
    rs: Seq<RecordV>,
    c: CollectV,
    version: BytecodeVersion,
) -> FileN {
    file_roundtrip::read_file(m.globals, rs, c.t, version)
}

/// What is collected for the module that was read.
pub open spec fn collected_again(
    m: ModuleV,
    rs: Seq<RecordV>,
    c: CollectV,
    version: BytecodeVersion,
) -> CollectV {
    records::collect_records(
        file_roundtrip::before_functions(reader::module_of(contents(m, rs, c, version))),
        rs,
        version.spec_v13_3(),
        rs.len() as int,
    )
}

/// A module was written to a file that can be read, and what was read can be written.
pub open spec fn passed(
    m: ModuleV,
    rs: Seq<RecordV>,
    c: CollectV,
    version: BytecodeVersion,
) -> bool {
    &&& writer::collected_module(m, version) == Ok::<(Seq<RecordV>, CollectV), WriteError>((rs, c))
    &&& file_roundtrip::readable_file(m.globals, rs, c, version)
    &&& writer::file_fits(c, version)
    &&& identity::kernels_only(rs)
    &&& restore::small(reader::module_of(contents(m, rs, c, version)))
    &&& collected_again(m, rs, c, version).entries.len() < u32::MAX
}

/// What is collected for the module that was read.
proof fn lemma_collected_again(
    m: ModuleV,
    rs: Seq<RecordV>,
    c: CollectV,
    version: BytecodeVersion,
)
    requires
        passed(m, rs, c, version),
    ensures
        ({
            let f = contents(m, rs, c, version);
            let m2 = reader::module_of(f);
            let v = version.spec_v13_3();
            let c2 = collected_again(m, rs, c, version);
            &&& m2.globals == f.globals
            &&& identity::has_trees(m2, identity::entry_trees(f))
            &&& writer::collected_module(m2, version) == Ok::<(Seq<RecordV>, CollectV), WriteError>(
                (identity::records_again(rs, c.t, v), c2),
            )
            &&& collect::collect_wf(file_roundtrip::before_functions(m2))
            &&& identity::mentions(m2) is Ok
        }),
{
    let v = version.spec_v13_3();
    let gs = m.globals;
    let n = rs.len() as int;
    let f = contents(m, rs, c, version);
    let m2 = reader::module_of(f);
    let q = identity::records_again(rs, c.t, v);
    let s2 = file_roundtrip::before_functions(m2);
    writer::lemma_collected_module(m, version);
    writer::lemma_before_functions(m);
    identity::lemma_hints_known(m, version, m.functions.len() as int);
    assert forall|i: int| 0 <= i < rs.len() implies (#[trigger] rs[i]).signature is Func by {
        assert(func_roundtrip::readable_record(rs[i], v));
    }
    identity::lemma_records_again(
        file_roundtrip::before_functions(m),
        rs,
        c.t,
        v,
        c.t,
        gs.len() as int,
        n,
    );
    identity::lemma_tree_records(rs, c.t, gs, version, n);
    assert(q.take(n) =~= q);
    identity::lemma_file_scoped(gs, rs, c.t, version);
    identity::lemma_module_of_file(f);
    identity::lemma_written_from_trees(m2, identity::entry_trees(f), version);
    identity::lemma_scan_trees(
        prescan::scan_globals(attr_writer::empty_tables(), m2.globals, gs.len() as int),
        m2,
        identity::entry_trees(f),
        n,
    );
    writer::lemma_before_functions(m2);
    identity::lemma_records_again(s2, rs, c.t, v, c.t, gs.len() as int, n);
}

/// The trees of the first `n` functions that were read do not ask for an optional
/// name that the file does not hold.
proof fn lemma_trees_free(
    m: ModuleV,
    rs: Seq<RecordV>,
    c: CollectV,
    version: BytecodeVersion,
    t: TablesV,
    n: int,
    w: Seq<char>,
)
    requires
        passed(m, rs, c, version),
        0 <= n <= rs.len(),
        mentioned::without(t, w),
        mentioned::without(c.t, w),
        mentioned::optional_name(w),
        w.len() > 0,
    ensures
        mentioned::without(
            identity::scan_trees(t, identity::entry_trees(contents(m, rs, c, version)), n),
            w,
        ),
    decreases n,
{
    if n > 0 {
        let v = version.spec_v13_3();
        let fs = identity::entry_trees(contents(m, rs, c, version));
        let r = rs[n - 1];
        let op = fs[n - 1];
        let s = file_roundtrip::before_functions(m);
        lemma_trees_free(m, rs, c, version, t, n - 1, w);
        writer::lemma_collected_module(m, version);
        writer::lemma_before_functions(m);
        lemma_keys_collected(m, rs, c, version);
        assert(records::record_checked(r, v) && records::record_covered(c.t, r, v));
        assert(mentioned::ops_known(r.ops, c.t, r.ops.len() as int));
        lemma_displays_held(s, rs, v, n - 1, rs.len() as int);
        lemma_entry_free(r, c.t, v, w);
        let t1 = identity::scan_trees(t, fs, n - 1);
        let k = op.attributes.len() as int;
        mentioned::lemma_scan_free_dict(t1, op.attributes, w, k);
        mentioned::lemma_scan_regions_free(
            prescan::scan_dict(t1, op.attributes, k),
            op.regions,
            w,
            op.regions.len() as int,
        );
    }
}

/// The tables of a file hold the names of all attributes of its operations.
proof fn lemma_keys_collected(
    m: ModuleV,
    rs: Seq<RecordV>,
    c: CollectV,
    version: BytecodeVersion,
)
    requires
        writer::collected_module(m, version) == Ok::<(Seq<RecordV>, CollectV), WriteError>((rs, c)),
    ensures
        forall|i: int|
            0 <= i < rs.len() ==> mentioned::ops_known(
                (#[trigger] rs[i]).ops,
                c.t,
                rs[i].ops.len() as int,
            ),
{
    let v = version.spec_v13_3();
    let k = m.globals.len() as int;
    let e = attr_writer::empty_tables();
    let t0 = prescan::scan_globals(e, m.globals, k);
    let s = file_roundtrip::before_functions(m);
    assert(attr_writer::tables_wf(e));
    prescan::lemma_scan_globals(e, m.globals, k);
    prescan::lemma_scan_functions(t0, m, m.functions.len() as int);
    let t1 = prescan::scan_functions(t0, m, m.functions.len() as int)->Ok_0;
    writer::lemma_collected_module(m, version);
    writer::lemma_global_data(t1, m.globals, k);
    writer::lemma_before_functions(m);
    records::lemma_collect_records(s, rs, v, rs.len() as int);
    attr_writer::lemma_grows(t1, s.t, c.t);
    mentioned::lemma_records_known(t0, m, version, m.functions.len() as int, c.t);
}

/// An optional name that the first file does not hold, the second does not hold
/// either.
proof fn lemma_name_kept(
    m: ModuleV,
    rs: Seq<RecordV>,
    c: CollectV,
    version: BytecodeVersion,
    x: AttrName,
)
    requires
        passed(m, rs, c, version),
        layout_facts::has_default(x),
        mentioned::without(c.t, layout::name_text(x)),
    ensures
        mentioned::without(collected_again(m, rs, c, version).t, layout::name_text(x)),
{
    let v = version.spec_v13_3();
    let w = layout::name_text(x);
    let gs = m.globals;
    let k = gs.len() as int;
    let n = rs.len() as int;
    let f = contents(m, rs, c, version);
    let m2 = reader::module_of(f);
    let s1 = file_roundtrip::before_functions(m);
    let s2 = file_roundtrip::before_functions(m2);
    let e = attr_writer::empty_tables();
    let t0 = prescan::scan_globals(e, gs, k);
    lemma_collected_again(m, rs, c, version);
    writer::lemma_collected_module(m, version);
    writer::lemma_before_functions(m);
    assert(attr_writer::tables_wf(e));
    prescan::lemma_scan_globals(e, gs, k);
    prescan::lemma_scan_functions(t0, m, m.functions.len() as int);
    let t1 = prescan::scan_functions(t0, m, m.functions.len() as int)->Ok_0;
    writer::lemma_global_data(t1, gs, k);
    records::lemma_collect_records(s1, rs, v, n);
    attr_writer::lemma_grows(t0, t1, s1.t);
    attr_writer::lemma_grows(t0, s1.t, c.t);
    attr_writer::lemma_grown(t0, c.t);
    identity::lemma_globals_again(gs, c.t, e, v, k);
    layout_facts::lemma_name_filled(x);
    lemma_trees_free(m, rs, c, version, t0, n, w);
    identity::lemma_scan_trees(t0, m2, identity::entry_trees(f), n);
    let t2 = prescan::scan_functions(t0, m2, n)->Ok_0;
    lemma_data_strings(t2, f.globals, k);
    assert(mentioned::without(s2.t, w));
    asked::lemma_less_records(s2, s1, rs, v, n, w);
}

proof fn lemma_data_strings(t: TablesV, gs: Seq<GlobalV>, n: int)
    ensures
        writer::with_global_data(t, gs, n).strings == t.strings,
    decreases n,
{
    if n > 0 {
        lemma_data_strings(t, gs, n - 1);
    }
}

/// What is read of functions is the same with the tables of the second file.
proof fn lemma_functions_same(
    m: ModuleV,
    rs: Seq<RecordV>,
    c: CollectV,
    version: BytecodeVersion,
)
    requires
        passed(m, rs, c, version),
    ensures
        file_roundtrip::read_file(
            m.globals,
            rs,
            collected_again(m, rs, c, version).t,
            version,
        ) == contents(m, rs, c, version),
{
    let v = version.spec_v13_3();
    let f = contents(m, rs, c, version);
    let m2 = reader::module_of(f);
    let c2 = collected_again(m, rs, c, version);
    let q = identity::records_again(rs, c.t, v);
    lemma_collected_again(m, rs, c, version);
    lemma_keys_collected(m2, q, c2, version);
    assert(names_kept(c.t, c2.t)) by {
        assert forall|x: AttrName|
            layout_facts::has_default(x) && mentioned::without(
                c.t,
                #[trigger] layout::name_text(x),
            ) implies mentioned::without(c2.t, layout::name_text(x)) by {
            lemma_name_kept(m, rs, c, version, x);
        }
    }
    assert forall|i: int| 0 <= i < rs.len() implies #[trigger] func_roundtrip::read_function(
        rs[i],
        c2.t,
        v,
    ) == func_roundtrip::read_function(rs[i], c.t, v) by {
        let n = rs[i].ops.len() as int;
        let scope = func_roundtrip::record_scope(rs[i]);
        assert(q[i] == identity::record_again(rs[i], c.t, v));
        lemma_ops_len(rs[i].ops, c.t, v, scope, n);
        lemma_ops_same(rs[i].ops, c.t, c2.t, v, scope, n);
    }
    assert(file_roundtrip::read_functions(rs, c2.t, v) =~= file_roundtrip::read_functions(
        rs,
        c.t,
        v,
    ));
}

/// What is collected for the module that was read serves what was written first.
proof fn lemma_limits_again(
    m: ModuleV,
    rs: Seq<RecordV>,
    c: CollectV,
    version: BytecodeVersion,
)
    requires
        passed(m, rs, c, version),
        file_roundtrip::readable_file(
            m.globals,
            rs,
            collected_again(m, rs, c, version),
            version,
        ),
    ensures
        ({
            let m2 = reader::module_of(contents(m, rs, c, version));
            let c2 = collected_again(m, rs, c, version);
            let v = version.spec_v13_3();
            let s2 = file_roundtrip::before_functions(m2);
            &&& file_roundtrip::functions_collected(s2, rs, c2, v)
            &&& file_roundtrip::small_tables_file(c2, version)
        }),
{
    let v = version.spec_v13_3();
    let n = rs.len() as int;
    let m2 = reader::module_of(contents(m, rs, c, version));
    let s2 = file_roundtrip::before_functions(m2);
    lemma_collected_again(m, rs, c, version);
    writer::lemma_collected_module(m, version);
    records::lemma_collect_records(s2, rs, v, n);
    file_roundtrip::lemma_lists(s2, rs, v, n);
    reveal(file_roundtrip::functions_collected);
}

/// The global variables that were written first are served too.
proof fn lemma_globals_served(
    m: ModuleV,
    rs: Seq<RecordV>,
    c: CollectV,
    version: BytecodeVersion,
)
    requires
        passed(m, rs, c, version),
    ensures
        ({
            let gs = m.globals;
            let c2 = collected_again(m, rs, c, version);
            let v = version.spec_v13_3();
            &&& writer::globals_covered(c2.t, gs)
            &&& gs.len() <= c2.t.constants.len()
            &&& c2.t.constants.take(gs.len() as int) == writer::global_consts(gs, gs.len() as int)
            &&& attr_writer::placed(
                c2.t,
                gs.len() as int,
                records::records_consts(rs, v, rs.len() as int),
            )
        }),
{
    let v = version.spec_v13_3();
    let gs = m.globals;
    let k = gs.len() as int;
    let n = rs.len() as int;
    let f = contents(m, rs, c, version);
    let m2 = reader::module_of(f);
    let c2 = collected_again(m, rs, c, version);
    lemma_collected_again(m, rs, c, version);
    lemma_records_same(m, rs, c, version);
    writer::lemma_collected_module(m2, version);
    assert forall|i: int| 0 <= i < gs.len() implies {
        &&& c2.t.strings.contains((#[trigger] gs[i]).sym_name)
        &&& c2.t.types.contains(gs[i].value.element_type)
    } by {
        assert(f.globals[i] == file_roundtrip::read_global(gs[i], v));
    }
    let gc = writer::global_consts(gs, k);
    let rc = records::records_consts(rs, v, n);
    assert(writer::global_consts(f.globals, k) =~= gc);
    assert(c2.t.constants.take(k) =~= gc);
    assert(c2.t.constants.subrange(k, k + rc.len()) =~= rc);
}

/// The functions that were read have the bytes that those that were written first
/// would have in their place.
proof fn lemma_records_same(
    m: ModuleV,
    rs: Seq<RecordV>,
    c: CollectV,
    version: BytecodeVersion,
)
    requires
        passed(m, rs, c, version),
    ensures
        ({
            let q = identity::records_again(rs, c.t, version.spec_v13_3());
            let c2 = collected_again(m, rs, c, version);
            let v = version.spec_v13_3();
            let n = rs.len() as int;
            let k = m.globals.len() as int;
            &&& records::records_consts(q, v, n) == records::records_consts(rs, v, n)
            &&& records::records_bytes(q, c2.t, v, k, n) == records::records_bytes(
                rs,
                c2.t,
                v,
                k,
                n,
            )
        }),
{
    let v = version.spec_v13_3();
    let n = rs.len() as int;
    let c2 = collected_again(m, rs, c, version);
    let m2 = reader::module_of(contents(m, rs, c, version));
    let s2 = file_roundtrip::before_functions(m2);
    lemma_collected_again(m, rs, c, version);
    writer::lemma_collected_module(m, version);
    assert forall|i: int| 0 <= i < rs.len() implies {
        &&& records::record_checked(#[trigger] rs[i], v)
        &&& rs[i].kernel
        &&& rs[i].signature is Func
    } by {
        assert(func_roundtrip::readable_record(rs[i], v));
    }
    identity::lemma_records_again(s2, rs, c.t, v, c2.t, m.globals.len() as int, n);
}

/// A module that was read from a file that was written is read back as it is, and so
/// it is written to the same bytes from then on.
pub proof fn lemma_read_stable(
    m: ModuleV,
    rs: Seq<RecordV>,
    c: CollectV,
    version: BytecodeVersion,
)
    requires
        passed(m, rs, c, version),
        file_roundtrip::readable_file(
            m.globals,
            rs,
            collected_again(m, rs, c, version),
            version,
        ),
    ensures
        ({
            let f = contents(m, rs, c, version);
            writer::written(reader::module_of(f), version) matches Ok(bytes) ==> reader::file_at(
                bytes,
            ) == Ok::<FileN, ReadError>(f)
        }),
{
    let v = version.spec_v13_3();
    let gs = m.globals;
    let k = gs.len() as int;
    let f = contents(m, rs, c, version);
    let m2 = reader::module_of(f);
    let c2 = collected_again(m, rs, c, version);
    let q = identity::records_again(rs, c.t, v);
    lemma_collected_again(m, rs, c, version);
    lemma_functions_same(m, rs, c, version);
    lemma_limits_again(m, rs, c, version);
    lemma_globals_served(m, rs, c, version);
    lemma_records_same(m, rs, c, version);
    identity::lemma_globals_again(gs, c2.t, c2.t, v, k);
    assert(writer::file_bytes(f.globals, q, c2, version) == writer::file_bytes(
        gs,
        rs,
        c2,
        version,
    ));
    if writer::file_fits(c2, version) {
        file_roundtrip::lemma_bytes_round_trip(
            file_roundtrip::before_functions(m2),
            gs,
            rs,
            c2,
            version,
        );
    }
}

} // verus!
