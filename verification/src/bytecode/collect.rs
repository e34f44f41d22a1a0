//! Filling the tables of a file: every string, type, constant and debug
//! attribute, in the order in which the file refers to them.
use vstd::prelude::*;
use crate::bytecode::attr_writer::Pools;
use crate::bytecode::attr_writer;
use crate::bytecode::attrs::TablesV;
use crate::bytecode::body;
use crate::bytecode::body_writer;
use crate::bytecode::debug_writer::{DebugInfoCollector, DebugPool};
use crate::bytecode::debug_writer;
use crate::bytecode::layout::{layout_of, AttrName, Step};
use crate::bytecode::layout;
use crate::bytecode::node::{BlockN, BlockNode, OpN, OpNode, RegionNode};
use crate::bytecode::node;
use crate::bytecode::type_writer;
use crate::ir::attr::Attribute;
use crate::ir::location::{Location, LocationV};
use crate::ir::types::{Type, TypeV};
use crate::ir::types;

verus! {

/// What has been collected: tables, debug attributes, the debug ids of each
/// function, and the scope of the function at hand.
#[verifier::ext_equal]
pub struct CollectV {
    pub t: TablesV,
    pub entries: Seq<Seq<u8>>,
    pub lists: Seq<Seq<u64>>,
    pub scope: u64,
}

/// Collects tables and debug information.
pub struct Collector {
    pub pools: Pools,
    pub debug: DebugInfoCollector,
}

impl View for Collector {
    type V = CollectV;

    open spec fn view(&self) -> CollectV {
        CollectV {
            t: self.pools@,
            entries: self.debug.attrs@,
            lists: self.debug.lists(),
            scope: self.debug.scope(),
        }
    }
}

impl Collector {
    /// The tables' own conditions.
    pub open spec fn wf(&self) -> bool {
        self.pools.wf() && self.debug.attrs.wf()
    }
}

/// The strings and debug attributes among what has been collected.
pub open spec fn pool(s: CollectV) -> DebugPool {
    DebugPool { strings: s.t.strings, entries: s.entries }
}

/// What has been collected, with other strings and debug attributes.
pub open spec fn with_pool(s: CollectV, p: DebugPool) -> CollectV {
    CollectV { t: TablesV { strings: p.strings, ..s.t }, entries: p.entries, ..s }
}

/// The location of an operation, collected.
pub open spec fn record_location(s: CollectV, l: LocationV) -> CollectV {
    let (p, id) = debug_writer::location_attr(pool(s), s.scope, l);
    CollectV {
        lists: s.lists.drop_last().push(s.lists.last().push(id)),
        ..with_pool(s, p)
    }
}

/// The tables after some types have been asked for.
pub open spec fn with_types(t: TablesV, s: Seq<TypeV>) -> TablesV {
    TablesV { types: type_writer::intern_types(t.types, s, s.len() as int), ..t }
}

/// The tables after a part of a body has been collected, regions aside.
pub open spec fn collect_step(t: TablesV, op: OpN, step: Step) -> TablesV {
    match step {
        Step::Results(_) => with_types(t, op.result_types),
        Step::ResultsCounted => with_types(t, op.result_types),
        Step::Str(name) => attr_writer::with_string(t, body_writer::str_value(op, name)),
        Step::StrIf(_, name) => if body_writer::is_present(op, step, 0) {
            attr_writer::with_string(t, body_writer::str_value(op, name))
        } else {
            t
        },
        Step::TypeRef(name) => attr_writer::with_type(t, body_writer::type_value(op, name)),
        Step::Tagged(name) => attr_writer::intern_attr(t, body_writer::any_value(op, name)),
        Step::Array(name) => attr_writer::intern_list(
            t,
            body_writer::list_value(op, name),
            body_writer::list_value(op, name).len() as int,
        ),
        Step::HintsIf(_) => attr_writer::intern_hints(
            t,
            body_writer::hints_value(op),
            body_writer::hints_value(op).len() as int,
        ),
        Step::HintsFirstIf(_) => attr_writer::intern_hints(
            t,
            body_writer::hints_value(op),
            body_writer::hints_value(op).len() as int,
        ),
        Step::DictIf(_, name) => attr_writer::intern_dict(
            t,
            body_writer::dict_value(op, name),
            body_writer::dict_value(op, name).len() as int,
        ),
        Step::Constant => attr_writer::with_constant(t, body_writer::data_value(op)),
        Step::GlobalValue => attr_writer::with_constant(t, body_writer::data_value(op)),
        _ => t,
    }
}

/// The first `k` parts of a body, collected.
pub open spec fn collect_steps(s: CollectV, op: OpN, v13_3: bool, steps: Seq<Step>, k: int) -> CollectV
    decreases op, 0int, k,
{
    if k <= 0 {
        s
    } else {
        let s1 = collect_steps(s, op, v13_3, steps, k - 1);
        if body_writer::is_regions(steps[k - 1]) {
            collect_regions(s1, op.regions, v13_3, op.regions.len() as int)
        } else {
            CollectV { t: collect_step(s1.t, op, steps[k - 1]), ..s1 }
        }
    }
}

/// An operation, collected.
pub open spec fn collect_op(s: CollectV, op: OpN, v13_3: bool) -> CollectV
    decreases op, 1int, 0int,
{
    let steps = layout::layout(op.opcode, v13_3);
    collect_steps(record_location(s, op.location), op, v13_3, steps, steps.len() as int)
}

/// The first `n` operations, collected.
pub open spec fn collect_ops(s: CollectV, ops: Seq<OpN>, v13_3: bool, n: int) -> CollectV
    decreases ops, 0int, n,
{
    if n <= 0 || n > ops.len() {
        s
    } else {
        collect_op(collect_ops(s, ops, v13_3, n - 1), ops[n - 1], v13_3)
    }
}

/// The first `n` blocks, collected.
pub open spec fn collect_blocks(s: CollectV, bs: Seq<BlockN>, v13_3: bool, n: int) -> CollectV
    decreases bs, 0int, n,
{
    if n <= 0 || n > bs.len() {
        s
    } else {
        let s1 = collect_blocks(s, bs, v13_3, n - 1);
        collect_ops(
            CollectV { t: with_types(s1.t, bs[n - 1].arg_types), ..s1 },
            bs[n - 1].ops,
            v13_3,
            bs[n - 1].ops.len() as int,
        )
    }
}

/// The first `n` regions, collected.
pub open spec fn collect_regions(s: CollectV, rs: Seq<Seq<BlockN>>, v13_3: bool, n: int) -> CollectV
    decreases rs, 0int, n,
{
    if n <= 0 || n > rs.len() {
        s
    } else {
        collect_blocks(
            collect_regions(s, rs, v13_3, n - 1),
            rs[n - 1],
            v13_3,
            rs[n - 1].len() as int,
        )
    }
}

// ---------------------------------------------------------------------------
// Growth
// ---------------------------------------------------------------------------

/// Nothing occurs twice, and types and debug attributes come behind those that
/// they refer to.
pub open spec fn collect_wf(s: CollectV) -> bool {
    attr_writer::tables_wf(s.t) && debug_writer::pool_wf(pool(s))
}

/// The last list continues, the others stay.
pub open spec fn lists_grow(a: Seq<Seq<u64>>, b: Seq<Seq<u64>>) -> bool {
    &&& a.len() == b.len()
    &&& a.drop_last() == b.drop_last()
    &&& a.last().len() <= b.last().len()
    &&& b.last().take(a.last().len() as int) == a.last()
}

/// Lists continue themselves, and continuing twice continues.
pub proof fn lemma_lists_grow(a: Seq<Seq<u64>>, b: Seq<Seq<u64>>, c: Seq<Seq<u64>>)
    ensures
        lists_grow(a, a),
        lists_grow(a, b) && lists_grow(b, c) ==> lists_grow(a, c),
{
    assert(a.last().take(a.last().len() as int) =~= a.last());
    if lists_grow(a, b) && lists_grow(b, c) {
        assert(c.last().take(a.last().len() as int) =~= b.last().take(a.last().len() as int));
    }
}

/// `u` continues `s`, with the constants `c`.
pub open spec fn collected(s: CollectV, u: CollectV, c: Seq<Seq<u8>>) -> bool {
    &&& collect_wf(u)
    &&& attr_writer::grows(s.t, u.t)
    &&& u.t.constants == s.t.constants + c
    &&& debug_writer::pool_grows(pool(s), pool(u))
    &&& u.scope == s.scope
    &&& s.lists.len() > 0 ==> lists_grow(s.lists, u.lists)
}

proof fn lemma_collected(s: CollectV, u: CollectV, v: CollectV, c: Seq<Seq<u8>>, e: Seq<Seq<u8>>)
    requires
        collected(s, u, c),
        collected(u, v, e),
    ensures
        collected(s, v, c + e),
{
    attr_writer::lemma_grows(s.t, u.t, v.t);
    debug_writer::lemma_pool_grows(pool(s), pool(u), pool(v));
    lemma_lists_grow(s.lists, u.lists, v.lists);
    assert(s.t.constants + c + e =~= s.t.constants + (c + e));
}

proof fn lemma_collected_nothing(s: CollectV)
    requires
        collect_wf(s),
    ensures
        collected(s, s, seq![]),
{
    attr_writer::lemma_grows(s.t, s.t, s.t);
    debug_writer::lemma_pool_grows(pool(s), pool(s), pool(s));
    lemma_lists_grow(s.lists, s.lists, s.lists);
    assert(s.t.constants + seq![] =~= s.t.constants);
}

/// Collecting a location.
pub proof fn lemma_record_location(s: CollectV, l: LocationV)
    requires
        collect_wf(s),
    ensures
        collected(s, record_location(s, l), seq![]),
{
    debug_writer::lemma_location_attr(pool(s), s.scope, l);
    attr_writer::lemma_grows(s.t, s.t, s.t);
    assert(s.t.constants + seq![] =~= s.t.constants);
    assert(pool(record_location(s, l)) =~= debug_writer::location_attr(pool(s), s.scope, l).0);
    let u = record_location(s, l);
    if s.lists.len() > 0 {
        assert(u.lists.drop_last() =~= s.lists.drop_last());
        assert(u.lists.last().take(s.lists.last().len() as int) =~= s.lists.last());
    }
}

/// Asking for types.
pub proof fn lemma_with_types(t: TablesV, s: Seq<TypeV>)
    requires
        attr_writer::tables_wf(t),
    ensures
        attr_writer::tables_wf(with_types(t, s)),
        attr_writer::grows(t, with_types(t, s)),
        with_types(t, s).constants == t.constants,
        type_writer::all_in(with_types(t, s).types, s),
{
    type_writer::lemma_intern_types(t.types, s, s.len() as int);
    attr_writer::lemma_grows(t, t, t);
}

/// A table grew by a part of a body.
pub proof fn lemma_table_step(s: CollectV, t: TablesV, c: Seq<Seq<u8>>)
    requires
        collect_wf(s),
        attr_writer::grown_by(s.t, t, c),
    ensures
        collected(s, (CollectV { t, ..s }), c),
{
    debug_writer::lemma_pool_grows(pool(s), pool(s), pool(s));
    lemma_lists_grow(s.lists, s.lists, s.lists);
}

/// Collecting a part of a body without regions.
pub proof fn lemma_collect_step(t: TablesV, op: OpN, step: Step)
    requires
        attr_writer::tables_wf(t),
        body_writer::check_step(op, step, 0) is None || body::is_value_step(step)
            || step is Segments,
    ensures
        attr_writer::grown_by(
            t,
            collect_step(t, op, step),
            body_writer::step_consts(op, step),
        ),
        body_writer::step_covered(collect_step(t, op, step), op, step),
{
    attr_writer::lemma_grows(t, t, t);
    assert(t.constants + seq![] =~= t.constants);
    match step {
        Step::Results(_) => lemma_with_types(t, op.result_types),
        Step::ResultsCounted => lemma_with_types(t, op.result_types),
        Step::Str(name) => attr_writer::lemma_with_string(t, body_writer::str_value(op, name)),
        Step::StrIf(_, name) => attr_writer::lemma_with_string(
            t,
            body_writer::str_value(op, name),
        ),
        Step::TypeRef(name) => attr_writer::lemma_with_type(t, body_writer::type_value(op, name)),
        Step::Tagged(name) => attr_writer::lemma_intern_attr(t, body_writer::any_value(op, name)),
        Step::Array(name) => {
            let l = body_writer::list_value(op, name);
            attr_writer::lemma_intern_list(t, l, l.len() as int);
        },
        Step::HintsIf(_) => {
            let l = body_writer::hints_value(op);
            attr_writer::lemma_intern_hints(t, l, l.len() as int);
        },
        Step::HintsFirstIf(_) => {
            let l = body_writer::hints_value(op);
            attr_writer::lemma_intern_hints(t, l, l.len() as int);
        },
        Step::DictIf(_, name) => {
            let l = body_writer::dict_value(op, name);
            attr_writer::lemma_intern_dict(t, l, l.len() as int);
        },
        Step::Constant => {
            let data = body_writer::data_value(op);
            attr_writer::lemma_with_constant(t, data);
            assert(t.constants.push(attr_writer::constant_entry(data)) =~= t.constants
                + seq![attr_writer::constant_entry(data)]);
        },
        Step::GlobalValue => {
            let data = body_writer::data_value(op);
            attr_writer::lemma_with_constant(t, data);
            assert(t.constants.push(attr_writer::constant_entry(data)) =~= t.constants
                + seq![attr_writer::constant_entry(data)]);
        },
        _ => {},
    }
}

proof fn lemma_step_covered_grows(t: TablesV, u: TablesV, op: OpN, step: Step)
    requires
        attr_writer::grows(t, u),
        body_writer::step_covered(t, op, step),
    ensures
        body_writer::step_covered(u, op, step),
{
    attr_writer::lemma_grown(t, u);
    match step {
        Step::Tagged(name) => attr_writer::lemma_covers_grows(
            t,
            u,
            body_writer::any_value(op, name),
        ),
        Step::Array(name) => {
            let l = body_writer::list_value(op, name);
            attr_writer::lemma_covers_list_grows(t, u, l, l.len() as int);
        },
        Step::HintsIf(_) => {
            let l = body_writer::hints_value(op);
            attr_writer::lemma_covers_hints_grows(t, u, l, l.len() as int);
        },
        Step::HintsFirstIf(_) => {
            let l = body_writer::hints_value(op);
            attr_writer::lemma_covers_hints_grows(t, u, l, l.len() as int);
        },
        Step::DictIf(_, name) => {
            let l = body_writer::dict_value(op, name);
            attr_writer::lemma_covers_dict_grows(t, u, l, l.len() as int);
        },
        _ => {},
    }
}

proof fn lemma_steps_covered_grows(
    t: TablesV,
    u: TablesV,
    op: OpN,
    v13_3: bool,
    steps: Seq<Step>,
    k: int,
)
    requires
        attr_writer::grows(t, u),
        body_writer::steps_covered(t, op, v13_3, steps, k),
    ensures
        body_writer::steps_covered(u, op, v13_3, steps, k),
    decreases op, 0int, k,
{
    if k > 0 {
        lemma_steps_covered_grows(t, u, op, v13_3, steps, k - 1);
        if body_writer::is_regions(steps[k - 1]) {
            lemma_regions_covered_grows(t, u, op.regions, v13_3, op.regions.len() as int);
        } else {
            lemma_step_covered_grows(t, u, op, steps[k - 1]);
        }
    }
}

/// What an operation needs stays in the tables when they grow.
pub proof fn lemma_op_covered_grows(t: TablesV, u: TablesV, op: OpN, v13_3: bool)
    requires
        attr_writer::grows(t, u),
        body_writer::op_covered(t, op, v13_3),
    ensures
        body_writer::op_covered(u, op, v13_3),
    decreases op, 1int, 0int,
{
    let steps = layout::layout(op.opcode, v13_3);
    lemma_steps_covered_grows(t, u, op, v13_3, steps, steps.len() as int);
}

/// What operations need stays in the tables when they grow.
pub proof fn lemma_ops_covered_grows(
    t: TablesV,
    u: TablesV,
    ops: Seq<OpN>,
    v13_3: bool,
    n: int,
)
    requires
        attr_writer::grows(t, u),
        body_writer::ops_covered(t, ops, v13_3, n),
    ensures
        body_writer::ops_covered(u, ops, v13_3, n),
    decreases ops, 0int, n,
{
    if 0 < n <= ops.len() {
        lemma_ops_covered_grows(t, u, ops, v13_3, n - 1);
        lemma_op_covered_grows(t, u, ops[n - 1], v13_3);
    }
}

proof fn lemma_blocks_covered_grows(
    t: TablesV,
    u: TablesV,
    bs: Seq<BlockN>,
    v13_3: bool,
    n: int,
)
    requires
        attr_writer::grows(t, u),
        body_writer::blocks_covered(t, bs, v13_3, n),
    ensures
        body_writer::blocks_covered(u, bs, v13_3, n),
    decreases bs, 0int, n,
{
    attr_writer::lemma_grown(t, u);
    if 0 < n <= bs.len() {
        lemma_blocks_covered_grows(t, u, bs, v13_3, n - 1);
        lemma_ops_covered_grows(t, u, bs[n - 1].ops, v13_3, bs[n - 1].ops.len() as int);
    }
}

proof fn lemma_regions_covered_grows(
    t: TablesV,
    u: TablesV,
    rs: Seq<Seq<BlockN>>,
    v13_3: bool,
    n: int,
)
    requires
        attr_writer::grows(t, u),
        body_writer::regions_covered(t, rs, v13_3, n),
    ensures
        body_writer::regions_covered(u, rs, v13_3, n),
    decreases rs, 0int, n,
{
    if 0 < n <= rs.len() {
        lemma_regions_covered_grows(t, u, rs, v13_3, n - 1);
        lemma_blocks_covered_grows(t, u, rs[n - 1], v13_3, rs[n - 1].len() as int);
    }
}

/// Collecting parts of a body.
pub proof fn lemma_collect_steps(s: CollectV, op: OpN, v13_3: bool, steps: Seq<Step>, k: int)
    requires
        collect_wf(s),
        body_writer::check_steps(op, steps, k) is None,
        body_writer::check_regions(op.regions, v13_3, op.regions.len() as int) is None,
    ensures
        collected(
            s,
            collect_steps(s, op, v13_3, steps, k),
            body_writer::steps_consts(op, v13_3, steps, k),
        ),
        body_writer::steps_covered(
            collect_steps(s, op, v13_3, steps, k).t,
            op,
            v13_3,
            steps,
            k,
        ),
    decreases op, 0int, k,
{
    if k > 0 {
        lemma_collect_steps(s, op, v13_3, steps, k - 1);
        let u = collect_steps(s, op, v13_3, steps, k - 1);
        let v = collect_steps(s, op, v13_3, steps, k);
        let step = steps[k - 1];
        let c = body_writer::steps_consts(op, v13_3, steps, k - 1);
        if body_writer::is_regions(step) {
            lemma_collect_regions(u, op.regions, v13_3, op.regions.len() as int);
            let e = body_writer::regions_consts(op.regions, v13_3, op.regions.len() as int);
            lemma_collected(s, u, v, c, e);
        } else {
            lemma_collect_step(u.t, op, step);
            let e = body_writer::step_consts(op, step);
            lemma_table_step(u, collect_step(u.t, op, step), e);
            lemma_collected(s, u, v, c, e);
        }
        lemma_steps_covered_grows(u.t, v.t, op, v13_3, steps, k - 1);
    } else {
        lemma_collected_nothing(s);
    }
}

/// Collecting an operation puts what it needs into the tables.
pub proof fn lemma_collect_op(s: CollectV, op: OpN, v13_3: bool)
    requires
        collect_wf(s),
        body_writer::check_op(op, v13_3) is None,
    ensures
        collected(s, collect_op(s, op, v13_3), body_writer::op_consts(op, v13_3)),
        body_writer::op_covered(collect_op(s, op, v13_3).t, op, v13_3),
    decreases op, 1int, 0int,
{
    let steps = layout::layout(op.opcode, v13_3);
    let u = record_location(s, op.location);
    lemma_record_location(s, op.location);
    lemma_collect_steps(u, op, v13_3, steps, steps.len() as int);
    let c = body_writer::op_consts(op, v13_3);
    lemma_collected(s, u, collect_op(s, op, v13_3), seq![], c);
    assert(seq![] + c =~= c);
}

/// Collecting operations puts what they need into the tables.
pub proof fn lemma_collect_ops(s: CollectV, ops: Seq<OpN>, v13_3: bool, n: int)
    requires
        collect_wf(s),
        body_writer::check_ops(ops, v13_3, n) is None,
    ensures
        collected(
            s,
            collect_ops(s, ops, v13_3, n),
            body_writer::ops_consts(ops, v13_3, n),
        ),
        body_writer::ops_covered(collect_ops(s, ops, v13_3, n).t, ops, v13_3, n),
    decreases ops, 0int, n,
{
    if 0 < n <= ops.len() {
        lemma_collect_ops(s, ops, v13_3, n - 1);
        let u = collect_ops(s, ops, v13_3, n - 1);
        let v = collect_ops(s, ops, v13_3, n);
        lemma_collect_op(u, ops[n - 1], v13_3);
        lemma_collected(
            s,
            u,
            v,
            body_writer::ops_consts(ops, v13_3, n - 1),
            body_writer::op_consts(ops[n - 1], v13_3),
        );
        lemma_ops_covered_grows(u.t, v.t, ops, v13_3, n - 1);
    } else {
        lemma_collected_nothing(s);
    }
}

/// Collecting blocks.
pub proof fn lemma_collect_blocks(s: CollectV, bs: Seq<BlockN>, v13_3: bool, n: int)
    requires
        collect_wf(s),
        body_writer::check_blocks(bs, v13_3, n) is None,
    ensures
        collected(
            s,
            collect_blocks(s, bs, v13_3, n),
            body_writer::blocks_consts(bs, v13_3, n),
        ),
        body_writer::blocks_covered(collect_blocks(s, bs, v13_3, n).t, bs, v13_3, n),
    decreases bs, 0int, n,
{
    if 0 < n <= bs.len() {
        lemma_collect_blocks(s, bs, v13_3, n - 1);
        let u = collect_blocks(s, bs, v13_3, n - 1);
        let b = bs[n - 1];
        let u2 = CollectV { t: with_types(u.t, b.arg_types), ..u };
        lemma_with_types(u.t, b.arg_types);
        assert(u.t.constants + seq![] =~= u.t.constants);
        lemma_table_step(u, u2.t, seq![]);
        lemma_collect_ops(u2, b.ops, v13_3, b.ops.len() as int);
        let v = collect_blocks(s, bs, v13_3, n);
        let e = body_writer::ops_consts(b.ops, v13_3, b.ops.len() as int);
        lemma_collected(u, u2, v, seq![], e);
        assert(seq![] + e =~= e);
        lemma_collected(s, u, v, body_writer::blocks_consts(bs, v13_3, n - 1), e);
        lemma_blocks_covered_grows(u.t, v.t, bs, v13_3, n - 1);
        attr_writer::lemma_grown(u2.t, v.t);
    } else {
        lemma_collected_nothing(s);
    }
}

/// Collecting regions.
pub proof fn lemma_collect_regions(s: CollectV, rs: Seq<Seq<BlockN>>, v13_3: bool, n: int)
    requires
        collect_wf(s),
        body_writer::check_regions(rs, v13_3, n) is None,
    ensures
        collected(
            s,
            collect_regions(s, rs, v13_3, n),
            body_writer::regions_consts(rs, v13_3, n),
        ),
        body_writer::regions_covered(collect_regions(s, rs, v13_3, n).t, rs, v13_3, n),
    decreases rs, 0int, n,
{
    if 0 < n <= rs.len() {
        lemma_collect_regions(s, rs, v13_3, n - 1);
        let u = collect_regions(s, rs, v13_3, n - 1);
        let v = collect_regions(s, rs, v13_3, n);
        lemma_collect_blocks(u, rs[n - 1], v13_3, rs[n - 1].len() as int);
        lemma_collected(
            s,
            u,
            v,
            body_writer::regions_consts(rs, v13_3, n - 1),
            body_writer::blocks_consts(rs[n - 1], v13_3, rs[n - 1].len() as int),
        );
        lemma_regions_covered_grows(u.t, v.t, rs, v13_3, n - 1);
    } else {
        lemma_collected_nothing(s);
    }
}

// ---------------------------------------------------------------------------
// Collecting
// ---------------------------------------------------------------------------

impl Pools {
    /// Ask for types.
    pub fn add_types(&mut self, tys: &Vec<Type>)
        requires
            old(self).wf(),
        ensures
            final(self).wf(),
            final(self)@ == with_types(old(self)@, types::types_view(tys@)),
    {
        self.types.insert_all(tys);
        assert(self@ =~= with_types(old(self)@, types::types_view(tys@)));
    }
}

impl Collector {
    /// Nothing collected.
    pub fn new() -> (c: Collector)
        ensures
            c.wf(),
            c@ == nothing_collected(),
    {
        let c = Collector { pools: Pools::new(), debug: DebugInfoCollector::new() };
        assert(c@ =~= nothing_collected());
        c
    }

    fn add_location(&mut self, l: &Location)
        requires
            old(self).wf(),
            old(self)@.lists.len() > 0,
        ensures
            final(self).wf(),
            final(self)@ == record_location(old(self)@, l@),
    {
        self.debug.record_op(&mut self.pools.strings, l);
        assert(self@ =~= record_location(old(self)@, l@));
    }

    fn add_part(&mut self, op: &OpNode, step: Step)
        requires
            old(self).wf(),
            !body_writer::is_regions(step),
            body_writer::check_step(op@, step, 0) is None || body::is_value_step(step)
                || step is Segments,
        ensures
            final(self).wf(),
            final(self)@ == (CollectV {
                t: collect_step(old(self)@.t, op@, step),
                ..old(self)@
            }),
    {
        match step {
            Step::Results(_) => self.pools.add_types(&op.result_types),
            Step::ResultsCounted => self.pools.add_types(&op.result_types),
            Step::Str(name) => match op.attribute(name) {
                Some(Attribute::String(s)) => self.pools.add_string(s.as_str()),
                _ => {},
            },
            Step::StrIf(_, name) => match op.attribute(name) {
                Some(Attribute::String(s)) => self.pools.add_string(s.as_str()),
                _ => {},
            },
            Step::TypeRef(name) => match op.attribute(name) {
                Some(Attribute::Type(t)) => self.pools.add_type(t),
                _ => {},
            },
            Step::Tagged(name) => match op.attribute(name) {
                Some(a) => self.pools.add_attr(a),
                None => {},
            },
            Step::Array(name) => match op.attribute(name) {
                Some(Attribute::Array(v)) => self.pools.add_list(v),
                _ => {},
            },
            Step::HintsIf(_) => match op.attribute(AttrName::OptimizationHints) {
                Some(Attribute::OptimizationHints(h)) => self.pools.add_hints(&h.entries),
                _ => {},
            },
            Step::HintsFirstIf(_) => match op.attribute(AttrName::OptimizationHints) {
                Some(Attribute::OptimizationHints(h)) => self.pools.add_hints(&h.entries),
                _ => {},
            },
            Step::DictIf(_, name) => match op.attribute(name) {
                Some(Attribute::Dictionary(v)) => self.pools.add_dict(v),
                _ => {},
            },
            Step::Constant => match op.attribute(AttrName::Value) {
                Some(Attribute::DenseElements(d)) => self.pools.add_constant(&d.data),
                _ => {},
            },
            Step::GlobalValue => match op.attribute(AttrName::Value) {
                Some(Attribute::DenseElements(d)) => self.pools.add_constant(&d.data),
                _ => {},
            },
            _ => {},
        }
        assert(self@ =~= (CollectV {
            t: collect_step(old(self)@.t, op@, step),
            ..old(self)@
        }));
    }

    /// Collect an operation.
    pub fn add_op(&mut self, op: &OpNode, v13_3: bool)
        requires
            old(self).wf(),
            old(self)@.lists.len() > 0,
            body_writer::check_op(op@, v13_3) is None,
        ensures
            final(self).wf(),
            final(self)@ == collect_op(old(self)@, op@, v13_3),
            final(self)@.lists.len() == old(self)@.lists.len(),
        decreases *op, 0int,
    {
        let ghost o = op@;
        self.add_location(&op.location);
        let ghost s1 = self@;
        let steps = layout_of(op.opcode, v13_3);
        let ghost sv = steps@;
        let ghost n = sv.len() as int;
        let mut k: usize = 0;
        while k < steps.len()
            invariant
                k <= steps@.len(),
                sv == steps@,
                n == sv.len(),
                o == op@,
                self.wf(),
                self@.lists.len() > 0,
                self@.lists.len() == old(self)@.lists.len(),
                body_writer::check_steps(o, sv, n) is None,
                body_writer::check_regions(o.regions, v13_3, o.regions.len() as int) is None,
                self@ == collect_steps(s1, o, v13_3, sv, k as int),
            decreases steps@.len() - k,
        {
            proof {
                body_writer::lemma_check_part(o, sv, k + 1, n);
                body_writer::lemma_check_any_group(o, sv[k as int], body_writer::groups_before(sv, k as int));
            }
            let step = steps[k];
            let is_regions: bool = match step {
                Step::Regions => true,
                Step::Region => true,
                _ => false,
            };
            if is_regions {
                self.add_regions(&op.regions, v13_3);
            } else {
                self.add_part(op, step);
            }
            k = k + 1;
        }
    }

    /// Collect operations.
    pub fn add_ops(&mut self, ops: &Vec<OpNode>, v13_3: bool)
        requires
            old(self).wf(),
            old(self)@.lists.len() > 0,
            body_writer::check_ops(node::ops_view(ops@), v13_3, ops@.len() as int) is None,
        ensures
            final(self).wf(),
            final(self)@ == collect_ops(
                old(self)@,
                node::ops_view(ops@),
                v13_3,
                ops@.len() as int,
            ),
            final(self)@.lists.len() == old(self)@.lists.len(),
        decreases ops@, 0int,
    {
        let ghost s0 = self@;
        let ghost ov = node::ops_view(ops@);
        let mut i: usize = 0;
        while i < ops.len()
            invariant
                i <= ops@.len(),
                ov == node::ops_view(ops@),
                self.wf(),
                self@.lists.len() > 0,
                self@.lists.len() == old(self)@.lists.len(),
                body_writer::check_ops(ov, v13_3, ov.len() as int) is None,
                self@ == collect_ops(s0, ov, v13_3, i as int),
            decreases ops@.len() - i,
        {
            proof {
                body_writer::lemma_check_ops_part(ov, v13_3, i + 1, ov.len() as int);
                assert(ov[i as int] == ops@[i as int]@);
            }
            self.add_op(&ops[i], v13_3);
            i = i + 1;
        }
    }

    fn add_blocks(&mut self, bs: &Vec<BlockNode>, v13_3: bool)
        requires
            old(self).wf(),
            old(self)@.lists.len() > 0,
            body_writer::check_blocks(node::blocks_view(bs@), v13_3, bs@.len() as int) is None,
        ensures
            final(self).wf(),
            final(self)@ == collect_blocks(
                old(self)@,
                node::blocks_view(bs@),
                v13_3,
                bs@.len() as int,
            ),
            final(self)@.lists.len() == old(self)@.lists.len(),
        decreases bs@, 0int,
    {
        let ghost s0 = self@;
        let ghost bv = node::blocks_view(bs@);
        let mut i: usize = 0;
        while i < bs.len()
            invariant
                i <= bs@.len(),
                bv == node::blocks_view(bs@),
                self.wf(),
                self@.lists.len() > 0,
                self@.lists.len() == old(self)@.lists.len(),
                body_writer::check_blocks(bv, v13_3, bv.len() as int) is None,
                self@ == collect_blocks(s0, bv, v13_3, i as int),
            decreases bs@.len() - i,
        {
            proof {
                body_writer::lemma_check_blocks_part(bv, v13_3, i + 1, bv.len() as int);
                assert(bv[i as int] == bs@[i as int]@);
            }
            let ghost before = self@;
            self.pools.add_types(&bs[i].arg_types);
            assert(self@ =~= (CollectV {
                t: with_types(before.t, bv[i as int].arg_types),
                ..before
            }));
            self.add_ops(&bs[i].ops, v13_3);
            i = i + 1;
        }
    }

    fn add_regions(&mut self, rs: &Vec<RegionNode>, v13_3: bool)
        requires
            old(self).wf(),
            old(self)@.lists.len() > 0,
            body_writer::check_regions(node::regions_view(rs@), v13_3, rs@.len() as int) is None,
        ensures
            final(self).wf(),
            final(self)@ == collect_regions(
                old(self)@,
                node::regions_view(rs@),
                v13_3,
                rs@.len() as int,
            ),
            final(self)@.lists.len() == old(self)@.lists.len(),
        decreases rs@, 0int,
    {
        let ghost s0 = self@;
        let ghost rv = node::regions_view(rs@);
        let mut i: usize = 0;
        while i < rs.len()
            invariant
                i <= rs@.len(),
                rv == node::regions_view(rs@),
                self.wf(),
                self@.lists.len() > 0,
                self@.lists.len() == old(self)@.lists.len(),
                body_writer::check_regions(rv, v13_3, rv.len() as int) is None,
                self@ == collect_regions(s0, rv, v13_3, i as int),
            decreases rs@.len() - i,
        {
            proof {
                body_writer::lemma_check_regions_part(rv, v13_3, i + 1, rv.len() as int);
                assert(rv[i as int] == rs@[i as int]@);
            }
            self.add_blocks(&rs[i].blocks, v13_3);
            i = i + 1;
        }
    }
}

/// Nothing collected.
pub open spec fn nothing_collected() -> CollectV {
    CollectV {
        t: attr_writer::empty_tables(),
        entries: seq![],
        lists: seq![],
        scope: 0,
    }
}

} // verus!
