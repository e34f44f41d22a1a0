//! Which strings the first walk over a module asks for: the names of the
//! attributes that it finds, and nothing that the attributes do not hold.
use vstd::prelude::*;
use crate::bytecode::again;
use crate::bytecode::attr_writer;
use crate::bytecode::attrs::TablesV;
use crate::bytecode::asked;
use crate::bytecode::body::BodyV;
use crate::bytecode::body;
use crate::bytecode::body_roundtrip;
use crate::bytecode::body_writer;
use crate::bytecode::collect;
use crate::bytecode::enums::BytecodeVersion;
use crate::bytecode::identity;
use crate::bytecode::layout::{AttrName, Step};
use crate::bytecode::layout;
use crate::bytecode::layout_facts;
use crate::bytecode::node::{BlockN, OpN};
use crate::bytecode::number;
use crate::bytecode::ops_again;
use crate::bytecode::prescan;
use crate::bytecode::records;
use crate::ir::attr::AttrV;
use crate::ir::attr;
use crate::ir::location::ScopeV;
use crate::ir::module::{BlockId, ModuleV, OpId, RegionId, Value};

verus! {

// ---------------------------------------------------------------------------
// The names of attributes
// ---------------------------------------------------------------------------

/// The tables hold the names of attributes.
pub open spec fn keys_in(s: Seq<(Seq<char>, AttrV)>, u: TablesV) -> bool {
    forall|i: int| 0 <= i < s.len() ==> u.strings.contains((#[trigger] s[i]).0)
}

/// The tables hold the names of the attributes of an operation and of those
/// inside it.
pub open spec fn op_known(op: OpN, u: TablesV) -> bool
    decreases op, 1int,
{
    keys_in(op.attributes, u) && regions_known(op.regions, u, op.regions.len() as int)
}

/// The tables hold the names of the attributes of the first `n` operations.
pub open spec fn ops_known(ops: Seq<OpN>, u: TablesV, n: int) -> bool
    decreases ops, n,
{
    if n <= 0 || n > ops.len() {
        true
    } else {
        ops_known(ops, u, n - 1) && op_known(ops[n - 1], u)
    }
}

/// The tables hold the names of the attributes in the first `n` blocks.
pub open spec fn blocks_known(bs: Seq<BlockN>, u: TablesV, n: int) -> bool
    decreases bs, n,
{
    if n <= 0 || n > bs.len() {
        true
    } else {
        blocks_known(bs, u, n - 1) && ops_known(bs[n - 1].ops, u, bs[n - 1].ops.len() as int)
    }
}

/// The tables hold the names of the attributes in the first `n` regions.
pub open spec fn regions_known(rs: Seq<Seq<BlockN>>, u: TablesV, n: int) -> bool
    decreases rs, n,
{
    if n <= 0 || n > rs.len() {
        true
    } else {
        regions_known(rs, u, n - 1) && blocks_known(rs[n - 1], u, rs[n - 1].len() as int)
    }
}

/// One more operation leaves those before it as they are.
pub proof fn lemma_ops_prefix(s: Seq<OpN>, op: OpN, u: TablesV, k: int)
    requires
        0 <= k <= s.len(),
    ensures
        ops_known(s.push(op), u, k) == ops_known(s, u, k),
    decreases k,
{
    if k > 0 {
        lemma_ops_prefix(s, op, u, k - 1);
    }
}

/// One more block leaves those before it as they are.
pub proof fn lemma_blocks_prefix(s: Seq<BlockN>, b: BlockN, u: TablesV, k: int)
    requires
        0 <= k <= s.len(),
    ensures
        blocks_known(s.push(b), u, k) == blocks_known(s, u, k),
    decreases k,
{
    if k > 0 {
        lemma_blocks_prefix(s, b, u, k - 1);
    }
}

/// One more region leaves those before it as they are.
pub proof fn lemma_regions_prefix(s: Seq<Seq<BlockN>>, g: Seq<BlockN>, u: TablesV, k: int)
    requires
        0 <= k <= s.len(),
    ensures
        regions_known(s.push(g), u, k) == regions_known(s, u, k),
    decreases k,
{
    if k > 0 {
        lemma_regions_prefix(s, g, u, k - 1);
    }
}

proof fn lemma_dict_keys(t: TablesV, s: Seq<(Seq<char>, AttrV)>, n: int, u: TablesV)
    requires
        attr_writer::tables_wf(t),
        0 <= n <= s.len(),
        attr_writer::grows(prescan::scan_dict(t, s, n), u),
    ensures
        forall|i: int| 0 <= i < n ==> u.strings.contains((#[trigger] s[i]).0),
    decreases n,
{
    if n > 0 {
        let t1 = prescan::scan_dict(t, s, n - 1);
        let (name, a) = s[n - 1];
        let t2 = attr_writer::with_string(t1, name);
        let t3 = prescan::scan_dict(t, s, n);
        prescan::lemma_scan_dict(t, s, n - 1);
        prescan::lemma_scan_attr(t1, name, a);
        attr_writer::lemma_grows(t1, t3, u);
        lemma_dict_keys(t, s, n - 1, u);
        attr_writer::lemma_with_string(t1, name);
        asked::lemma_intern_holds(t1.strings, name, name);
        assert(attr_writer::with_string(t2, name) == t2);
        assert(prescan::scan_attr(t2, name, a) == t3);
        prescan::lemma_scan_attr(t2, name, a);
        attr_writer::lemma_grows(t2, t3, u);
        attr_writer::lemma_grown(t2, u);
    }
}

proof fn lemma_ops_known(
    t: TablesV,
    m: ModuleV,
    ids: Seq<OpId>,
    depth: nat,
    n: int,
    env: Seq<Value>,
    d: nat,
    u: TablesV,
)
    requires
        attr_writer::tables_wf(t),
        0 <= n,
    ensures
        prescan::scan_ops(t, m, ids, depth, n) matches Ok(v) ==> (attr_writer::grows(v, u) ==> (
        number::number_ops(m, env, ids, d, n) matches Ok((ops, _)) ==> ops.len() == n && ops_known(
            ops,
            u,
            n,
        ))),
    decreases depth, 2int, n,
{
    if n > 0 {
        lemma_ops_known(t, m, ids, depth, n - 1, env, d, u);
        prescan::lemma_scan_ops(t, m, ids, depth, n - 1);
        match (
            prescan::scan_ops(t, m, ids, depth, n - 1),
            prescan::scan_ops(t, m, ids, depth, n),
            number::number_ops(m, env, ids, d, n - 1),
        ) {
            (Ok(t1), Ok(v), Ok((s, env1))) => {
                let op = m.ops[ids[n - 1].0 as int];
                let k = op.regions.len() as int;
                let t2 = collect::with_types(t1, op.result_types);
                prescan::lemma_scan_types(t1, op.result_types);
                let t3 = prescan::scan_dict(t2, op.attributes, op.attributes.len() as int);
                prescan::lemma_scan_dict(t2, op.attributes, op.attributes.len() as int);
                prescan::lemma_scan_regions(t3, m, op.regions, depth, k);
                attr_writer::lemma_grows(t1, t2, t3);
                attr_writer::lemma_grows(t3, v, u);
                attr_writer::lemma_grows(t1, t3, u);
                match number::number_op(m, env1, ids[n - 1], d) {
                    Ok((x, _)) => {
                        if attr_writer::grows(v, u) {
                            lemma_dict_keys(t2, op.attributes, op.attributes.len() as int, u);
                            lemma_regions_known(t3, m, op.regions, depth, k, env1, d, u);
                            assert(op_known(x, u));
                            lemma_ops_prefix(s, x, u, n - 1);
                            assert(s.push(x)[n - 1] == x);
                        }
                    },
                    Err(_) => {},
                }
            },
            _ => {},
        }
    }
}

proof fn lemma_blocks_known(
    t: TablesV,
    m: ModuleV,
    ids: Seq<BlockId>,
    depth: nat,
    n: int,
    env: Seq<Value>,
    d: nat,
    u: TablesV,
)
    requires
        attr_writer::tables_wf(t),
        0 <= n,
    ensures
        prescan::scan_blocks(t, m, ids, depth, n) matches Ok(v) ==> (attr_writer::grows(v, u) ==> (
        number::number_blocks(m, env, ids, d, n) matches Ok(bs) ==> bs.len() == n && blocks_known(
            bs,
            u,
            n,
        ))),
    decreases depth, 3int, n,
{
    if n > 0 {
        lemma_blocks_known(t, m, ids, depth, n - 1, env, d, u);
        prescan::lemma_scan_blocks(t, m, ids, depth, n - 1);
        match (
            prescan::scan_blocks(t, m, ids, depth, n - 1),
            prescan::scan_blocks(t, m, ids, depth, n),
            number::number_blocks(m, env, ids, d, n - 1),
        ) {
            (Ok(t1), Ok(v), Ok(s)) => {
                let b = m.blocks[ids[n - 1].0 as int];
                let k = b.ops.len() as int;
                let t2 = collect::with_types(t1, number::arg_types(b.args));
                prescan::lemma_scan_types(t1, number::arg_types(b.args));
                prescan::lemma_scan_ops(t2, m, b.ops, depth, k);
                attr_writer::lemma_grows(t2, v, u);
                attr_writer::lemma_grows(t1, t2, u);
                lemma_ops_known(
                    t2,
                    m,
                    b.ops,
                    depth,
                    k,
                    env + number::arg_values(b.args),
                    d,
                    u,
                );
                match number::number_block(m, env, ids[n - 1], d) {
                    Ok(x) => {
                        lemma_blocks_prefix(s, x, u, s.len() as int);
                        if s.len() == n - 1 {
                            assert(s.push(x)[n - 1] == x);
                        }
                    },
                    Err(_) => {},
                }
            },
            _ => {},
        }
    }
}

proof fn lemma_regions_known(
    t: TablesV,
    m: ModuleV,
    ids: Seq<RegionId>,
    depth: nat,
    n: int,
    env: Seq<Value>,
    d: nat,
    u: TablesV,
)
    requires
        attr_writer::tables_wf(t),
        0 <= n,
    ensures
        prescan::scan_regions(t, m, ids, depth, n) matches Ok(v) ==> (attr_writer::grows(v, u) ==> (
        number::number_regions(m, env, ids, d, n) matches Ok(rs) ==> rs.len() == n && regions_known(
            rs,
            u,
            n,
        ))),
    decreases depth, 0int, n,
{
    if n > 0 {
        lemma_regions_known(t, m, ids, depth, n - 1, env, d, u);
        prescan::lemma_scan_regions(t, m, ids, depth, n - 1);
        match (
            prescan::scan_regions(t, m, ids, depth, n - 1),
            prescan::scan_regions(t, m, ids, depth, n),
            number::number_regions(m, env, ids, d, n - 1),
        ) {
            (Ok(t1), Ok(v), Ok(s)) => {
                if d > 0 {
                    let blocks = m.regions[ids[n - 1].0 as int];
                    let k = blocks.len() as int;
                    let less = (depth - 1) as nat;
                    prescan::lemma_scan_blocks(t1, m, blocks, less, k);
                    attr_writer::lemma_grows(t1, v, u);
                    lemma_blocks_known(t1, m, blocks, less, k, env, (d - 1) as nat, u);
                    match number::number_blocks(m, env, blocks, (d - 1) as nat, k) {
                        Ok(g) => {
                            lemma_regions_prefix(s, g, u, s.len() as int);
                            if s.len() == n - 1 {
                                assert(s.push(g)[n - 1] == g);
                            }
                        },
                        Err(_) => {},
                    }
                }
            },
            _ => {},
        }
    }
}

// ---------------------------------------------------------------------------
// The bodies of functions
// ---------------------------------------------------------------------------

proof fn lemma_first_block(
    t: TablesV,
    m: ModuleV,
    ids: Seq<BlockId>,
    depth: nat,
    n: int,
    d: nat,
    u: TablesV,
)
    requires
        attr_writer::tables_wf(t),
        0 < n,
        prescan::scan_blocks(t, m, ids, depth, n) matches Ok(v) && attr_writer::grows(v, u),
    ensures
        ids[0].0 < m.blocks.len(),
        ({
            let b = m.blocks[ids[0].0 as int];
            let k = b.ops.len() as int;
            number::number_ops(m, number::arg_values(b.args), b.ops, d, k) matches Ok((ops, _))
                ==> ops_known(ops, u, ops.len() as int)
        }),
    decreases n,
{
    let v = prescan::scan_blocks(t, m, ids, depth, n)->Ok_0;
    let t1 = prescan::scan_blocks(t, m, ids, depth, n - 1)->Ok_0;
    let b = m.blocks[ids[n - 1].0 as int];
    let k = b.ops.len() as int;
    let t2 = collect::with_types(t1, number::arg_types(b.args));
    prescan::lemma_scan_blocks(t, m, ids, depth, n - 1);
    prescan::lemma_scan_types(t1, number::arg_types(b.args));
    prescan::lemma_scan_ops(t2, m, b.ops, depth, k);
    attr_writer::lemma_grows(t2, v, u);
    attr_writer::lemma_grows(t1, t2, u);
    if n > 1 {
        lemma_first_block(t, m, ids, depth, n - 1, d, u);
    } else {
        lemma_ops_known(t2, m, b.ops, depth, k, number::arg_values(b.args), d, u);
    }
}

proof fn lemma_first_region(
    t: TablesV,
    m: ModuleV,
    ids: Seq<RegionId>,
    depth: nat,
    n: int,
    u: TablesV,
)
    requires
        attr_writer::tables_wf(t),
        0 < n,
        prescan::scan_regions(t, m, ids, depth, n) matches Ok(v) && attr_writer::grows(v, u),
    ensures
        ids[0].0 < m.regions.len(),
        ({
            let blocks = m.regions[ids[0].0 as int];
            blocks.len() > 0 ==> {
                let b = m.blocks[blocks[0].0 as int];
                number::number_ops(
                    m,
                    number::arg_values(b.args),
                    b.ops,
                    prescan::nesting(m),
                    b.ops.len() as int,
                ) matches Ok((ops, _)) ==> ops_known(ops, u, ops.len() as int)
            }
        }),
    decreases n,
{
    let v = prescan::scan_regions(t, m, ids, depth, n)->Ok_0;
    let t1 = prescan::scan_regions(t, m, ids, depth, n - 1)->Ok_0;
    let blocks = m.regions[ids[n - 1].0 as int];
    let k = blocks.len() as int;
    let less = (depth - 1) as nat;
    prescan::lemma_scan_regions(t, m, ids, depth, n - 1);
    prescan::lemma_scan_blocks(t1, m, blocks, less, k);
    attr_writer::lemma_grows(t1, v, u);
    if n > 1 {
        lemma_first_region(t, m, ids, depth, n - 1, u);
    } else if k > 0 {
        lemma_first_block(t1, m, blocks, less, k, prescan::nesting(m), u);
    }
}

/// The tables hold the names of the attributes of all operations in the bodies of
/// the first `n` functions.
pub proof fn lemma_records_known(
    t: TablesV,
    m: ModuleV,
    version: BytecodeVersion,
    n: int,
    u: TablesV,
)
    requires
        attr_writer::tables_wf(t),
        0 <= n,
    ensures
        prescan::scan_functions(t, m, n) matches Ok(v) ==> (attr_writer::grows(v, u) ==> (
        records::records_of(m, version, n) matches Ok(rs) ==> rs.len() == n && forall|i: int|
            0 <= i < n ==> ops_known((#[trigger] rs[i]).ops, u, rs[i].ops.len() as int))),
    decreases n,
{
    if n > 0 {
        lemma_records_known(t, m, version, n - 1, u);
        prescan::lemma_scan_functions(t, m, n - 1);
        match (
            prescan::scan_functions(t, m, n - 1),
            prescan::scan_functions(t, m, n),
            records::records_of(m, version, n),
        ) {
            (Ok(t1), Ok(v), Ok(rs)) => {
                let op = m.ops[m.functions[n - 1].0 as int];
                let k = op.regions.len() as int;
                let t2 = prescan::scan_dict(t1, op.attributes, op.attributes.len() as int);
                prescan::lemma_scan_dict(t1, op.attributes, op.attributes.len() as int);
                prescan::lemma_scan_regions(t2, m, op.regions, prescan::nesting(m), k);
                attr_writer::lemma_grows(t2, v, u);
                attr_writer::lemma_grows(t1, t2, u);
                if attr_writer::grows(v, u) && k > 0 {
                    lemma_first_region(t2, m, op.regions, prescan::nesting(m), k, u);
                }
            },
            _ => {},
        }
    }
}

// ---------------------------------------------------------------------------
// Attributes without a string
// ---------------------------------------------------------------------------

/// An attribute does not hold a string.
pub open spec fn free(a: AttrV, w: Seq<char>) -> bool
    decreases a, 0int,
{
    match a {
        AttrV::Str(s) => s != w,
        AttrV::Array(s) => free_list(s, w, s.len() as int),
        AttrV::Dict(s) => free_dict(s, w, s.len() as int),
        AttrV::Hints(s) => free_hints(s, w, s.len() as int),
        _ => true,
    }
}

/// The first `n` of some attributes do not hold a string.
pub open spec fn free_list(s: Seq<AttrV>, w: Seq<char>, n: int) -> bool
    decreases s, n,
{
    if n <= 0 || n > s.len() {
        true
    } else {
        free_list(s, w, n - 1) && free(s[n - 1], w)
    }
}

/// The first `n` of some named attributes do not hold a string, as a name or inside.
pub open spec fn free_dict(s: Seq<(Seq<char>, AttrV)>, w: Seq<char>, n: int) -> bool
    decreases s, n,
{
    if n <= 0 || n > s.len() {
        true
    } else {
        free_dict(s, w, n - 1) && s[n - 1].0 != w && free(s[n - 1].1, w)
    }
}

/// The first `n` architectures do not hold a string.
pub open spec fn free_hints(
    s: Seq<(Seq<char>, Seq<(Seq<char>, AttrV)>)>,
    w: Seq<char>,
    n: int,
) -> bool
    decreases s, n,
{
    if n <= 0 || n > s.len() {
        true
    } else {
        free_hints(s, w, n - 1) && s[n - 1].0 != w && free_dict(
            s[n - 1].1,
            w,
            s[n - 1].1.len() as int,
        )
    }
}

/// The tables are without a string.
pub open spec fn without(t: TablesV, w: Seq<char>) -> bool {
    !t.strings.contains(w)
}

proof fn lemma_scan_free(t: TablesV, name: Seq<char>, a: AttrV, w: Seq<char>)
    requires
        without(t, w),
        name != w,
        free(a, w),
        w.len() > 0,
    ensures
        without(prescan::scan_attr(t, name, a), w),
    decreases a, 0int,
{
    let t1 = attr_writer::with_string(t, name);
    asked::lemma_intern_holds(t.strings, name, w);
    match a {
        AttrV::Str(s) => asked::lemma_intern_holds(t1.strings, s, w),
        AttrV::Array(s) => lemma_scan_free_list(t1, s, w, s.len() as int),
        AttrV::Dict(s) => lemma_scan_free_dict(t1, s, w, s.len() as int),
        AttrV::Hints(s) => lemma_scan_free_hints(t1, s, w, s.len() as int),
        _ => {},
    }
}

proof fn lemma_scan_free_list(t: TablesV, s: Seq<AttrV>, w: Seq<char>, n: int)
    requires
        without(t, w),
        free_list(s, w, n),
        w.len() > 0,
    ensures
        without(prescan::scan_list(t, s, n), w),
    decreases s, n,
{
    if 0 < n <= s.len() {
        lemma_scan_free_list(t, s, w, n - 1);
        lemma_scan_free(prescan::scan_list(t, s, n - 1), seq![], s[n - 1], w);
    }
}

/// Scanning attributes that do not hold a string does not ask for it.
pub proof fn lemma_scan_free_dict(t: TablesV, s: Seq<(Seq<char>, AttrV)>, w: Seq<char>, n: int)
    requires
        without(t, w),
        free_dict(s, w, n),
        w.len() > 0,
    ensures
        without(prescan::scan_dict(t, s, n), w),
    decreases s, n,
{
    if 0 < n <= s.len() {
        lemma_scan_free_dict(t, s, w, n - 1);
        lemma_scan_free(prescan::scan_dict(t, s, n - 1), s[n - 1].0, s[n - 1].1, w);
    }
}

proof fn lemma_scan_free_hints(
    t: TablesV,
    s: Seq<(Seq<char>, Seq<(Seq<char>, AttrV)>)>,
    w: Seq<char>,
    n: int,
)
    requires
        without(t, w),
        free_hints(s, w, n),
        w.len() > 0,
    ensures
        without(prescan::scan_hints(t, s, n), w),
    decreases s, n,
{
    if 0 < n <= s.len() {
        lemma_scan_free_hints(t, s, w, n - 1);
        let u = prescan::scan_hints(t, s, n - 1);
        asked::lemma_intern_holds(u.strings, s[n - 1].0, w);
        lemma_scan_free_dict(
            attr_writer::with_string(u, s[n - 1].0),
            s[n - 1].1,
            w,
            s[n - 1].1.len() as int,
        );
    }
}

/// What is read back of an attribute holds no string that the tables do not hold.
pub proof fn lemma_covered_free(a: AttrV, t: TablesV, w: Seq<char>)
    requires
        attr_writer::covers(t, a),
        without(t, w),
    ensures
        free(attr_writer::normal_attr(a), w),
    decreases a, 0int,
{
    match a {
        AttrV::Array(s) => {
            again::lemma_normal_list(s, s.len() as int);
            lemma_covered_free_list(s, t, w, s.len() as int);
        },
        AttrV::Dict(s) => {
            again::lemma_normal_dict(s, s.len() as int);
            lemma_covered_free_dict(s, t, w, s.len() as int);
        },
        AttrV::Hints(s) => {
            again::lemma_normal_hints(s, s.len() as int);
            lemma_covered_free_hints(s, t, w, s.len() as int);
        },
        _ => {},
    }
}

proof fn lemma_covered_free_list(s: Seq<AttrV>, t: TablesV, w: Seq<char>, n: int)
    requires
        0 <= n <= s.len(),
        attr_writer::covers_list(t, s, n),
        without(t, w),
    ensures
        free_list(attr_writer::normal_list(s, s.len() as int), w, n),
    decreases s, n,
{
    again::lemma_normal_list(s, s.len() as int);
    if n > 0 {
        lemma_covered_free_list(s, t, w, n - 1);
        lemma_covered_free(s[n - 1], t, w);
        assert(attr_writer::normal_list(s, s.len() as int)[n - 1] == attr_writer::normal_attr(
            s[n - 1],
        ));
    }
}

proof fn lemma_covered_free_dict(s: Seq<(Seq<char>, AttrV)>, t: TablesV, w: Seq<char>, n: int)
    requires
        0 <= n <= s.len(),
        attr_writer::covers_dict(t, s, n),
        without(t, w),
    ensures
        free_dict(attr_writer::normal_dict(s, s.len() as int), w, n),
    decreases s, n,
{
    again::lemma_normal_dict(s, s.len() as int);
    if n > 0 {
        lemma_covered_free_dict(s, t, w, n - 1);
        lemma_covered_free(s[n - 1].1, t, w);
        assert(attr_writer::normal_dict(s, s.len() as int)[n - 1] == (
            s[n - 1].0,
            attr_writer::normal_attr(s[n - 1].1),
        ));
    }
}

proof fn lemma_covered_free_hints(
    s: Seq<(Seq<char>, Seq<(Seq<char>, AttrV)>)>,
    t: TablesV,
    w: Seq<char>,
    n: int,
)
    requires
        0 <= n <= s.len(),
        attr_writer::covers_hints(t, s, n),
        without(t, w),
    ensures
        free_hints(attr_writer::normal_hints(s, s.len() as int), w, n),
    decreases s, n,
{
    again::lemma_normal_hints(s, s.len() as int);
    if n > 0 {
        let e = s[n - 1].1;
        lemma_covered_free_hints(s, t, w, n - 1);
        lemma_covered_free_dict(e, t, w, e.len() as int);
        again::lemma_normal_dict(e, e.len() as int);
        assert(attr_writer::normal_hints(s, s.len() as int)[n - 1] == (
            s[n - 1].0,
            attr_writer::normal_dict(e, e.len() as int),
        ));
    }
}

// ---------------------------------------------------------------------------
// Operations without a string
// ---------------------------------------------------------------------------

/// The attributes of an operation, and of those inside it, do not hold a string.
pub open spec fn op_free(op: OpN, w: Seq<char>) -> bool
    decreases op, 1int,
{
    free_dict(op.attributes, w, op.attributes.len() as int) && regions_free(
        op.regions,
        w,
        op.regions.len() as int,
    )
}

/// The attributes of the first `n` operations do not hold a string.
pub open spec fn ops_free(ops: Seq<OpN>, w: Seq<char>, n: int) -> bool
    decreases ops, n,
{
    if n <= 0 || n > ops.len() {
        true
    } else {
        ops_free(ops, w, n - 1) && op_free(ops[n - 1], w)
    }
}

/// The attributes in the first `n` blocks do not hold a string.
pub open spec fn blocks_free(bs: Seq<BlockN>, w: Seq<char>, n: int) -> bool
    decreases bs, n,
{
    if n <= 0 || n > bs.len() {
        true
    } else {
        blocks_free(bs, w, n - 1) && ops_free(bs[n - 1].ops, w, bs[n - 1].ops.len() as int)
    }
}

/// The attributes in the first `n` regions do not hold a string.
pub open spec fn regions_free(rs: Seq<Seq<BlockN>>, w: Seq<char>, n: int) -> bool
    decreases rs, n,
{
    if n <= 0 || n > rs.len() {
        true
    } else {
        regions_free(rs, w, n - 1) && blocks_free(rs[n - 1], w, rs[n - 1].len() as int)
    }
}

proof fn lemma_scan_op_free(t: TablesV, op: OpN, w: Seq<char>)
    requires
        without(t, w),
        op_free(op, w),
        w.len() > 0,
    ensures
        without(identity::scan_op_tree(t, op), w),
    decreases op, 1int,
{
    let t1 = collect::with_types(t, op.result_types);
    let n = op.attributes.len() as int;
    lemma_scan_free_dict(t1, op.attributes, w, n);
    lemma_scan_regions_free(
        prescan::scan_dict(t1, op.attributes, n),
        op.regions,
        w,
        op.regions.len() as int,
    );
}

proof fn lemma_scan_ops_free(t: TablesV, ops: Seq<OpN>, w: Seq<char>, n: int)
    requires
        without(t, w),
        ops_free(ops, w, n),
        w.len() > 0,
    ensures
        without(identity::scan_op_trees(t, ops, n), w),
    decreases ops, n,
{
    if 0 < n <= ops.len() {
        lemma_scan_ops_free(t, ops, w, n - 1);
        lemma_scan_op_free(identity::scan_op_trees(t, ops, n - 1), ops[n - 1], w);
    }
}

proof fn lemma_scan_blocks_free(t: TablesV, bs: Seq<BlockN>, w: Seq<char>, n: int)
    requires
        without(t, w),
        blocks_free(bs, w, n),
        w.len() > 0,
    ensures
        without(identity::scan_block_trees(t, bs, n), w),
    decreases bs, n,
{
    if 0 < n <= bs.len() {
        lemma_scan_blocks_free(t, bs, w, n - 1);
        lemma_scan_ops_free(
            collect::with_types(identity::scan_block_trees(t, bs, n - 1), bs[n - 1].arg_types),
            bs[n - 1].ops,
            w,
            bs[n - 1].ops.len() as int,
        );
    }
}

/// Scanning regions whose attributes do not hold a string does not ask for it.
pub proof fn lemma_scan_regions_free(t: TablesV, rs: Seq<Seq<BlockN>>, w: Seq<char>, n: int)
    requires
        without(t, w),
        regions_free(rs, w, n),
        w.len() > 0,
    ensures
        without(identity::scan_region_trees(t, rs, n), w),
    decreases rs, n,
{
    if 0 < n <= rs.len() {
        lemma_scan_regions_free(t, rs, w, n - 1);
        lemma_scan_blocks_free(
            identity::scan_region_trees(t, rs, n - 1),
            rs[n - 1],
            w,
            rs[n - 1].len() as int,
        );
    }
}

// ---------------------------------------------------------------------------
// What is read back of operations
// ---------------------------------------------------------------------------

/// Attributes do not hold a string, one by one.
pub open spec fn each_free(s: Seq<(Seq<char>, AttrV)>, w: Seq<char>) -> bool {
    forall|i: int| 0 <= i < s.len() ==> (#[trigger] s[i]).0 != w && free(s[i].1, w)
}

/// Attributes that do not hold a string, one by one, do not hold it together.
pub proof fn lemma_each_free(s: Seq<(Seq<char>, AttrV)>, w: Seq<char>, n: int)
    requires
        each_free(s, w),
    ensures
        free_dict(s, w, n),
    decreases n,
{
    if 0 < n <= s.len() {
        lemma_each_free(s, w, n - 1);
    }
}

/// An attribute that is found has a name that the tables hold.
pub proof fn lemma_key_found(s: Seq<(Seq<char>, AttrV)>, name: Seq<char>, u: TablesV, n: int)
    requires
        keys_in(s, u),
        body_writer::find_attr_in(s, name, n) is Some,
    ensures
        u.strings.contains(name),
    decreases n,
{
    if body_writer::find_attr_in(s, name, n - 1) is Some {
        lemma_key_found(s, name, u, n - 1);
    } else {
        assert(s[n - 1].0 == name);
    }
}

/// A string that is no attribute's name in every operation.
pub open spec fn optional_name(w: Seq<char>) -> bool {
    exists|x: AttrName| layout_facts::has_default(x) && #[trigger] layout::name_text(x) == w
}

/// What part of a body is read back as an attribute does not hold a string that the
/// tables do not hold.
proof fn lemma_added_free(op: OpN, t: TablesV, step: Step, b: BodyV, g: int, w: Seq<char>)
    requires
        body_writer::check_step(op, step, g) is None,
        body_writer::step_covered(t, op, step),
        keys_in(op.attributes, t),
        without(t, w),
        optional_name(w),
        ops_again::added(op, t, step, b) is Some,
    ensures
        layout_facts::step_name(step) is Some,
        layout::name_text(layout_facts::step_name(step)->0) != w,
        free(ops_again::added(op, t, step, b)->0, w),
{
    let n = layout_facts::step_name(step)->0;
    let x = choose|x: AttrName|
        layout_facts::has_default(x) && #[trigger] layout::name_text(x) == w;
    layout_facts::lemma_names_differ(n, x);
    if body_writer::op_attr(op, n) is Some {
        lemma_key_found(op.attributes, layout::name_text(n), t, op.attributes.len() as int);
    }
    match step {
        Step::Tagged(name) => lemma_covered_free(body_writer::any_value(op, name), t, w),
        Step::Array(name) => lemma_covered_free(
            AttrV::Array(body_writer::list_value(op, name)),
            t,
            w,
        ),
        Step::HintsIf(_) | Step::HintsFirstIf(_) => lemma_covered_free(
            AttrV::Hints(body_writer::hints_value(op)),
            t,
            w,
        ),
        Step::DictIf(_, name) => lemma_covered_free(
            AttrV::Dict(body_writer::dict_value(op, name)),
            t,
            w,
        ),
        Step::Segments => {
            let s = Seq::new(b.sizes.len(), |i: int| attr::i32_attr(b.sizes[i]));
            lemma_numbers_free(s, w, s.len() as int);
        },
        _ => {},
    }
}

proof fn lemma_numbers_free(s: Seq<AttrV>, w: Seq<char>, n: int)
    requires
        forall|i: int| 0 <= i < s.len() ==> (#[trigger] s[i]) is Integer,
    ensures
        free_list(s, w, n),
    decreases n,
{
    if 0 < n <= s.len() {
        lemma_numbers_free(s, w, n - 1);
        assert(free(s[n - 1], w)) by {
            assert(s[n - 1] is Integer);
        }
    }
}

proof fn lemma_added_attrs(op: OpN, t: TablesV, step: Step, b: BodyV)
    requires
        !body::is_value_step(step),
        !body_writer::is_regions(step),
    ensures
        ({
            let s = body_roundtrip::read_attr_step(op, t, step, b).attributes;
            match ops_again::added(op, t, step, b) {
                Some(a) => layout_facts::step_name(step) matches Some(n) && (s == b.attributes.push(
                    (layout::name_text(n), a),
                ) || s == seq![(layout::name_text(n), a)] + b.attributes),
                None => s == b.attributes,
            }
        }),
{
}

proof fn lemma_steps_free(
    op: OpN,
    t: TablesV,
    v13_3: bool,
    scope: Option<ScopeV>,
    k: int,
    w: Seq<char>,
)
    requires
        0 <= k <= layout::layout(op.opcode, v13_3).len(),
        body_writer::check_steps(op, layout::layout(op.opcode, v13_3), k) is None,
        body_writer::steps_covered(t, op, v13_3, layout::layout(op.opcode, v13_3), k),
        keys_in(op.attributes, t),
        without(t, w),
        optional_name(w),
    ensures
        each_free(ops_again::read_part(op, t, v13_3, scope, k).attributes, w),
    decreases k,
{
    if k > 0 {
        let steps = layout::layout(op.opcode, v13_3);
        let step = steps[k - 1];
        let b = ops_again::read_part(op, t, v13_3, scope, k - 1);
        let d = ops_again::read_part(op, t, v13_3, scope, k);
        lemma_steps_free(op, t, v13_3, scope, k - 1, w);
        if !body_writer::is_regions(step) && !body::is_value_step(step) {
            lemma_added_attrs(op, t, step, b);
            match ops_again::added(op, t, step, b) {
                Some(a) => {
                    lemma_added_free(
                        op,
                        t,
                        step,
                        b,
                        body_writer::groups_before(steps, k - 1),
                        w,
                    );
                    let x = (layout::name_text(layout_facts::step_name(step)->0), a);
                    assert(each_free(b.attributes.push(x), w));
                    assert(each_free(seq![x] + b.attributes, w));
                },
                None => {},
            }
        } else {
            assert(d.attributes == b.attributes);
        }
    }
}

proof fn lemma_read_op_free(op: OpN, t: TablesV, v13_3: bool, scope: Option<ScopeV>, w: Seq<char>)
    requires
        body_writer::check_op(op, v13_3) is None,
        body_writer::op_covered(t, op, v13_3),
        op_known(op, t),
        without(t, w),
        optional_name(w),
    ensures
        op_free(body_roundtrip::read_op(op, t, v13_3, scope), w),
    decreases op, 1int, 0int,
{
    let steps = layout::layout(op.opcode, v13_3);
    let k = steps.len() as int;
    let q = body_roundtrip::read_op(op, t, v13_3, scope);
    lemma_steps_free(op, t, v13_3, scope, k, w);
    lemma_each_free(q.attributes, w, q.attributes.len() as int);
    lemma_read_steps_free(op, t, v13_3, scope, k, w);
}

/// The regions that are read back, if any are.
proof fn lemma_read_steps_free(
    op: OpN,
    t: TablesV,
    v13_3: bool,
    scope: Option<ScopeV>,
    k: int,
    w: Seq<char>,
)
    requires
        0 <= k <= layout::layout(op.opcode, v13_3).len(),
        body_writer::check_regions(op.regions, v13_3, op.regions.len() as int) is None,
        body_writer::steps_covered(t, op, v13_3, layout::layout(op.opcode, v13_3), k),
        regions_known(op.regions, t, op.regions.len() as int),
        without(t, w),
        optional_name(w),
    ensures
        ({
            let r = ops_again::read_part(op, t, v13_3, scope, k).regions;
            regions_free(r, w, r.len() as int)
        }),
    decreases op, 0int, k,
{
    if k > 0 {
        let steps = layout::layout(op.opcode, v13_3);
        let step = steps[k - 1];
        let b = ops_again::read_part(op, t, v13_3, scope, k - 1);
        let d = ops_again::read_part(op, t, v13_3, scope, k);
        let n = op.regions.len() as int;
        lemma_read_steps_free(op, t, v13_3, scope, k - 1, w);
        if body_writer::is_regions(step) {
            lemma_read_regions_free(op.regions, t, v13_3, scope, n, w);
        } else {
            assert(d.regions == b.regions);
        }
    }
}

/// What is read back of operations holds no optional name that the tables do not
/// hold.
pub proof fn lemma_read_ops_free(
    ops: Seq<OpN>,
    t: TablesV,
    v13_3: bool,
    scope: Option<ScopeV>,
    n: int,
    w: Seq<char>,
)
    requires
        0 <= n <= ops.len(),
        body_writer::check_ops(ops, v13_3, n) is None,
        body_writer::ops_covered(t, ops, v13_3, n),
        ops_known(ops, t, n),
        without(t, w),
        optional_name(w),
    ensures
        ({
            let q = body_roundtrip::read_ops(ops, t, v13_3, scope, n);
            q.len() == n && ops_free(q, w, n)
        }),
    decreases ops, 0int, n,
{
    if n > 0 {
        lemma_read_ops_free(ops, t, v13_3, scope, n - 1, w);
        lemma_read_op_free(ops[n - 1], t, v13_3, scope, w);
        let q = body_roundtrip::read_ops(ops, t, v13_3, scope, n - 1);
        let x = body_roundtrip::read_op(ops[n - 1], t, v13_3, scope);
        lemma_free_ops_prefix(q, x, w, n - 1);
        assert(q.push(x)[n - 1] == x);
    }
}

proof fn lemma_read_blocks_free(
    bs: Seq<BlockN>,
    t: TablesV,
    v13_3: bool,
    scope: Option<ScopeV>,
    n: int,
    w: Seq<char>,
)
    requires
        0 <= n <= bs.len(),
        body_writer::check_blocks(bs, v13_3, n) is None,
        body_writer::blocks_covered(t, bs, v13_3, n),
        blocks_known(bs, t, n),
        without(t, w),
        optional_name(w),
    ensures
        ({
            let q = body_roundtrip::read_blocks(bs, t, v13_3, scope, n);
            q.len() == n && blocks_free(q, w, n)
        }),
    decreases bs, 0int, n,
{
    if n > 0 {
        let b = bs[n - 1];
        lemma_read_blocks_free(bs, t, v13_3, scope, n - 1, w);
        lemma_read_ops_free(b.ops, t, v13_3, scope, b.ops.len() as int, w);
        let q = body_roundtrip::read_blocks(bs, t, v13_3, scope, n - 1);
        let x = body_roundtrip::read_block(b, t, v13_3, scope);
        lemma_free_blocks_prefix(q, x, w, n - 1);
        assert(q.push(x)[n - 1] == x);
    }
}

proof fn lemma_read_regions_free(
    rs: Seq<Seq<BlockN>>,
    t: TablesV,
    v13_3: bool,
    scope: Option<ScopeV>,
    n: int,
    w: Seq<char>,
)
    requires
        0 <= n <= rs.len(),
        body_writer::check_regions(rs, v13_3, n) is None,
        body_writer::regions_covered(t, rs, v13_3, n),
        regions_known(rs, t, n),
        without(t, w),
        optional_name(w),
    ensures
        ({
            let q = body_roundtrip::read_regions(rs, t, v13_3, scope, n);
            q.len() == n && regions_free(q, w, n)
        }),
    decreases rs, 0int, n,
{
    if n > 0 {
        lemma_read_regions_free(rs, t, v13_3, scope, n - 1, w);
        lemma_read_blocks_free(rs[n - 1], t, v13_3, scope, rs[n - 1].len() as int, w);
        let q = body_roundtrip::read_regions(rs, t, v13_3, scope, n - 1);
        let x = body_roundtrip::read_blocks(rs[n - 1], t, v13_3, scope, rs[n - 1].len() as int);
        lemma_free_regions_prefix(q, x, w, n - 1);
        assert(q.push(x)[n - 1] == x);
    }
}

proof fn lemma_free_ops_prefix(s: Seq<OpN>, op: OpN, w: Seq<char>, k: int)
    requires
        0 <= k <= s.len(),
    ensures
        ops_free(s.push(op), w, k) == ops_free(s, w, k),
    decreases k,
{
    if k > 0 {
        lemma_free_ops_prefix(s, op, w, k - 1);
    }
}

proof fn lemma_free_blocks_prefix(s: Seq<BlockN>, b: BlockN, w: Seq<char>, k: int)
    requires
        0 <= k <= s.len(),
    ensures
        blocks_free(s.push(b), w, k) == blocks_free(s, w, k),
    decreases k,
{
    if k > 0 {
        lemma_free_blocks_prefix(s, b, w, k - 1);
    }
}

proof fn lemma_free_regions_prefix(s: Seq<Seq<BlockN>>, g: Seq<BlockN>, w: Seq<char>, k: int)
    requires
        0 <= k <= s.len(),
    ensures
        regions_free(s.push(g), w, k) == regions_free(s, w, k),
    decreases k,
{
    if k > 0 {
        lemma_free_regions_prefix(s, g, w, k - 1);
    }
}

} // verus!
