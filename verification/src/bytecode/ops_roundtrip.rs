//! Operations, blocks and regions are read back as they were written.
use vstd::prelude::*;
use crate::bytecode::attr_writer;
use crate::bytecode::attrs::TablesV;
use crate::bytecode::body::{BodyV, CtxV};
use crate::bytecode::body;
use crate::bytecode::body_roundtrip;
use crate::bytecode::body_writer;
use crate::bytecode::collect::CollectV;
use crate::bytecode::collect;
use crate::bytecode::debug;
use crate::bytecode::debug_roundtrip;
use crate::bytecode::debug_writer::DebugPool;
use crate::bytecode::debug_writer;
use crate::bytecode::flags;
use crate::bytecode::layout::Step;
use crate::bytecode::layout;
use crate::bytecode::node::{BlockN, OpN};
use crate::bytecode::opcode::Opcode;
use crate::bytecode::opcode;
use crate::bytecode::type_writer;
use crate::bytecode::types as wire_types;
use crate::bytecode::wire;
use crate::error::{ReadError, Subject};
use crate::ir::location::{LocationV, ScopeV};
use crate::ir::types::TypeV;

verus! {

// ---------------------------------------------------------------------------
// The setting
// ---------------------------------------------------------------------------

/// What a function's operations are read with: the context, the debug ids of
/// the function, its scope, and the strings and debug attributes of the file.
pub struct Reading {
    pub c: CtxV,
    pub ids: Seq<u64>,
    pub scope: Option<ScopeV>,
    pub q: DebugPool,
}

/// The parts of a reading belong together.
#[verifier::opaque]
pub open spec fn reading_ok(r: Reading) -> bool {
    &&& attr_writer::small_tables(r.c.tables)
    &&& debug_roundtrip::served(r.c.debug, r.q)
    &&& r.q.strings == r.c.tables.strings
    &&& debug::func_ids(r.c.debug, r.c.func) == Some(debug_roundtrip::ints(r.ids))
}

/// What had been collected when a part of the function was written.
#[verifier::opaque]
pub open spec fn collecting(r: Reading, s: CollectV) -> bool {
    &&& collect::collect_wf(s)
    &&& s.lists.len() > 0
    &&& debug_roundtrip::scope_known(r.c.debug, r.q.strings, s.scope, r.scope)
}

/// What has been collected is part of the file.
#[verifier::opaque]
pub open spec fn within(r: Reading, s: CollectV) -> bool {
    &&& debug_writer::pool_grows(collect::pool(s), r.q)
    &&& s.lists.last().len() <= r.ids.len()
    &&& r.ids.take(s.lists.last().len() as int) == s.lists.last()
}

/// The number of debug ids collected for the function.
pub open spec fn used(s: CollectV) -> int {
    s.lists.last().len() as int
}

/// Of what was collected in two stages the first is part of the file where the
/// second is.
proof fn lemma_stage(r: Reading, u: CollectV, w: CollectV, e: Seq<Seq<u8>>)
    requires
        collecting(r, u),
        collect::collected(u, w, e),
        within(r, w),
    ensures
        within(r, u),
        collecting(r, w),
{
    reveal(collecting);
    reveal(within);
    debug_writer::lemma_pool_grows(collect::pool(u), collect::pool(w), r.q);
    assert(r.ids.take(used(u)) =~= r.ids.take(used(w)).take(used(u)));
}

proof fn lemma_carried(r: Reading, s: CollectV, u: CollectV, e: Seq<Seq<u8>>)
    requires
        collecting(r, s),
        collect::collected(s, u, e),
    ensures
        collecting(r, u),
{
    reveal(collecting);
}

proof fn lemma_location_holds(r: Reading, s: CollectV, l: LocationV)
    requires
        reading_ok(r),
        collecting(r, s),
        within(r, collect::record_location(s, l)),
    ensures
        body::location_at(r.c, used(s)) == Ok::<(LocationV, int), ReadError>(
            (debug_roundtrip::read_location(r.scope, l), used(s) + 1),
        ),
        used(collect::record_location(s, l)) == used(s) + 1,
{
    reveal(reading_ok);
    reveal(collecting);
    reveal(within);
    let u = collect::record_location(s, l);
    let (p, id) = debug_writer::location_attr(collect::pool(s), s.scope, l);
    assert(collect::pool(u) =~= p);
    debug_roundtrip::lemma_location_resolves(
        r.c.debug,
        collect::pool(s),
        s.scope,
        r.scope,
        l,
        r.q,
    );
    assert(u.lists.last() == s.lists.last().push(id));
    assert(r.ids.take(used(u))[used(s)] == id);
    assert(r.ids[used(s)] == id);
    assert(debug_roundtrip::ints(r.ids)[used(s)] == id as int);
}

// ---------------------------------------------------------------------------
// Stages of collecting
// ---------------------------------------------------------------------------

proof fn lemma_steps_stage(r: Reading, s: CollectV, op: OpN, steps: Seq<Step>, k: int)
    requires
        collecting(r, s),
        0 < k <= steps.len(),
        within(r, collect::collect_steps(s, op, r.c.v13_3, steps, k)),
        body_writer::check_steps(op, steps, k) is None,
        body_writer::check_regions(op.regions, r.c.v13_3, op.regions.len() as int) is None,
    ensures
        within(r, collect::collect_steps(s, op, r.c.v13_3, steps, k - 1)),
        collecting(r, collect::collect_steps(s, op, r.c.v13_3, steps, k - 1)),
{
    let v = r.c.v13_3;
    let u = collect::collect_steps(s, op, v, steps, k - 1);
    let w = collect::collect_steps(s, op, v, steps, k);
    reveal(collecting);
    collect::lemma_collect_steps(s, op, v, steps, k - 1);
    lemma_carried(r, s, u, body_writer::steps_consts(op, v, steps, k - 1));
    if body_writer::is_regions(steps[k - 1]) {
        collect::lemma_collect_regions(u, op.regions, v, op.regions.len() as int);
        lemma_stage(
            r,
            u,
            w,
            body_writer::regions_consts(op.regions, v, op.regions.len() as int),
        );
    } else {
        let e = body_writer::step_consts(op, steps[k - 1]);
        collect::lemma_collect_step(u.t, op, steps[k - 1]);
        collect::lemma_table_step(u, w.t, e);
        lemma_stage(r, u, w, e);
    }
}

proof fn lemma_op_stage(r: Reading, s: CollectV, op: OpN)
    requires
        collecting(r, s),
        within(r, collect::collect_op(s, op, r.c.v13_3)),
        body_writer::check_op(op, r.c.v13_3) is None,
    ensures
        within(r, collect::record_location(s, op.location)),
        collecting(r, collect::record_location(s, op.location)),
{
    let v = r.c.v13_3;
    let u = collect::record_location(s, op.location);
    let w = collect::collect_op(s, op, v);
    let steps = layout::layout(op.opcode, v);
    reveal(collecting);
    collect::lemma_record_location(s, op.location);
    lemma_carried(r, s, u, seq![]);
    collect::lemma_collect_steps(u, op, v, steps, steps.len() as int);
    lemma_stage(r, u, w, body_writer::op_consts(op, v));
}

/// What was collected for all but the last operation.
pub proof fn lemma_ops_stage(r: Reading, s: CollectV, ops: Seq<OpN>, n: int)
    requires
        collecting(r, s),
        0 < n <= ops.len(),
        within(r, collect::collect_ops(s, ops, r.c.v13_3, n)),
        body_writer::check_ops(ops, r.c.v13_3, n) is None,
    ensures
        within(r, collect::collect_ops(s, ops, r.c.v13_3, n - 1)),
        collecting(r, collect::collect_ops(s, ops, r.c.v13_3, n - 1)),
{
    let v = r.c.v13_3;
    let u = collect::collect_ops(s, ops, v, n - 1);
    let w = collect::collect_ops(s, ops, v, n);
    reveal(collecting);
    collect::lemma_collect_ops(s, ops, v, n - 1);
    lemma_carried(r, s, u, body_writer::ops_consts(ops, v, n - 1));
    collect::lemma_collect_op(u, ops[n - 1], v);
    lemma_stage(r, u, w, body_writer::op_consts(ops[n - 1], v));
}

proof fn lemma_args_stage(r: Reading, s: CollectV, tys: Seq<TypeV>)
    requires
        collecting(r, s),
    ensures
        collecting(r, (CollectV { t: collect::with_types(s.t, tys), ..s })),
        used(CollectV { t: collect::with_types(s.t, tys), ..s }) == used(s),
{
    reveal(collecting);
    let u = CollectV { t: collect::with_types(s.t, tys), ..s };
    collect::lemma_with_types(s.t, tys);
    assert(collect::pool(u) == collect::pool(s));
}

proof fn lemma_blocks_stage(r: Reading, s: CollectV, bs: Seq<BlockN>, n: int)
    requires
        collecting(r, s),
        0 < n <= bs.len(),
        within(r, collect::collect_blocks(s, bs, r.c.v13_3, n)),
        body_writer::check_blocks(bs, r.c.v13_3, n) is None,
    ensures
        within(r, collect::collect_blocks(s, bs, r.c.v13_3, n - 1)),
        collecting(r, collect::collect_blocks(s, bs, r.c.v13_3, n - 1)),
{
    let v = r.c.v13_3;
    let b = bs[n - 1];
    let u = collect::collect_blocks(s, bs, v, n - 1);
    let u2 = CollectV { t: collect::with_types(u.t, b.arg_types), ..u };
    let w = collect::collect_blocks(s, bs, v, n);
    reveal(collecting);
    collect::lemma_collect_blocks(s, bs, v, n - 1);
    lemma_carried(r, s, u, body_writer::blocks_consts(bs, v, n - 1));
    collect::lemma_with_types(u.t, b.arg_types);
    assert(u.t.constants + seq![] =~= u.t.constants);
    collect::lemma_table_step(u, u2.t, seq![]);
    lemma_carried(r, u, u2, seq![]);
    collect::lemma_collect_ops(u2, b.ops, v, b.ops.len() as int);
    lemma_stage(r, u2, w, body_writer::ops_consts(b.ops, v, b.ops.len() as int));
    lemma_stage(r, u, u2, seq![]);
}

proof fn lemma_regions_stage(r: Reading, s: CollectV, rs: Seq<Seq<BlockN>>, n: int)
    requires
        collecting(r, s),
        0 < n <= rs.len(),
        within(r, collect::collect_regions(s, rs, r.c.v13_3, n)),
        body_writer::check_regions(rs, r.c.v13_3, n) is None,
    ensures
        within(r, collect::collect_regions(s, rs, r.c.v13_3, n - 1)),
        collecting(r, collect::collect_regions(s, rs, r.c.v13_3, n - 1)),
{
    let v = r.c.v13_3;
    let u = collect::collect_regions(s, rs, v, n - 1);
    let w = collect::collect_regions(s, rs, v, n);
    reveal(collecting);
    collect::lemma_collect_regions(s, rs, v, n - 1);
    lemma_carried(r, s, u, body_writer::regions_consts(rs, v, n - 1));
    collect::lemma_collect_blocks(u, rs[n - 1], v, rs[n - 1].len() as int);
    lemma_stage(r, u, w, body_writer::blocks_consts(rs[n - 1], v, rs[n - 1].len() as int));
}

// ---------------------------------------------------------------------------
// What was written
// ---------------------------------------------------------------------------

/// The first `k` parts of a body stand at position `p`, with constants from
/// index `cc` on.
#[verifier::opaque]
pub open spec fn steps_written(
    c: CtxV,
    d: Seq<u8>,
    p: int,
    next: int,
    op: OpN,
    cc: int,
    steps: Seq<Step>,
    k: int,
) -> bool {
    &&& 0 <= k <= steps.len()
    &&& flags::masks_grow(steps, steps.len() as int)
    &&& body_writer::check_steps(op, steps, k) is None
    &&& body_writer::check_regions(op.regions, c.v13_3, op.regions.len() as int) is None
    &&& body_writer::steps_covered(c.tables, op, c.v13_3, steps, k)
    &&& forall|i: int| 0 <= i < steps.len() ==> body_roundtrip::readable_step(op, #[trigger] steps[i])
    &&& body_roundtrip::readable_regions(op.regions, c.v13_3, op.regions.len() as int)
    &&& body_roundtrip::scoped_op(op, next)
    &&& attr_writer::placed(c.tables, cc, body_writer::steps_consts(op, c.v13_3, steps, k))
    &&& wire::holds_at(d, p, body_writer::steps_bytes(op, c.tables, c.v13_3, cc, steps, k))
}

/// An operation stands at position `p`.
#[verifier::opaque]
pub open spec fn op_written(c: CtxV, d: Seq<u8>, p: int, next: int, op: OpN, cc: int) -> bool {
    &&& body_writer::check_op(op, c.v13_3) is None
    &&& body_writer::op_covered(c.tables, op, c.v13_3)
    &&& body_roundtrip::readable_op(op, c.v13_3)
    &&& body_roundtrip::scoped_op(op, next)
    &&& attr_writer::placed(c.tables, cc, body_writer::op_consts(op, c.v13_3))
    &&& wire::holds_at(d, p, body_writer::op_bytes(op, c.tables, c.v13_3, cc))
}

/// The first `n` operations stand at position `p`.
#[verifier::opaque]
pub open spec fn ops_written(
    c: CtxV,
    d: Seq<u8>,
    p: int,
    next: int,
    ops: Seq<OpN>,
    cc: int,
    n: int,
) -> bool {
    &&& 0 <= n <= ops.len()
    &&& body_writer::check_ops(ops, c.v13_3, n) is None
    &&& body_writer::ops_covered(c.tables, ops, c.v13_3, n)
    &&& body_roundtrip::readable_ops(ops, c.v13_3, n)
    &&& body_roundtrip::scoped_ops(ops, next, n)
    &&& attr_writer::placed(c.tables, cc, body_writer::ops_consts(ops, c.v13_3, n))
    &&& wire::holds_at(d, p, body_writer::ops_bytes(ops, c.tables, c.v13_3, cc, n))
}

/// A block stands at position `p`.
#[verifier::opaque]
pub open spec fn block_written(c: CtxV, d: Seq<u8>, p: int, next: int, b: BlockN, cc: int) -> bool {
    let n = b.ops.len() as int;
    &&& body_writer::check_ops(b.ops, c.v13_3, n) is None
    &&& type_writer::all_in(c.tables.types, b.arg_types)
    &&& body_writer::ops_covered(c.tables, b.ops, c.v13_3, n)
    &&& b.arg_types.len() <= u32::MAX
    &&& b.ops.len() <= u32::MAX
    &&& body_roundtrip::readable_ops(b.ops, c.v13_3, n)
    &&& body_roundtrip::scoped_ops(b.ops, next + b.arg_types.len(), n)
    &&& attr_writer::placed(c.tables, cc, body_writer::ops_consts(b.ops, c.v13_3, n))
    &&& wire::holds_at(d, p, body_writer::block_bytes(b, c.tables, c.v13_3, cc))
}

/// The first `n` blocks stand at position `p`.
#[verifier::opaque]
pub open spec fn blocks_written(
    c: CtxV,
    d: Seq<u8>,
    p: int,
    next: int,
    bs: Seq<BlockN>,
    cc: int,
    n: int,
) -> bool {
    &&& 0 <= n <= bs.len()
    &&& body_writer::check_blocks(bs, c.v13_3, n) is None
    &&& body_writer::blocks_covered(c.tables, bs, c.v13_3, n)
    &&& body_roundtrip::readable_blocks(bs, c.v13_3, n)
    &&& body_roundtrip::scoped_blocks(bs, next, n)
    &&& attr_writer::placed(c.tables, cc, body_writer::blocks_consts(bs, c.v13_3, n))
    &&& wire::holds_at(d, p, body_writer::blocks_bytes(bs, c.tables, c.v13_3, cc, n))
}

/// The first `n` regions stand at position `p`.
#[verifier::opaque]
pub open spec fn regions_written(
    c: CtxV,
    d: Seq<u8>,
    p: int,
    next: int,
    rs: Seq<Seq<BlockN>>,
    cc: int,
    n: int,
) -> bool {
    &&& 0 <= n <= rs.len()
    &&& body_writer::check_regions(rs, c.v13_3, n) is None
    &&& body_writer::regions_covered(c.tables, rs, c.v13_3, n)
    &&& body_roundtrip::readable_regions(rs, c.v13_3, n)
    &&& body_roundtrip::scoped_regions(rs, next, n)
    &&& attr_writer::placed(c.tables, cc, body_writer::regions_consts(rs, c.v13_3, n))
    &&& wire::holds_at(d, p, body_writer::regions_bytes(rs, c.tables, c.v13_3, cc, n))
}

/// The length of a count in front of regions.
pub open spec fn region_head(step: Step, n: nat) -> Seq<u8> {
    if step is Regions {
        wire::varint_bytes(n as u64)
    } else {
        seq![]
    }
}

/// Where part `k` of a body ends that starts at `p`.
pub open spec fn steps_end(c: CtxV, p: int, op: OpN, cc: int, steps: Seq<Step>, k: int) -> int {
    p + body_writer::steps_bytes(op, c.tables, c.v13_3, cc, steps, k).len()
}

proof fn lemma_steps_part(
    c: CtxV,
    d: Seq<u8>,
    p: int,
    next: int,
    op: OpN,
    cc: int,
    steps: Seq<Step>,
    k: int,
)
    requires
        k > 0,
        steps_written(c, d, p, next, op, cc, steps, k),
    ensures
        steps_written(c, d, p, next, op, cc, steps, k - 1),
        0 < k <= steps.len(),
        body_writer::check_steps(op, steps, k) is None,
        body_writer::check_regions(op.regions, c.v13_3, op.regions.len() as int) is None,
{
    reveal(steps_written);
    let step = steps[k - 1];
    let e = body_writer::steps_consts(op, c.v13_3, steps, k - 1);
    let x = body_writer::steps_bytes(op, c.tables, c.v13_3, cc, steps, k - 1);
    let at = cc + e.len();
    if body_writer::is_regions(step) {
        let n = op.regions.len() as int;
        attr_writer::lemma_placed_split(
            c.tables,
            cc,
            e,
            body_writer::regions_consts(op.regions, c.v13_3, n),
        );
        wire::lemma_holds_split(
            d,
            p,
            x,
            region_head(step, op.regions.len()) + body_writer::regions_bytes(
                op.regions,
                c.tables,
                c.v13_3,
                at,
                n,
            ),
        );
    } else {
        attr_writer::lemma_placed_split(c.tables, cc, e, body_writer::step_consts(op, step));
        if body::is_value_step(step) {
            wire::lemma_holds_split(
                d,
                p,
                x,
                body_writer::value_step_bytes(op, c.tables, steps, k - 1),
            );
        } else {
            wire::lemma_holds_split(
                d,
                p,
                x,
                body_writer::attr_step_bytes(op, c.tables, at, step),
            );
        }
    }
}

proof fn lemma_regions_part_of_steps(
    c: CtxV,
    d: Seq<u8>,
    p: int,
    next: int,
    op: OpN,
    cc: int,
    steps: Seq<Step>,
    k: int,
)
    requires
        k > 0,
        steps_written(c, d, p, next, op, cc, steps, k),
        body_writer::is_regions(steps[k - 1]),
    ensures
        ({
            let q = steps_end(c, p, op, cc, steps, k - 1);
            let n = op.regions.len() as int;
            let at = cc + body_writer::steps_consts(op, c.v13_3, steps, k - 1).len();
            let h = region_head(steps[k - 1], op.regions.len());
            &&& regions_written(c, d, q + h.len(), next, op.regions, at, n)
            &&& steps[k - 1] is Regions ==> wire::count_at(d, q, Subject::Region) == Ok::<
                (int, int),
                ReadError,
            >((n, q + h.len()))
            &&& steps[k - 1] is Region ==> n == 1
            &&& steps_end(c, p, op, cc, steps, k) == q + h.len() + body_writer::regions_bytes(
                op.regions,
                c.tables,
                c.v13_3,
                at,
                n,
            ).len()
        }),
{
    reveal(steps_written);
    reveal(regions_written);
    let step = steps[k - 1];
    let n = op.regions.len() as int;
    let e = body_writer::steps_consts(op, c.v13_3, steps, k - 1);
    let x = body_writer::steps_bytes(op, c.tables, c.v13_3, cc, steps, k - 1);
    let at = cc + e.len();
    let h = region_head(step, op.regions.len());
    let y = body_writer::regions_bytes(op.regions, c.tables, c.v13_3, at, n);
    attr_writer::lemma_placed_split(
        c.tables,
        cc,
        e,
        body_writer::regions_consts(op.regions, c.v13_3, n),
    );
    wire::lemma_holds_split(d, p, x, h + y);
    wire::lemma_holds_split(d, p + x.len(), h, y);
    if step is Regions {
        assert(body_roundtrip::readable_step(op, step));
        wire::lemma_count_holds(d, p + x.len(), n, Subject::Region);
    }
}

/// An operation that was written is an opcode and a body.
pub proof fn lemma_op_part(c: CtxV, d: Seq<u8>, p: int, next: int, op: OpN, cc: int)
    requires
        op_written(c, d, p, next, op, cc),
    ensures
        ({
            let steps = layout::layout(op.opcode, c.v13_3);
            let raw = op.opcode.spec_value() as u64;
            let h = wire::varint_bytes(raw).len();
            &&& steps_written(c, d, p + h, next, op, cc, steps, steps.len() as int)
            &&& wire::varint_at(d, p) == Ok::<(u64, int), ReadError>((raw, p + h))
            &&& h > 0
            &&& opcode::opcode_of((raw % 0x1_0000) as u16) == Some(op.opcode)
            &&& p + body_writer::op_bytes(op, c.tables, c.v13_3, cc).len() == steps_end(
                c,
                p + h,
                op,
                cc,
                steps,
                steps.len() as int,
            )
            &&& p + h <= d.len()
        }),
{
    reveal(op_written);
    reveal(steps_written);
    let steps = layout::layout(op.opcode, c.v13_3);
    let raw = op.opcode.spec_value() as u64;
    let h = wire::varint_bytes(raw);
    let y = body_writer::steps_bytes(op, c.tables, c.v13_3, cc, steps, steps.len() as int);
    wire::lemma_holds_split(d, p, h, y);
    wire::lemma_varint_holds(d, p, raw);
    opcode::lemma_opcode_of(op.opcode);
    assert((raw % 0x1_0000) as u16 == op.opcode.spec_value());
    flags::lemma_layout(op.opcode, c.v13_3);
}

/// An operation that was written ends where the bytes end or before.
pub proof fn lemma_op_fits(c: CtxV, d: Seq<u8>, p: int, next: int, op: OpN, cc: int)
    requires
        op_written(c, d, p, next, op, cc),
    ensures
        p + body_writer::op_bytes(op, c.tables, c.v13_3, cc).len() <= d.len(),
        0 <= p,
{
    reveal(op_written);
}

/// The last of some operations stands behind the others.
pub proof fn lemma_ops_part(
    c: CtxV,
    d: Seq<u8>,
    p: int,
    next: int,
    ops: Seq<OpN>,
    cc: int,
    n: int,
)
    requires
        n > 0,
        ops_written(c, d, p, next, ops, cc, n),
    ensures
        0 < n <= ops.len(),
        body_writer::check_ops(ops, c.v13_3, n) is None,
        ops_written(c, d, p, next, ops, cc, n - 1),
        op_written(
            c,
            d,
            p + body_writer::ops_bytes(ops, c.tables, c.v13_3, cc, n - 1).len(),
            body_roundtrip::next_after(ops, next, n - 1),
            ops[n - 1],
            cc + body_writer::ops_consts(ops, c.v13_3, n - 1).len(),
        ),
        body_writer::ops_bytes(ops, c.tables, c.v13_3, cc, n).len() == body_writer::ops_bytes(
            ops,
            c.tables,
            c.v13_3,
            cc,
            n - 1,
        ).len() + body_writer::op_bytes(
            ops[n - 1],
            c.tables,
            c.v13_3,
            cc + body_writer::ops_consts(ops, c.v13_3, n - 1).len(),
        ).len(),
{
    reveal(ops_written);
    reveal(op_written);
    let e = body_writer::ops_consts(ops, c.v13_3, n - 1);
    attr_writer::lemma_placed_split(c.tables, cc, e, body_writer::op_consts(ops[n - 1], c.v13_3));
    wire::lemma_holds_split(
        d,
        p,
        body_writer::ops_bytes(ops, c.tables, c.v13_3, cc, n - 1),
        body_writer::op_bytes(ops[n - 1], c.tables, c.v13_3, cc + e.len()),
    );
}

proof fn lemma_blocks_part(
    c: CtxV,
    d: Seq<u8>,
    p: int,
    next: int,
    bs: Seq<BlockN>,
    cc: int,
    n: int,
)
    requires
        n > 0,
        blocks_written(c, d, p, next, bs, cc, n),
    ensures
        0 < n <= bs.len(),
        body_writer::check_blocks(bs, c.v13_3, n) is None,
        blocks_written(c, d, p, next, bs, cc, n - 1),
        block_written(
            c,
            d,
            p + body_writer::blocks_bytes(bs, c.tables, c.v13_3, cc, n - 1).len(),
            next,
            bs[n - 1],
            cc + body_writer::blocks_consts(bs, c.v13_3, n - 1).len(),
        ),
        body_writer::blocks_bytes(bs, c.tables, c.v13_3, cc, n).len() == body_writer::blocks_bytes(
            bs,
            c.tables,
            c.v13_3,
            cc,
            n - 1,
        ).len() + body_writer::block_bytes(
            bs[n - 1],
            c.tables,
            c.v13_3,
            cc + body_writer::blocks_consts(bs, c.v13_3, n - 1).len(),
        ).len(),
{
    reveal(blocks_written);
    reveal(block_written);
    let b = bs[n - 1];
    let e = body_writer::blocks_consts(bs, c.v13_3, n - 1);
    attr_writer::lemma_placed_split(
        c.tables,
        cc,
        e,
        body_writer::ops_consts(b.ops, c.v13_3, b.ops.len() as int),
    );
    wire::lemma_holds_split(
        d,
        p,
        body_writer::blocks_bytes(bs, c.tables, c.v13_3, cc, n - 1),
        body_writer::block_bytes(b, c.tables, c.v13_3, cc + e.len()),
    );
}

proof fn lemma_regions_part(
    c: CtxV,
    d: Seq<u8>,
    p: int,
    next: int,
    rs: Seq<Seq<BlockN>>,
    cc: int,
    n: int,
)
    requires
        n > 0,
        regions_written(c, d, p, next, rs, cc, n),
    ensures
        0 < n <= rs.len(),
        body_writer::check_regions(rs, c.v13_3, n) is None,
        regions_written(c, d, p, next, rs, cc, n - 1),
        ({
            let q = p + body_writer::regions_bytes(rs, c.tables, c.v13_3, cc, n - 1).len();
            let k = rs[n - 1].len() as int;
            let h = wire::varint_bytes(rs[n - 1].len() as u64).len();
            let at = cc + body_writer::regions_consts(rs, c.v13_3, n - 1).len();
            &&& h > 0
            &&& q + h <= d.len()
            &&& wire::count_at(d, q, Subject::Block) == Ok::<(int, int), ReadError>((k, q + h))
            &&& blocks_written(c, d, q + h, next, rs[n - 1], at, k)
            &&& p + body_writer::regions_bytes(rs, c.tables, c.v13_3, cc, n).len() == q + h
                + body_writer::blocks_bytes(rs[n - 1], c.tables, c.v13_3, at, k).len()
        }),
{
    reveal(regions_written);
    reveal(blocks_written);
    let bs = rs[n - 1];
    let k = bs.len() as int;
    let e = body_writer::regions_consts(rs, c.v13_3, n - 1);
    let x = body_writer::regions_bytes(rs, c.tables, c.v13_3, cc, n - 1);
    let h = wire::varint_bytes(bs.len() as u64);
    let y = body_writer::blocks_bytes(bs, c.tables, c.v13_3, cc + e.len(), k);
    attr_writer::lemma_placed_split(
        c.tables,
        cc,
        e,
        body_writer::blocks_consts(bs, c.v13_3, k),
    );
    wire::lemma_holds_split(d, p, x, h + y);
    wire::lemma_holds_split(d, p + x.len(), h, y);
    wire::lemma_varint_holds(d, p + x.len(), bs.len() as u64);
    wire::lemma_count_holds(d, p + x.len(), k, Subject::Block);
}

proof fn lemma_block_part(c: CtxV, d: Seq<u8>, p: int, next: int, b: BlockN, cc: int)
    requires
        attr_writer::small_tables(c.tables),
        block_written(c, d, p, next, b, cc),
    ensures
        ({
            let a = wire::varint_bytes(b.arg_types.len() as u64).len();
            let x = body_writer::types_bytes(c.tables, b.arg_types).len();
            let h = wire::varint_bytes(b.ops.len() as u64).len();
            let k = b.ops.len() as int;
            &&& wire::count_at(d, p, Subject::BlockArgument) == Ok::<(int, int), ReadError>(
                (b.arg_types.len() as int, p + a),
            )
            &&& wire_types::type_refs_at(
                d,
                p + a,
                c.tables.types,
                Subject::Type,
                b.arg_types.len() as int,
            ) == Ok::<(Seq<TypeV>, int), ReadError>((b.arg_types, p + a + x))
            &&& wire::count_at(d, p + a + x, Subject::BlockOperation) == Ok::<
                (int, int),
                ReadError,
            >((k, p + a + x + h))
            &&& ops_written(c, d, p + a + x + h, next + b.arg_types.len(), b.ops, cc, k)
            &&& body_writer::block_bytes(b, c.tables, c.v13_3, cc).len() == a + x + h
                + body_writer::ops_bytes(b.ops, c.tables, c.v13_3, cc, k).len()
        }),
{
    reveal(block_written);
    reveal(ops_written);
    let t = c.tables;
    let k = b.ops.len() as int;
    let a = wire::varint_bytes(b.arg_types.len() as u64);
    let x = body_writer::types_bytes(t, b.arg_types);
    let h = wire::varint_bytes(b.ops.len() as u64);
    let y = body_writer::ops_bytes(b.ops, t, c.v13_3, cc, k);
    wire::lemma_holds_split(d, p, a + x + h, y);
    wire::lemma_holds_split(d, p, a + x, h);
    wire::lemma_holds_split(d, p, a, x);
    wire::lemma_count_holds(d, p, b.arg_types.len() as int, Subject::BlockArgument);
    body_roundtrip::lemma_types_hold(
        d,
        p + a.len(),
        t,
        b.arg_types,
        b.arg_types.len() as int,
    );
    assert(b.arg_types.take(b.arg_types.len() as int) =~= b.arg_types);
    wire::lemma_count_holds(d, p + (a + x).len(), k, Subject::BlockOperation);
}

// ---------------------------------------------------------------------------
// What is read
// ---------------------------------------------------------------------------

/// The first `k` parts of a body are read.
#[verifier::opaque]
pub open spec fn steps_read(
    c: CtxV,
    d: Seq<u8>,
    p: int,
    next: int,
    cur: int,
    depth: nat,
    steps: Seq<Step>,
    k: int,
    b: BodyV,
    cur2: int,
    q: int,
) -> bool {
    body::steps_at(c, d, p, next, cur, depth, steps, k) == Ok::<(BodyV, int, int), ReadError>(
        (b, cur2, q),
    )
}

/// An operation is read.
#[verifier::opaque]
pub open spec fn op_is_read(
    c: CtxV,
    d: Seq<u8>,
    p: int,
    next: int,
    cur: int,
    depth: nat,
    op: OpN,
    cur2: int,
    q: int,
) -> bool {
    body::op_at(c, d, p, next, cur, depth) == Ok::<(OpN, int, int), ReadError>((op, cur2, q))
}

/// `n` operations are read.
#[verifier::opaque]
pub open spec fn ops_are_read(
    c: CtxV,
    d: Seq<u8>,
    p: int,
    next: int,
    cur: int,
    depth: nat,
    n: int,
    ops: Seq<OpN>,
    next2: int,
    cur2: int,
    q: int,
) -> bool {
    body::ops_at(c, d, p, next, cur, depth, n) == Ok::<(Seq<OpN>, int, int, int), ReadError>(
        (ops, next2, cur2, q),
    )
}

/// A block is read.
#[verifier::opaque]
pub open spec fn block_is_read(
    c: CtxV,
    d: Seq<u8>,
    p: int,
    next: int,
    cur: int,
    depth: nat,
    b: BlockN,
    cur2: int,
    q: int,
) -> bool {
    body::block_at(c, d, p, next, cur, depth) == Ok::<(BlockN, int, int), ReadError>((b, cur2, q))
}

/// `n` blocks are read.
#[verifier::opaque]
pub open spec fn blocks_are_read(
    c: CtxV,
    d: Seq<u8>,
    p: int,
    next: int,
    cur: int,
    depth: nat,
    n: int,
    bs: Seq<BlockN>,
    cur2: int,
    q: int,
) -> bool {
    body::blocks_at(c, d, p, next, cur, depth, n) == Ok::<(Seq<BlockN>, int, int), ReadError>(
        (bs, cur2, q),
    )
}

/// `n` regions are read.
#[verifier::opaque]
pub open spec fn regions_are_read(
    c: CtxV,
    d: Seq<u8>,
    p: int,
    next: int,
    cur: int,
    depth: nat,
    n: int,
    rs: Seq<Seq<BlockN>>,
    cur2: int,
    q: int,
) -> bool {
    body::regions_at(c, d, p, next, cur, depth, n) == Ok::<
        (Seq<Seq<BlockN>>, int, int),
        ReadError,
    >((rs, cur2, q))
}

proof fn lemma_no_steps(c: CtxV, d: Seq<u8>, p: int, next: int, cur: int, depth: nat, steps: Seq<Step>)
    ensures
        steps_read(c, d, p, next, cur, depth, steps, 0, body::empty_body(), cur, p),
{
    reveal(steps_read);
}

proof fn lemma_next_step(
    c: CtxV,
    d: Seq<u8>,
    p: int,
    next: int,
    cur: int,
    depth: nat,
    steps: Seq<Step>,
    k: int,
    b: BodyV,
    cur2: int,
    q: int,
    b2: BodyV,
    q2: int,
)
    requires
        k > 0,
        steps_read(c, d, p, next, cur, depth, steps, k - 1, b, cur2, q),
        !body_writer::is_regions(steps[k - 1]),
        body::is_value_step(steps[k - 1]) ==> body::value_step_at(c, d, q, next, steps[k - 1], b)
            == Ok::<(BodyV, int), ReadError>((b2, q2)),
        !body::is_value_step(steps[k - 1]) ==> body::attr_step_at(c, d, q, steps[k - 1], b)
            == Ok::<(BodyV, int), ReadError>((b2, q2)),
    ensures
        steps_read(c, d, p, next, cur, depth, steps, k, b2, cur2, q2),
{
    reveal(steps_read);
    assert(body::step_at(c, d, q, next, cur2, depth, steps[k - 1], b) == Ok::<
        (BodyV, int, int),
        ReadError,
    >((b2, cur2, q2)));
}

proof fn lemma_next_regions(
    c: CtxV,
    d: Seq<u8>,
    p: int,
    next: int,
    cur: int,
    depth: nat,
    steps: Seq<Step>,
    k: int,
    b: BodyV,
    cur2: int,
    q: int,
    h: int,
    n: int,
    rs: Seq<Seq<BlockN>>,
    cur3: int,
    q2: int,
)
    requires
        k > 0,
        steps_read(c, d, p, next, cur, depth, steps, k - 1, b, cur2, q),
        body_writer::is_regions(steps[k - 1]),
        steps[k - 1] is Regions ==> wire::count_at(d, q, Subject::Region) == Ok::<
            (int, int),
            ReadError,
        >((n, q + h)),
        steps[k - 1] is Region ==> n == 1 && h == 0,
        regions_are_read(c, d, q + h, next, cur2, depth, n, rs, cur3, q2),
    ensures
        steps_read(
            c,
            d,
            p,
            next,
            cur,
            depth,
            steps,
            k,
            (BodyV { regions: rs, ..b }),
            cur3,
            q2,
        ),
{
    reveal(steps_read);
    reveal(regions_are_read);
    assert(body::step_at(c, d, q, next, cur2, depth, steps[k - 1], b) == Ok::<
        (BodyV, int, int),
        ReadError,
    >((BodyV { regions: rs, ..b }, cur3, q2)));
}

proof fn lemma_op_read(
    c: CtxV,
    d: Seq<u8>,
    p: int,
    next: int,
    cur: int,
    depth: nat,
    raw: u64,
    code: Opcode,
    l: LocationV,
    cur2: int,
    q: int,
    b: BodyV,
    cur3: int,
    q2: int,
)
    requires
        depth > 0,
        body::location_at(c, cur) == Ok::<(LocationV, int), ReadError>((l, cur2)),
        wire::varint_at(d, p) == Ok::<(u64, int), ReadError>((raw, q)),
        opcode::opcode_of((raw % 0x1_0000) as u16) == Some(code),
        steps_read(
            c,
            d,
            q,
            next,
            cur2,
            (depth - 1) as nat,
            layout::layout(code, c.v13_3),
            layout::layout(code, c.v13_3).len() as int,
            b,
            cur3,
            q2,
        ),
    ensures
        op_is_read(c, d, p, next, cur, depth, body::finish_op(code, b, l), cur3, q2),
{
    reveal(steps_read);
    reveal(op_is_read);
}

proof fn lemma_no_ops(c: CtxV, d: Seq<u8>, p: int, next: int, cur: int, depth: nat)
    ensures
        ops_are_read(c, d, p, next, cur, depth, 0, seq![], next, cur, p),
{
    reveal(ops_are_read);
}

proof fn lemma_next_op(
    c: CtxV,
    d: Seq<u8>,
    p: int,
    next: int,
    cur: int,
    depth: nat,
    n: int,
    ops: Seq<OpN>,
    next2: int,
    cur2: int,
    q: int,
    op: OpN,
    cur3: int,
    q2: int,
)
    requires
        n > 0,
        ops_are_read(c, d, p, next, cur, depth, n - 1, ops, next2, cur2, q),
        op_is_read(c, d, q, next2, cur2, depth, op, cur3, q2),
    ensures
        ops_are_read(
            c,
            d,
            p,
            next,
            cur,
            depth,
            n,
            ops.push(op),
            next2 + op.result_types.len(),
            cur3,
            q2,
        ),
{
    reveal(ops_are_read);
    reveal(op_is_read);
}

proof fn lemma_block_read(
    c: CtxV,
    d: Seq<u8>,
    p: int,
    next: int,
    cur: int,
    depth: nat,
    tys: Seq<TypeV>,
    q: int,
    q2: int,
    k: int,
    q3: int,
    ops: Seq<OpN>,
    next2: int,
    cur2: int,
    q4: int,
)
    requires
        wire::count_at(d, p, Subject::BlockArgument) == Ok::<(int, int), ReadError>(
            (tys.len() as int, q),
        ),
        wire_types::type_refs_at(d, q, c.tables.types, Subject::Type, tys.len() as int) == Ok::<
            (Seq<TypeV>, int),
            ReadError,
        >((tys, q2)),
        wire::count_at(d, q2, Subject::BlockOperation) == Ok::<(int, int), ReadError>((k, q3)),
        ops_are_read(c, d, q3, next + tys.len(), cur, depth, k, ops, next2, cur2, q4),
    ensures
        block_is_read(
            c,
            d,
            p,
            next,
            cur,
            depth,
            (BlockN { arg_types: tys, ops }),
            cur2,
            q4,
        ),
{
    reveal(ops_are_read);
    reveal(block_is_read);
}

proof fn lemma_no_blocks(c: CtxV, d: Seq<u8>, p: int, next: int, cur: int, depth: nat)
    ensures
        blocks_are_read(c, d, p, next, cur, depth, 0, seq![], cur, p),
{
    reveal(blocks_are_read);
}

proof fn lemma_next_block(
    c: CtxV,
    d: Seq<u8>,
    p: int,
    next: int,
    cur: int,
    depth: nat,
    n: int,
    bs: Seq<BlockN>,
    cur2: int,
    q: int,
    b: BlockN,
    cur3: int,
    q2: int,
)
    requires
        n > 0,
        blocks_are_read(c, d, p, next, cur, depth, n - 1, bs, cur2, q),
        block_is_read(c, d, q, next, cur2, depth, b, cur3, q2),
    ensures
        blocks_are_read(c, d, p, next, cur, depth, n, bs.push(b), cur3, q2),
{
    reveal(blocks_are_read);
    reveal(block_is_read);
}

proof fn lemma_no_regions(c: CtxV, d: Seq<u8>, p: int, next: int, cur: int, depth: nat)
    ensures
        regions_are_read(c, d, p, next, cur, depth, 0, seq![], cur, p),
{
    reveal(regions_are_read);
}

proof fn lemma_next_region(
    c: CtxV,
    d: Seq<u8>,
    p: int,
    next: int,
    cur: int,
    depth: nat,
    n: int,
    rs: Seq<Seq<BlockN>>,
    cur2: int,
    q: int,
    k: int,
    q2: int,
    bs: Seq<BlockN>,
    cur3: int,
    q3: int,
)
    requires
        n > 0,
        depth > 0,
        regions_are_read(c, d, p, next, cur, depth, n - 1, rs, cur2, q),
        wire::count_at(d, q, Subject::Block) == Ok::<(int, int), ReadError>((k, q2)),
        blocks_are_read(c, d, q2, next, cur2, (depth - 1) as nat, k, bs, cur3, q3),
    ensures
        regions_are_read(c, d, p, next, cur, depth, n, rs.push(bs), cur3, q3),
{
    reveal(regions_are_read);
    reveal(blocks_are_read);
    assert(body::region_at(c, d, q, next, cur2, (depth - 1) as nat) == Ok::<
        (Seq<BlockN>, int, int),
        ReadError,
    >((bs, cur3, q3)));
}

// ---------------------------------------------------------------------------
// Plain parts
// ---------------------------------------------------------------------------

proof fn lemma_group_start(op: OpN, steps: Seq<Step>, k: int)
    requires
        0 <= k,
        body_writer::check_steps(op, steps, k) is None,
    ensures
        body_writer::group_start(op, body_writer::groups_before(steps, k)) >= 0,
        body_writer::groups_before(steps, k) >= 0,
    decreases k,
{
    if k > 0 {
        lemma_group_start(op, steps, k - 1);
    }
}

proof fn lemma_read_flags(
    op: OpN,
    t: TablesV,
    v13_3: bool,
    scope: Option<ScopeV>,
    steps: Seq<Step>,
    k: int,
)
    requires
        0 <= k <= steps.len(),
        flags::flags_seen(steps, k),
    ensures
        body_roundtrip::read_steps(op, t, v13_3, scope, steps, k).flags == body_writer::flags_of(
            op,
            steps,
            steps.len() as int,
        ) as u64,
    decreases k,
{
    if k > 0 && flags::flags_seen(steps, k - 1) {
        lemma_read_flags(op, t, v13_3, scope, steps, k - 1);
    }
}

proof fn lemma_read_results(
    op: OpN,
    t: TablesV,
    v13_3: bool,
    scope: Option<ScopeV>,
    steps: Seq<Step>,
    k: int,
)
    requires
        0 <= k <= steps.len(),
        flags::results_seen(steps, k),
    ensures
        body_roundtrip::read_steps(op, t, v13_3, scope, steps, k).result_types == op.result_types,
    decreases k,
{
    if k > 0 && flags::results_seen(steps, k - 1) {
        lemma_read_results(op, t, v13_3, scope, steps, k - 1);
    }
}

/// Reading keeps result types.
pub proof fn lemma_result_types(op: OpN, t: TablesV, v13_3: bool, scope: Option<ScopeV>)
    ensures
        body_roundtrip::read_op(op, t, v13_3, scope).result_types == op.result_types,
{
    let steps = layout::layout(op.opcode, v13_3);
    flags::lemma_layout(op.opcode, v13_3);
    lemma_read_results(op, t, v13_3, scope, steps, steps.len() as int);
}

/// What is read of part `k` of a body, which is not made of regions.
pub open spec fn plain_step(r: Reading, op: OpN, steps: Seq<Step>, k: int) -> BodyV {
    let b = body_roundtrip::read_steps(op, r.c.tables, r.c.v13_3, r.scope, steps, k);
    if body::is_value_step(steps[k]) {
        body_roundtrip::read_value_step(op, steps, k, b)
    } else {
        body_roundtrip::read_attr_step(op, r.c.tables, steps[k], b)
    }
}

/// A part of a body that is not made of regions is read back.
proof fn lemma_plain_step_holds(
    r: Reading,
    d: Seq<u8>,
    p: int,
    next: int,
    op: OpN,
    cc: int,
    steps: Seq<Step>,
    k: int,
)
    requires
        reading_ok(r),
        0 <= k,
        steps_written(r.c, d, p, next, op, cc, steps, k + 1),
        !body_writer::is_regions(steps[k]),
    ensures
        ({
            let b = body_roundtrip::read_steps(
                op,
                r.c.tables,
                r.c.v13_3,
                r.scope,
                steps,
                k,
            );
            let q = steps_end(r.c, p, op, cc, steps, k);
            let q2 = steps_end(r.c, p, op, cc, steps, k + 1);
            &&& body::is_value_step(steps[k]) ==> body::value_step_at(
                r.c,
                d,
                q,
                next,
                steps[k],
                b,
            ) == Ok::<(BodyV, int), ReadError>((plain_step(r, op, steps, k), q2))
            &&& !body::is_value_step(steps[k]) ==> body::attr_step_at(r.c, d, q, steps[k], b)
                == Ok::<(BodyV, int), ReadError>((plain_step(r, op, steps, k), q2))
        }),
{
    reveal(reading_ok);
    reveal(steps_written);
    let b = body_roundtrip::read_steps(op, r.c.tables, r.c.v13_3, r.scope, steps, k);
    let step = steps[k];
    let e = body_writer::steps_consts(op, r.c.v13_3, steps, k);
    let x = body_writer::steps_bytes(op, r.c.tables, r.c.v13_3, cc, steps, k);
    let at = cc + e.len();
    attr_writer::lemma_placed_split(r.c.tables, cc, e, body_writer::step_consts(op, step));
    if flags::is_conditional(step) {
        flags::lemma_flag_set(op, steps, k);
        lemma_read_flags(op, r.c.tables, r.c.v13_3, r.scope, steps, k);
    }
    lemma_group_start(op, steps, k);
    assert(body_roundtrip::readable_step(op, step));
    if body::is_value_step(step) {
        wire::lemma_holds_split(
            d,
            p,
            x,
            body_writer::value_step_bytes(op, r.c.tables, steps, k),
        );
        body_roundtrip::lemma_value_step_holds(r.c, d, p + x.len(), next, op, steps, k, b);
    } else {
        wire::lemma_holds_split(
            d,
            p,
            x,
            body_writer::attr_step_bytes(op, r.c.tables, at, step),
        );
        body_roundtrip::lemma_attr_step_holds(r.c, d, p + x.len(), op, at, step, b);
    }
}

// ---------------------------------------------------------------------------
// Reading back
// ---------------------------------------------------------------------------

proof fn lemma_steps_hold(
    r: Reading,
    d: Seq<u8>,
    p: int,
    next: int,
    s: CollectV,
    op: OpN,
    cc: int,
    depth: nat,
    steps: Seq<Step>,
    k: int,
)
    requires
        reading_ok(r),
        collecting(r, s),
        k >= 0,
        within(r, collect::collect_steps(s, op, r.c.v13_3, steps, k)),
        steps_written(r.c, d, p, next, op, cc, steps, k),
        depth >= d.len() - p,
    ensures
        steps_read(
            r.c,
            d,
            p,
            next,
            used(s),
            depth,
            steps,
            k,
            body_roundtrip::read_steps(op, r.c.tables, r.c.v13_3, r.scope, steps, k),
            used(collect::collect_steps(s, op, r.c.v13_3, steps, k)),
            steps_end(r.c, p, op, cc, steps, k),
        ),
    decreases op, 0int, k,
{
    let t = r.c.tables;
    let v = r.c.v13_3;
    if k > 0 {
        let u = collect::collect_steps(s, op, v, steps, k - 1);
        let b = body_roundtrip::read_steps(op, t, v, r.scope, steps, k - 1);
        let q = steps_end(r.c, p, op, cc, steps, k - 1);
        lemma_steps_part(r.c, d, p, next, op, cc, steps, k);
        lemma_steps_stage(r, s, op, steps, k);
        lemma_steps_hold(r, d, p, next, s, op, cc, depth, steps, k - 1);
        if body_writer::is_regions(steps[k - 1]) {
            let n = op.regions.len() as int;
            let at = cc + body_writer::steps_consts(op, v, steps, k - 1).len();
            let h = region_head(steps[k - 1], op.regions.len()).len() as int;
            lemma_regions_part_of_steps(r.c, d, p, next, op, cc, steps, k);
            lemma_regions_hold(r, d, q + h, next, u, op.regions, at, depth, n);
            lemma_next_regions(
                r.c,
                d,
                p,
                next,
                used(s),
                depth,
                steps,
                k,
                b,
                used(u),
                q,
                h,
                n,
                body_roundtrip::read_regions(op.regions, t, v, r.scope, n),
                used(collect::collect_regions(u, op.regions, v, n)),
                steps_end(r.c, p, op, cc, steps, k),
            );
        } else {
            lemma_plain_step_holds(r, d, p, next, op, cc, steps, k - 1);
            lemma_next_step(
                r.c,
                d,
                p,
                next,
                used(s),
                depth,
                steps,
                k,
                b,
                used(u),
                q,
                plain_step(r, op, steps, k - 1),
                steps_end(r.c, p, op, cc, steps, k),
            );
        }
    } else {
        lemma_no_steps(r.c, d, p, next, used(s), depth, steps);
    }
}

/// An operation is read back.
pub proof fn lemma_op_back(
    r: Reading,
    d: Seq<u8>,
    p: int,
    next: int,
    s: CollectV,
    op: OpN,
    cc: int,
    depth: nat,
)
    requires
        reading_ok(r),
        collecting(r, s),
        within(r, collect::collect_op(s, op, r.c.v13_3)),
        op_written(r.c, d, p, next, op, cc),
        depth >= d.len() - p,
    ensures
        op_is_read(
            r.c,
            d,
            p,
            next,
            used(s),
            depth,
            body_roundtrip::read_op(op, r.c.tables, r.c.v13_3, r.scope),
            used(collect::collect_op(s, op, r.c.v13_3)),
            p + body_writer::op_bytes(op, r.c.tables, r.c.v13_3, cc).len(),
        ),
    decreases op, 1int, 0int,
{
    let v = r.c.v13_3;
    let steps = layout::layout(op.opcode, v);
    let n = steps.len() as int;
    let u = collect::record_location(s, op.location);
    let raw = op.opcode.spec_value() as u64;
    let q = p + wire::varint_bytes(raw).len();
    assert(body_writer::check_op(op, v) is None) by {
        reveal(op_written);
    }
    lemma_op_stage(r, s, op);
    lemma_location_holds(r, s, op.location);
    lemma_op_part(r.c, d, p, next, op, cc);
    lemma_steps_hold(r, d, q, next, u, op, cc, (depth - 1) as nat, steps, n);
    lemma_op_read(
        r.c,
        d,
        p,
        next,
        used(s),
        depth,
        raw,
        op.opcode,
        debug_roundtrip::read_location(r.scope, op.location),
        used(u),
        q,
        body_roundtrip::read_steps(op, r.c.tables, v, r.scope, steps, n),
        used(collect::collect_op(s, op, v)),
        steps_end(r.c, q, op, cc, steps, n),
    );
}

proof fn lemma_ops_back(
    r: Reading,
    d: Seq<u8>,
    p: int,
    next: int,
    s: CollectV,
    ops: Seq<OpN>,
    cc: int,
    depth: nat,
    n: int,
)
    requires
        reading_ok(r),
        collecting(r, s),
        n >= 0,
        within(r, collect::collect_ops(s, ops, r.c.v13_3, n)),
        ops_written(r.c, d, p, next, ops, cc, n),
        depth >= d.len() - p,
    ensures
        ops_are_read(
            r.c,
            d,
            p,
            next,
            used(s),
            depth,
            n,
            body_roundtrip::read_ops(ops, r.c.tables, r.c.v13_3, r.scope, n),
            body_roundtrip::next_after(ops, next, n),
            used(collect::collect_ops(s, ops, r.c.v13_3, n)),
            p + body_writer::ops_bytes(ops, r.c.tables, r.c.v13_3, cc, n).len(),
        ),
    decreases ops, 0int, n,
{
    let t = r.c.tables;
    let v = r.c.v13_3;
    if n > 0 {
        let u = collect::collect_ops(s, ops, v, n - 1);
        let at = cc + body_writer::ops_consts(ops, v, n - 1).len();
        let q = p + body_writer::ops_bytes(ops, t, v, cc, n - 1).len();
        let next2 = body_roundtrip::next_after(ops, next, n - 1);
        lemma_ops_part(r.c, d, p, next, ops, cc, n);
        lemma_ops_stage(r, s, ops, n);
        lemma_ops_back(r, d, p, next, s, ops, cc, depth, n - 1);
        lemma_op_back(r, d, q, next2, u, ops[n - 1], at, depth);
        lemma_result_types(ops[n - 1], t, v, r.scope);
        lemma_next_op(
            r.c,
            d,
            p,
            next,
            used(s),
            depth,
            n,
            body_roundtrip::read_ops(ops, t, v, r.scope, n - 1),
            next2,
            used(u),
            q,
            body_roundtrip::read_op(ops[n - 1], t, v, r.scope),
            used(collect::collect_op(u, ops[n - 1], v)),
            q + body_writer::op_bytes(ops[n - 1], t, v, at).len(),
        );
    } else {
        lemma_no_ops(r.c, d, p, next, used(s), depth);
    }
}

proof fn lemma_block_back(
    r: Reading,
    d: Seq<u8>,
    p: int,
    next: int,
    s: CollectV,
    b: BlockN,
    cc: int,
    depth: nat,
)
    requires
        reading_ok(r),
        collecting(r, s),
        within(
            r,
            collect::collect_ops(
                (CollectV { t: collect::with_types(s.t, b.arg_types), ..s }),
                b.ops,
                r.c.v13_3,
                b.ops.len() as int,
            ),
        ),
        block_written(r.c, d, p, next, b, cc),
        depth >= d.len() - p,
    ensures
        block_is_read(
            r.c,
            d,
            p,
            next,
            used(s),
            depth,
            body_roundtrip::read_block(b, r.c.tables, r.c.v13_3, r.scope),
            used(
                collect::collect_ops(
                    (CollectV { t: collect::with_types(s.t, b.arg_types), ..s }),
                    b.ops,
                    r.c.v13_3,
                    b.ops.len() as int,
                ),
            ),
            p + body_writer::block_bytes(b, r.c.tables, r.c.v13_3, cc).len(),
        ),
    decreases b, 0int, 0int,
{
    let t = r.c.tables;
    let v = r.c.v13_3;
    let k = b.ops.len() as int;
    let s1 = CollectV { t: collect::with_types(s.t, b.arg_types), ..s };
    let q = p + wire::varint_bytes(b.arg_types.len() as u64).len();
    let q2 = q + body_writer::types_bytes(t, b.arg_types).len();
    let q3 = q2 + wire::varint_bytes(b.ops.len() as u64).len();
    let next1 = next + b.arg_types.len();
    assert(attr_writer::small_tables(t)) by {
        reveal(reading_ok);
    }
    lemma_block_part(r.c, d, p, next, b, cc);
    lemma_args_stage(r, s, b.arg_types);
    lemma_ops_back(r, d, q3, next1, s1, b.ops, cc, depth, k);
    lemma_block_read(
        r.c,
        d,
        p,
        next,
        used(s),
        depth,
        b.arg_types,
        q,
        q2,
        k,
        q3,
        body_roundtrip::read_ops(b.ops, t, v, r.scope, k),
        body_roundtrip::next_after(b.ops, next1, k),
        used(collect::collect_ops(s1, b.ops, v, k)),
        q3 + body_writer::ops_bytes(b.ops, t, v, cc, k).len(),
    );
}

proof fn lemma_blocks_back(
    r: Reading,
    d: Seq<u8>,
    p: int,
    next: int,
    s: CollectV,
    bs: Seq<BlockN>,
    cc: int,
    depth: nat,
    n: int,
)
    requires
        reading_ok(r),
        collecting(r, s),
        n >= 0,
        within(r, collect::collect_blocks(s, bs, r.c.v13_3, n)),
        blocks_written(r.c, d, p, next, bs, cc, n),
        depth >= d.len() - p,
    ensures
        blocks_are_read(
            r.c,
            d,
            p,
            next,
            used(s),
            depth,
            n,
            body_roundtrip::read_blocks(bs, r.c.tables, r.c.v13_3, r.scope, n),
            used(collect::collect_blocks(s, bs, r.c.v13_3, n)),
            p + body_writer::blocks_bytes(bs, r.c.tables, r.c.v13_3, cc, n).len(),
        ),
    decreases bs, 0int, n,
{
    let t = r.c.tables;
    let v = r.c.v13_3;
    if n > 0 {
        let b = bs[n - 1];
        let u = collect::collect_blocks(s, bs, v, n - 1);
        let at = cc + body_writer::blocks_consts(bs, v, n - 1).len();
        let q = p + body_writer::blocks_bytes(bs, t, v, cc, n - 1).len();
        lemma_blocks_part(r.c, d, p, next, bs, cc, n);
        lemma_blocks_stage(r, s, bs, n);
        lemma_blocks_back(r, d, p, next, s, bs, cc, depth, n - 1);
        lemma_block_back(r, d, q, next, u, b, at, depth);
        lemma_next_block(
            r.c,
            d,
            p,
            next,
            used(s),
            depth,
            n,
            body_roundtrip::read_blocks(bs, t, v, r.scope, n - 1),
            used(u),
            q,
            body_roundtrip::read_block(b, t, v, r.scope),
            used(collect::collect_blocks(s, bs, v, n)),
            q + body_writer::block_bytes(b, t, v, at).len(),
        );
    } else {
        lemma_no_blocks(r.c, d, p, next, used(s), depth);
    }
}

proof fn lemma_regions_hold(
    r: Reading,
    d: Seq<u8>,
    p: int,
    next: int,
    s: CollectV,
    rs: Seq<Seq<BlockN>>,
    cc: int,
    depth: nat,
    n: int,
)
    requires
        reading_ok(r),
        collecting(r, s),
        n >= 0,
        within(r, collect::collect_regions(s, rs, r.c.v13_3, n)),
        regions_written(r.c, d, p, next, rs, cc, n),
        depth >= d.len() - p,
    ensures
        regions_are_read(
            r.c,
            d,
            p,
            next,
            used(s),
            depth,
            n,
            body_roundtrip::read_regions(rs, r.c.tables, r.c.v13_3, r.scope, n),
            used(collect::collect_regions(s, rs, r.c.v13_3, n)),
            p + body_writer::regions_bytes(rs, r.c.tables, r.c.v13_3, cc, n).len(),
        ),
    decreases rs, 0int, n,
{
    let t = r.c.tables;
    let v = r.c.v13_3;
    if n > 0 {
        let bs = rs[n - 1];
        let k = bs.len() as int;
        let u = collect::collect_regions(s, rs, v, n - 1);
        let at = cc + body_writer::regions_consts(rs, v, n - 1).len();
        let q = p + body_writer::regions_bytes(rs, t, v, cc, n - 1).len();
        let q2 = q + wire::varint_bytes(bs.len() as u64).len();
        lemma_regions_part(r.c, d, p, next, rs, cc, n);
        lemma_regions_stage(r, s, rs, n);
        lemma_regions_hold(r, d, p, next, s, rs, cc, depth, n - 1);
        lemma_blocks_back(r, d, q2, next, u, bs, at, (depth - 1) as nat, k);
        lemma_next_region(
            r.c,
            d,
            p,
            next,
            used(s),
            depth,
            n,
            body_roundtrip::read_regions(rs, t, v, r.scope, n - 1),
            used(u),
            q,
            k,
            q2,
            body_roundtrip::read_blocks(bs, t, v, r.scope, k),
            used(collect::collect_blocks(u, bs, v, k)),
            q2 + body_writer::blocks_bytes(bs, t, v, at, k).len(),
        );
    } else {
        lemma_no_regions(r.c, d, p, next, used(s), depth);
    }
}

/// An operation is read back as it was written: integers get type i32, defaults
/// and attributes that the format does not carry are dropped, and a bare source
/// location takes the scope of the function.
pub proof fn lemma_op_round_trip(
    r: Reading,
    d: Seq<u8>,
    p: int,
    next: int,
    s: CollectV,
    op: OpN,
    cc: int,
    depth: nat,
)
    requires
        reading_ok(r),
        collecting(r, s),
        within(r, collect::collect_op(s, op, r.c.v13_3)),
        op_written(r.c, d, p, next, op, cc),
        depth >= d.len() - p,
    ensures
        body::op_at(r.c, d, p, next, used(s), depth) == Ok::<(OpN, int, int), ReadError>(
            (
                body_roundtrip::read_op(op, r.c.tables, r.c.v13_3, r.scope),
                used(collect::collect_op(s, op, r.c.v13_3)),
                p + body_writer::op_bytes(op, r.c.tables, r.c.v13_3, cc).len(),
            ),
        ),
{
    lemma_op_back(r, d, p, next, s, op, cc, depth);
    reveal(op_is_read);
}

} // verus!
