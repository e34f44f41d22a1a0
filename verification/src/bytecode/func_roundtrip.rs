//! Functions are read back as they were written.
use vstd::prelude::*;
use crate::bytecode::attr_writer;
use crate::bytecode::attrs::TablesV;
use crate::bytecode::body::CtxV;
use crate::bytecode::body;
use crate::bytecode::body_roundtrip;
use crate::bytecode::body_writer;
use crate::bytecode::collect::CollectV;
use crate::bytecode::collect;
use crate::bytecode::debug;
use crate::bytecode::debug_roundtrip;
use crate::bytecode::debug_writer;
use crate::bytecode::node::OpN;
use crate::bytecode::ops_roundtrip::Reading;
use crate::bytecode::ops_roundtrip;
use crate::bytecode::reader::FuncN;
use crate::bytecode::reader;
use crate::bytecode::records::RecordV;
use crate::bytecode::records;
use crate::bytecode::wire;
use crate::error::{ReadError, Subject};
use crate::ir::attr::AttrV;
use crate::ir::location::{LocationV, ScopeV};
use crate::ir::types::TypeV;

verus! {

// ---------------------------------------------------------------------------
// Bodies
// ---------------------------------------------------------------------------

proof fn lemma_ops_prefix(
    c: CtxV,
    d: Seq<u8>,
    p: int,
    next: int,
    ops: Seq<OpN>,
    cc: int,
    k: int,
    n: int,
)
    requires
        0 <= k <= n,
        ops_roundtrip::ops_written(c, d, p, next, ops, cc, n),
    ensures
        ops_roundtrip::ops_written(c, d, p, next, ops, cc, k),
    decreases n,
{
    if k < n {
        ops_roundtrip::lemma_ops_part(c, d, p, next, ops, cc, n);
        lemma_ops_prefix(c, d, p, next, ops, cc, k, n - 1);
    }
}

proof fn lemma_stages(r: Reading, s: CollectV, ops: Seq<OpN>, k: int, n: int)
    requires
        0 <= k <= n <= ops.len(),
        ops_roundtrip::collecting(r, s),
        ops_roundtrip::within(r, collect::collect_ops(s, ops, r.c.v13_3, n)),
        body_writer::check_ops(ops, r.c.v13_3, n) is None,
    ensures
        ops_roundtrip::within(r, collect::collect_ops(s, ops, r.c.v13_3, k)),
        k < n ==> ops_roundtrip::collecting(r, collect::collect_ops(s, ops, r.c.v13_3, k)),
    decreases n,
{
    if k < n {
        ops_roundtrip::lemma_ops_stage(r, s, ops, n);
        assert(body_writer::check_ops(ops, r.c.v13_3, n - 1) is None);
        lemma_stages(r, s, ops, k, n - 1);
    }
}

/// What is read back of the operations from the `k`-th on.
pub open spec fn read_rest(
    ops: Seq<OpN>,
    t: TablesV,
    v13_3: bool,
    scope: Option<ScopeV>,
    k: int,
) -> Seq<OpN> {
    Seq::new(
        (ops.len() - k) as nat,
        |i: int| body_roundtrip::read_op(ops[k + i], t, v13_3, scope),
    )
}

proof fn lemma_read_ops(ops: Seq<OpN>, t: TablesV, v13_3: bool, scope: Option<ScopeV>, n: int)
    requires
        0 <= n <= ops.len(),
    ensures
        body_roundtrip::read_ops(ops, t, v13_3, scope, n) == read_rest(
            ops,
            t,
            v13_3,
            scope,
            0,
        ).take(n),
    decreases n,
{
    let all = read_rest(ops, t, v13_3, scope, 0);
    if n > 0 {
        lemma_read_ops(ops, t, v13_3, scope, n - 1);
        assert(all.take(n) =~= all.take(n - 1).push(all[n - 1]));
    } else {
        assert(all.take(0) =~= seq![]);
    }
}

/// The rest of a body is read.
#[verifier::opaque]
pub open spec fn body_is_read(
    c: CtxV,
    d: Seq<u8>,
    p: int,
    next: int,
    cur: int,
    ops: Seq<OpN>,
    cur2: int,
) -> bool {
    reader::body_at(c, d, p, next, cur) == Ok::<(Seq<OpN>, int), ReadError>((ops, cur2))
}

proof fn lemma_body_end(c: CtxV, d: Seq<u8>, p: int, next: int, cur: int)
    requires
        p >= d.len(),
    ensures
        body_is_read(c, d, p, next, cur, seq![], cur),
{
    reveal(body_is_read);
}

proof fn lemma_body_next(
    c: CtxV,
    d: Seq<u8>,
    p: int,
    next: int,
    cur: int,
    op: OpN,
    cur2: int,
    q: int,
    rest: Seq<OpN>,
    cur3: int,
)
    requires
        ops_roundtrip::op_is_read(c, d, p, next, cur, d.len(), op, cur2, q),
        0 <= p < q <= d.len(),
        body_is_read(c, d, q, next + op.result_types.len(), cur2, rest, cur3),
    ensures
        body_is_read(c, d, p, next, cur, seq![op] + rest, cur3),
{
    reveal(body_is_read);
    body::lemma_body_op_at(c, d, p, next, cur);
    assert(body::body_op_at(c, d, p, next, cur) == Ok::<(OpN, int, int), ReadError>((op, cur2, q)))
        by {
        reveal(ops_roundtrip::op_is_read);
    }
}

proof fn lemma_body_back(
    r: Reading,
    d: Seq<u8>,
    next: int,
    s: CollectV,
    ops: Seq<OpN>,
    cc: int,
    k: int,
)
    requires
        ops_roundtrip::reading_ok(r),
        ops_roundtrip::collecting(r, s),
        ops_roundtrip::within(
            r,
            collect::collect_ops(s, ops, r.c.v13_3, ops.len() as int),
        ),
        ops_roundtrip::ops_written(r.c, d, 0, next, ops, cc, ops.len() as int),
        body_writer::check_ops(ops, r.c.v13_3, ops.len() as int) is None,
        d.len() == body_writer::ops_bytes(ops, r.c.tables, r.c.v13_3, cc, ops.len() as int).len(),
        0 <= k <= ops.len(),
    ensures
        body_is_read(
            r.c,
            d,
            body_writer::ops_bytes(ops, r.c.tables, r.c.v13_3, cc, k).len() as int,
            body_roundtrip::next_after(ops, next, k),
            ops_roundtrip::used(collect::collect_ops(s, ops, r.c.v13_3, k)),
            read_rest(ops, r.c.tables, r.c.v13_3, r.scope, k),
            ops_roundtrip::used(collect::collect_ops(s, ops, r.c.v13_3, ops.len() as int)),
        ),
    decreases ops.len() - k,
{
    let t = r.c.tables;
    let v = r.c.v13_3;
    let n = ops.len() as int;
    let p = body_writer::ops_bytes(ops, t, v, cc, k).len() as int;
    let nk = body_roundtrip::next_after(ops, next, k);
    let u = collect::collect_ops(s, ops, v, k);
    if k < n {
        let at = cc + body_writer::ops_consts(ops, v, k).len();
        lemma_ops_prefix(r.c, d, 0, next, ops, cc, k + 1, n);
        ops_roundtrip::lemma_ops_part(r.c, d, 0, next, ops, cc, k + 1);
        lemma_stages(r, s, ops, k, n);
        lemma_stages(r, s, ops, k + 1, n);
        ops_roundtrip::lemma_op_part(r.c, d, p, nk, ops[k], at);
        ops_roundtrip::lemma_op_fits(r.c, d, p, nk, ops[k], at);
        ops_roundtrip::lemma_op_back(r, d, p, nk, u, ops[k], at, d.len());
        ops_roundtrip::lemma_result_types(ops[k], t, v, r.scope);
        lemma_body_back(r, d, next, s, ops, cc, k + 1);
        let op = body_roundtrip::read_op(ops[k], t, v, r.scope);
        lemma_body_next(
            r.c,
            d,
            p,
            nk,
            ops_roundtrip::used(u),
            op,
            ops_roundtrip::used(collect::collect_ops(s, ops, v, k + 1)),
            body_writer::ops_bytes(ops, t, v, cc, k + 1).len() as int,
            read_rest(ops, t, v, r.scope, k + 1),
            ops_roundtrip::used(collect::collect_ops(s, ops, v, n)),
        );
        assert(seq![op] + read_rest(ops, t, v, r.scope, k + 1) =~= read_rest(
            ops,
            t,
            v,
            r.scope,
            k,
        ));
    } else {
        lemma_body_end(r.c, d, p, nk, ops_roundtrip::used(u));
        assert(read_rest(ops, t, v, r.scope, k) =~= seq![]);
    }
}

// ---------------------------------------------------------------------------
// Functions
// ---------------------------------------------------------------------------

/// The scope of a function that is written.
pub open spec fn record_scope(r: RecordV) -> Option<ScopeV> {
    debug_roundtrip::scope_for(r.name, records::display_of(r), r.location)
}

/// What is read back of a function.
pub open spec fn read_function(r: RecordV, t: TablesV, v13_3: bool) -> FuncN {
    let scope = record_scope(r);
    let (location, display) = debug::located(
        debug_roundtrip::read_location(scope, r.location),
        r.name,
    );
    FuncN {
        name: r.name,
        inputs: match r.signature {
            TypeV::Func(inputs, _) => inputs,
            _ => seq![],
        },
        results: match r.signature {
            TypeV::Func(_, results) => results,
            _ => seq![],
        },
        di_name: reader::display_name(display, r.name),
        hints: match r.hints {
            Some(h) => Some(attr_writer::normal_attr(h)),
            None => None,
        },
        ops: body_roundtrip::read_ops(r.ops, t, v13_3, scope, r.ops.len() as int),
        location,
    }
}

/// The reader's limits, for a function: the signature is a function type,
/// operands are defined, and counts fit.
pub open spec fn readable_record(r: RecordV, v13_3: bool) -> bool {
    &&& r.signature matches TypeV::Func(inputs, _)
    &&& body_roundtrip::scoped_ops(r.ops, inputs.len() as int, r.ops.len() as int)
    &&& body_roundtrip::readable_ops(r.ops, v13_3, r.ops.len() as int)
    &&& r.hints matches Some(h) ==> attr_writer::readable_attr(h) && r.kernel
}

/// A function's record stands at position `p`, and what was collected for it is
/// part of the file.
#[verifier::opaque]
pub open spec fn record_written(
    r: Reading,
    d: Seq<u8>,
    p: int,
    s: CollectV,
    rec: RecordV,
    cc: int,
) -> bool {
    &&& ops_roundtrip::reading_ok(r)
    &&& r.scope == record_scope(rec)
    &&& r.ids.len() == ops_roundtrip::used(records::collect_record(s, rec, r.c.v13_3))
    &&& collect::collect_wf(s)
    &&& ops_roundtrip::within(r, records::collect_record(s, rec, r.c.v13_3))
    &&& records::record_checked(rec, r.c.v13_3)
    &&& records::record_covered(r.c.tables, rec, r.c.v13_3)
    &&& readable_record(rec, r.c.v13_3)
    &&& attr_writer::placed(r.c.tables, cc, records::record_consts(rec, r.c.v13_3))
    &&& records::record_body(rec, r.c.tables, r.c.v13_3, cc).len() <= u64::MAX
    &&& wire::holds_at(
        d,
        p,
        records::record_bytes(rec, r.c.tables, r.c.v13_3, r.c.func as int, cc),
    )
}

/// What has been collected when the operations of a function start.
pub open spec fn before_ops(s: CollectV, rec: RecordV) -> CollectV {
    records::collect_record_hints(
        records::collect_scope(records::collect_head(s, rec), rec),
        rec,
    )
}

/// The operations of a function start behind its own debug id, which stands for the
/// function's location.
pub proof fn lemma_before_ops(r: Reading, s: CollectV, rec: RecordV)
    requires
        ops_roundtrip::reading_ok(r),
        r.scope == record_scope(rec),
        collect::collect_wf(s),
        records::record_checked(rec, r.c.v13_3),
        ops_roundtrip::within(r, records::collect_record(s, rec, r.c.v13_3)),
    ensures
        ops_roundtrip::collecting(r, before_ops(s, rec)),
        ops_roundtrip::used(before_ops(s, rec)) == 1,
        r.ids.len() >= 1,
        debug::function_location(
            r.c.debug,
            r.c.tables.strings,
            r.c.func,
            rec.name,
        ) == Ok::<(LocationV, Option<Seq<char>>), ReadError>(
            debug::located(
                debug_roundtrip::read_location(r.scope, rec.location),
                rec.name,
            ),
        ),
{
    reveal(ops_roundtrip::reading_ok);
    reveal(ops_roundtrip::collecting);
    reveal(ops_roundtrip::within);
    let s1 = records::collect_head(s, rec);
    let s2 = records::collect_scope(s1, rec);
    let s3 = before_ops(s, rec);
    let s4 = records::collect_record(s, rec, r.c.v13_3);
    records::lemma_collect_head(s, rec);
    records::lemma_collect_scope(s1, rec);
    records::lemma_collect_record_hints(s2, rec);
    collect::lemma_collect_ops(s3, rec.ops, r.c.v13_3, rec.ops.len() as int);
    let p0 = collect::pool(s1);
    let display = records::display_of(rec);
    let (p1, scope) = debug_writer::function_scope(p0, rec.name, display, rec.location);
    debug_writer::lemma_function_scope(p0, rec.name, display, rec.location);
    let (p2, id) = debug_writer::location_attr(p1, scope, rec.location);
    debug_writer::lemma_location_attr(p1, scope, rec.location);
    assert(collect::pool(s2) =~= p2);
    debug_writer::lemma_pool_grows(collect::pool(s3), collect::pool(s4), r.q);
    debug_writer::lemma_pool_grows(p2, collect::pool(s3), r.q);
    debug_writer::lemma_pool_grows(p1, p2, r.q);
    debug_roundtrip::lemma_function_scope_resolves(
        r.c.debug,
        p0,
        rec.name,
        display,
        rec.location,
        r.q,
    );
    debug_roundtrip::lemma_location_resolves(
        r.c.debug,
        p1,
        scope,
        r.scope,
        rec.location,
        r.q,
    );
    assert(s2.lists.last() == seq![id]);
    assert(s3.lists == s2.lists);
    assert(s4.lists.last().take(1) == seq![id]);
    assert(r.ids[0] == id) by {
        let n = s4.lists.last().len() as int;
        assert(r.ids.take(n)[0] == s4.lists.last()[0]);
        assert(s4.lists.last().take(1)[0] == id);
    }
    assert(debug_roundtrip::ints(r.ids)[0] == id as int);
}

/// The record of a function is taken apart again.
proof fn lemma_record_parts(
    r: Reading,
    d: Seq<u8>,
    p: int,
    s: CollectV,
    rec: RecordV,
    cc: int,
)
    requires
        record_written(r, d, p, s, rec, cc),
    ensures
        reader::record_at(d, p, r.c.tables) == Ok::<
            ((Seq<char>, TypeV, u64, Option<AttrV>, Seq<u8>), int),
            ReadError,
        >(
            (
                (
                    rec.name,
                    rec.signature,
                    r.c.func,
                    match rec.hints {
                        Some(h) => Some(attr_writer::normal_attr(h)),
                        None => None,
                    },
                    records::record_body(rec, r.c.tables, r.c.v13_3, cc),
                ),
                p + records::record_bytes(
                    rec,
                    r.c.tables,
                    r.c.v13_3,
                    r.c.func as int,
                    cc,
                ).len(),
            ),
        ),
{
    reveal(ops_roundtrip::reading_ok);
    reveal(record_written);
    let t = r.c.tables;
    let v = r.c.v13_3;
    let e = records::hint_consts(rec);
    let e2 = body_writer::ops_consts(rec.ops, v, rec.ops.len() as int);
    attr_writer::lemma_placed_split(t, cc, e, e2);
    let body = records::record_body(rec, t, v, cc);
    let b1 = attr_writer::string_bytes(t, rec.name);
    let b2 = attr_writer::type_bytes(t, rec.signature);
    let b3 = seq![records::record_flags(rec)];
    let b4 = wire::varint_bytes(r.c.func);
    let b5 = records::opt_hints_bytes(rec, t, cc);
    let b6 = wire::varint_bytes(body.len() as u64);
    wire::lemma_holds_split(d, p, b1 + b2 + b3 + b4 + b5 + b6, body);
    wire::lemma_holds_split(d, p, b1 + b2 + b3 + b4 + b5, b6);
    wire::lemma_holds_split(d, p, b1 + b2 + b3 + b4, b5);
    wire::lemma_holds_split(d, p, b1 + b2 + b3, b4);
    wire::lemma_holds_split(d, p, b1 + b2, b3);
    wire::lemma_holds_split(d, p, b1, b2);
    let q1 = p + b1.len();
    let q2 = q1 + b2.len();
    let q3 = q2 + 1;
    let q4 = q3 + b4.len();
    let q5 = q4 + b5.len();
    let q6 = q5 + b6.len();
    attr_writer::lemma_string_holds(d, p, t, rec.name, Subject::Str);
    attr_writer::lemma_type_holds(d, q1, t, rec.signature, Subject::Type);
    wire::lemma_byte_holds(d, q2, records::record_flags(rec));
    wire::lemma_varint_holds(d, q3, r.c.func);
    let f = records::record_flags(rec);
    assert((f / 4 % 2 == 1) == (rec.hints is Some));
    match rec.hints {
        Some(h) => {
            attr_writer::lemma_attr_holds(d, q4, h, t, cc, d.len());
        },
        None => {},
    }
    wire::lemma_varint_holds(d, q5, body.len() as u64);
    assert(wire::bytes_at(d, q6, body.len() as int) == Ok::<(Seq<u8>, int), ReadError>(
        (body, q6 + body.len()),
    ));
}

/// A function is read back as it was written.
pub proof fn lemma_function_round_trip(
    r: Reading,
    d: Seq<u8>,
    p: int,
    s: CollectV,
    rec: RecordV,
    cc: int,
)
    requires
        record_written(r, d, p, s, rec, cc),
    ensures
        reader::function_at(d, p, r.c.tables, r.c.v13_3, r.c.debug) == Ok::<
            (FuncN, int),
            ReadError,
        >(
            (
                read_function(rec, r.c.tables, r.c.v13_3),
                p + records::record_bytes(
                    rec,
                    r.c.tables,
                    r.c.v13_3,
                    r.c.func as int,
                    cc,
                ).len(),
            ),
        ),
{
    let t = r.c.tables;
    let v = r.c.v13_3;
    let n = rec.ops.len() as int;
    let body = records::record_body(rec, t, v, cc);
    let s3 = before_ops(s, rec);
    let at = cc + records::hint_consts(rec).len();
    reveal(record_written);
    lemma_record_parts(r, d, p, s, rec, cc);
    lemma_before_ops(r, s, rec);
    match rec.signature {
        TypeV::Func(inputs, results) => {
            let next = inputs.len() as int;
            assert(ops_roundtrip::ops_written(r.c, body, 0, next, rec.ops, at, n)) by {
                reveal(ops_roundtrip::ops_written);
                attr_writer::lemma_placed_split(
                    t,
                    cc,
                    records::hint_consts(rec),
                    body_writer::ops_consts(rec.ops, v, n),
                );
                wire::lemma_holds_whole(body);
            }
            lemma_body_back(r, body, next, s3, rec.ops, at, 0);
            lemma_read_ops(rec.ops, t, v, r.scope, n);
            let all = read_rest(rec.ops, t, v, r.scope, 0);
            assert(all.take(n) =~= all);
            assert(reader::whole_body(
                CtxV { tables: t, v13_3: v, debug: r.c.debug, func: r.c.func },
                body,
                next,
            ) == Ok::<Seq<OpN>, ReadError>(all)) by {
                reveal(ops_roundtrip::reading_ok);
                reveal(body_is_read);
                assert(r.c == CtxV { tables: t, v13_3: v, debug: r.c.debug, func: r.c.func });
            }
            assert(read_function(rec, t, v) =~= FuncN {
                name: rec.name,
                inputs,
                results,
                di_name: read_function(rec, t, v).di_name,
                hints: read_function(rec, t, v).hints,
                ops: all,
                location: read_function(rec, t, v).location,
            });
        },
        _ => {},
    }
}

} // verus!
