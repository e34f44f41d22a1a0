//! Every operand in a file that is read refers to a value that is defined before
//! it, whatever the bytes.
use vstd::prelude::*;
use crate::bytecode::attrs::TablesV;
use crate::bytecode::body::{BodyV, CtxV};
use crate::bytecode::body;
use crate::bytecode::body_roundtrip;
use crate::bytecode::debug::DebugV;
use crate::bytecode::identity;
use crate::bytecode::enums::Section;
use crate::bytecode::layout::Step;
use crate::bytecode::layout;
use crate::bytecode::node::{BlockN, OpN};
use crate::bytecode::opcode;
use crate::bytecode::reader;
use crate::bytecode::restore;
use crate::bytecode::types as wire_types;
use crate::bytecode::wire;
use crate::error::Subject;
use crate::ir::types::TypeV;

verus! {

// ---------------------------------------------------------------------------
// One more operation, block or region
// ---------------------------------------------------------------------------

proof fn lemma_ops_prefix(s: Seq<OpN>, op: OpN, next: int, k: int)
    requires
        0 <= k <= s.len(),
    ensures
        body_roundtrip::scoped_ops(s.push(op), next, k) == body_roundtrip::scoped_ops(s, next, k),
        body_roundtrip::next_after(s.push(op), next, k) == body_roundtrip::next_after(s, next, k),
    decreases k,
{
    if k > 0 {
        lemma_ops_prefix(s, op, next, k - 1);
    }
}

proof fn lemma_blocks_prefix(s: Seq<BlockN>, b: BlockN, next: int, k: int)
    requires
        0 <= k <= s.len(),
    ensures
        body_roundtrip::scoped_blocks(s.push(b), next, k) == body_roundtrip::scoped_blocks(
            s,
            next,
            k,
        ),
    decreases k,
{
    if k > 0 {
        lemma_blocks_prefix(s, b, next, k - 1);
    }
}

proof fn lemma_regions_prefix(s: Seq<Seq<BlockN>>, g: Seq<BlockN>, next: int, k: int)
    requires
        0 <= k <= s.len(),
    ensures
        body_roundtrip::scoped_regions(s.push(g), next, k) == body_roundtrip::scoped_regions(
            s,
            next,
            k,
        ),
    decreases k,
{
    if k > 0 {
        lemma_regions_prefix(s, g, next, k - 1);
    }
}

// ---------------------------------------------------------------------------
// Parts of a body
// ---------------------------------------------------------------------------

/// Every number is below `next`.
spec fn all_below(s: Seq<u64>, next: int) -> bool {
    forall|i: int| 0 <= i < s.len() ==> #[trigger] s[i] < next
}

/// The operands and regions of a body refer to values that are defined.
spec fn scoped_body(b: BodyV, next: int) -> bool {
    &&& all_below(b.operands, next)
    &&& body_roundtrip::scoped_regions(b.regions, next, b.regions.len() as int)
}

proof fn lemma_operands(d: Seq<u8>, p: int, next: int, n: int)
    ensures
        body::operands_at(d, p, next, n) matches Ok((s, q)) ==> all_below(s, next),
    decreases n,
{
    if n > 0 {
        lemma_operands(d, p, next, n - 1);
    }
}

proof fn lemma_type_count(d: Seq<u8>, p: int, prev: Seq<TypeV>, what: Subject, n: int)
    requires
        0 <= n,
    ensures
        wire_types::type_refs_at(d, p, prev, what, n) matches Ok((s, q)) ==> s.len() == n,
    decreases n,
{
    if n > 0 {
        lemma_type_count(d, p, prev, what, n - 1);
    }
}

proof fn lemma_attr_step(c: CtxV, d: Seq<u8>, p: int, step: Step, b: BodyV)
    ensures
        body::attr_step_at(c, d, p, step, b) matches Ok((b2, q)) ==> b2.operands == b.operands
            && b2.regions == b.regions,
{
}

proof fn lemma_value_step(c: CtxV, d: Seq<u8>, p: int, next: int, step: Step, b: BodyV)
    requires
        scoped_body(b, next),
    ensures
        body::value_step_at(c, d, p, next, step, b) matches Ok((b2, q)) ==> scoped_body(b2, next),
{
    match step {
        Step::Operands(n) => lemma_operands(d, p, next, n as int),
        Step::OperandsCounted | Step::GroupCounted => match wire::count_at(d, p, Subject::Operand) {
            Ok((n, q)) => lemma_operands(d, q, next, n),
            Err(_) => {},
        },
        Step::Group => lemma_operands(d, p, next, 1),
        Step::GroupIf(mask) => {
            lemma_operands(d, p, next, 1);
            lemma_operands(d, p, next, 0);
        },
        _ => {},
    }
}

// ---------------------------------------------------------------------------
// Operations, blocks and regions
// ---------------------------------------------------------------------------

proof fn lemma_step(
    c: CtxV,
    d: Seq<u8>,
    p: int,
    next: int,
    cur: int,
    depth: nat,
    step: Step,
    b: BodyV,
)
    requires
        scoped_body(b, next),
    ensures
        body::step_at(c, d, p, next, cur, depth, step, b) matches Ok((b2, _, _)) ==> scoped_body(
            b2,
            next,
        ),
    decreases depth, 2nat, 0int,
{
    match step {
        Step::Regions => match wire::count_at(d, p, Subject::Region) {
            Ok((n, q)) => lemma_regions(c, d, q, next, cur, depth, n),
            Err(_) => {},
        },
        Step::Region => lemma_regions(c, d, p, next, cur, depth, 1),
        _ => {
            if body::is_value_step(step) {
                lemma_value_step(c, d, p, next, step, b);
            } else {
                lemma_attr_step(c, d, p, step, b);
            }
        },
    }
}

proof fn lemma_steps(
    c: CtxV,
    d: Seq<u8>,
    p: int,
    next: int,
    cur: int,
    depth: nat,
    steps: Seq<Step>,
    k: int,
)
    ensures
        body::steps_at(c, d, p, next, cur, depth, steps, k) matches Ok((b, _, _)) ==> scoped_body(
            b,
            next,
        ),
    decreases depth, 3nat, k,
{
    if k > 0 {
        lemma_steps(c, d, p, next, cur, depth, steps, k - 1);
        match body::steps_at(c, d, p, next, cur, depth, steps, k - 1) {
            Ok((b, cur2, q)) => lemma_step(c, d, q, next, cur2, depth, steps[k - 1], b),
            Err(_) => {},
        }
    }
}

proof fn lemma_op(c: CtxV, d: Seq<u8>, p: int, next: int, cur: int, depth: nat)
    ensures
        body::op_at(c, d, p, next, cur, depth) matches Ok((op, _, _)) ==> body_roundtrip::scoped_op(
            op,
            next,
        ),
    decreases depth, 4nat, 0int,
{
    match body::location_at(c, cur) {
        Ok((_, cur2)) => if depth > 0 {
            match wire::varint_at(d, p) {
                Ok((raw, q)) => match opcode::opcode_of((raw % 0x1_0000) as u16) {
                    Some(op) => {
                        let steps = layout::layout(op, c.v13_3);
                        lemma_steps(
                            c,
                            d,
                            q,
                            next,
                            cur2,
                            (depth - 1) as nat,
                            steps,
                            steps.len() as int,
                        );
                    },
                    None => {},
                },
                Err(_) => {},
            }
        },
        Err(_) => {},
    }
}

proof fn lemma_ops(c: CtxV, d: Seq<u8>, p: int, next: int, cur: int, depth: nat, n: int)
    ensures
        body::ops_at(c, d, p, next, cur, depth, n) matches Ok((s, next2, _, _)) ==> {
            &&& body_roundtrip::scoped_ops(s, next, s.len() as int)
            &&& next2 == body_roundtrip::next_after(s, next, s.len() as int)
        },
    decreases depth, 5nat, n,
{
    if n > 0 {
        lemma_ops(c, d, p, next, cur, depth, n - 1);
        match body::ops_at(c, d, p, next, cur, depth, n - 1) {
            Ok((s, next2, cur2, q)) => {
                lemma_op(c, d, q, next2, cur2, depth);
                match body::op_at(c, d, q, next2, cur2, depth) {
                    Ok((op, _, _)) => {
                        lemma_ops_prefix(s, op, next, s.len() as int);
                        assert(s.push(op)[s.len() as int] == op);
                    },
                    Err(_) => {},
                }
            },
            Err(_) => {},
        }
    }
}

proof fn lemma_block(c: CtxV, d: Seq<u8>, p: int, next: int, cur: int, depth: nat)
    ensures
        body::block_at(c, d, p, next, cur, depth) matches Ok((b, _, _))
            ==> body_roundtrip::scoped_ops(b.ops, next + b.arg_types.len(), b.ops.len() as int),
    decreases depth, 6nat, 0int,
{
    match wire::count_at(d, p, Subject::BlockArgument) {
        Ok((n, q)) => {
            lemma_type_count(d, q, c.tables.types, Subject::Type, n);
            match wire_types::type_refs_at(d, q, c.tables.types, Subject::Type, n) {
                Ok((_, q2)) => match wire::count_at(d, q2, Subject::BlockOperation) {
                    Ok((k, q3)) => lemma_ops(c, d, q3, next + n, cur, depth, k),
                    Err(_) => {},
                },
                Err(_) => {},
            }
        },
        Err(_) => {},
    }
}

proof fn lemma_blocks(c: CtxV, d: Seq<u8>, p: int, next: int, cur: int, depth: nat, n: int)
    ensures
        body::blocks_at(c, d, p, next, cur, depth, n) matches Ok((s, _, _))
            ==> body_roundtrip::scoped_blocks(s, next, s.len() as int),
    decreases depth, 7nat, n,
{
    if n > 0 {
        lemma_blocks(c, d, p, next, cur, depth, n - 1);
        match body::blocks_at(c, d, p, next, cur, depth, n - 1) {
            Ok((s, cur2, q)) => {
                lemma_block(c, d, q, next, cur2, depth);
                match body::block_at(c, d, q, next, cur2, depth) {
                    Ok((b, _, _)) => {
                        lemma_blocks_prefix(s, b, next, s.len() as int);
                        assert(s.push(b)[s.len() as int] == b);
                    },
                    Err(_) => {},
                }
            },
            Err(_) => {},
        }
    }
}

proof fn lemma_regions(c: CtxV, d: Seq<u8>, p: int, next: int, cur: int, depth: nat, n: int)
    ensures
        body::regions_at(c, d, p, next, cur, depth, n) matches Ok((s, _, _))
            ==> body_roundtrip::scoped_regions(s, next, s.len() as int),
    decreases depth, 1nat, n,
{
    if n > 0 && depth > 0 {
        lemma_regions(c, d, p, next, cur, depth, n - 1);
        match body::regions_at(c, d, p, next, cur, depth, n - 1) {
            Ok((s, cur2, q)) => {
                let less = (depth - 1) as nat;
                match wire::count_at(d, q, Subject::Block) {
                    Ok((k, q2)) => lemma_blocks(c, d, q2, next, cur2, less, k),
                    Err(_) => {},
                }
                match body::region_at(c, d, q, next, cur2, less) {
                    Ok((g, _, _)) => {
                        lemma_regions_prefix(s, g, next, s.len() as int);
                        assert(s.push(g)[s.len() as int] == g);
                    },
                    Err(_) => {},
                }
            },
            Err(_) => {},
        }
    }
}

// ---------------------------------------------------------------------------
// Functions and files
// ---------------------------------------------------------------------------

proof fn lemma_ops_joined(op: OpN, t: Seq<OpN>, next: int, k: int)
    requires
        0 <= k <= t.len(),
        body_roundtrip::scoped_op(op, next),
        body_roundtrip::scoped_ops(t, next + op.result_types.len(), t.len() as int),
    ensures
        body_roundtrip::next_after(seq![op] + t, next, k + 1) == body_roundtrip::next_after(
            t,
            next + op.result_types.len(),
            k,
        ),
        body_roundtrip::scoped_ops(seq![op] + t, next, k + 1) == body_roundtrip::scoped_ops(
            t,
            next + op.result_types.len(),
            k,
        ),
    decreases k,
{
    let s = seq![op] + t;
    assert(s[0] == op);
    if k > 0 {
        lemma_ops_joined(op, t, next, k - 1);
        assert(s[k] == t[k - 1]);
    } else {
        assert(body_roundtrip::next_after(s, next, 0) == next);
        assert(body_roundtrip::scoped_ops(s, next, 0));
        assert(body_roundtrip::next_after(s, next, 1) == next + s[0].result_types.len());
        assert(body_roundtrip::scoped_ops(s, next, 1) == body_roundtrip::scoped_op(s[0], next));
    }
}

proof fn lemma_body(c: CtxV, d: Seq<u8>, p: int, next: int, cur: int)
    ensures
        reader::body_at(c, d, p, next, cur) matches Ok((s, _)) ==> body_roundtrip::scoped_ops(
            s,
            next,
            s.len() as int,
        ),
    decreases d.len() - p,
{
    if p < d.len() {
        body::lemma_body_op_at(c, d, p, next, cur);
        lemma_op(c, d, p, next, cur, d.len());
        match body::body_op_at(c, d, p, next, cur) {
            Ok((op, cur2, q)) => if p < q <= d.len() {
                let after = next + op.result_types.len();
                lemma_body(c, d, q, after, cur2);
                match reader::body_at(c, d, q, after, cur2) {
                    Ok((t, _)) => {
                        lemma_ops_joined(op, t, next, t.len() as int);
                    },
                    Err(_) => {},
                }
            },
            Err(_) => {},
        }
    }
}

proof fn lemma_functions(d: Seq<u8>, p: int, t: TablesV, v13_3: bool, dbg: DebugV, n: int)
    ensures
        reader::functions_at(d, p, t, v13_3, dbg, n) matches Ok((s, _)) ==> forall|i: int|
            0 <= i < s.len() ==> restore::scoped_function(#[trigger] s[i]),
    decreases n,
{
    if n > 0 {
        lemma_functions(d, p, t, v13_3, dbg, n - 1);
        match reader::functions_at(d, p, t, v13_3, dbg, n - 1) {
            Ok((s, q)) => match reader::record_at(d, q, t) {
                Ok(((_, sig, func, _, bytes), _)) => match sig {
                    TypeV::Func(inputs, _) => {
                        let c = CtxV { tables: t, v13_3, debug: dbg, func };
                        lemma_body(c, bytes, 0, inputs.len() as int, 1);
                    },
                    _ => {},
                },
                Err(_) => {},
            },
            Err(_) => {},
        }
    }
}

/// Whatever the bytes of a file are: where they are read, every operand refers to a
/// value that is defined before it, in the same block or around it.
pub proof fn lemma_read_scoped(d: Seq<u8>)
    ensures
        reader::file_at(d) matches Ok(f) ==> identity::scoped_file(f),
{
    match reader::header_at(d) {
        Ok((version, p)) => match reader::sections_at(d, p, reader::no_sections()) {
            Ok(s) => match reader::tables_of(s, version) {
                Ok((t, dbg)) => match s[Section::Func.spec_id() as int] {
                    Some(payload) => match wire::count_at(payload, 0, Subject::Function) {
                        Ok((n, q)) => lemma_functions(payload, q, t, version.spec_v13_3(), dbg, n),
                        Err(_) => {},
                    },
                    None => {},
                },
                Err(_) => {},
            },
            Err(_) => {},
        },
        Err(_) => {},
    }
}

/// Whatever the bytes of a file are: the module that is read from them has the
/// file's global variables, and functions whose operands can be numbered, with the
/// file's operations.
pub proof fn lemma_read_held(d: Seq<u8>)
    ensures
        reader::file_at(d) matches Ok(f) ==> (restore::small(reader::module_of(f)) ==> {
            &&& reader::module_of(f).globals == f.globals
            &&& identity::has_trees(reader::module_of(f), identity::entry_trees(f))
        }),
{
    lemma_read_scoped(d);
    match reader::file_at(d) {
        Ok(f) => {
            if restore::small(reader::module_of(f)) {
                identity::lemma_module_of_file(f);
            }
        },
        Err(_) => {},
    }
}

} // verus!
