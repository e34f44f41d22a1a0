//! Operations are read back as they were written.
use vstd::prelude::*;
use crate::bytecode::attr_writer;
use crate::bytecode::attrs::TablesV;
use crate::bytecode::attrs;
use crate::bytecode::body::{BodyV, CtxV};
use crate::bytecode::body;
use crate::bytecode::body_writer;
use crate::bytecode::debug_roundtrip;
use crate::bytecode::layout::{AttrName, Step};
use crate::bytecode::layout;
use crate::bytecode::node::{BlockN, OpN};
use crate::bytecode::type_writer;
use crate::bytecode::types as wire_types;
use crate::bytecode::wire;
use crate::error::{ReadError, Subject};
use crate::ir::attr::AttrV;
use crate::ir::attr;
use crate::ir::location::ScopeV;
use crate::ir::types::TypeV;

verus! {

// ---------------------------------------------------------------------------
// What is read back
// ---------------------------------------------------------------------------

/// What is read back of part `k` of a body, which holds result types, flags or
/// operands.
pub open spec fn read_value_step(op: OpN, steps: Seq<Step>, k: int, b: BodyV) -> BodyV {
    let g = body_writer::groups_before(steps, k);
    match steps[k] {
        Step::Results(_) => BodyV { result_types: op.result_types, ..b },
        Step::ResultsCounted => BodyV { result_types: op.result_types, ..b },
        Step::Flags => BodyV {
            flags: body_writer::flags_of(op, steps, steps.len() as int) as u64,
            ..b
        },
        Step::Operands(_) => BodyV { operands: b.operands + op.operands, ..b },
        Step::OperandsCounted => BodyV { operands: b.operands + op.operands, ..b },
        _ => body::with_group(b, body_writer::group_operands(op, g)),
    }
}

/// The number that is written for an integer attribute that has a default.
pub open spec fn int_or(op: OpN, name: AttrName, default: u64) -> u64 {
    match body_writer::op_attr(op, name) {
        Some(AttrV::Integer(v, _)) => wire::i64_pattern(v) as u64,
        _ => default,
    }
}

/// The body with an attribute that may be absent.
pub open spec fn with_attr_if(b: BodyV, present: bool, name: AttrName, a: AttrV) -> BodyV {
    if present {
        body::with_attr(b, name, a)
    } else {
        b
    }
}

/// What is read back of a part of a body that holds attributes. Integers have
/// type i32, constants the type of the result, and an integer that has its
/// default value is dropped where no string is its name.
pub open spec fn read_attr_step(op: OpN, t: TablesV, step: Step, b: BodyV) -> BodyV {
    let present = body_writer::is_present(op, step, 0);
    match step {
        Step::Int(name) => body::with_attr(b, name, attr::i32_attr(body_writer::int_value(op, name))),
        Step::IntOr(name, default) => with_attr_if(
            b,
            int_or(op, name, default) != default || t.strings.contains(layout::name_text(name)),
            name,
            attr::i32_attr(wire::i64_of_pattern(int_or(op, name, default) as int)),
        ),
        Step::IntIf(_, name) => with_attr_if(
            b,
            present,
            name,
            attr::i32_attr(body_writer::int_value(op, name)),
        ),
        Step::BoolByte(name) => body::with_attr(
            b,
            name,
            AttrV::Bool(body_writer::bool_value(op, name)),
        ),
        Step::I32s(name) => body::with_attr(
            b,
            name,
            AttrV::DenseI32(body_writer::i32s_value(op, name)),
        ),
        Step::Str(name) => body::with_attr(b, name, AttrV::Str(body_writer::str_value(op, name))),
        Step::StrIf(_, name) => with_attr_if(
            b,
            present,
            name,
            AttrV::Str(body_writer::str_value(op, name)),
        ),
        Step::TypeRef(name) => body::with_attr(
            b,
            name,
            AttrV::Type(body_writer::type_value(op, name)),
        ),
        Step::Tagged(name) => body::with_attr(
            b,
            name,
            attr_writer::normal_attr(body_writer::any_value(op, name)),
        ),
        Step::Array(name) => body::with_attr(
            b,
            name,
            attr_writer::normal_attr(AttrV::Array(body_writer::list_value(op, name))),
        ),
        Step::HintsIf(_) => with_attr_if(
            b,
            present,
            AttrName::OptimizationHints,
            attr_writer::normal_attr(AttrV::Hints(body_writer::hints_value(op))),
        ),
        Step::HintsFirstIf(_) => if present {
            body::with_first_attr(
                b,
                AttrName::OptimizationHints,
                attr_writer::normal_attr(AttrV::Hints(body_writer::hints_value(op))),
            )
        } else {
            b
        },
        Step::DictIf(_, name) => with_attr_if(
            b,
            present,
            name,
            attr_writer::normal_attr(AttrV::Dict(body_writer::dict_value(op, name))),
        ),
        Step::FlagBool(_, name) => with_attr_if(b, present, name, AttrV::Bool(true)),
        Step::FlagInt(_, name) => with_attr_if(b, present, name, attr::i32_attr(1)),
        Step::Constant => body::with_attr(
            b,
            AttrName::Value,
            AttrV::Dense(attrs::dense_of(body::first_result(b), body_writer::data_value(op))),
        ),
        Step::GlobalValue => body::with_attr(
            b,
            AttrName::Value,
            AttrV::Dense(attrs::dense_of(TypeV::Token, body_writer::data_value(op))),
        ),
        Step::Segments => body::with_attr(
            b,
            AttrName::OperandSegmentSizes,
            body::segments_attr(b.sizes),
        ),
        _ => b,
    }
}

/// What is read back of the first `k` parts of a body.
pub open spec fn read_steps(
    op: OpN,
    t: TablesV,
    v13_3: bool,
    scope: Option<ScopeV>,
    steps: Seq<Step>,
    k: int,
) -> BodyV
    decreases op, 0int, k,
{
    if k <= 0 {
        body::empty_body()
    } else {
        let b = read_steps(op, t, v13_3, scope, steps, k - 1);
        if body_writer::is_regions(steps[k - 1]) {
            BodyV {
                regions: read_regions(op.regions, t, v13_3, scope, op.regions.len() as int),
                ..b
            }
        } else if body::is_value_step(steps[k - 1]) {
            read_value_step(op, steps, k - 1, b)
        } else {
            read_attr_step(op, t, steps[k - 1], b)
        }
    }
}

/// What is read back of an operation in a function with the given scope.
pub open spec fn read_op(op: OpN, t: TablesV, v13_3: bool, scope: Option<ScopeV>) -> OpN
    decreases op, 1int, 0int,
{
    let steps = layout::layout(op.opcode, v13_3);
    body::finish_op(
        op.opcode,
        read_steps(op, t, v13_3, scope, steps, steps.len() as int),
        debug_roundtrip::read_location(scope, op.location),
    )
}

/// What is read back of the first `n` operations.
pub open spec fn read_ops(
    ops: Seq<OpN>,
    t: TablesV,
    v13_3: bool,
    scope: Option<ScopeV>,
    n: int,
) -> Seq<OpN>
    decreases ops, 0int, n,
{
    if n <= 0 || n > ops.len() {
        seq![]
    } else {
        read_ops(ops, t, v13_3, scope, n - 1).push(read_op(ops[n - 1], t, v13_3, scope))
    }
}

/// What is read back of a block.
pub open spec fn read_block(b: BlockN, t: TablesV, v13_3: bool, scope: Option<ScopeV>) -> BlockN
    decreases b, 0int, 0int,
{
    BlockN {
        arg_types: b.arg_types,
        ops: read_ops(b.ops, t, v13_3, scope, b.ops.len() as int),
    }
}

/// What is read back of the first `n` blocks.
pub open spec fn read_blocks(
    bs: Seq<BlockN>,
    t: TablesV,
    v13_3: bool,
    scope: Option<ScopeV>,
    n: int,
) -> Seq<BlockN>
    decreases bs, 0int, n,
{
    if n <= 0 || n > bs.len() {
        seq![]
    } else {
        read_blocks(bs, t, v13_3, scope, n - 1).push(read_block(bs[n - 1], t, v13_3, scope))
    }
}

/// What is read back of the first `n` regions.
pub open spec fn read_regions(
    rs: Seq<Seq<BlockN>>,
    t: TablesV,
    v13_3: bool,
    scope: Option<ScopeV>,
    n: int,
) -> Seq<Seq<BlockN>>
    decreases rs, 0int, n,
{
    if n <= 0 || n > rs.len() {
        seq![]
    } else {
        read_regions(rs, t, v13_3, scope, n - 1).push(
            read_blocks(rs[n - 1], t, v13_3, scope, rs[n - 1].len() as int),
        )
    }
}

// ---------------------------------------------------------------------------
// Limits
// ---------------------------------------------------------------------------

/// The reader's limits on counts, for a part of a body.
pub open spec fn readable_step(op: OpN, step: Step) -> bool {
    match step {
        Step::ResultsCounted => op.result_types.len() <= u32::MAX,
        Step::OperandsCounted => op.operands.len() <= u32::MAX,
        Step::GroupCounted => op.operands.len() <= u32::MAX,
        Step::I32s(name) => body_writer::i32s_value(op, name).len() <= u32::MAX,
        Step::Tagged(name) => attr_writer::readable_attr(body_writer::any_value(op, name)),
        Step::Array(name) => attr_writer::readable_attr(
            AttrV::Array(body_writer::list_value(op, name)),
        ),
        Step::HintsIf(_) => attr_writer::readable_attr(AttrV::Hints(body_writer::hints_value(op))),
        Step::HintsFirstIf(_) => attr_writer::readable_attr(
            AttrV::Hints(body_writer::hints_value(op)),
        ),
        Step::DictIf(_, name) => attr_writer::readable_attr(
            AttrV::Dict(body_writer::dict_value(op, name)),
        ),
        Step::Constant => body_writer::data_value(op).len() <= u32::MAX,
        Step::GlobalValue => body_writer::data_value(op).len() <= u32::MAX,
        Step::Regions => op.regions.len() <= u32::MAX,
        _ => true,
    }
}

/// The reader's limits, for an operation and what is inside it. Arrays of
/// 32-bit integers have no self-contained form.
pub open spec fn readable_op(op: OpN, v13_3: bool) -> bool
    decreases op, 1int,
{
    let steps = layout::layout(op.opcode, v13_3);
    &&& forall|i: int| 0 <= i < steps.len() ==> readable_step(op, #[trigger] steps[i])
    &&& readable_regions(op.regions, v13_3, op.regions.len() as int)
}

/// The reader's limits, for the first `n` operations.
pub open spec fn readable_ops(ops: Seq<OpN>, v13_3: bool, n: int) -> bool
    decreases ops, n,
{
    if n <= 0 || n > ops.len() {
        true
    } else {
        readable_ops(ops, v13_3, n - 1) && readable_op(ops[n - 1], v13_3)
    }
}

/// The reader's limits, for the first `n` blocks.
pub open spec fn readable_blocks(bs: Seq<BlockN>, v13_3: bool, n: int) -> bool
    decreases bs, n,
{
    if n <= 0 || n > bs.len() {
        true
    } else {
        &&& readable_blocks(bs, v13_3, n - 1)
        &&& bs[n - 1].arg_types.len() <= u32::MAX
        &&& bs[n - 1].ops.len() <= u32::MAX
        &&& readable_ops(bs[n - 1].ops, v13_3, bs[n - 1].ops.len() as int)
    }
}

/// The reader's limits, for the first `n` regions.
pub open spec fn readable_regions(rs: Seq<Seq<BlockN>>, v13_3: bool, n: int) -> bool
    decreases rs, n,
{
    if n <= 0 || n > rs.len() {
        true
    } else {
        &&& readable_regions(rs, v13_3, n - 1)
        &&& rs[n - 1].len() <= u32::MAX
        &&& readable_blocks(rs[n - 1], v13_3, rs[n - 1].len() as int)
    }
}

// ---------------------------------------------------------------------------
// Scoping
// ---------------------------------------------------------------------------

/// The number of values defined behind the first `n` operations.
pub open spec fn next_after(ops: Seq<OpN>, next: int, n: int) -> int
    decreases n,
{
    if n <= 0 || n > ops.len() {
        next
    } else {
        next_after(ops, next, n - 1) + ops[n - 1].result_types.len()
    }
}

/// An operation refers to the first `next` values only, and what is inside it
/// to values that are defined there.
pub open spec fn scoped_op(op: OpN, next: int) -> bool
    decreases op, 1int,
{
    &&& forall|i: int| 0 <= i < op.operands.len() ==> #[trigger] op.operands[i] < next
    &&& scoped_regions(op.regions, next, op.regions.len() as int)
}

/// The first `n` operations refer to values that are defined.
pub open spec fn scoped_ops(ops: Seq<OpN>, next: int, n: int) -> bool
    decreases ops, n,
{
    if n <= 0 || n > ops.len() {
        true
    } else {
        scoped_ops(ops, next, n - 1) && scoped_op(ops[n - 1], next_after(ops, next, n - 1))
    }
}

/// The first `n` blocks refer to values that are defined.
pub open spec fn scoped_blocks(bs: Seq<BlockN>, next: int, n: int) -> bool
    decreases bs, n,
{
    if n <= 0 || n > bs.len() {
        true
    } else {
        scoped_blocks(bs, next, n - 1) && scoped_ops(
            bs[n - 1].ops,
            next + bs[n - 1].arg_types.len(),
            bs[n - 1].ops.len() as int,
        )
    }
}

/// The first `n` regions refer to values that are defined.
pub open spec fn scoped_regions(rs: Seq<Seq<BlockN>>, next: int, n: int) -> bool
    decreases rs, n,
{
    if n <= 0 || n > rs.len() {
        true
    } else {
        scoped_regions(rs, next, n - 1) && scoped_blocks(rs[n - 1], next, rs[n - 1].len() as int)
    }
}

// ---------------------------------------------------------------------------
// Parts of a body
// ---------------------------------------------------------------------------

proof fn lemma_operands_hold(d: Seq<u8>, p: int, s: Seq<u64>, next: int, n: int)
    requires
        0 <= n <= s.len(),
        forall|i: int| 0 <= i < n ==> #[trigger] s[i] < next,
        wire::holds_at(d, p, body_writer::operands_bytes(s, n)),
    ensures
        body::operands_at(d, p, next, n) == Ok::<(Seq<u64>, int), ReadError>(
            (s.take(n), p + body_writer::operands_bytes(s, n).len()),
        ),
    decreases n,
{
    if n > 0 {
        let x = body_writer::operands_bytes(s, n - 1);
        wire::lemma_holds_split(d, p, x, wire::varint_bytes(s[n - 1]));
        lemma_operands_hold(d, p, s, next, n - 1);
        wire::lemma_varint_holds(d, p + x.len(), s[n - 1]);
        assert(s.take(n - 1).push(s[n - 1]) =~= s.take(n));
    } else {
        assert(s.take(0) =~= seq![]);
    }
}

proof fn lemma_operand_list_holds(d: Seq<u8>, p: int, s: Seq<u64>, next: int)
    requires
        s.len() <= u32::MAX,
        forall|i: int| 0 <= i < s.len() ==> #[trigger] s[i] < next,
        wire::holds_at(
            d,
            p,
            wire::varint_bytes(s.len() as u64) + body_writer::operands_bytes(s, s.len() as int),
        ),
    ensures
        body::operand_list_at(d, p, next) == Ok::<(Seq<u64>, int), ReadError>(
            (
                s,
                p + (wire::varint_bytes(s.len() as u64) + body_writer::operands_bytes(
                    s,
                    s.len() as int,
                )).len(),
            ),
        ),
{
    let h = wire::varint_bytes(s.len() as u64);
    wire::lemma_holds_split(d, p, h, body_writer::operands_bytes(s, s.len() as int));
    wire::lemma_count_holds(d, p, s.len() as int, Subject::Operand);
    lemma_operands_hold(d, p + h.len(), s, next, s.len() as int);
    assert(s.take(s.len() as int) =~= s);
}

/// References to types are read back.
pub proof fn lemma_types_hold(d: Seq<u8>, p: int, t: TablesV, s: Seq<TypeV>, n: int)
    requires
        attr_writer::small_tables(t),
        type_writer::all_in(t.types, s),
        0 <= n <= s.len(),
        wire::holds_at(d, p, type_writer::refs_bytes(t.types, s, n)),
    ensures
        wire_types::type_refs_at(d, p, t.types, Subject::Type, n) == Ok::<
            (Seq<TypeV>, int),
            ReadError,
        >((s.take(n), p + type_writer::refs_bytes(t.types, s, n).len())),
    decreases n,
{
    if n > 0 {
        let x = type_writer::refs_bytes(t.types, s, n - 1);
        wire::lemma_holds_split(d, p, x, type_writer::ref_bytes(t.types, s[n - 1]));
        lemma_types_hold(d, p, t, s, n - 1);
        attr_writer::lemma_type_holds(d, p + x.len(), t, s[n - 1], Subject::Type);
        assert(s.take(n - 1).push(s[n - 1]) =~= s.take(n));
    } else {
        assert(s.take(0) =~= seq![]);
    }
}

/// A part that holds result types, flags or operands is read back.
pub proof fn lemma_value_step_holds(
    c: CtxV,
    d: Seq<u8>,
    p: int,
    next: int,
    op: OpN,
    steps: Seq<Step>,
    k: int,
    b: BodyV,
)
    requires
        attr_writer::small_tables(c.tables),
        0 <= k < steps.len(),
        body::is_value_step(steps[k]),
        body_writer::check_step(op, steps[k], body_writer::groups_before(steps, k)) is None,
        body_writer::step_covered(c.tables, op, steps[k]),
        readable_step(op, steps[k]),
        forall|i: int| 0 <= i < op.operands.len() ==> #[trigger] op.operands[i] < next,
        steps[k] is GroupIf ==> body::flag_set(b.flags, body_writer::mask_of(steps[k]))
            == body_writer::is_present(
            op,
            steps[k],
            body_writer::groups_before(steps, k),
        ),
        body_writer::is_group(steps[k]) ==> body_writer::group_start(
            op,
            body_writer::groups_before(steps, k),
        ) >= 0,
        wire::holds_at(d, p, body_writer::value_step_bytes(op, c.tables, steps, k)),
    ensures
        body::value_step_at(c, d, p, next, steps[k], b) == Ok::<(BodyV, int), ReadError>(
            (
                read_value_step(op, steps, k, b),
                p + body_writer::value_step_bytes(op, c.tables, steps, k).len(),
            ),
        ),
{
    let t = c.tables;
    let g = body_writer::groups_before(steps, k);
    let n = op.result_types.len() as int;
    let ops = op.operands;
    match steps[k] {
        Step::Results(_) => {
            lemma_types_hold(d, p, t, op.result_types, n);
            assert(op.result_types.take(n) =~= op.result_types);
        },
        Step::ResultsCounted => {
            let h = wire::varint_bytes(n as u64);
            wire::lemma_holds_split(d, p, h, body_writer::types_bytes(t, op.result_types));
            wire::lemma_count_holds(d, p, n, Subject::ResultType);
            lemma_types_hold(d, p + h.len(), t, op.result_types, n);
            assert(op.result_types.take(n) =~= op.result_types);
        },
        Step::Flags => {
            wire::lemma_varint_holds(
                d,
                p,
                body_writer::flags_of(op, steps, steps.len() as int) as u64,
            );
        },
        Step::Operands(_) => {
            lemma_operands_hold(d, p, ops, next, ops.len() as int);
            assert(ops.take(ops.len() as int) =~= ops);
        },
        Step::OperandsCounted => {
            lemma_operand_list_holds(d, p, ops, next);
        },
        _ => {
            let s = body_writer::group_operands(op, g);
            let size = body_writer::group_size(op, g);
            assert(s.len() == size);
            assert forall|i: int| 0 <= i < s.len() implies #[trigger] s[i] < next by {
                assert(s[i] == ops[body_writer::group_start(op, g) + i]);
            }
            if steps[k] is GroupCounted {
                lemma_operand_list_holds(d, p, s, next);
            } else {
                lemma_operands_hold(d, p, s, next, size);
                assert(s.take(size) =~= s);
            }
        },
    }
}

/// A part that holds attributes is read back.
pub proof fn lemma_attr_step_holds(c: CtxV, d: Seq<u8>, p: int, op: OpN, cc: int, step: Step, b: BodyV)
    requires
        attr_writer::small_tables(c.tables),
        !body::is_value_step(step),
        !body_writer::is_regions(step),
        body_writer::check_step(op, step, 0) is None || step is Segments,
        body_writer::step_covered(c.tables, op, step),
        readable_step(op, step),
        attr_writer::placed(c.tables, cc, body_writer::step_consts(op, step)),
        body_writer::mask_of(step) != 0 ==> body::flag_set(b.flags, body_writer::mask_of(step))
            == body_writer::is_present(op, step, 0),
        body_writer::is_present(op, step, 0) ==> body_writer::mask_of(step) != 0,
        wire::holds_at(d, p, body_writer::attr_step_bytes(op, c.tables, cc, step)),
    ensures
        body::attr_step_at(c, d, p, step, b) == Ok::<(BodyV, int), ReadError>(
            (
                read_attr_step(op, c.tables, step, b),
                p + body_writer::attr_step_bytes(op, c.tables, cc, step).len(),
            ),
        ),
{
    let t = c.tables;
    let present = body_writer::is_present(op, step, 0);
    match step {
        Step::Int(name) => lemma_int_holds(d, p, body_writer::int_value(op, name)),
        Step::IntOr(name, default) => {
            wire::lemma_varint_holds(d, p, int_or(op, name, default));
        },
        Step::IntIf(_, name) => if present {
            lemma_int_holds(d, p, body_writer::int_value(op, name));
        },
        Step::BoolByte(name) => {
            wire::lemma_byte_holds(
                d,
                p,
                attr_writer::bool_byte(body_writer::bool_value(op, name)),
            );
        },
        Step::I32s(name) => wire::lemma_i32_array_holds(d, p, body_writer::i32s_value(op, name)),
        Step::Str(name) => attr_writer::lemma_string_holds(
            d,
            p,
            t,
            body_writer::str_value(op, name),
            Subject::Str,
        ),
        Step::StrIf(_, name) => if present {
            attr_writer::lemma_string_holds(
                d,
                p,
                t,
                body_writer::str_value(op, name),
                Subject::Str,
            );
        },
        Step::TypeRef(name) => attr_writer::lemma_type_holds(
            d,
            p,
            t,
            body_writer::type_value(op, name),
            Subject::Type,
        ),
        Step::Tagged(name) => attr_writer::lemma_attr_holds(
            d,
            p,
            body_writer::any_value(op, name),
            t,
            cc,
            d.len(),
        ),
        Step::Array(name) => attr_writer::lemma_array_holds(
            d,
            p,
            body_writer::list_value(op, name),
            t,
            cc,
            d.len(),
        ),
        Step::HintsIf(_) => if present {
            attr_writer::lemma_hints_holds(d, p, body_writer::hints_value(op), t, cc, d.len());
        },
        Step::HintsFirstIf(_) => if present {
            attr_writer::lemma_hints_holds(d, p, body_writer::hints_value(op), t, cc, d.len());
        },
        Step::DictIf(_, name) => if present {
            attr_writer::lemma_dict_holds(
                d,
                p,
                body_writer::dict_value(op, name),
                t,
                cc,
                d.len(),
            );
        },
        Step::Constant => attr_writer::lemma_constant_holds(
            d,
            p,
            t,
            cc,
            body_writer::data_value(op),
            Subject::Constant,
            Subject::Constant,
            Subject::ConstantLength,
        ),
        Step::GlobalValue => attr_writer::lemma_constant_holds(
            d,
            p,
            t,
            cc,
            body_writer::data_value(op),
            Subject::GlobalValue,
            Subject::Constant,
            Subject::ConstantLength,
        ),
        _ => {},
    }
}

proof fn lemma_int_holds(d: Seq<u8>, p: int, v: i64)
    requires
        wire::holds_at(d, p, body_writer::int_bytes(v)),
    ensures
        body::inline_int_at(d, p) == Ok::<(AttrV, int), ReadError>(
            (attr::i32_attr(v), p + body_writer::int_bytes(v).len()),
        ),
{
    let y = wire::i64_pattern(v) as u64;
    wire::lemma_varint_holds(d, p, y);
    assert(wire::i64_of_pattern(y as int) == v);
}

} // verus!
