//! Writing operation bodies.
use vstd::prelude::*;
use crate::bytecode::attr_writer::Pools;
use crate::bytecode::attr_writer;
use crate::bytecode::attrs::{pattern_of, TablesV};
use crate::bytecode::body;
use crate::bytecode::encoding::EncodingWriter;
use crate::bytecode::layout::{layout_of, AttrName, Step};
use crate::bytecode::layout;
use crate::bytecode::node::{BlockN, BlockNode, OpN, OpNode, RegionNode};
use crate::bytecode::node;
use crate::bytecode::type_writer::write_ref;
use crate::bytecode::type_writer;
use crate::bytecode::wire;
use crate::error::WriteError;
use crate::ir::attr::{AttrV, Attribute};
use crate::ir::attr;
use crate::ir::types::{Type, TypeV};
use crate::ir::types;
use crate::text::same_text;

verus! {

// ---------------------------------------------------------------------------
// Attributes of an operation
// ---------------------------------------------------------------------------

/// The first attribute with a name, among the first `n`.
pub open spec fn find_attr_in(s: Seq<(Seq<char>, AttrV)>, name: Seq<char>, n: int) -> Option<AttrV>
    decreases n,
{
    if n <= 0 || n > s.len() {
        None
    } else {
        match find_attr_in(s, name, n - 1) {
            Some(a) => Some(a),
            None => if s[n - 1].0 == name {
                Some(s[n - 1].1)
            } else {
                None
            },
        }
    }
}

/// The first attribute with a name.
pub open spec fn find_attr(s: Seq<(Seq<char>, AttrV)>, name: Seq<char>) -> Option<AttrV> {
    find_attr_in(s, name, s.len() as int)
}

/// The contents of an optional attribute.
pub open spec fn opt_view(a: Option<&Attribute>) -> Option<AttrV> {
    match a {
        Some(a) => Some(a@),
        None => None,
    }
}

proof fn lemma_found_early(s: Seq<(Seq<char>, AttrV)>, name: Seq<char>, k: int, n: int)
    requires
        0 <= k <= n <= s.len(),
        find_attr_in(s, name, k) is Some,
    ensures
        find_attr_in(s, name, n) == find_attr_in(s, name, k),
    decreases n,
{
    if k < n {
        lemma_found_early(s, name, k, n - 1);
    }
}

/// The first attribute with a name.
pub fn find_attribute<'a>(attrs: &'a Vec<(String, Attribute)>, name: &str) -> (r: Option<
    &'a Attribute,
>)
    ensures
        opt_view(r) == find_attr(attr::dict_view(attrs@), name@),
{
    let ghost s = attr::dict_view(attrs@);
    let mut i: usize = 0;
    while i < attrs.len()
        invariant
            i <= attrs@.len(),
            s == attr::dict_view(attrs@),
            find_attr_in(s, name@, i as int) is None,
        decreases attrs@.len() - i,
    {
        assert(s[i as int] == (attrs@[i as int].0@, attrs@[i as int].1@));
        if same_text(attrs[i].0.as_str(), name) {
            proof {
                lemma_found_early(s, name@, i + 1, s.len() as int);
            }
            return Some(&attrs[i].1);
        }
        i = i + 1;
    }
    None
}

/// An attribute of an operation.
pub open spec fn op_attr(op: OpN, name: AttrName) -> Option<AttrV> {
    find_attr(op.attributes, layout::name_text(name))
}

impl OpNode {
    /// An attribute of an operation.
    pub fn attribute(&self, name: AttrName) -> (r: Option<&Attribute>)
        ensures
            opt_view(r) == op_attr(self@, name),
    {
        find_attribute(&self.attributes, name.text())
    }
}

// ---------------------------------------------------------------------------
// Operand groups
// ---------------------------------------------------------------------------

/// Whether a part of an operation body is an operand group.
pub open spec fn is_group(step: Step) -> bool {
    step is Group || step is GroupCounted || step is GroupIf
}

/// The number of operand groups among the first `k` parts.
pub open spec fn groups_before(steps: Seq<Step>, k: int) -> int
    decreases k,
{
    if k <= 0 {
        0
    } else {
        groups_before(steps, k - 1) + (if is_group(steps[k - 1]) {
            1int
        } else {
            0
        })
    }
}

/// The size of operand group `j`: what the operation's sizes attribute says, one
/// operand where it says nothing.
pub open spec fn group_size(op: OpN, j: int) -> int {
    match op_attr(op, AttrName::OperandSegmentSizes) {
        Some(AttrV::Array(s)) => if 0 <= j < s.len() {
            match s[j] {
                AttrV::Integer(v, _) => v as int,
                _ => 1,
            }
        } else {
            1
        },
        _ => 1,
    }
}

/// The number of operands in front of group `j`.
pub open spec fn group_start(op: OpN, j: int) -> int
    decreases j,
{
    if j <= 0 {
        0
    } else {
        group_start(op, j - 1) + group_size(op, j - 1)
    }
}

/// The operands of group `j`.
pub open spec fn group_operands(op: OpN, j: int) -> Seq<u64> {
    op.operands.subrange(group_start(op, j), group_start(op, j) + group_size(op, j))
}

// ---------------------------------------------------------------------------
// Flags
// ---------------------------------------------------------------------------

/// The mask of a part that depends on a flag, zero for the others.
pub open spec fn mask_of(step: Step) -> u8 {
    match step {
        Step::IntIf(m, _) => m,
        Step::StrIf(m, _) => m,
        Step::HintsIf(m) => m,
        Step::HintsFirstIf(m) => m,
        Step::DictIf(m, _) => m,
        Step::FlagBool(m, _) => m,
        Step::FlagInt(m, _) => m,
        Step::GroupIf(m) => m,
        _ => 0,
    }
}

/// Whether a part that depends on a flag is there; `g` operand groups come
/// before it.
pub open spec fn is_present(op: OpN, step: Step, g: int) -> bool {
    match step {
        Step::IntIf(_, name) => op_attr(op, name) matches Some(AttrV::Integer(_, _)),
        Step::StrIf(_, name) => op_attr(op, name) matches Some(AttrV::Str(_)),
        Step::HintsIf(_) => op_attr(op, AttrName::OptimizationHints) matches Some(
            AttrV::Hints(_),
        ),
        Step::HintsFirstIf(_) => op_attr(op, AttrName::OptimizationHints) matches Some(
            AttrV::Hints(_),
        ),
        Step::DictIf(_, name) => op_attr(op, name) matches Some(AttrV::Dict(_)),
        Step::FlagBool(_, name) => op_attr(op, name) == Some(AttrV::Bool(true)),
        Step::FlagInt(_, name) => op_attr(op, name) matches Some(AttrV::Integer(v, _)) && v != 0,
        Step::GroupIf(_) => group_size(op, g) == 1,
        _ => false,
    }
}

/// The flags that the first `k` parts of a body set.
pub open spec fn flags_of(op: OpN, steps: Seq<Step>, k: int) -> int
    decreases k,
{
    if k <= 0 {
        0
    } else {
        flags_of(op, steps, k - 1) + (if is_present(op, steps[k - 1], groups_before(steps, k - 1)) {
            mask_of(steps[k - 1]) as int
        } else {
            0
        })
    }
}

// ---------------------------------------------------------------------------
// Which operations can be written
// ---------------------------------------------------------------------------

/// Whether a part of a body can be written, and if not, why; `g` operand groups
/// come before it.
pub open spec fn check_step(op: OpN, step: Step, g: int) -> Option<WriteError> {
    let missing = Some(WriteError::MissingAttribute);
    match step {
        Step::Results(n) => if op.result_types.len() == n {
            None
        } else {
            Some(WriteError::WrongResultCount)
        },
        Step::Int(name) => match op_attr(op, name) {
            Some(AttrV::Integer(_, _)) => None,
            _ => missing,
        },
        Step::IntOr(name, _) => match op_attr(op, name) {
            Some(AttrV::Integer(_, _)) => None,
            None => None,
            _ => missing,
        },
        Step::BoolByte(name) => match op_attr(op, name) {
            Some(AttrV::Bool(_)) => None,
            _ => missing,
        },
        Step::I32s(name) => match op_attr(op, name) {
            Some(AttrV::DenseI32(_)) => None,
            _ => missing,
        },
        Step::Str(name) => match op_attr(op, name) {
            Some(AttrV::Str(_)) => None,
            _ => missing,
        },
        Step::TypeRef(name) => match op_attr(op, name) {
            Some(AttrV::Type(_)) => None,
            _ => missing,
        },
        Step::Tagged(name) => match op_attr(op, name) {
            Some(_) => None,
            _ => missing,
        },
        Step::Array(name) => match op_attr(op, name) {
            Some(AttrV::Array(_)) => None,
            _ => missing,
        },
        Step::Constant => match op_attr(op, AttrName::Value) {
            Some(AttrV::Dense(_)) => None,
            _ => missing,
        },
        Step::GlobalValue => match op_attr(op, AttrName::Value) {
            Some(AttrV::Dense(_)) => None,
            _ => missing,
        },
        Step::Operands(n) => if op.operands.len() == n {
            None
        } else {
            Some(WriteError::BadOperandSegments)
        },
        Step::Group => if group_size(op, g) == 1 && group_start(op, g) + 1 <= op.operands.len() {
            None
        } else {
            Some(WriteError::BadOperandSegments)
        },
        Step::GroupCounted => if group_size(op, g) >= 0 && group_start(op, g) + group_size(op, g)
            <= op.operands.len() {
            None
        } else {
            Some(WriteError::BadOperandSegments)
        },
        Step::GroupIf(_) => if 0 <= group_size(op, g) <= 1 && group_start(op, g) + group_size(op, g)
            <= op.operands.len() {
            None
        } else {
            Some(WriteError::BadOperandSegments)
        },
        Step::Segments => if group_start(op, g) == op.operands.len() {
            None
        } else {
            Some(WriteError::BadOperandSegments)
        },
        Step::Region => if op.regions.len() == 1 {
            None
        } else {
            Some(WriteError::WrongRegionCount)
        },
        _ => None,
    }
}

/// The first reason why one of the first `k` parts cannot be written.
pub open spec fn check_steps(op: OpN, steps: Seq<Step>, k: int) -> Option<WriteError>
    decreases k,
{
    if k <= 0 {
        None
    } else {
        match check_steps(op, steps, k - 1) {
            Some(e) => Some(e),
            None => check_step(op, steps[k - 1], groups_before(steps, k - 1)),
        }
    }
}

/// The first of two reasons.
pub open spec fn first_of(x: Option<WriteError>, y: Option<WriteError>) -> Option<WriteError> {
    match x {
        Some(e) => Some(e),
        None => y,
    }
}

/// Why an operation, or one inside it, cannot be written.
pub open spec fn check_op(op: OpN, v13_3: bool) -> Option<WriteError>
    decreases op, 1int,
{
    let steps = layout::layout(op.opcode, v13_3);
    first_of(
        check_steps(op, steps, steps.len() as int),
        check_regions(op.regions, v13_3, op.regions.len() as int),
    )
}

/// Why one of the first `n` operations cannot be written.
pub open spec fn check_ops(ops: Seq<OpN>, v13_3: bool, n: int) -> Option<WriteError>
    decreases ops, n,
{
    if n <= 0 || n > ops.len() {
        None
    } else {
        first_of(check_ops(ops, v13_3, n - 1), check_op(ops[n - 1], v13_3))
    }
}

/// Why one of the first `n` blocks cannot be written.
pub open spec fn check_blocks(bs: Seq<BlockN>, v13_3: bool, n: int) -> Option<WriteError>
    decreases bs, n,
{
    if n <= 0 || n > bs.len() {
        None
    } else {
        first_of(
            check_blocks(bs, v13_3, n - 1),
            check_ops(bs[n - 1].ops, v13_3, bs[n - 1].ops.len() as int),
        )
    }
}

/// Why one of the first `n` regions cannot be written.
pub open spec fn check_regions(rs: Seq<Seq<BlockN>>, v13_3: bool, n: int) -> Option<WriteError>
    decreases rs, n,
{
    if n <= 0 || n > rs.len() {
        None
    } else {
        first_of(
            check_regions(rs, v13_3, n - 1),
            check_blocks(rs[n - 1], v13_3, rs[n - 1].len() as int),
        )
    }
}

// ---------------------------------------------------------------------------
// Values of attributes
// ---------------------------------------------------------------------------

/// The value of an integer attribute.
pub open spec fn int_value(op: OpN, name: AttrName) -> i64 {
    match op_attr(op, name) {
        Some(AttrV::Integer(v, _)) => v,
        _ => 0,
    }
}

/// The value of a boolean attribute.
pub open spec fn bool_value(op: OpN, name: AttrName) -> bool {
    op_attr(op, name) == Some(AttrV::Bool(true))
}

/// The value of an attribute that is an array of 32-bit integers.
pub open spec fn i32s_value(op: OpN, name: AttrName) -> Seq<i32> {
    match op_attr(op, name) {
        Some(AttrV::DenseI32(s)) => s,
        _ => seq![],
    }
}

/// The value of a string attribute.
pub open spec fn str_value(op: OpN, name: AttrName) -> Seq<char> {
    match op_attr(op, name) {
        Some(AttrV::Str(s)) => s,
        _ => seq![],
    }
}

/// The value of a type attribute.
pub open spec fn type_value(op: OpN, name: AttrName) -> TypeV {
    match op_attr(op, name) {
        Some(AttrV::Type(t)) => t,
        _ => TypeV::Token,
    }
}

/// The value of an array attribute.
pub open spec fn list_value(op: OpN, name: AttrName) -> Seq<AttrV> {
    match op_attr(op, name) {
        Some(AttrV::Array(s)) => s,
        _ => seq![],
    }
}

/// The value of a dictionary attribute.
pub open spec fn dict_value(op: OpN, name: AttrName) -> Seq<(Seq<char>, AttrV)> {
    match op_attr(op, name) {
        Some(AttrV::Dict(s)) => s,
        _ => seq![],
    }
}

/// The optimization hints.
pub open spec fn hints_value(op: OpN) -> Seq<(Seq<char>, Seq<(Seq<char>, AttrV)>)> {
    match op_attr(op, AttrName::OptimizationHints) {
        Some(AttrV::Hints(s)) => s,
        _ => seq![],
    }
}

/// The data of the constant.
pub open spec fn data_value(op: OpN) -> Seq<u8> {
    match op_attr(op, AttrName::Value) {
        Some(AttrV::Dense(d)) => d.data,
        _ => seq![],
    }
}

/// An attribute of any kind.
pub open spec fn any_value(op: OpN, name: AttrName) -> AttrV {
    match op_attr(op, name) {
        Some(a) => a,
        None => AttrV::Bool(false),
    }
}

// ---------------------------------------------------------------------------
// What operations need
// ---------------------------------------------------------------------------

/// The constants of a part of a body, regions aside.
pub open spec fn step_consts(op: OpN, step: Step) -> Seq<Seq<u8>> {
    match step {
        Step::Tagged(name) => attr_writer::attr_consts(any_value(op, name)),
        Step::Array(name) => attr_writer::list_consts(
            list_value(op, name),
            list_value(op, name).len() as int,
        ),
        Step::HintsIf(_) => attr_writer::hints_consts(
            hints_value(op),
            hints_value(op).len() as int,
        ),
        Step::HintsFirstIf(_) => attr_writer::hints_consts(
            hints_value(op),
            hints_value(op).len() as int,
        ),
        Step::DictIf(_, name) => attr_writer::dict_consts(
            dict_value(op, name),
            dict_value(op, name).len() as int,
        ),
        Step::Constant => seq![attr_writer::constant_entry(data_value(op))],
        Step::GlobalValue => seq![attr_writer::constant_entry(data_value(op))],
        _ => seq![],
    }
}

/// Whether a part of a body is made of regions.
pub open spec fn is_regions(step: Step) -> bool {
    step is Regions || step is Region
}

/// The constants of the first `k` parts of a body.
pub open spec fn steps_consts(op: OpN, v13_3: bool, steps: Seq<Step>, k: int) -> Seq<Seq<u8>>
    decreases op, 0int, k,
{
    if k <= 0 {
        seq![]
    } else {
        steps_consts(op, v13_3, steps, k - 1) + (if is_regions(steps[k - 1]) {
            regions_consts(op.regions, v13_3, op.regions.len() as int)
        } else {
            step_consts(op, steps[k - 1])
        })
    }
}

/// The constants of an operation.
pub open spec fn op_consts(op: OpN, v13_3: bool) -> Seq<Seq<u8>>
    decreases op, 1int, 0int,
{
    let steps = layout::layout(op.opcode, v13_3);
    steps_consts(op, v13_3, steps, steps.len() as int)
}

/// The constants of the first `n` operations.
pub open spec fn ops_consts(ops: Seq<OpN>, v13_3: bool, n: int) -> Seq<Seq<u8>>
    decreases ops, 0int, n,
{
    if n <= 0 || n > ops.len() {
        seq![]
    } else {
        ops_consts(ops, v13_3, n - 1) + op_consts(ops[n - 1], v13_3)
    }
}

/// The constants of the first `n` blocks.
pub open spec fn blocks_consts(bs: Seq<BlockN>, v13_3: bool, n: int) -> Seq<Seq<u8>>
    decreases bs, 0int, n,
{
    if n <= 0 || n > bs.len() {
        seq![]
    } else {
        blocks_consts(bs, v13_3, n - 1) + ops_consts(
            bs[n - 1].ops,
            v13_3,
            bs[n - 1].ops.len() as int,
        )
    }
}

/// The constants of the first `n` regions.
pub open spec fn regions_consts(rs: Seq<Seq<BlockN>>, v13_3: bool, n: int) -> Seq<Seq<u8>>
    decreases rs, 0int, n,
{
    if n <= 0 || n > rs.len() {
        seq![]
    } else {
        regions_consts(rs, v13_3, n - 1) + blocks_consts(rs[n - 1], v13_3, rs[n - 1].len() as int)
    }
}

/// The tables hold what a part of a body needs, regions aside.
pub open spec fn step_covered(t: TablesV, op: OpN, step: Step) -> bool {
    match step {
        Step::Results(_) => type_writer::all_in(t.types, op.result_types),
        Step::ResultsCounted => type_writer::all_in(t.types, op.result_types),
        Step::Str(name) => t.strings.contains(str_value(op, name)),
        Step::StrIf(_, name) => op_attr(op, name) matches Some(AttrV::Str(_))
            ==> t.strings.contains(str_value(op, name)),
        Step::TypeRef(name) => t.types.contains(type_value(op, name)),
        Step::Tagged(name) => attr_writer::covers(t, any_value(op, name)),
        Step::Array(name) => attr_writer::covers_list(
            t,
            list_value(op, name),
            list_value(op, name).len() as int,
        ),
        Step::HintsIf(_) => attr_writer::covers_hints(
            t,
            hints_value(op),
            hints_value(op).len() as int,
        ),
        Step::HintsFirstIf(_) => attr_writer::covers_hints(
            t,
            hints_value(op),
            hints_value(op).len() as int,
        ),
        Step::DictIf(_, name) => attr_writer::covers_dict(
            t,
            dict_value(op, name),
            dict_value(op, name).len() as int,
        ),
        _ => true,
    }
}

/// The tables hold what the first `k` parts of a body need.
pub open spec fn steps_covered(t: TablesV, op: OpN, v13_3: bool, steps: Seq<Step>, k: int) -> bool
    decreases op, 0int, k,
{
    if k <= 0 {
        true
    } else {
        steps_covered(t, op, v13_3, steps, k - 1) && (if is_regions(steps[k - 1]) {
            regions_covered(t, op.regions, v13_3, op.regions.len() as int)
        } else {
            step_covered(t, op, steps[k - 1])
        })
    }
}

/// The tables hold what an operation needs.
pub open spec fn op_covered(t: TablesV, op: OpN, v13_3: bool) -> bool
    decreases op, 1int, 0int,
{
    let steps = layout::layout(op.opcode, v13_3);
    steps_covered(t, op, v13_3, steps, steps.len() as int)
}

/// The tables hold what the first `n` operations need.
pub open spec fn ops_covered(t: TablesV, ops: Seq<OpN>, v13_3: bool, n: int) -> bool
    decreases ops, 0int, n,
{
    if n <= 0 || n > ops.len() {
        true
    } else {
        ops_covered(t, ops, v13_3, n - 1) && op_covered(t, ops[n - 1], v13_3)
    }
}

/// The tables hold what the first `n` blocks need.
pub open spec fn blocks_covered(t: TablesV, bs: Seq<BlockN>, v13_3: bool, n: int) -> bool
    decreases bs, 0int, n,
{
    if n <= 0 || n > bs.len() {
        true
    } else {
        blocks_covered(t, bs, v13_3, n - 1) && type_writer::all_in(t.types, bs[n - 1].arg_types)
            && ops_covered(t, bs[n - 1].ops, v13_3, bs[n - 1].ops.len() as int)
    }
}

/// The tables hold what the first `n` regions need.
pub open spec fn regions_covered(t: TablesV, rs: Seq<Seq<BlockN>>, v13_3: bool, n: int) -> bool
    decreases rs, 0int, n,
{
    if n <= 0 || n > rs.len() {
        true
    } else {
        regions_covered(t, rs, v13_3, n - 1) && blocks_covered(
            t,
            rs[n - 1],
            v13_3,
            rs[n - 1].len() as int,
        )
    }
}

// ---------------------------------------------------------------------------
// Encoding
// ---------------------------------------------------------------------------

/// The first `n` operands.
pub open spec fn operands_bytes(s: Seq<u64>, n: int) -> Seq<u8>
    decreases n,
{
    if n <= 0 {
        seq![]
    } else {
        operands_bytes(s, n - 1) + wire::varint_bytes(s[n - 1])
    }
}

/// References to types.
pub open spec fn types_bytes(t: TablesV, s: Seq<TypeV>) -> Seq<u8> {
    type_writer::refs_bytes(t.types, s, s.len() as int)
}

/// An integer in a varint.
pub open spec fn int_bytes(v: i64) -> Seq<u8> {
    wire::varint_bytes(wire::i64_pattern(v) as u64)
}

/// A part of a body that holds result types, flags or operands: part `k` of
/// `steps`.
pub open spec fn value_step_bytes(op: OpN, t: TablesV, steps: Seq<Step>, k: int) -> Seq<u8> {
    let g = groups_before(steps, k);
    match steps[k] {
        Step::Results(_) => types_bytes(t, op.result_types),
        Step::ResultsCounted => wire::varint_bytes(op.result_types.len() as u64) + types_bytes(
            t,
            op.result_types,
        ),
        Step::Flags => wire::varint_bytes(flags_of(op, steps, steps.len() as int) as u64),
        Step::Operands(_) => operands_bytes(op.operands, op.operands.len() as int),
        Step::OperandsCounted => wire::varint_bytes(op.operands.len() as u64) + operands_bytes(
            op.operands,
            op.operands.len() as int,
        ),
        Step::Group => operands_bytes(group_operands(op, g), group_size(op, g)),
        Step::GroupCounted => wire::varint_bytes(group_size(op, g) as u64) + operands_bytes(
            group_operands(op, g),
            group_size(op, g),
        ),
        Step::GroupIf(_) => operands_bytes(group_operands(op, g), group_size(op, g)),
        _ => seq![],
    }
}

/// A part of a body that holds attributes, whose first constant has index `c`.
pub open spec fn attr_step_bytes(op: OpN, t: TablesV, c: int, step: Step) -> Seq<u8> {
    match step {
        Step::Int(name) => int_bytes(int_value(op, name)),
        Step::IntOr(name, default) => match op_attr(op, name) {
            Some(AttrV::Integer(v, _)) => int_bytes(v),
            _ => wire::varint_bytes(default),
        },
        Step::IntIf(_, name) => if is_present(op, step, 0) {
            int_bytes(int_value(op, name))
        } else {
            seq![]
        },
        Step::BoolByte(name) => seq![attr_writer::bool_byte(bool_value(op, name))],
        Step::I32s(name) => wire::i32_array_bytes(i32s_value(op, name)),
        Step::Str(name) => attr_writer::string_bytes(t, str_value(op, name)),
        Step::StrIf(_, name) => if is_present(op, step, 0) {
            attr_writer::string_bytes(t, str_value(op, name))
        } else {
            seq![]
        },
        Step::TypeRef(name) => attr_writer::type_bytes(t, type_value(op, name)),
        Step::Tagged(name) => attr_writer::attr_bytes(any_value(op, name), t, c),
        Step::Array(name) => array_bytes(list_value(op, name), t, c),
        Step::HintsIf(_) => if is_present(op, step, 0) {
            arch_bytes(hints_value(op), t, c)
        } else {
            seq![]
        },
        Step::HintsFirstIf(_) => if is_present(op, step, 0) {
            arch_bytes(hints_value(op), t, c)
        } else {
            seq![]
        },
        Step::DictIf(_, name) => if is_present(op, step, 0) {
            entries_bytes(dict_value(op, name), t, c)
        } else {
            seq![]
        },
        Step::Constant => wire::varint_bytes(c as u64),
        Step::GlobalValue => wire::varint_bytes(c as u64),
        _ => seq![],
    }
}

/// A counted list of attributes.
pub open spec fn array_bytes(s: Seq<AttrV>, t: TablesV, c: int) -> Seq<u8> {
    wire::varint_bytes(s.len() as u64) + attr_writer::list_bytes(s, t, c, s.len() as int)
}

/// A counted list of named attributes.
pub open spec fn entries_bytes(s: Seq<(Seq<char>, AttrV)>, t: TablesV, c: int) -> Seq<u8> {
    wire::varint_bytes(s.len() as u64) + attr_writer::dict_bytes(s, t, c, s.len() as int)
}

/// A counted list of architectures.
pub open spec fn arch_bytes(
    s: Seq<(Seq<char>, Seq<(Seq<char>, AttrV)>)>,
    t: TablesV,
    c: int,
) -> Seq<u8> {
    wire::varint_bytes(s.len() as u64) + attr_writer::hints_bytes(s, t, c, s.len() as int)
}

/// The first `k` parts of a body whose first constant has index `c`.
pub open spec fn steps_bytes(
    op: OpN,
    t: TablesV,
    v13_3: bool,
    c: int,
    steps: Seq<Step>,
    k: int,
) -> Seq<u8>
    decreases op, 0int, k,
{
    if k <= 0 {
        seq![]
    } else {
        let at = c + steps_consts(op, v13_3, steps, k - 1).len();
        let step = steps[k - 1];
        steps_bytes(op, t, v13_3, c, steps, k - 1) + (if is_regions(step) {
            (if step is Regions {
                wire::varint_bytes(op.regions.len() as u64)
            } else {
                seq![]
            }) + regions_bytes(op.regions, t, v13_3, at, op.regions.len() as int)
        } else if body::is_value_step(step) {
            value_step_bytes(op, t, steps, k - 1)
        } else {
            attr_step_bytes(op, t, at, step)
        })
    }
}

/// An operation whose first constant has index `c`.
pub open spec fn op_bytes(op: OpN, t: TablesV, v13_3: bool, c: int) -> Seq<u8>
    decreases op, 1int, 0int,
{
    let steps = layout::layout(op.opcode, v13_3);
    wire::varint_bytes(op.opcode.spec_value() as u64) + steps_bytes(
        op,
        t,
        v13_3,
        c,
        steps,
        steps.len() as int,
    )
}

/// The first `n` operations.
pub open spec fn ops_bytes(ops: Seq<OpN>, t: TablesV, v13_3: bool, c: int, n: int) -> Seq<u8>
    decreases ops, 0int, n,
{
    if n <= 0 || n > ops.len() {
        seq![]
    } else {
        ops_bytes(ops, t, v13_3, c, n - 1) + op_bytes(
            ops[n - 1],
            t,
            v13_3,
            c + ops_consts(ops, v13_3, n - 1).len(),
        )
    }
}

/// A block: argument types and operations.
pub open spec fn block_bytes(b: BlockN, t: TablesV, v13_3: bool, c: int) -> Seq<u8>
    decreases b, 0int, 0int,
{
    wire::varint_bytes(b.arg_types.len() as u64) + types_bytes(t, b.arg_types)
        + wire::varint_bytes(b.ops.len() as u64) + ops_bytes(b.ops, t, v13_3, c, b.ops.len() as int)
}

/// The first `n` blocks.
pub open spec fn blocks_bytes(bs: Seq<BlockN>, t: TablesV, v13_3: bool, c: int, n: int) -> Seq<u8>
    decreases bs, 0int, n,
{
    if n <= 0 || n > bs.len() {
        seq![]
    } else {
        blocks_bytes(bs, t, v13_3, c, n - 1) + block_bytes(
            bs[n - 1],
            t,
            v13_3,
            c + blocks_consts(bs, v13_3, n - 1).len(),
        )
    }
}

/// The first `n` regions, each behind the number of its blocks.
pub open spec fn regions_bytes(
    rs: Seq<Seq<BlockN>>,
    t: TablesV,
    v13_3: bool,
    c: int,
    n: int,
) -> Seq<u8>
    decreases rs, 0int, n,
{
    if n <= 0 || n > rs.len() {
        seq![]
    } else {
        regions_bytes(rs, t, v13_3, c, n - 1) + (wire::varint_bytes(rs[n - 1].len() as u64)
            + blocks_bytes(
            rs[n - 1],
            t,
            v13_3,
            c + regions_consts(rs, v13_3, n - 1).len(),
            rs[n - 1].len() as int,
        ))
    }
}

// ---------------------------------------------------------------------------
// Checking
// ---------------------------------------------------------------------------

impl OpNode {
    fn int_attr(&self, name: AttrName) -> (r: Option<i64>)
        ensures
            match op_attr(self@, name) {
                Some(AttrV::Integer(v, _)) => r == Some(v),
                _ => r is None,
            },
    {
        match self.attribute(name) {
            Some(Attribute::Integer(v, _)) => Some(*v),
            _ => None,
        }
    }

    fn size_of_group(&self, j: usize) -> (n: i64)
        ensures
            n == group_size(self@, j as int),
    {
        match self.attribute(AttrName::OperandSegmentSizes) {
            Some(Attribute::Array(v)) => {
                if j < v.len() {
                    assert(attr::attrs_view(v@)[j as int] == v@[j as int]@);
                    match &v[j] {
                        Attribute::Integer(n, _) => *n,
                        _ => 1,
                    }
                } else {
                    1
                }
            },
            _ => 1,
        }
    }

    fn present(&self, step: Step, g: usize) -> (r: bool)
        ensures
            r == is_present(self@, step, g as int),
    {
        match step {
            Step::IntIf(_, name) => match self.attribute(name) {
                Some(Attribute::Integer(_, _)) => true,
                _ => false,
            },
            Step::StrIf(_, name) => match self.attribute(name) {
                Some(Attribute::String(_)) => true,
                _ => false,
            },
            Step::HintsIf(_) => match self.attribute(AttrName::OptimizationHints) {
                Some(Attribute::OptimizationHints(_)) => true,
                _ => false,
            },
            Step::HintsFirstIf(_) => match self.attribute(AttrName::OptimizationHints) {
                Some(Attribute::OptimizationHints(_)) => true,
                _ => false,
            },
            Step::DictIf(_, name) => match self.attribute(name) {
                Some(Attribute::Dictionary(_)) => true,
                _ => false,
            },
            Step::FlagBool(_, name) => match self.attribute(name) {
                Some(Attribute::Bool(b)) => *b,
                _ => false,
            },
            Step::FlagInt(_, name) => match self.attribute(name) {
                Some(Attribute::Integer(v, _)) => *v != 0,
                _ => false,
            },
            Step::GroupIf(_) => self.size_of_group(g) == 1,
            _ => false,
        }
    }

    /// The attribute has the kind that a part of the body needs.
    fn attr_fits(&self, step: Step) -> (r: bool)
        requires
            !body::is_value_step(step),
            !(step is Segments),
            !(step is Region),
        ensures
            r == (check_step(self@, step, 0) is None),
            !r ==> check_step(self@, step, 0) == Some(WriteError::MissingAttribute),
    {
        match step {
            Step::Int(name) => match self.attribute(name) {
                Some(Attribute::Integer(_, _)) => true,
                _ => false,
            },
            Step::IntOr(name, _) => match self.attribute(name) {
                Some(Attribute::Integer(_, _)) => true,
                None => true,
                _ => false,
            },
            Step::BoolByte(name) => match self.attribute(name) {
                Some(Attribute::Bool(_)) => true,
                _ => false,
            },
            Step::I32s(name) => match self.attribute(name) {
                Some(Attribute::DenseI32Array(_)) => true,
                _ => false,
            },
            Step::Str(name) => match self.attribute(name) {
                Some(Attribute::String(_)) => true,
                _ => false,
            },
            Step::TypeRef(name) => match self.attribute(name) {
                Some(Attribute::Type(_)) => true,
                _ => false,
            },
            Step::Tagged(name) => self.attribute(name).is_some(),
            Step::Array(name) => match self.attribute(name) {
                Some(Attribute::Array(_)) => true,
                _ => false,
            },
            Step::Constant => match self.attribute(AttrName::Value) {
                Some(Attribute::DenseElements(_)) => true,
                _ => false,
            },
            Step::GlobalValue => match self.attribute(AttrName::Value) {
                Some(Attribute::DenseElements(_)) => true,
                _ => false,
            },
            _ => true,
        }
    }

    /// Check one part of the body; `g` groups with `start` operands come before
    /// it.
    fn check_part(&self, step: Step, g: usize, start: usize) -> (r: Option<WriteError>)
        requires
            start == group_start(self@, g as int),
            start <= self@.operands.len(),
        ensures
            r == check_step(self@, step, g as int),
    {
        match step {
            Step::Results(n) => if self.result_types.len() == n as usize {
                None
            } else {
                Some(WriteError::WrongResultCount)
            },
            Step::Operands(n) => if self.operands.len() == n as usize {
                None
            } else {
                Some(WriteError::BadOperandSegments)
            },
            Step::Group => {
                let n: i64 = self.size_of_group(g);
                if n == 1 && self.operands.len() - start >= 1 {
                    None
                } else {
                    Some(WriteError::BadOperandSegments)
                }
            },
            Step::GroupCounted => {
                let n: i64 = self.size_of_group(g);
                if n >= 0 && n as u64 <= (self.operands.len() - start) as u64 {
                    None
                } else {
                    Some(WriteError::BadOperandSegments)
                }
            },
            Step::GroupIf(_) => {
                let n: i64 = self.size_of_group(g);
                if 0 <= n && n <= 1 && n as u64 <= (self.operands.len() - start) as u64 {
                    None
                } else {
                    Some(WriteError::BadOperandSegments)
                }
            },
            Step::Segments => if start == self.operands.len() {
                None
            } else {
                Some(WriteError::BadOperandSegments)
            },
            Step::Region => if self.regions.len() == 1 {
                None
            } else {
                Some(WriteError::WrongRegionCount)
            },
            Step::ResultsCounted => None,
            Step::Flags => None,
            Step::OperandsCounted => None,
            _ => if self.attr_fits(step) {
                None
            } else {
                Some(WriteError::MissingAttribute)
            },
        }
    }

    fn check_parts(&self, steps: &Vec<Step>) -> (r: Option<WriteError>)
        ensures
            r == check_steps(self@, steps@, steps@.len() as int),
    {
        let mut k: usize = 0;
        let mut g: usize = 0;
        let mut start: usize = 0;
        while k < steps.len()
            invariant
                k <= steps@.len(),
                g == groups_before(steps@, k as int),
                g <= k,
                start == group_start(self@, g as int),
                start <= self@.operands.len(),
                check_steps(self@, steps@, k as int) is None,
            decreases steps@.len() - k,
        {
            let step = steps[k];
            match self.check_part(step, g, start) {
                Some(e) => {
                    proof {
                        lemma_check_early(self@, steps@, k + 1, steps@.len() as int);
                    }
                    return Some(e);
                },
                None => {},
            }
            if step_is_group(step) {
                let n: i64 = self.size_of_group(g);
                let len: usize = self.operands.len();
                assert(0 <= n && start + n <= len);
                start = start + n as usize;
                g = g + 1;
            }
            k = k + 1;
        }
        None
    }
}

fn step_is_group(step: Step) -> (r: bool)
    ensures
        r == is_group(step),
{
    match step {
        Step::Group => true,
        Step::GroupCounted => true,
        Step::GroupIf(_) => true,
        _ => false,
    }
}

proof fn lemma_check_early(op: OpN, steps: Seq<Step>, k: int, n: int)
    requires
        0 <= k <= n,
        check_steps(op, steps, k) is Some,
    ensures
        check_steps(op, steps, n) == check_steps(op, steps, k),
    decreases n,
{
    if k < n {
        lemma_check_early(op, steps, k, n - 1);
    }
}

/// Why an operation, or one inside it, cannot be written.
pub fn check_operation(op: &OpNode, v13_3: bool) -> (r: Option<WriteError>)
    ensures
        r == check_op(op@, v13_3),
    decreases *op, 0int,
{
    let steps = layout_of(op.opcode, v13_3);
    match op.check_parts(&steps) {
        Some(e) => Some(e),
        None => check_region_list(&op.regions, v13_3),
    }
}

/// Why one of some operations cannot be written.
pub fn check_operations(ops: &Vec<OpNode>, v13_3: bool) -> (r: Option<WriteError>)
    ensures
        r == check_ops(node::ops_view(ops@), v13_3, ops@.len() as int),
    decreases ops@, 0int,
{
    let ghost s = node::ops_view(ops@);
    let mut i: usize = 0;
    while i < ops.len()
        invariant
            i <= ops@.len(),
            s == node::ops_view(ops@),
            check_ops(s, v13_3, i as int) is None,
        decreases ops@.len() - i,
    {
        assert(s[i as int] == ops@[i as int]@);
        match check_operation(&ops[i], v13_3) {
            Some(e) => {
                proof {
                    lemma_ops_early(s, v13_3, i + 1, s.len() as int);
                }
                return Some(e);
            },
            None => {},
        }
        i = i + 1;
    }
    None
}

proof fn lemma_ops_early(s: Seq<OpN>, v13_3: bool, k: int, n: int)
    requires
        0 <= k <= n <= s.len(),
        check_ops(s, v13_3, k) is Some,
    ensures
        check_ops(s, v13_3, n) == check_ops(s, v13_3, k),
    decreases n,
{
    if k < n {
        lemma_ops_early(s, v13_3, k, n - 1);
    }
}

proof fn lemma_blocks_early(s: Seq<BlockN>, v13_3: bool, k: int, n: int)
    requires
        0 <= k <= n <= s.len(),
        check_blocks(s, v13_3, k) is Some,
    ensures
        check_blocks(s, v13_3, n) == check_blocks(s, v13_3, k),
    decreases n,
{
    if k < n {
        lemma_blocks_early(s, v13_3, k, n - 1);
    }
}

proof fn lemma_regions_early(s: Seq<Seq<BlockN>>, v13_3: bool, k: int, n: int)
    requires
        0 <= k <= n <= s.len(),
        check_regions(s, v13_3, k) is Some,
    ensures
        check_regions(s, v13_3, n) == check_regions(s, v13_3, k),
    decreases n,
{
    if k < n {
        lemma_regions_early(s, v13_3, k, n - 1);
    }
}

fn check_block_list(bs: &Vec<BlockNode>, v13_3: bool) -> (r: Option<WriteError>)
    ensures
        r == check_blocks(node::blocks_view(bs@), v13_3, bs@.len() as int),
    decreases bs@, 0int,
{
    let ghost s = node::blocks_view(bs@);
    let mut i: usize = 0;
    while i < bs.len()
        invariant
            i <= bs@.len(),
            s == node::blocks_view(bs@),
            check_blocks(s, v13_3, i as int) is None,
        decreases bs@.len() - i,
    {
        assert(s[i as int] == bs@[i as int]@);
        match check_operations(&bs[i].ops, v13_3) {
            Some(e) => {
                proof {
                    lemma_blocks_early(s, v13_3, i + 1, s.len() as int);
                }
                return Some(e);
            },
            None => {},
        }
        i = i + 1;
    }
    None
}

fn check_region_list(rs: &Vec<RegionNode>, v13_3: bool) -> (r: Option<WriteError>)
    ensures
        r == check_regions(node::regions_view(rs@), v13_3, rs@.len() as int),
    decreases rs@, 0int,
{
    let ghost s = node::regions_view(rs@);
    let mut i: usize = 0;
    while i < rs.len()
        invariant
            i <= rs@.len(),
            s == node::regions_view(rs@),
            check_regions(s, v13_3, i as int) is None,
        decreases rs@.len() - i,
    {
        assert(s[i as int] == rs@[i as int]@);
        match check_block_list(&rs[i].blocks, v13_3) {
            Some(e) => {
                proof {
                    lemma_regions_early(s, v13_3, i + 1, s.len() as int);
                }
                return Some(e);
            },
            None => {},
        }
        i = i + 1;
    }
    None
}

// ---------------------------------------------------------------------------
// Writing
// ---------------------------------------------------------------------------

/// What holds of all parts of a body holds of the first ones.
proof fn lemma_parts(
    op: OpN,
    t: TablesV,
    v13_3: bool,
    steps: Seq<Step>,
    k: int,
    n: int,
)
    requires
        0 <= k <= n,
        check_steps(op, steps, n) is None,
        steps_covered(t, op, v13_3, steps, n),
    ensures
        check_steps(op, steps, k) is None,
        steps_covered(t, op, v13_3, steps, k),
        steps_consts(op, v13_3, steps, k).len() <= steps_consts(op, v13_3, steps, n).len(),
    decreases n,
{
    if k < n {
        lemma_parts(op, t, v13_3, steps, k, n - 1);
    }
}

fn write_types(w: &mut EncodingWriter, pools: &Pools, tys: &Vec<Type>)
    requires
        pools.wf(),
        type_writer::all_in(pools@.types, types::types_view(tys@)),
    ensures
        final(w)@ == old(w)@ + types_bytes(pools@, types::types_view(tys@)),
{
    let ghost w0 = w@;
    let ghost s = types::types_view(tys@);
    let ghost l = pools@.types;
    let mut i: usize = 0;
    assert(w@ =~= w0 + type_writer::refs_bytes(l, s, 0));
    while i < tys.len()
        invariant
            i <= tys@.len(),
            s == types::types_view(tys@),
            l == pools@.types,
            pools.wf(),
            type_writer::all_in(l, s),
            w@ == w0 + type_writer::refs_bytes(l, s, i as int),
        decreases tys@.len() - i,
    {
        assert(s[i as int] == tys@[i as int]@);
        write_ref(w, &pools.types, &tys[i]);
        assert(w@ =~= w0 + type_writer::refs_bytes(l, s, i + 1));
        i = i + 1;
    }
}

fn write_operands(w: &mut EncodingWriter, s: &Vec<u64>, from: usize, n: usize)
    requires
        from + n <= s@.len(),
    ensures
        final(w)@ == old(w)@ + operands_bytes(
            s@.subrange(from as int, from + n),
            n as int,
        ),
{
    let ghost w0 = w@;
    let ghost part = s@.subrange(from as int, from + n);
    let len: usize = s.len();
    let mut i: usize = 0;
    assert(w@ =~= w0 + operands_bytes(part, 0));
    while i < n
        invariant
            i <= n,
            from + n <= len,
            len == s@.len(),
            part == s@.subrange(from as int, from + n),
            w@ == w0 + operands_bytes(part, i as int),
        decreases n - i,
    {
        w.write_varint(s[from + i]);
        assert(w@ =~= w0 + operands_bytes(part, i + 1));
        i = i + 1;
    }
}

fn mask_for(step: Step) -> (m: u8)
    ensures
        m == mask_of(step),
{
    match step {
        Step::IntIf(m, _) => m,
        Step::StrIf(m, _) => m,
        Step::HintsIf(m) => m,
        Step::HintsFirstIf(m) => m,
        Step::DictIf(m, _) => m,
        Step::FlagBool(m, _) => m,
        Step::FlagInt(m, _) => m,
        Step::GroupIf(m) => m,
        _ => 0,
    }
}

fn flags_for(op: &OpNode, steps: &Vec<Step>) -> (f: u64)
    requires
        steps@.len() <= 16,
    ensures
        f == flags_of(op@, steps@, steps@.len() as int),
{
    let mut f: u64 = 0;
    let mut g: usize = 0;
    let mut k: usize = 0;
    while k < steps.len()
        invariant
            k <= steps@.len() <= 16,
            g == groups_before(steps@, k as int),
            g <= k,
            f == flags_of(op@, steps@, k as int),
            f <= 255 * k,
        decreases steps@.len() - k,
    {
        let step = steps[k];
        if op.present(step, g) {
            f = f + mask_for(step) as u64;
        }
        if step_is_group(step) {
            g = g + 1;
        }
        k = k + 1;
    }
    f
}

fn write_value_part(
    w: &mut EncodingWriter,
    pools: &Pools,
    op: &OpNode,
    steps: &Vec<Step>,
    k: usize,
    g: usize,
    start: usize,
)
    requires
        pools.wf(),
        k < steps@.len() <= 16,
        g == groups_before(steps@, k as int),
        start == group_start(op@, g as int),
        start <= op@.operands.len(),
        body::is_value_step(steps@[k as int]),
        check_step(op@, steps@[k as int], g as int) is None,
        step_covered(pools@, op@, steps@[k as int]),
    ensures
        final(w)@ == old(w)@ + value_step_bytes(op@, pools@, steps@, k as int),
{
    let ghost w0 = w@;
    let ghost all = op@.operands;
    match steps[k] {
        Step::Results(_) => {
            write_types(w, pools, &op.result_types);
        },
        Step::ResultsCounted => {
            w.write_varint(op.result_types.len() as u64);
            write_types(w, pools, &op.result_types);
        },
        Step::Flags => {
            let f: u64 = flags_for(op, steps);
            w.write_varint(f);
        },
        Step::Operands(_) => {
            write_operands(w, &op.operands, 0, op.operands.len());
            assert(all.subrange(0, all.len() as int) =~= all);
        },
        Step::OperandsCounted => {
            w.write_varint(op.operands.len() as u64);
            write_operands(w, &op.operands, 0, op.operands.len());
            assert(all.subrange(0, all.len() as int) =~= all);
        },
        Step::Group => {
            write_operands(w, &op.operands, start, 1);
        },
        Step::GroupCounted => {
            let n: i64 = op.size_of_group(g);
            let len: usize = op.operands.len();
            assert(0 <= n && start + n <= len);
            w.write_varint(n as u64);
            write_operands(w, &op.operands, start, n as usize);
        },
        Step::GroupIf(_) => {
            let n: i64 = op.size_of_group(g);
            write_operands(w, &op.operands, start, n as usize);
        },
        _ => {},
    }
    assert(w@ =~= w0 + value_step_bytes(op@, pools@, steps@, k as int));
}

fn write_attr_part(
    w: &mut EncodingWriter,
    pools: &Pools,
    op: &OpNode,
    step: Step,
    next: &mut u64,
)
    requires
        pools.wf(),
        !body::is_value_step(step),
        !is_regions(step),
        !(step is Segments),
        check_step(op@, step, 0) is None,
        step_covered(pools@, op@, step),
        *old(next) + step_consts(op@, step).len() <= u64::MAX,
    ensures
        final(w)@ == old(w)@ + attr_step_bytes(op@, pools@, *old(next) as int, step),
        *final(next) == *old(next) + step_consts(op@, step).len(),
{
    let ghost w0 = w@;
    let ghost c = *next as int;
    match step {
        Step::Int(name) => match op.int_attr(name) {
            Some(v) => w.write_varint(pattern_of(v)),
            None => {},
        },
        Step::IntOr(name, default) => match op.int_attr(name) {
            Some(v) => w.write_varint(pattern_of(v)),
            None => w.write_varint(default),
        },
        Step::IntIf(_, name) => match op.int_attr(name) {
            Some(v) => w.write_varint(pattern_of(v)),
            None => {},
        },
        Step::BoolByte(name) => match op.attribute(name) {
            Some(Attribute::Bool(b)) => w.write_byte(if *b {
                1
            } else {
                0
            }),
            _ => {},
        },
        Step::I32s(name) => match op.attribute(name) {
            Some(Attribute::DenseI32Array(v)) => w.write_le_var_size_i32(v.as_slice()),
            _ => {},
        },
        Step::Str(name) => match op.attribute(name) {
            Some(Attribute::String(s)) => pools.write_string(w, s.as_str()),
            _ => {},
        },
        Step::StrIf(_, name) => match op.attribute(name) {
            Some(Attribute::String(s)) => pools.write_string(w, s.as_str()),
            _ => {},
        },
        Step::TypeRef(name) => match op.attribute(name) {
            Some(Attribute::Type(t)) => write_ref(w, &pools.types, t),
            _ => {},
        },
        Step::Tagged(name) => match op.attribute(name) {
            Some(a) => pools.write_self_contained_attribute(w, a, next),
            None => {},
        },
        Step::Array(name) => match op.attribute(name) {
            Some(Attribute::Array(v)) => pools.write_array(w, v, next),
            _ => {},
        },
        Step::HintsIf(_) => match op.attribute(AttrName::OptimizationHints) {
            Some(Attribute::OptimizationHints(h)) => pools.write_hints(w, &h.entries, next),
            _ => {},
        },
        Step::HintsFirstIf(_) => match op.attribute(AttrName::OptimizationHints) {
            Some(Attribute::OptimizationHints(h)) => pools.write_hints(w, &h.entries, next),
            _ => {},
        },
        Step::DictIf(_, name) => match op.attribute(name) {
            Some(Attribute::Dictionary(v)) => pools.write_dict(w, v, next),
            _ => {},
        },
        Step::Constant => {
            w.write_varint(*next);
            *next = *next + 1;
        },
        Step::GlobalValue => {
            w.write_varint(*next);
            *next = *next + 1;
        },
        _ => {},
    }
    assert(w@ =~= w0 + attr_step_bytes(op@, pools@, c, step));
}

/// Write an operation. `next` counts the constants.
pub fn write_operation(
    w: &mut EncodingWriter,
    pools: &Pools,
    op: &OpNode,
    v13_3: bool,
    next: &mut u64,
)
    requires
        pools.wf(),
        check_op(op@, v13_3) is None,
        op_covered(pools@, op@, v13_3),
        *old(next) + op_consts(op@, v13_3).len() <= u64::MAX,
    ensures
        final(w)@ == old(w)@ + op_bytes(op@, pools@, v13_3, *old(next) as int),
        *final(next) == *old(next) + op_consts(op@, v13_3).len(),
    decreases *op, 0int,
{
    let ghost w0 = w@;
    let ghost c = *next as int;
    let ghost o = op@;
    let ghost t = pools@;
    let steps = layout_of(op.opcode, v13_3);
    let ghost sv = steps@;
    let ghost n = sv.len() as int;
    w.write_varint(op.opcode.as_u16() as u64);
    let ghost head = wire::varint_bytes(o.opcode.spec_value() as u64);
    assert(w@ =~= w0 + (head + steps_bytes(o, t, v13_3, c, sv, 0)));
    let mut k: usize = 0;
    let mut g: usize = 0;
    let mut start: usize = 0;
    while k < steps.len()
        invariant
            k <= steps@.len() <= 16,
            sv == steps@,
            n == sv.len(),
            o == op@,
            t == pools@,
            pools.wf(),
            check_steps(o, sv, n) is None,
            check_regions(o.regions, v13_3, o.regions.len() as int) is None,
            steps_covered(t, o, v13_3, sv, n),
            g == groups_before(sv, k as int),
            g <= k,
            start == group_start(o, g as int),
            start <= o.operands.len(),
            c + steps_consts(o, v13_3, sv, n).len() <= u64::MAX,
            *next == c + steps_consts(o, v13_3, sv, k as int).len(),
            w@ == w0 + (head + steps_bytes(o, t, v13_3, c, sv, k as int)),
        decreases steps@.len() - k,
    {
        proof {
            lemma_parts(o, t, v13_3, sv, k + 1, n);
        }
        let step = steps[k];
        let ghost before = w@;
        let ghost at = *next as int;
        match step {
            Step::Regions => {
                w.write_varint(op.regions.len() as u64);
                write_region_list(w, pools, &op.regions, v13_3, next);
            },
            Step::Region => {
                write_region_list(w, pools, &op.regions, v13_3, next);
            },
            Step::Segments => {},
            _ => {
                if body::value_step(step) {
                    write_value_part(w, pools, op, &steps, k, g, start);
                } else {
                    write_attr_part(w, pools, op, step, next);
                }
            },
        }
        if step_is_group(step) {
            let m: i64 = op.size_of_group(g);
            let len: usize = op.operands.len();
            assert(0 <= m && start + m <= len);
            start = start + m as usize;
            g = g + 1;
        }
        proof {
            assert(w@ =~= w0 + (head + steps_bytes(o, t, v13_3, c, sv, k + 1)));
        }
        k = k + 1;
    }
}

/// Write operations.
pub fn write_operations(
    w: &mut EncodingWriter,
    pools: &Pools,
    ops: &Vec<OpNode>,
    v13_3: bool,
    next: &mut u64,
)
    requires
        pools.wf(),
        check_ops(node::ops_view(ops@), v13_3, ops@.len() as int) is None,
        ops_covered(pools@, node::ops_view(ops@), v13_3, ops@.len() as int),
        *old(next) + ops_consts(node::ops_view(ops@), v13_3, ops@.len() as int).len() <= u64::MAX,
    ensures
        final(w)@ == old(w)@ + ops_bytes(
            node::ops_view(ops@),
            pools@,
            v13_3,
            *old(next) as int,
            ops@.len() as int,
        ),
        *final(next) == *old(next) + ops_consts(
            node::ops_view(ops@),
            v13_3,
            ops@.len() as int,
        ).len(),
    decreases ops@, 0int,
{
    let ghost w0 = w@;
    let ghost c = *next as int;
    let ghost t = pools@;
    let ghost s = node::ops_view(ops@);
    let ghost n = s.len() as int;
    let mut i: usize = 0;
    assert(w@ =~= w0 + ops_bytes(s, t, v13_3, c, 0));
    while i < ops.len()
        invariant
            i <= ops@.len(),
            s == node::ops_view(ops@),
            n == s.len(),
            t == pools@,
            pools.wf(),
            check_ops(s, v13_3, n) is None,
            ops_covered(t, s, v13_3, n),
            c + ops_consts(s, v13_3, n).len() <= u64::MAX,
            *next == c + ops_consts(s, v13_3, i as int).len(),
            w@ == w0 + ops_bytes(s, t, v13_3, c, i as int),
        decreases ops@.len() - i,
    {
        proof {
            lemma_ops_parts(t, s, v13_3, i + 1, n);
            assert(s[i as int] == ops@[i as int]@);
        }
        write_operation(w, pools, &ops[i], v13_3, next);
        assert(w@ =~= w0 + ops_bytes(s, t, v13_3, c, i + 1));
        i = i + 1;
    }
}

proof fn lemma_ops_parts(t: TablesV, s: Seq<OpN>, v13_3: bool, k: int, n: int)
    requires
        0 <= k <= n <= s.len(),
        check_ops(s, v13_3, n) is None,
        ops_covered(t, s, v13_3, n),
    ensures
        check_ops(s, v13_3, k) is None,
        ops_covered(t, s, v13_3, k),
        ops_consts(s, v13_3, k).len() <= ops_consts(s, v13_3, n).len(),
    decreases n,
{
    if k < n {
        lemma_ops_parts(t, s, v13_3, k, n - 1);
    }
}

proof fn lemma_blocks_parts(t: TablesV, s: Seq<BlockN>, v13_3: bool, k: int, n: int)
    requires
        0 <= k <= n <= s.len(),
        check_blocks(s, v13_3, n) is None,
        blocks_covered(t, s, v13_3, n),
    ensures
        check_blocks(s, v13_3, k) is None,
        blocks_covered(t, s, v13_3, k),
        blocks_consts(s, v13_3, k).len() <= blocks_consts(s, v13_3, n).len(),
    decreases n,
{
    if k < n {
        lemma_blocks_parts(t, s, v13_3, k, n - 1);
    }
}

proof fn lemma_regions_parts(t: TablesV, s: Seq<Seq<BlockN>>, v13_3: bool, k: int, n: int)
    requires
        0 <= k <= n <= s.len(),
        check_regions(s, v13_3, n) is None,
        regions_covered(t, s, v13_3, n),
    ensures
        check_regions(s, v13_3, k) is None,
        regions_covered(t, s, v13_3, k),
        regions_consts(s, v13_3, k).len() <= regions_consts(s, v13_3, n).len(),
    decreases n,
{
    if k < n {
        lemma_regions_parts(t, s, v13_3, k, n - 1);
    }
}

fn write_block(
    w: &mut EncodingWriter,
    pools: &Pools,
    b: &BlockNode,
    v13_3: bool,
    next: &mut u64,
)
    requires
        pools.wf(),
        check_ops(b@.ops, v13_3, b@.ops.len() as int) is None,
        type_writer::all_in(pools@.types, b@.arg_types),
        ops_covered(pools@, b@.ops, v13_3, b@.ops.len() as int),
        *old(next) + ops_consts(b@.ops, v13_3, b@.ops.len() as int).len() <= u64::MAX,
    ensures
        final(w)@ == old(w)@ + block_bytes(b@, pools@, v13_3, *old(next) as int),
        *final(next) == *old(next) + ops_consts(b@.ops, v13_3, b@.ops.len() as int).len(),
    decreases *b, 0int,
{
    let ghost w0 = w@;
    let ghost c = *next as int;
    w.write_varint(b.arg_types.len() as u64);
    write_types(w, pools, &b.arg_types);
    w.write_varint(b.ops.len() as u64);
    write_operations(w, pools, &b.ops, v13_3, next);
    assert(w@ =~= w0 + block_bytes(b@, pools@, v13_3, c));
}

fn write_block_list(
    w: &mut EncodingWriter,
    pools: &Pools,
    bs: &Vec<BlockNode>,
    v13_3: bool,
    next: &mut u64,
)
    requires
        pools.wf(),
        check_blocks(node::blocks_view(bs@), v13_3, bs@.len() as int) is None,
        blocks_covered(pools@, node::blocks_view(bs@), v13_3, bs@.len() as int),
        *old(next) + blocks_consts(
            node::blocks_view(bs@),
            v13_3,
            bs@.len() as int,
        ).len() <= u64::MAX,
    ensures
        final(w)@ == old(w)@ + blocks_bytes(
            node::blocks_view(bs@),
            pools@,
            v13_3,
            *old(next) as int,
            bs@.len() as int,
        ),
        *final(next) == *old(next) + blocks_consts(
            node::blocks_view(bs@),
            v13_3,
            bs@.len() as int,
        ).len(),
    decreases bs@, 0int,
{
    let ghost w0 = w@;
    let ghost c = *next as int;
    let ghost t = pools@;
    let ghost s = node::blocks_view(bs@);
    let ghost n = s.len() as int;
    let mut i: usize = 0;
    assert(w@ =~= w0 + blocks_bytes(s, t, v13_3, c, 0));
    while i < bs.len()
        invariant
            i <= bs@.len(),
            s == node::blocks_view(bs@),
            n == s.len(),
            t == pools@,
            pools.wf(),
            check_blocks(s, v13_3, n) is None,
            blocks_covered(t, s, v13_3, n),
            c + blocks_consts(s, v13_3, n).len() <= u64::MAX,
            *next == c + blocks_consts(s, v13_3, i as int).len(),
            w@ == w0 + blocks_bytes(s, t, v13_3, c, i as int),
        decreases bs@.len() - i,
    {
        proof {
            lemma_blocks_parts(t, s, v13_3, i + 1, n);
            assert(s[i as int] == bs@[i as int]@);
        }
        write_block(w, pools, &bs[i], v13_3, next);
        assert(w@ =~= w0 + blocks_bytes(s, t, v13_3, c, i + 1));
        i = i + 1;
    }
}

fn write_region_list(
    w: &mut EncodingWriter,
    pools: &Pools,
    rs: &Vec<RegionNode>,
    v13_3: bool,
    next: &mut u64,
)
    requires
        pools.wf(),
        check_regions(node::regions_view(rs@), v13_3, rs@.len() as int) is None,
        regions_covered(pools@, node::regions_view(rs@), v13_3, rs@.len() as int),
        *old(next) + regions_consts(
            node::regions_view(rs@),
            v13_3,
            rs@.len() as int,
        ).len() <= u64::MAX,
    ensures
        final(w)@ == old(w)@ + regions_bytes(
            node::regions_view(rs@),
            pools@,
            v13_3,
            *old(next) as int,
            rs@.len() as int,
        ),
        *final(next) == *old(next) + regions_consts(
            node::regions_view(rs@),
            v13_3,
            rs@.len() as int,
        ).len(),
    decreases rs@, 0int,
{
    let ghost w0 = w@;
    let ghost c = *next as int;
    let ghost t = pools@;
    let ghost s = node::regions_view(rs@);
    let ghost n = s.len() as int;
    let mut i: usize = 0;
    assert(w@ =~= w0 + regions_bytes(s, t, v13_3, c, 0));
    while i < rs.len()
        invariant
            i <= rs@.len(),
            s == node::regions_view(rs@),
            n == s.len(),
            t == pools@,
            pools.wf(),
            check_regions(s, v13_3, n) is None,
            regions_covered(t, s, v13_3, n),
            c + regions_consts(s, v13_3, n).len() <= u64::MAX,
            *next == c + regions_consts(s, v13_3, i as int).len(),
            w@ == w0 + regions_bytes(s, t, v13_3, c, i as int),
        decreases rs@.len() - i,
    {
        proof {
            lemma_regions_parts(t, s, v13_3, i + 1, n);
            assert(s[i as int] == rs@[i as int]@);
        }
        w.write_varint(rs[i].blocks.len() as u64);
        write_block_list(w, pools, &rs[i].blocks, v13_3, next);
        assert(w@ =~= w0 + regions_bytes(s, t, v13_3, c, i + 1));
        i = i + 1;
    }
}

// ---------------------------------------------------------------------------
// Parts of what can be written
// ---------------------------------------------------------------------------

/// If all parts of a body can be written, so can the first ones.
pub proof fn lemma_check_part(op: OpN, steps: Seq<Step>, k: int, n: int)
    requires
        0 <= k <= n,
        check_steps(op, steps, n) is None,
    ensures
        check_steps(op, steps, k) is None,
    decreases n,
{
    if k < n {
        lemma_check_part(op, steps, k, n - 1);
    }
}

/// A part that depends on no operand group can be written whatever groups come
/// before it.
pub proof fn lemma_check_any_group(op: OpN, step: Step, g: int)
    ensures
        check_step(op, step, g) == check_step(op, step, 0) || body::is_value_step(step)
            || step is Segments,
{
}

/// If all operations can be written, so can the first ones.
pub proof fn lemma_check_ops_part(ops: Seq<OpN>, v13_3: bool, k: int, n: int)
    requires
        0 <= k <= n <= ops.len(),
        check_ops(ops, v13_3, n) is None,
    ensures
        check_ops(ops, v13_3, k) is None,
    decreases n,
{
    if k < n {
        lemma_check_ops_part(ops, v13_3, k, n - 1);
    }
}

/// If all blocks can be written, so can the first ones.
pub proof fn lemma_check_blocks_part(bs: Seq<BlockN>, v13_3: bool, k: int, n: int)
    requires
        0 <= k <= n <= bs.len(),
        check_blocks(bs, v13_3, n) is None,
    ensures
        check_blocks(bs, v13_3, k) is None,
    decreases n,
{
    if k < n {
        lemma_check_blocks_part(bs, v13_3, k, n - 1);
    }
}

/// If all regions can be written, so can the first ones.
pub proof fn lemma_check_regions_part(rs: Seq<Seq<BlockN>>, v13_3: bool, k: int, n: int)
    requires
        0 <= k <= n <= rs.len(),
        check_regions(rs, v13_3, n) is None,
    ensures
        check_regions(rs, v13_3, k) is None,
    decreases n,
{
    if k < n {
        lemma_check_regions_part(rs, v13_3, k, n - 1);
    }
}

} // verus!
