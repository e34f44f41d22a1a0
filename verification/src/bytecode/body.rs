//! Reading operation bodies.
use vstd::prelude::*;
use crate::bytecode::attrs::{
    read_inline_array,
    read_inline_dict,
    read_inline_optimization_hints,
    read_self_contained_attribute,
    value_of,
    Tables,
    TablesV,
};
use crate::bytecode::attrs;
use crate::bytecode::debug::{DebugSection, DebugV};
use crate::bytecode::debug;
use crate::bytecode::encoding::EncodingReader;
use crate::bytecode::encoding;
use crate::bytecode::layout::{layout_of, AttrName, Step};
use crate::bytecode::layout;
use crate::bytecode::node::{BlockN, BlockNode, OpN, OpNode, RegionNode};
use crate::bytecode::node;
use crate::bytecode::opcode::Opcode;
use crate::bytecode::opcode;
use crate::bytecode::strings;
use crate::bytecode::types::read_type_ref;
use crate::bytecode::types as wire_types;
use crate::bytecode::wire;
use crate::error::{ReadError, Subject};
use crate::ir::attr::{AttrV, Attribute, DenseElements};
use crate::ir::attr;
use crate::ir::location::{Location, LocationV};
use crate::ir::types::{Type, TypeV};
use crate::ir::types;
use crate::text::same_text;

verus! {

/// What an operation body refers to: the tables, the encodings in use, and the
/// debug ids of the function that it belongs to.
pub struct Ctx<'a> {
    pub tables: &'a Tables,
    pub v13_3: bool,
    pub debug: &'a DebugSection,
    pub func: u64,
}

/// The contents of a context.
#[verifier::ext_equal]
pub struct CtxV {
    pub tables: TablesV,
    pub v13_3: bool,
    pub debug: DebugV,
    pub func: u64,
}

impl<'a> View for Ctx<'a> {
    type V = CtxV;

    open spec fn view(&self) -> CtxV {
        CtxV {
            tables: self.tables@,
            v13_3: self.v13_3,
            debug: self.debug@,
            func: self.func,
        }
    }
}

/// What has been read of an operation body.
#[verifier::ext_equal]
pub struct BodyV {
    pub flags: u64,
    pub operands: Seq<u64>,
    pub sizes: Seq<i64>,
    pub result_types: Seq<TypeV>,
    pub attributes: Seq<(Seq<char>, AttrV)>,
    pub regions: Seq<Seq<BlockN>>,
}

/// Nothing read yet.
pub open spec fn empty_body() -> BodyV {
    BodyV {
        flags: 0,
        operands: seq![],
        sizes: seq![],
        result_types: seq![],
        attributes: seq![],
        regions: seq![],
    }
}

/// The location of the next operation, and how many debug ids are used up. A
/// function without debug ids has no locations.
pub open spec fn location_at(c: CtxV, cur: int) -> Result<(LocationV, int), ReadError> {
    match debug::func_ids(c.debug, c.func) {
        None => Ok((LocationV::Unknown, cur)),
        Some(ids) => if cur >= ids.len() {
            Err(ReadError::DebugIdsExhausted(c.func))
        } else {
            match debug::location_of(
                c.debug,
                c.tables.strings,
                ids[cur] as u64,
                debug::levels(c.debug),
            ) {
                Ok(l) => Ok((l, cur + 1)),
                Err(e) => Err(e),
            }
        },
    }
}

/// `n` operands at position `p`, each of which is one of the first `next`
/// values.
pub open spec fn operands_at(d: Seq<u8>, p: int, next: int, n: int) -> Result<
    (Seq<u64>, int),
    ReadError,
>
    decreases n,
{
    if n <= 0 {
        Ok((seq![], p))
    } else {
        match operands_at(d, p, next, n - 1) {
            Ok((s, q)) => match wire::varint_at(d, q) {
                Ok((v, q2)) => if v < next {
                    Ok((s.push(v), q2))
                } else {
                    Err(ReadError::UndefinedValue(v))
                },
                Err(e) => Err(e),
            },
            Err(e) => Err(e),
        }
    }
}

/// A count and that many operands.
pub open spec fn operand_list_at(d: Seq<u8>, p: int, next: int) -> Result<
    (Seq<u64>, int),
    ReadError,
> {
    match wire::count_at(d, p, Subject::Operand) {
        Ok((n, q)) => operands_at(d, q, next, n),
        Err(e) => Err(e),
    }
}

/// A count and that many result types.
pub open spec fn result_list_at(d: Seq<u8>, p: int, t: TablesV) -> Result<
    (Seq<TypeV>, int),
    ReadError,
> {
    match wire::count_at(d, p, Subject::ResultType) {
        Ok((n, q)) => wire_types::type_refs_at(d, q, t.types, Subject::Type, n),
        Err(e) => Err(e),
    }
}

/// A flag bit; masks are powers of two.
pub open spec fn flag_set(flags: u64, mask: u8) -> bool {
    mask != 0 && (flags as int / mask as int) % 2 == 1
}

/// The body with one more attribute.
pub open spec fn with_attr(b: BodyV, name: AttrName, a: AttrV) -> BodyV {
    BodyV { attributes: b.attributes.push((layout::name_text(name), a)), ..b }
}

/// The body with an attribute in front of the others.
pub open spec fn with_first_attr(b: BodyV, name: AttrName, a: AttrV) -> BodyV {
    BodyV { attributes: seq![(layout::name_text(name), a)] + b.attributes, ..b }
}

/// The body with one more operand group.
pub open spec fn with_group(b: BodyV, s: Seq<u64>) -> BodyV {
    BodyV { operands: b.operands + s, sizes: b.sizes.push(s.len() as i64), ..b }
}

/// An attribute that was read, added to the body.
pub open spec fn add_attr(
    b: BodyV,
    name: AttrName,
    r: Result<(AttrV, int), ReadError>,
) -> Result<(BodyV, int), ReadError> {
    match r {
        Ok((a, q)) => Ok((with_attr(b, name, a), q)),
        Err(e) => Err(e),
    }
}

/// An operand group that was read, added to the body.
pub open spec fn add_group(b: BodyV, r: Result<(Seq<u64>, int), ReadError>) -> Result<
    (BodyV, int),
    ReadError,
> {
    match r {
        Ok((s, q)) => Ok((with_group(b, s), q)),
        Err(e) => Err(e),
    }
}

/// An integer in a varint, at position `p`.
pub open spec fn inline_int_at(d: Seq<u8>, p: int) -> Result<(AttrV, int), ReadError> {
    match wire::varint_at(d, p) {
        Ok((v, q)) => Ok((attr::i32_attr(wire::i64_of_pattern(v as int)), q)),
        Err(e) => Err(e),
    }
}

/// A string attribute at position `p`.
pub open spec fn inline_string_at(d: Seq<u8>, p: int, t: TablesV) -> Result<
    (AttrV, int),
    ReadError,
> {
    match attrs::string_at(d, p, t, Subject::Str) {
        Ok((s, q)) => Ok((AttrV::Str(s), q)),
        Err(e) => Err(e),
    }
}

/// The sizes of operand groups as an attribute.
pub open spec fn segments_attr(sizes: Seq<i64>) -> AttrV {
    AttrV::Array(Seq::new(sizes.len(), |i: int| attr::i32_attr(sizes[i])))
}

/// The type of the first result.
pub open spec fn first_result(b: BodyV) -> TypeV {
    if b.result_types.len() > 0 {
        b.result_types[0]
    } else {
        TypeV::Token
    }
}

/// One part of an operation body that reads attributes.
pub open spec fn attr_step_at(c: CtxV, d: Seq<u8>, p: int, step: Step, b: BodyV) -> Result<
    (BodyV, int),
    ReadError,
> {
    let t = c.tables;
    match step {
        Step::Int(name) => add_attr(b, name, inline_int_at(d, p)),
        Step::IntOr(name, default) => match wire::varint_at(d, p) {
            Ok((v, q)) => if v != default || t.strings.contains(layout::name_text(name)) {
                Ok((with_attr(b, name, attr::i32_attr(wire::i64_of_pattern(v as int))), q))
            } else {
                Ok((b, q))
            },
            Err(e) => Err(e),
        },
        Step::IntIf(mask, name) => if flag_set(b.flags, mask) {
            add_attr(b, name, inline_int_at(d, p))
        } else {
            Ok((b, p))
        },
        Step::BoolByte(name) => match wire::byte_at(d, p) {
            Ok((v, q)) => Ok((with_attr(b, name, AttrV::Bool(v != 0)), q)),
            Err(e) => Err(e),
        },
        Step::I32s(name) => match wire::i32_array_at(d, p) {
            Ok((s, q)) => Ok((with_attr(b, name, AttrV::DenseI32(s)), q)),
            Err(e) => Err(e),
        },
        Step::Str(name) => add_attr(b, name, inline_string_at(d, p, t)),
        Step::StrIf(mask, name) => if flag_set(b.flags, mask) {
            add_attr(b, name, inline_string_at(d, p, t))
        } else {
            Ok((b, p))
        },
        Step::TypeRef(name) => match wire_types::type_ref_at(d, p, t.types, Subject::Type) {
            Ok((ty, q)) => Ok((with_attr(b, name, AttrV::Type(ty)), q)),
            Err(e) => Err(e),
        },
        Step::Tagged(name) => add_attr(b, name, attrs::attr_at(d, p, t, d.len())),
        Step::Array(name) => add_attr(b, name, attrs::array_at(d, p, t, d.len())),
        Step::HintsIf(mask) => if flag_set(b.flags, mask) {
            add_attr(b, AttrName::OptimizationHints, attrs::hints_at(d, p, t, d.len()))
        } else {
            Ok((b, p))
        },
        Step::HintsFirstIf(mask) => if flag_set(b.flags, mask) {
            match attrs::hints_at(d, p, t, d.len()) {
                Ok((a, q)) => Ok((with_first_attr(b, AttrName::OptimizationHints, a), q)),
                Err(e) => Err(e),
            }
        } else {
            Ok((b, p))
        },
        Step::DictIf(mask, name) => if flag_set(b.flags, mask) {
            add_attr(b, name, attrs::dict_at(d, p, t, d.len()))
        } else {
            Ok((b, p))
        },
        Step::FlagBool(mask, name) => if flag_set(b.flags, mask) {
            Ok((with_attr(b, name, AttrV::Bool(true)), p))
        } else {
            Ok((b, p))
        },
        Step::FlagInt(mask, name) => if flag_set(b.flags, mask) {
            Ok((with_attr(b, name, attr::i32_attr(1)), p))
        } else {
            Ok((b, p))
        },
        Step::Constant => match attrs::constant_at(
            d,
            p,
            t,
            Subject::Constant,
            Subject::Constant,
            Subject::ConstantLength,
        ) {
            Ok((data, q)) => Ok(
                (
                    with_attr(
                        b,
                        AttrName::Value,
                        AttrV::Dense(attrs::dense_of(first_result(b), data)),
                    ),
                    q,
                ),
            ),
            Err(e) => Err(e),
        },
        Step::GlobalValue => match attrs::constant_at(
            d,
            p,
            t,
            Subject::GlobalValue,
            Subject::Constant,
            Subject::ConstantLength,
        ) {
            Ok((data, q)) => Ok(
                (
                    with_attr(
                        b,
                        AttrName::Value,
                        AttrV::Dense(attrs::dense_of(TypeV::Token, data)),
                    ),
                    q,
                ),
            ),
            Err(e) => Err(e),
        },
        Step::Segments => Ok(
            (with_attr(b, AttrName::OperandSegmentSizes, segments_attr(b.sizes)), p),
        ),
        _ => Ok((b, p)),
    }
}

/// One part of an operation body that reads result types, flags or operands.
pub open spec fn value_step_at(
    c: CtxV,
    d: Seq<u8>,
    p: int,
    next: int,
    step: Step,
    b: BodyV,
) -> Result<(BodyV, int), ReadError> {
    let t = c.tables;
    match step {
        Step::Results(n) => match wire_types::type_refs_at(d, p, t.types, Subject::Type, n as int) {
            Ok((s, q)) => Ok((BodyV { result_types: s, ..b }, q)),
            Err(e) => Err(e),
        },
        Step::ResultsCounted => match result_list_at(d, p, t) {
            Ok((s, q)) => Ok((BodyV { result_types: s, ..b }, q)),
            Err(e) => Err(e),
        },
        Step::Flags => match wire::varint_at(d, p) {
            Ok((v, q)) => Ok((BodyV { flags: v, ..b }, q)),
            Err(e) => Err(e),
        },
        Step::Operands(n) => match operands_at(d, p, next, n as int) {
            Ok((s, q)) => Ok((BodyV { operands: b.operands + s, ..b }, q)),
            Err(e) => Err(e),
        },
        Step::OperandsCounted => match operand_list_at(d, p, next) {
            Ok((s, q)) => Ok((BodyV { operands: b.operands + s, ..b }, q)),
            Err(e) => Err(e),
        },
        Step::Group => add_group(b, operands_at(d, p, next, 1)),
        Step::GroupCounted => add_group(b, operand_list_at(d, p, next)),
        Step::GroupIf(mask) => add_group(
            b,
            operands_at(
                d,
                p,
                next,
                if flag_set(b.flags, mask) {
                    1
                } else {
                    0
                },
            ),
        ),
        _ => Ok((b, p)),
    }
}

/// Whether a part of an operation body reads result types, flags or operands.
pub open spec fn is_value_step(step: Step) -> bool {
    match step {
        Step::Results(_) => true,
        Step::ResultsCounted => true,
        Step::Flags => true,
        Step::Operands(_) => true,
        Step::OperandsCounted => true,
        Step::Group => true,
        Step::GroupCounted => true,
        Step::GroupIf(_) => true,
        _ => false,
    }
}

// ---------------------------------------------------------------------------
// Operations, blocks and regions
// ---------------------------------------------------------------------------

/// A part of an operation body, with the debug ids that are used up.
pub open spec fn step_at(
    c: CtxV,
    d: Seq<u8>,
    p: int,
    next: int,
    cur: int,
    depth: nat,
    step: Step,
    b: BodyV,
) -> Result<(BodyV, int, int), ReadError>
    decreases depth, 2nat, 0int,
{
    match step {
        Step::Regions => match wire::count_at(d, p, Subject::Region) {
            Ok((n, q)) => match regions_at(c, d, q, next, cur, depth, n) {
                Ok((s, cur2, q2)) => Ok((BodyV { regions: s, ..b }, cur2, q2)),
                Err(e) => Err(e),
            },
            Err(e) => Err(e),
        },
        Step::Region => match regions_at(c, d, p, next, cur, depth, 1) {
            Ok((s, cur2, q2)) => Ok((BodyV { regions: s, ..b }, cur2, q2)),
            Err(e) => Err(e),
        },
        _ => {
            let r = if is_value_step(step) {
                value_step_at(c, d, p, next, step, b)
            } else {
                attr_step_at(c, d, p, step, b)
            };
            match r {
                Ok((b2, q)) => Ok((b2, cur, q)),
                Err(e) => Err(e),
            }
        },
    }
}

/// The first `k` parts of an operation body.
pub open spec fn steps_at(
    c: CtxV,
    d: Seq<u8>,
    p: int,
    next: int,
    cur: int,
    depth: nat,
    steps: Seq<Step>,
    k: int,
) -> Result<(BodyV, int, int), ReadError>
    decreases depth, 3nat, k,
{
    if k <= 0 {
        Ok((empty_body(), cur, p))
    } else {
        match steps_at(c, d, p, next, cur, depth, steps, k - 1) {
            Ok((b, cur2, q)) => step_at(c, d, q, next, cur2, depth, steps[k - 1], b),
            Err(e) => Err(e),
        }
    }
}

/// The operation that a body was read for.
pub open spec fn finish_op(opcode: Opcode, b: BodyV, location: LocationV) -> OpN {
    OpN {
        opcode,
        operands: b.operands,
        result_types: b.result_types,
        attributes: b.attributes,
        regions: b.regions,
        location,
    }
}

/// An operation at position `p`: an opcode and a body. `next` values are
/// defined, `cur` debug ids are used up. `depth` bounds the number of bytes
/// that are left: where it is used up, so are the bytes. The result comes with
/// the debug ids used up and the position behind it.
pub open spec fn op_at(c: CtxV, d: Seq<u8>, p: int, next: int, cur: int, depth: nat) -> Result<
    (OpN, int, int),
    ReadError,
>
    decreases depth, 4nat, 0int,
{
    match location_at(c, cur) {
        Ok((l, cur2)) => if depth == 0 {
            Err(ReadError::UnexpectedEnd)
        } else {
            match wire::varint_at(d, p) {
                Ok((raw, q)) => match opcode::opcode_of((raw % 0x1_0000) as u16) {
                    Some(opcode) => {
                        let steps = layout::layout(opcode, c.v13_3);
                        match steps_at(
                            c,
                            d,
                            q,
                            next,
                            cur2,
                            (depth - 1) as nat,
                            steps,
                            steps.len() as int,
                        ) {
                            Ok((b, cur3, q2)) => Ok((finish_op(opcode, b, l), cur3, q2)),
                            Err(e) => Err(e),
                        }
                    },
                    None => Err(ReadError::UnknownOpcode(raw)),
                },
                Err(e) => Err(e),
            }
        },
        Err(e) => Err(e),
    }
}

/// `n` operations at position `p`, with the number of values defined behind
/// them.
pub open spec fn ops_at(
    c: CtxV,
    d: Seq<u8>,
    p: int,
    next: int,
    cur: int,
    depth: nat,
    n: int,
) -> Result<(Seq<OpN>, int, int, int), ReadError>
    decreases depth, 5nat, n,
{
    if n <= 0 {
        Ok((seq![], next, cur, p))
    } else {
        match ops_at(c, d, p, next, cur, depth, n - 1) {
            Ok((s, next2, cur2, q)) => match op_at(c, d, q, next2, cur2, depth) {
                Ok((op, cur3, q2)) => Ok((s.push(op), next2 + op.result_types.len(), cur3, q2)),
                Err(e) => Err(e),
            },
            Err(e) => Err(e),
        }
    }
}

/// A block at position `p`: argument types and operations.
pub open spec fn block_at(c: CtxV, d: Seq<u8>, p: int, next: int, cur: int, depth: nat) -> Result<
    (BlockN, int, int),
    ReadError,
>
    decreases depth, 6nat, 0int,
{
    match wire::count_at(d, p, Subject::BlockArgument) {
        Ok((n, q)) => match wire_types::type_refs_at(d, q, c.tables.types, Subject::Type, n) {
            Ok((arg_types, q2)) => match wire::count_at(d, q2, Subject::BlockOperation) {
                Ok((k, q3)) => match ops_at(c, d, q3, next + n, cur, depth, k) {
                    Ok((ops, _, cur2, q4)) => Ok((BlockN { arg_types, ops }, cur2, q4)),
                    Err(e) => Err(e),
                },
                Err(e) => Err(e),
            },
            Err(e) => Err(e),
        },
        Err(e) => Err(e),
    }
}

/// `n` blocks at position `p`.
pub open spec fn blocks_at(
    c: CtxV,
    d: Seq<u8>,
    p: int,
    next: int,
    cur: int,
    depth: nat,
    n: int,
) -> Result<(Seq<BlockN>, int, int), ReadError>
    decreases depth, 7nat, n,
{
    if n <= 0 {
        Ok((seq![], cur, p))
    } else {
        match blocks_at(c, d, p, next, cur, depth, n - 1) {
            Ok((s, cur2, q)) => match block_at(c, d, q, next, cur2, depth) {
                Ok((b, cur3, q2)) => Ok((s.push(b), cur3, q2)),
                Err(e) => Err(e),
            },
            Err(e) => Err(e),
        }
    }
}

/// A region at position `p`: a count and that many blocks.
pub open spec fn region_at(c: CtxV, d: Seq<u8>, p: int, next: int, cur: int, depth: nat) -> Result<
    (Seq<BlockN>, int, int),
    ReadError,
>
    decreases depth, 8nat, 0int,
{
    match wire::count_at(d, p, Subject::Block) {
        Ok((n, q)) => blocks_at(c, d, q, next, cur, depth, n),
        Err(e) => Err(e),
    }
}

/// `n` regions at position `p`.
pub open spec fn regions_at(
    c: CtxV,
    d: Seq<u8>,
    p: int,
    next: int,
    cur: int,
    depth: nat,
    n: int,
) -> Result<(Seq<Seq<BlockN>>, int, int), ReadError>
    decreases depth, 1nat, n,
{
    if n <= 0 {
        Ok((seq![], cur, p))
    } else if depth == 0 {
        Err(ReadError::UnexpectedEnd)
    } else {
        match regions_at(c, d, p, next, cur, depth, n - 1) {
            Ok((s, cur2, q)) => match region_at(c, d, q, next, cur2, (depth - 1) as nat) {
                Ok((g, cur3, q2)) => Ok((s.push(g), cur3, q2)),
                Err(e) => Err(e),
            },
            Err(e) => Err(e),
        }
    }
}

// ---------------------------------------------------------------------------
// Facts
// ---------------------------------------------------------------------------

proof fn lemma_operands_error(d: Seq<u8>, p: int, next: int, k: int, n: int)
    requires
        0 <= k <= n,
        operands_at(d, p, next, k) is Err,
    ensures
        operands_at(d, p, next, n) == operands_at(d, p, next, k),
    decreases n,
{
    if k < n {
        lemma_operands_error(d, p, next, k, n - 1);
    }
}

proof fn lemma_steps_error(
    c: CtxV,
    d: Seq<u8>,
    p: int,
    next: int,
    cur: int,
    depth: nat,
    steps: Seq<Step>,
    k: int,
    n: int,
)
    requires
        0 <= k <= n,
        steps_at(c, d, p, next, cur, depth, steps, k) is Err,
    ensures
        steps_at(c, d, p, next, cur, depth, steps, n) == steps_at(
            c,
            d,
            p,
            next,
            cur,
            depth,
            steps,
            k,
        ),
    decreases n,
{
    if k < n {
        lemma_steps_error(c, d, p, next, cur, depth, steps, k, n - 1);
    }
}

proof fn lemma_ops_error(
    c: CtxV,
    d: Seq<u8>,
    p: int,
    next: int,
    cur: int,
    depth: nat,
    k: int,
    n: int,
)
    requires
        0 <= k <= n,
        ops_at(c, d, p, next, cur, depth, k) is Err,
    ensures
        ops_at(c, d, p, next, cur, depth, n) == ops_at(c, d, p, next, cur, depth, k),
    decreases n,
{
    if k < n {
        lemma_ops_error(c, d, p, next, cur, depth, k, n - 1);
    }
}

proof fn lemma_blocks_error(
    c: CtxV,
    d: Seq<u8>,
    p: int,
    next: int,
    cur: int,
    depth: nat,
    k: int,
    n: int,
)
    requires
        0 <= k <= n,
        blocks_at(c, d, p, next, cur, depth, k) is Err,
    ensures
        blocks_at(c, d, p, next, cur, depth, n) == blocks_at(c, d, p, next, cur, depth, k),
    decreases n,
{
    if k < n {
        lemma_blocks_error(c, d, p, next, cur, depth, k, n - 1);
    }
}

proof fn lemma_regions_error(
    c: CtxV,
    d: Seq<u8>,
    p: int,
    next: int,
    cur: int,
    depth: nat,
    k: int,
    n: int,
)
    requires
        0 <= k <= n,
        regions_at(c, d, p, next, cur, depth, k) is Err,
    ensures
        regions_at(c, d, p, next, cur, depth, n) == regions_at(c, d, p, next, cur, depth, k),
    decreases n,
{
    if k < n {
        lemma_regions_error(c, d, p, next, cur, depth, k, n - 1);
    }
}

// ---------------------------------------------------------------------------
// Reading
// ---------------------------------------------------------------------------

/// What has been read of an operation body.
pub struct Body {
    pub flags: u64,
    pub operands: Vec<u64>,
    pub sizes: Vec<i64>,
    pub result_types: Vec<Type>,
    pub attributes: Vec<(String, Attribute)>,
    pub regions: Vec<RegionNode>,
}

impl View for Body {
    type V = BodyV;

    open spec fn view(&self) -> BodyV {
        BodyV {
            flags: self.flags,
            operands: self.operands@,
            sizes: self.sizes@,
            result_types: types::types_view(self.result_types@),
            attributes: attr::dict_view(self.attributes@),
            regions: node::regions_view(self.regions@),
        }
    }
}

impl Body {
    fn new() -> (b: Body)
        ensures
            b@ == empty_body(),
    {
        let b = Body {
            flags: 0,
            operands: Vec::new(),
            sizes: Vec::new(),
            result_types: Vec::new(),
            attributes: Vec::new(),
            regions: Vec::new(),
        };
        assert(b@ =~= empty_body());
        b
    }

    fn push_attr(&mut self, name: AttrName, a: Attribute)
        ensures
            final(self)@ == with_attr(old(self)@, name, a@),
    {
        let entry: (String, Attribute) = (name.text().to_owned(), a);
        proof {
            attr::lemma_dict_view_push(self.attributes@, entry);
        }
        self.attributes.push(entry);
        assert(self@ =~= with_attr(old(self)@, name, a@));
    }

    fn push_first_attr(&mut self, name: AttrName, a: Attribute)
        ensures
            final(self)@ == with_first_attr(old(self)@, name, a@),
    {
        let entry: (String, Attribute) = (name.text().to_owned(), a);
        let ghost before = self.attributes@;
        self.attributes.insert(0, entry);
        proof {
            let front = seq![(layout::name_text(name), a@)];
            assert(self.attributes@ =~= seq![entry] + before);
            assert(attr::dict_view(self.attributes@) =~= front + attr::dict_view(before));
        }
        assert(self@ =~= with_first_attr(old(self)@, name, a@));
    }

    fn push_group(&mut self, group: &Vec<u64>)
        ensures
            final(self)@ == with_group(old(self)@, group@),
    {
        self.operands.extend_from_slice(group.as_slice());
        assert(self.operands@ =~= old(self).operands@ + group@);
        self.sizes.push(group.len() as i64);
    }
}

fn read_operands(r: &mut EncodingReader, next: u128, n: usize) -> (res: Result<Vec<u64>, ReadError>)
    requires
        old(r).wf(),
    ensures
        encoding::reads_view(
            res,
            *old(r),
            *final(r),
            operands_at(old(r).bytes(), old(r).at(), next as int, n as int),
        ),
{
    let ghost d = r.bytes();
    let ghost p = r.at();
    let mut out: Vec<u64> = Vec::new();
    let mut i: usize = 0;
    while i < n
        invariant
            i <= n,
            r.wf(),
            r.bytes() == d,
            r.at() >= old(r).at(),
            d == old(r).bytes(),
            p == old(r).at(),
            operands_at(d, p, next as int, i as int) == Ok::<(Seq<u64>, int), ReadError>(
                (out@, r.at()),
            ),
        decreases n - i,
    {
        proof {
            if operands_at(d, p, next as int, i + 1) is Err {
                lemma_operands_error(d, p, next as int, i + 1, n as int);
            }
        }
        let v: u64 = r.read_varint()?;
        if v as u128 >= next {
            return Err(ReadError::UndefinedValue(v));
        }
        out.push(v);
        i = i + 1;
    }
    Ok(out)
}

fn read_operands_sized(r: &mut EncodingReader, next: u128) -> (res: Result<Vec<u64>, ReadError>)
    requires
        old(r).wf(),
    ensures
        encoding::reads_view(
            res,
            *old(r),
            *final(r),
            operand_list_at(old(r).bytes(), old(r).at(), next as int),
        ),
{
    let n: usize = r.read_count(Subject::Operand)?;
    read_operands(r, next, n)
}

/// Read `n` result types.
pub fn read_types(r: &mut EncodingReader, types: &Vec<Type>, n: usize) -> (res: Result<
    Vec<Type>,
    ReadError,
>)
    requires
        old(r).wf(),
    ensures
        final(r).wf(),
        final(r).bytes() == old(r).bytes(),
        final(r).at() >= old(r).at(),
        match wire_types::type_refs_at(
            old(r).bytes(),
            old(r).at(),
            types::types_view(types@),
            Subject::Type,
            n as int,
        ) {
            Ok((s, q)) => {
                &&& res is Ok
                &&& types::types_view(res->Ok_0@) == s
                &&& final(r).at() == q
                &&& res->Ok_0@.len() == n
                &&& q >= old(r).at() + n
            },
            Err(e) => res == Err::<Vec<Type>, ReadError>(e),
        },
{
    let ghost d = r.bytes();
    let ghost p = r.at();
    let ghost tv = types::types_view(types@);
    let mut out: Vec<Type> = Vec::new();
    let mut i: usize = 0;
    assert(types::types_view(out@) =~= seq![]);
    while i < n
        invariant
            i <= n,
            r.wf(),
            r.bytes() == d,
            r.at() >= old(r).at() + i,
            out@.len() == i,
            d == old(r).bytes(),
            p == old(r).at(),
            tv == types::types_view(types@),
            wire_types::type_refs_at(d, p, tv, Subject::Type, i as int) == Ok::<
                (Seq<TypeV>, int),
                ReadError,
            >((types::types_view(out@), r.at())),
        decreases n - i,
    {
        proof {
            if wire_types::type_refs_at(d, p, tv, Subject::Type, i + 1) is Err {
                wire_types::lemma_type_refs_error(d, p, tv, Subject::Type, i + 1, n as int);
            }
        }
        let t = read_type_ref(r, types, Subject::Type)?;
        let t2 = t.duplicate();
        proof {
            attr::lemma_types_view_push(out@, t2);
        }
        out.push(t2);
        i = i + 1;
    }
    Ok(out)
}

fn is_flag_set(flags: u64, mask: u8) -> (r: bool)
    ensures
        r == flag_set(flags, mask),
{
    mask != 0 && (flags / (mask as u64)) % 2 == 1
}

fn read_inline_int(r: &mut EncodingReader) -> (res: Result<Attribute, ReadError>)
    requires
        old(r).wf(),
    ensures
        encoding::reads_view(
            res,
            *old(r),
            *final(r),
            inline_int_at(old(r).bytes(), old(r).at()),
        ),
{
    let v: u64 = r.read_varint()?;
    Ok(Attribute::i32(value_of(v)))
}

fn read_inline_string(r: &mut EncodingReader, t: &Tables) -> (res: Result<Attribute, ReadError>)
    requires
        old(r).wf(),
    ensures
        encoding::reads_view(
            res,
            *old(r),
            *final(r),
            inline_string_at(old(r).bytes(), old(r).at(), t@),
        ),
{
    let s = t.read_string(r, Subject::Str)?;
    Ok(Attribute::String(s.clone()))
}

/// Whether a name is in the string table.
fn name_in_string_table(strings: &Vec<String>, name: &str) -> (r: bool)
    ensures
        r == strings::texts(strings@).contains(name@),
{
    let mut i: usize = 0;
    while i < strings.len()
        invariant
            i <= strings@.len(),
            forall|j: int| 0 <= j < i ==> #[trigger] strings::texts(strings@)[j] != name@,
        decreases strings@.len() - i,
    {
        if same_text(strings[i].as_str(), name) {
            assert(strings::texts(strings@)[i as int] == name@);
            return true;
        }
        i = i + 1;
    }
    false
}

/// The sizes of operand groups as an attribute.
fn segment_sizes_attribute(sizes: &Vec<i64>) -> (a: Attribute)
    ensures
        a@ == segments_attr(sizes@),
{
    let mut out: Vec<Attribute> = Vec::new();
    let mut i: usize = 0;
    assert(attr::attrs_view(out@) =~= Seq::new(0, |i: int| attr::i32_attr(sizes@[i])));
    while i < sizes.len()
        invariant
            i <= sizes@.len(),
            attr::attrs_view(out@) =~= Seq::new(i as nat, |i: int| attr::i32_attr(sizes@[i])),
        decreases sizes@.len() - i,
    {
        let a = Attribute::i32(sizes[i]);
        proof {
            attr::lemma_attrs_view_push(out@, a);
        }
        out.push(a);
        i = i + 1;
    }
    Attribute::Array(out)
}

/// Take the location of the next operation from the function's debug ids.
fn take_op_location(c: &Ctx, cur: &mut usize) -> (res: Result<Location, ReadError>)
    requires
        c.debug.wf(),
    ensures
        match location_at(c@, *old(cur) as int) {
            Ok((l, cur2)) => res is Ok && res->Ok_0@ == l && *final(cur) == cur2,
            Err(e) => res == Err::<Location, ReadError>(e),
        },
{
    let n: usize = match c.debug.func_id_count(c.func) {
        Some(n) => n,
        None => {
            return Ok(Location::Unknown);
        },
    };
    if *cur >= n {
        return Err(ReadError::DebugIdsExhausted(c.func));
    }
    let id: u64 = c.debug.func_id(c.func, *cur);
    let l = c.debug.resolve_location(&c.tables.strings, id)?;
    *cur = *cur + 1;
    Ok(l)
}

fn read_optional_attr_step(c: &Ctx, r: &mut EncodingReader, step: Step, b: &mut Body) -> (res:
    Result<(), ReadError>)
    requires
        old(r).wf(),
        is_optional_step(step),
    ensures
        final(r).wf(),
        final(r).bytes() == old(r).bytes(),
        final(r).at() >= old(r).at(),
        match attr_step_at(c@, old(r).bytes(), old(r).at(), step, old(b)@) {
            Ok((b2, q)) => res is Ok && final(b)@ == b2 && final(r).at() == q,
            Err(e) => res == Err::<(), ReadError>(e),
        },
        final(b)@.result_types == old(b)@.result_types,
{
    let depth: usize = r.len();
    match step {
        Step::IntIf(mask, name) => {
            if is_flag_set(b.flags, mask) {
                let a = read_inline_int(r)?;
                b.push_attr(name, a);
            }
        },
        Step::StrIf(mask, name) => {
            if is_flag_set(b.flags, mask) {
                let a = read_inline_string(r, c.tables)?;
                b.push_attr(name, a);
            }
        },
        Step::HintsIf(mask) => {
            if is_flag_set(b.flags, mask) {
                let a = read_inline_optimization_hints(r, c.tables, depth)?;
                b.push_attr(AttrName::OptimizationHints, a);
            }
        },
        Step::HintsFirstIf(mask) => {
            if is_flag_set(b.flags, mask) {
                let a = read_inline_optimization_hints(r, c.tables, depth)?;
                b.push_first_attr(AttrName::OptimizationHints, a);
            }
        },
        Step::DictIf(mask, name) => {
            if is_flag_set(b.flags, mask) {
                let a = read_inline_dict(r, c.tables, depth)?;
                b.push_attr(name, a);
            }
        },
        Step::FlagBool(mask, name) => {
            if is_flag_set(b.flags, mask) {
                b.push_attr(name, Attribute::Bool(true));
            }
        },
        Step::FlagInt(mask, name) => {
            if is_flag_set(b.flags, mask) {
                b.push_attr(name, Attribute::i32(1));
            }
        },
        _ => {},
    }
    Ok(())
}

/// Whether a part of an operation body depends on a flag.
pub open spec fn is_optional_step(step: Step) -> bool {
    match step {
        Step::IntIf(_, _) => true,
        Step::StrIf(_, _) => true,
        Step::HintsIf(_) => true,
        Step::HintsFirstIf(_) => true,
        Step::DictIf(_, _) => true,
        Step::FlagBool(_, _) => true,
        Step::FlagInt(_, _) => true,
        _ => false,
    }
}

fn read_attr_step(c: &Ctx, r: &mut EncodingReader, step: Step, b: &mut Body) -> (res: Result<
    (),
    ReadError,
>)
    requires
        old(r).wf(),
        !is_value_step(step),
        step !is Regions,
        step !is Region,
    ensures
        final(r).wf(),
        final(r).bytes() == old(r).bytes(),
        final(r).at() >= old(r).at(),
        match attr_step_at(c@, old(r).bytes(), old(r).at(), step, old(b)@) {
            Ok((b2, q)) => res is Ok && final(b)@ == b2 && final(r).at() == q,
            Err(e) => res == Err::<(), ReadError>(e),
        },
        final(b)@.result_types == old(b)@.result_types,
{
    let depth: usize = r.len();
    match step {
        Step::Int(name) => {
            let a = read_inline_int(r)?;
            b.push_attr(name, a);
        },
        Step::IntOr(name, default) => {
            let v: u64 = r.read_varint()?;
            if v != default || name_in_string_table(&c.tables.strings, name.text()) {
                b.push_attr(name, Attribute::i32(value_of(v)));
            }
        },
        Step::BoolByte(name) => {
            let v: u8 = r.read_byte()?;
            b.push_attr(name, Attribute::Bool(v != 0));
        },
        Step::I32s(name) => {
            let v = r.read_le_var_size_i32()?;
            b.push_attr(name, Attribute::DenseI32Array(v));
        },
        Step::Str(name) => {
            let a = read_inline_string(r, c.tables)?;
            b.push_attr(name, a);
        },
        Step::TypeRef(name) => {
            let t = read_type_ref(r, &c.tables.types, Subject::Type)?;
            b.push_attr(name, Attribute::Type(t.duplicate()));
        },
        Step::Tagged(name) => {
            let a = read_self_contained_attribute(r, c.tables, depth)?;
            b.push_attr(name, a);
        },
        Step::Array(name) => {
            let a = read_inline_array(r, c.tables, depth)?;
            b.push_attr(name, a);
        },
        Step::Constant => {
            let data = c.tables.read_constant(
                r,
                Subject::Constant,
                Subject::Constant,
                Subject::ConstantLength,
            )?;
            let element_type: Type = if b.result_types.len() > 0 {
                b.result_types[0].duplicate()
            } else {
                Type::Token
            };
            let shape = element_type.tile_shape();
            b.push_attr(
                AttrName::Value,
                Attribute::DenseElements(DenseElements { element_type, shape, data }),
            );
        },
        Step::GlobalValue => {
            let data = c.tables.read_constant(
                r,
                Subject::GlobalValue,
                Subject::Constant,
                Subject::ConstantLength,
            )?;
            let element_type = Type::Token;
            let shape = element_type.tile_shape();
            b.push_attr(
                AttrName::Value,
                Attribute::DenseElements(DenseElements { element_type, shape, data }),
            );
        },
        Step::Segments => {
            let a = segment_sizes_attribute(&b.sizes);
            b.push_attr(AttrName::OperandSegmentSizes, a);
        },
        _ => {
            return read_optional_attr_step(c, r, step, b);
        },
    }
    Ok(())
}

fn read_value_step(
    c: &Ctx,
    r: &mut EncodingReader,
    next: u128,
    step: Step,
    b: &mut Body,
) -> (res: Result<(), ReadError>)
    requires
        old(r).wf(),
        is_value_step(step),
    ensures
        final(r).wf(),
        final(r).bytes() == old(r).bytes(),
        final(r).at() >= old(r).at(),
        match value_step_at(c@, old(r).bytes(), old(r).at(), next as int, step, old(b)@) {
            Ok((b2, q)) => res is Ok && final(b)@ == b2 && final(r).at() == q,
            Err(e) => res == Err::<(), ReadError>(e),
        },
        res is Ok ==> final(b)@.result_types == old(b)@.result_types
            || final(b)@.result_types.len() <= final(r).at() - old(r).at(),
{
    match step {
        Step::Results(n) => {
            let s = read_types(r, &c.tables.types, n as usize)?;
            b.result_types = s;
        },
        Step::ResultsCounted => {
            let n: usize = r.read_count(Subject::ResultType)?;
            let s = read_types(r, &c.tables.types, n)?;
            b.result_types = s;
        },
        Step::Flags => {
            let v: u64 = r.read_varint()?;
            b.flags = v;
        },
        Step::Operands(n) => {
            let s = read_operands(r, next, n as usize)?;
            b.operands.extend_from_slice(s.as_slice());
            assert(b.operands@ =~= old(b).operands@ + s@);
        },
        Step::OperandsCounted => {
            let s = read_operands_sized(r, next)?;
            b.operands.extend_from_slice(s.as_slice());
            assert(b.operands@ =~= old(b).operands@ + s@);
        },
        Step::Group => {
            let s = read_operands(r, next, 1)?;
            b.push_group(&s);
        },
        Step::GroupCounted => {
            let s = read_operands_sized(r, next)?;
            b.push_group(&s);
        },
        Step::GroupIf(mask) => {
            let n: usize = if is_flag_set(b.flags, mask) {
                1
            } else {
                0
            };
            let s = read_operands(r, next, n)?;
            b.push_group(&s);
        },
        _ => {},
    }
    Ok(())
}

/// Whether a part of an operation body reads result types, flags or operands.
pub fn value_step(step: Step) -> (r: bool)
    ensures
        r == is_value_step(step),
{
    match step {
        Step::Results(_) => true,
        Step::ResultsCounted => true,
        Step::Flags => true,
        Step::Operands(_) => true,
        Step::OperandsCounted => true,
        Step::Group => true,
        Step::GroupCounted => true,
        Step::GroupIf(_) => true,
        _ => false,
    }
}

/// There is room to number one more value for every byte that is left.
pub open spec fn numbers_left(r: EncodingReader, next: u128) -> bool {
    next + r.bytes().len() - r.at() <= u128::MAX
}

fn read_step(
    c: &Ctx,
    r: &mut EncodingReader,
    next: u128,
    cur: &mut usize,
    depth: usize,
    step: Step,
    b: &mut Body,
) -> (res: Result<(), ReadError>)
    requires
        old(r).wf(),
        c.debug.wf(),
        numbers_left(*old(r), next),
    ensures
        final(r).wf(),
        final(r).bytes() == old(r).bytes(),
        final(r).at() >= old(r).at(),
        match step_at(
            c@,
            old(r).bytes(),
            old(r).at(),
            next as int,
            *old(cur) as int,
            depth as nat,
            step,
            old(b)@,
        ) {
            Ok((b2, cur2, q)) => {
                &&& res is Ok
                &&& final(b)@ == b2
                &&& *final(cur) == cur2
                &&& final(r).at() == q
            },
            Err(e) => res == Err::<(), ReadError>(e),
        },
        res is Ok ==> final(b)@.result_types == old(b)@.result_types
            || final(b)@.result_types.len() <= final(r).at() - old(r).at(),
    decreases depth, 2int,
{
    match step {
        Step::Regions => {
            let n: usize = r.read_count(Subject::Region)?;
            let s = read_regions(c, r, next, cur, depth, n)?;
            b.regions = s;
            Ok(())
        },
        Step::Region => {
            let s = read_regions(c, r, next, cur, depth, 1)?;
            b.regions = s;
            Ok(())
        },
        _ => {
            if value_step(step) {
                read_value_step(c, r, next, step, b)
            } else {
                read_attr_step(c, r, step, b)
            }
        },
    }
}

fn read_steps(
    c: &Ctx,
    r: &mut EncodingReader,
    next: u128,
    cur: &mut usize,
    depth: usize,
    steps: &Vec<Step>,
) -> (res: Result<Body, ReadError>)
    requires
        old(r).wf(),
        c.debug.wf(),
        numbers_left(*old(r), next),
    ensures
        final(r).wf(),
        final(r).bytes() == old(r).bytes(),
        final(r).at() >= old(r).at(),
        match steps_at(
            c@,
            old(r).bytes(),
            old(r).at(),
            next as int,
            *old(cur) as int,
            depth as nat,
            steps@,
            steps@.len() as int,
        ) {
            Ok((b2, cur2, q)) => {
                &&& res is Ok
                &&& res->Ok_0@ == b2
                &&& *final(cur) == cur2
                &&& final(r).at() == q
            },
            Err(e) => res == Err::<Body, ReadError>(e),
        },
        res is Ok ==> res->Ok_0@.result_types.len() <= final(r).at() - old(r).at(),
    decreases depth, 3int,
{
    let ghost d = r.bytes();
    let ghost p = r.at();
    let ghost cur0 = *cur as int;
    let ghost cv = c@;
    let ghost depth0 = depth as nat;
    let mut b = Body::new();
    let n: usize = steps.len();
    let mut i: usize = 0;
    while i < n
        invariant
            i <= n,
            n == steps@.len(),
            r.wf(),
            r.bytes() == d,
            r.at() >= p,
            d == old(r).bytes(),
            p == old(r).at(),
            cur0 == *old(cur) as int,
            cv == c@,
            depth0 == depth as nat,
            c.debug.wf(),
            next + d.len() - p <= u128::MAX,
            b@.result_types.len() <= r.at() - p,
            steps_at(cv, d, p, next as int, cur0, depth0, steps@, i as int) == Ok::<
                (BodyV, int, int),
                ReadError,
            >((b@, *cur as int, r.at())),
        decreases n - i,
    {
        proof {
            if steps_at(cv, d, p, next as int, cur0, depth0, steps@, i + 1) is Err {
                lemma_steps_error(
                    cv,
                    d,
                    p,
                    next as int,
                    cur0,
                    depth0,
                    steps@,
                    i + 1,
                    n as int,
                );
            }
        }
        read_step(c, r, next, cur, depth, steps[i], &mut b)?;
        i = i + 1;
    }
    Ok(b)
}

/// Read an operation.
fn read_op(
    c: &Ctx,
    r: &mut EncodingReader,
    next: u128,
    cur: &mut usize,
    depth: usize,
) -> (res: Result<OpNode, ReadError>)
    requires
        old(r).wf(),
        c.debug.wf(),
        numbers_left(*old(r), next),
    ensures
        final(r).wf(),
        final(r).bytes() == old(r).bytes(),
        final(r).at() >= old(r).at(),
        match op_at(
            c@,
            old(r).bytes(),
            old(r).at(),
            next as int,
            *old(cur) as int,
            depth as nat,
        ) {
            Ok((op, cur2, q)) => {
                &&& res is Ok
                &&& res->Ok_0@ == op
                &&& *final(cur) == cur2
                &&& final(r).at() == q
            },
            Err(e) => res == Err::<OpNode, ReadError>(e),
        },
        res is Ok ==> res->Ok_0@.result_types.len() < final(r).at() - old(r).at(),
    decreases depth, 4int,
{
    let location = take_op_location(c, cur)?;
    if depth == 0 {
        return Err(ReadError::UnexpectedEnd);
    }
    let raw: u64 = r.read_varint()?;
    let opcode = match Opcode::from_u16((raw % 0x1_0000) as u16) {
        Some(op) => op,
        None => {
            return Err(ReadError::UnknownOpcode(raw));
        },
    };
    proof {
        opcode::lemma_opcode_of(opcode);
    }
    let steps = layout_of(opcode, c.v13_3);
    let b = read_steps(c, r, next, cur, depth - 1, &steps)?;
    Ok(
        OpNode {
            opcode,
            operands: b.operands,
            result_types: b.result_types,
            attributes: b.attributes,
            regions: b.regions,
            location,
        },
    )
}

fn read_ops(
    c: &Ctx,
    r: &mut EncodingReader,
    next: u128,
    cur: &mut usize,
    depth: usize,
    n: usize,
) -> (res: Result<Vec<OpNode>, ReadError>)
    requires
        old(r).wf(),
        c.debug.wf(),
        numbers_left(*old(r), next),
    ensures
        final(r).wf(),
        final(r).bytes() == old(r).bytes(),
        final(r).at() >= old(r).at(),
        match ops_at(
            c@,
            old(r).bytes(),
            old(r).at(),
            next as int,
            *old(cur) as int,
            depth as nat,
            n as int,
        ) {
            Ok((ops, _, cur2, q)) => {
                &&& res is Ok
                &&& node::ops_view(res->Ok_0@) == ops
                &&& *final(cur) == cur2
                &&& final(r).at() == q
            },
            Err(e) => res == Err::<Vec<OpNode>, ReadError>(e),
        },
    decreases depth, 5int,
{
    let ghost d = r.bytes();
    let ghost p = r.at();
    let ghost cur0 = *cur as int;
    let ghost cv = c@;
    let ghost next0 = next as int;
    let ghost depth0 = depth as nat;
    let mut free: u128 = next;
    let mut out: Vec<OpNode> = Vec::new();
    let mut i: usize = 0;
    assert(node::ops_view(out@) =~= seq![]);
    while i < n
        invariant
            i <= n,
            r.wf(),
            r.bytes() == d,
            r.at() >= p,
            d == old(r).bytes(),
            p == old(r).at(),
            cur0 == *old(cur) as int,
            cv == c@,
            depth0 == depth as nat,
            c.debug.wf(),
            next0 == next as int,
            numbers_left(*r, free),
            ops_at(cv, d, p, next0, cur0, depth0, i as int) == Ok::<
                (Seq<OpN>, int, int, int),
                ReadError,
            >((node::ops_view(out@), free as int, *cur as int, r.at())),
        decreases n - i,
    {
        proof {
            if ops_at(cv, d, p, next0, cur0, depth0, i + 1) is Err {
                lemma_ops_error(cv, d, p, next0, cur0, depth0, i + 1, n as int);
            }
        }
        let op = read_op(c, r, free, cur, depth)?;
        free = free + op.result_types.len() as u128;
        proof {
            node::lemma_ops_view_push(out@, op);
        }
        out.push(op);
        i = i + 1;
    }
    Ok(out)
}

/// Read a block.
fn read_block(
    c: &Ctx,
    r: &mut EncodingReader,
    next: u128,
    cur: &mut usize,
    depth: usize,
) -> (res: Result<BlockNode, ReadError>)
    requires
        old(r).wf(),
        c.debug.wf(),
        numbers_left(*old(r), next),
    ensures
        final(r).wf(),
        final(r).bytes() == old(r).bytes(),
        final(r).at() >= old(r).at(),
        match block_at(
            c@,
            old(r).bytes(),
            old(r).at(),
            next as int,
            *old(cur) as int,
            depth as nat,
        ) {
            Ok((b, cur2, q)) => {
                &&& res is Ok
                &&& res->Ok_0@ == b
                &&& *final(cur) == cur2
                &&& final(r).at() == q
            },
            Err(e) => res == Err::<BlockNode, ReadError>(e),
        },
    decreases depth, 6int,
{
    let n: usize = r.read_count(Subject::BlockArgument)?;
    let arg_types = read_types(r, &c.tables.types, n)?;
    let k: usize = r.read_count(Subject::BlockOperation)?;
    let ops = read_ops(c, r, next + n as u128, cur, depth, k)?;
    Ok(BlockNode { arg_types, ops })
}

fn read_blocks(
    c: &Ctx,
    r: &mut EncodingReader,
    next: u128,
    cur: &mut usize,
    depth: usize,
    n: usize,
) -> (res: Result<Vec<BlockNode>, ReadError>)
    requires
        old(r).wf(),
        c.debug.wf(),
        numbers_left(*old(r), next),
    ensures
        final(r).wf(),
        final(r).bytes() == old(r).bytes(),
        final(r).at() >= old(r).at(),
        match blocks_at(
            c@,
            old(r).bytes(),
            old(r).at(),
            next as int,
            *old(cur) as int,
            depth as nat,
            n as int,
        ) {
            Ok((s, cur2, q)) => {
                &&& res is Ok
                &&& node::blocks_view(res->Ok_0@) == s
                &&& *final(cur) == cur2
                &&& final(r).at() == q
            },
            Err(e) => res == Err::<Vec<BlockNode>, ReadError>(e),
        },
    decreases depth, 7int,
{
    let ghost d = r.bytes();
    let ghost p = r.at();
    let ghost cur0 = *cur as int;
    let ghost cv = c@;
    let ghost depth0 = depth as nat;
    let mut out: Vec<BlockNode> = Vec::new();
    let mut i: usize = 0;
    assert(node::blocks_view(out@) =~= seq![]);
    while i < n
        invariant
            i <= n,
            r.wf(),
            r.bytes() == d,
            r.at() >= p,
            d == old(r).bytes(),
            p == old(r).at(),
            cur0 == *old(cur) as int,
            cv == c@,
            depth0 == depth as nat,
            c.debug.wf(),
            next + d.len() - p <= u128::MAX,
            blocks_at(cv, d, p, next as int, cur0, depth0, i as int) == Ok::<
                (Seq<BlockN>, int, int),
                ReadError,
            >((node::blocks_view(out@), *cur as int, r.at())),
        decreases n - i,
    {
        proof {
            if blocks_at(cv, d, p, next as int, cur0, depth0, i + 1) is Err {
                lemma_blocks_error(cv, d, p, next as int, cur0, depth0, i + 1, n as int);
            }
        }
        let b = read_block(c, r, next, cur, depth)?;
        proof {
            node::lemma_blocks_view_push(out@, b);
        }
        out.push(b);
        i = i + 1;
    }
    Ok(out)
}

/// Read a region.
fn read_region(
    c: &Ctx,
    r: &mut EncodingReader,
    next: u128,
    cur: &mut usize,
    depth: usize,
) -> (res: Result<RegionNode, ReadError>)
    requires
        old(r).wf(),
        c.debug.wf(),
        numbers_left(*old(r), next),
    ensures
        final(r).wf(),
        final(r).bytes() == old(r).bytes(),
        final(r).at() >= old(r).at(),
        match region_at(
            c@,
            old(r).bytes(),
            old(r).at(),
            next as int,
            *old(cur) as int,
            depth as nat,
        ) {
            Ok((g, cur2, q)) => {
                &&& res is Ok
                &&& res->Ok_0@ == g
                &&& *final(cur) == cur2
                &&& final(r).at() == q
            },
            Err(e) => res == Err::<RegionNode, ReadError>(e),
        },
    decreases depth, 8int,
{
    let n: usize = r.read_count(Subject::Block)?;
    let blocks = read_blocks(c, r, next, cur, depth, n)?;
    Ok(RegionNode { blocks })
}

fn read_regions(
    c: &Ctx,
    r: &mut EncodingReader,
    next: u128,
    cur: &mut usize,
    depth: usize,
    n: usize,
) -> (res: Result<Vec<RegionNode>, ReadError>)
    requires
        old(r).wf(),
        c.debug.wf(),
        numbers_left(*old(r), next),
    ensures
        final(r).wf(),
        final(r).bytes() == old(r).bytes(),
        final(r).at() >= old(r).at(),
        match regions_at(
            c@,
            old(r).bytes(),
            old(r).at(),
            next as int,
            *old(cur) as int,
            depth as nat,
            n as int,
        ) {
            Ok((s, cur2, q)) => {
                &&& res is Ok
                &&& node::regions_view(res->Ok_0@) == s
                &&& *final(cur) == cur2
                &&& final(r).at() == q
            },
            Err(e) => res == Err::<Vec<RegionNode>, ReadError>(e),
        },
    decreases depth, 1int,
{
    let mut out: Vec<RegionNode> = Vec::new();
    assert(node::regions_view(out@) =~= seq![]);
    if n == 0 {
        return Ok(out);
    }
    if depth == 0 {
        return Err(ReadError::UnexpectedEnd);
    }
    let ghost d = r.bytes();
    let ghost p = r.at();
    let ghost cur0 = *cur as int;
    let ghost cv = c@;
    let ghost depth0 = depth as nat;
    let mut i: usize = 0;
    while i < n
        invariant
            i <= n,
            depth > 0,
            r.wf(),
            r.bytes() == d,
            r.at() >= p,
            d == old(r).bytes(),
            p == old(r).at(),
            cur0 == *old(cur) as int,
            cv == c@,
            depth0 == depth as nat,
            c.debug.wf(),
            next + d.len() - p <= u128::MAX,
            regions_at(cv, d, p, next as int, cur0, depth0, i as int) == Ok::<
                (Seq<Seq<BlockN>>, int, int),
                ReadError,
            >((node::regions_view(out@), *cur as int, r.at())),
        decreases n - i,
    {
        proof {
            if regions_at(cv, d, p, next as int, cur0, depth0, i + 1) is Err {
                lemma_regions_error(cv, d, p, next as int, cur0, depth0, i + 1, n as int);
            }
        }
        let g = read_region(c, r, next, cur, depth - 1)?;
        proof {
            node::lemma_regions_view_push(out@, g);
        }
        out.push(g);
        i = i + 1;
    }
    Ok(out)
}

/// An operation at position `p` of a function's body.
pub closed spec fn body_op_at(c: CtxV, d: Seq<u8>, p: int, next: int, cur: int) -> Result<
    (OpN, int, int),
    ReadError,
> {
    op_at(c, d, p, next, cur, d.len())
}

/// What an operation of a function's body is.
pub proof fn lemma_body_op_at(c: CtxV, d: Seq<u8>, p: int, next: int, cur: int)
    ensures
        body_op_at(c, d, p, next, cur) == op_at(c, d, p, next, cur, d.len()),
{
}

/// Read an operation of a function's body.
pub fn read_body_op(c: &Ctx, r: &mut EncodingReader, next: u128, cur: &mut usize) -> (res: Result<
    OpNode,
    ReadError,
>)
    requires
        old(r).wf(),
        c.debug.wf(),
        numbers_left(*old(r), next),
    ensures
        final(r).wf(),
        final(r).bytes() == old(r).bytes(),
        final(r).at() >= old(r).at(),
        match body_op_at(c@, old(r).bytes(), old(r).at(), next as int, *old(cur) as int) {
            Ok((op, cur2, q)) => {
                &&& res is Ok
                &&& res->Ok_0@ == op
                &&& *final(cur) == cur2
                &&& final(r).at() == q
            },
            Err(e) => res == Err::<OpNode, ReadError>(e),
        },
        res is Ok ==> res->Ok_0@.result_types.len() < final(r).at() - old(r).at(),
{
    let depth: usize = r.len();
    read_op(c, r, next, cur, depth)
}

} // verus!
