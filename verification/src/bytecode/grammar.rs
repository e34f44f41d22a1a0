//! The byte orders that the file format freezes: what stands where in a header, a
//! section, a table entry, a function record and an operation.
use vstd::prelude::*;
use crate::bytecode::attr_writer;
use crate::bytecode::attrs::TablesV;
use crate::bytecode::attrs;
use crate::bytecode::body;
use crate::bytecode::body_writer;
use crate::bytecode::collect::CollectV;
use crate::bytecode::debug;
use crate::bytecode::debug::DebugAttr;
use crate::bytecode::debug_writer::DebugPool;
use crate::bytecode::debug_writer;
use crate::bytecode::enums::{BytecodeVersion, Section};
use crate::bytecode::enums;
use crate::bytecode::frozen;
use crate::bytecode::layout;
use crate::bytecode::layout::{AttrName, Step};
use crate::bytecode::node::{BlockN, OpN};
use crate::bytecode::number;
use crate::bytecode::opcode::Opcode;
use crate::bytecode::reader::FuncN;
use crate::bytecode::reader;
use crate::bytecode::records::RecordV;
use crate::bytecode::records;
use crate::bytecode::strings;
use crate::bytecode::table;
use crate::bytecode::type_writer;
use crate::bytecode::types as wire_types;
use crate::bytecode::wire;
use crate::bytecode::writer;
use crate::error::WriteError;
use crate::ir::attr::AttrV;
use crate::ir::location::{FileV, LocationV, ScopeV, SubprogramV};
use crate::ir::module::{
    BlockId,
    GlobalV,
    ModuleV,
    OpId,
    SymbolVisibility,
    Value,
    ValueProducer,
    ValueV,
};
use crate::ir::types::{PaddingValue, ScalarType, TileElementType, TypeV};
use crate::text;

verus! {

// ---------------------------------------------------------------------------
// Numbers
// ---------------------------------------------------------------------------

/// The number that groups of seven bits stand for, the lowest group first.
pub open spec fn groups_value(s: Seq<u8>) -> int
    decreases s.len(),
{
    if s.len() == 0 {
        0
    } else {
        s[0] as int % 128 + 128 * groups_value(s.drop_first())
    }
}

/// A varint holds its number in groups of seven bits, the lowest first; every byte but
/// the last has its high bit set, and the last is zero only in the number zero.
pub proof fn lemma_varint(v: u64)
    ensures
        groups_value(wire::varint_bytes(v)) == v,
        wire::varint_bytes(v).len() > 0,
        wire::varint_bytes(v).last() < 128,
        v > 0 ==> wire::varint_bytes(v).last() > 0,
        forall|i: int|
            0 <= i < wire::varint_bytes(v).len() - 1 ==> #[trigger] wire::varint_bytes(v)[i] >= 128,
    decreases v,
{
    let s = wire::varint_bytes(v);
    if v >= 128 {
        let t = wire::varint_bytes(v / 128);
        lemma_varint(v / 128);
        assert(s.drop_first() =~= t);
        assert(s[0] == 128 + v % 128);
        assert(s.last() == t.last());
        assert forall|i: int| 0 <= i < s.len() - 1 implies #[trigger] s[i] >= 128 by {
            if i > 0 {
                assert(s[i] == t[i - 1]);
            }
        }
    } else {
        assert(s.drop_first() =~= seq![]);
        assert(groups_value(s.drop_first()) == 0);
        assert(v % 128 == v);
    }
}

/// A signed number and the number of its varint have one half in common: those that
/// are not negative are even, and the next larger magnitude is two further.
pub proof fn lemma_signed(v: i64)
    ensures
        v >= 0 ==> wire::zigzag(v) == 2 * v,
        v < 0 ==> wire::zigzag(v) + 1 == -2 * v,
{
}

/// Numbers of a fixed width have their lowest byte first.
pub proof fn lemma_fixed_width(v: int, n: nat, i: int)
    requires
        0 <= v,
        0 <= i < n,
    ensures
        wire::le_bytes(v, n).len() == n,
        wire::le_bytes(v, n)[i] == (v / wire::pow256(i as nat)) % 256,
    decreases n,
{
    wire::lemma_le_bytes_len(v, n);
    wire::lemma_le_bytes_len(v / 256, (n - 1) as nat);
    if i > 0 {
        lemma_fixed_width(v / 256, (n - 1) as nat, i - 1);
        let p = wire::pow256((i - 1) as nat);
        lemma_pow_positive((i - 1) as nat);
        vstd::arithmetic::div_mod::lemma_div_denominator(v, 256, p);
        assert(wire::pow256(i as nat) == 256 * p);
    } else {
        assert(v / 1 == v);
    }
}

proof fn lemma_pow_positive(n: nat)
    ensures
        wire::pow256(n) > 0,
    decreases n,
{
    if n > 0 {
        lemma_pow_positive((n - 1) as nat);
    }
}

/// A negative number is held as what is missing to the next power of two.
pub proof fn lemma_patterns(a: i32, b: i64)
    ensures
        (wire::i32_pattern(a) - a) % 0x1_0000_0000 == 0,
        0 <= wire::i32_pattern(a) < 0x1_0000_0000,
        (wire::i64_pattern(b) - b) % 0x1_0000_0000_0000_0000 == 0,
        0 <= wire::i64_pattern(b) < 0x1_0000_0000_0000_0000,
{
}

/// An array is its length and its elements, each four or eight bytes wide.
pub proof fn lemma_arrays(a: Seq<i32>, b: Seq<i64>, x: i32, y: i64)
    ensures
        wire::i32_array_bytes(a) == wire::varint_bytes(a.len() as u64) + wire::i32s_bytes(a),
        wire::i64_array_bytes(b) == wire::varint_bytes(b.len() as u64) + wire::i64s_bytes(b),
        wire::i32s_bytes(seq![]) == Seq::<u8>::empty(),
        wire::i64s_bytes(seq![]) == Seq::<u8>::empty(),
        wire::i32s_bytes(a.push(x)) == wire::i32s_bytes(a) + wire::le_bytes(wire::i32_pattern(x), 4),
        wire::i64s_bytes(b.push(y)) == wire::i64s_bytes(b) + wire::le_bytes(wire::i64_pattern(y), 8),
{
    assert(a.push(x).drop_last() =~= a);
    assert(b.push(y).drop_last() =~= b);
}

/// Padding fills up to the next multiple of the alignment, and no further, with one
/// byte.
pub proof fn lemma_padding(b: Seq<u8>, alignment: int)
    requires
        alignment >= 1,
    ensures
        writer::padded(b, alignment).len() % (alignment as nat) == 0,
        b.len() <= writer::padded(b, alignment).len() < b.len() + alignment,
        writer::padded(b, alignment).take(b.len() as int) == b,
        forall|i: int|
            b.len() <= i < writer::padded(b, alignment).len() ==> #[trigger] writer::padded(
                b,
                alignment,
            )[i] == 0xCB,
{
    let p = b.len() as int;
    let q = writer::padded(b, alignment);
    assert(q.take(p) =~= b);
    if alignment >= 2 {
        let r = p % alignment;
        vstd::arithmetic::div_mod::lemma_fundamental_div_mod(p, alignment);
        if r == 0 {
            assert((alignment - r) % alignment == 0) by {
                vstd::arithmetic::div_mod::lemma_mod_self_0(alignment);
            }
        } else {
            vstd::arithmetic::div_mod::lemma_small_mod((alignment - r) as nat, alignment as nat);
            let k = p / alignment;
            assert(alignment * k + alignment == (k + 1) * alignment) by (nonlinear_arith);
            vstd::arithmetic::div_mod::lemma_fundamental_div_mod_converse(
                p + alignment - r,
                alignment,
                k + 1,
                0,
            );
        }
    }
}

// ---------------------------------------------------------------------------
// Header and sections
// ---------------------------------------------------------------------------

/// A file starts with the magic bytes, the version's major and minor number in a byte
/// each and its tag in two bytes.
pub proof fn lemma_header(v: BytecodeVersion)
    ensures
        writer::header_bytes(v).len() == 12,
        writer::header_bytes(v).take(8) == seq![
            0x7Fu8,
            0x54u8,
            0x69u8,
            0x6Cu8,
            0x65u8,
            0x49u8,
            0x52u8,
            0x00u8,
        ],
        writer::header_bytes(v)[8] == v.major,
        writer::header_bytes(v)[9] == v.minor,
        writer::header_bytes(v)[10] as int + 256 * writer::header_bytes(v)[11] as int == v.tag,
{
    let h = writer::header_bytes(v);
    reveal_with_fuel(wire::le_bytes, 3);
    assert(h.take(8) =~= enums::magic());
    assert(h[10] == v.tag as int % 256);
    assert(h[11] == (v.tag as int / 256) % 256);
}

/// The section that the format assigns to an id.
pub open spec fn frozen_section(id: u8) -> Option<Section> {
    match id {
        0 => Some(Section::EndOfBytecode),
        1 => Some(Section::Str),
        2 => Some(Section::Func),
        3 => Some(Section::Debug),
        4 => Some(Section::Constant),
        5 => Some(Section::Type),
        6 => Some(Section::Global),
        _ => None,
    }
}

/// Sections have the ids that the format assigns. An aligned section is its id with the
/// high bit set, its length, its alignment, padding and its contents; any other is its
/// id, its length and its contents.
pub proof fn lemma_sections(out: Seq<u8>, s: Section, alignment: u64, payload: Seq<u8>)
    ensures
        frozen_section(s.spec_id()) == Some(s),
        alignment <= 1 ==> writer::with_section(out, s, alignment, payload) == out + seq![
            s.spec_id(),
        ] + wire::varint_bytes(payload.len() as u64) + payload,
        alignment > 1 ==> writer::with_section(out, s, alignment, payload) == writer::padded(
            out + seq![(128 + s.spec_id()) as u8] + wire::varint_bytes(payload.len() as u64)
                + wire::varint_bytes(alignment),
            alignment as int,
        ) + payload,
        writer::with_optional(out, s, alignment, false, payload) == out,
        writer::with_optional(out, s, alignment, true, payload) == writer::with_section(
            out,
            s,
            alignment,
            payload,
        ),
{
}

/// What a version allows: the oldest is 13.1, and the encodings of 13.3 begin with it.
pub proof fn lemma_versions(v: BytecodeVersion)
    ensures
        BytecodeVersion::spec_min_supported() == (BytecodeVersion { major: 13, minor: 1, tag: 0 }),
        BytecodeVersion::spec_current() == (BytecodeVersion { major: 13, minor: 3, tag: 0 }),
        v.major > 13 ==> v.spec_v13_3(),
        v.major < 13 ==> !v.spec_v13_3(),
        v.major == 13 ==> (v.spec_v13_3() <==> v.minor >= 3),
{
}

// ---------------------------------------------------------------------------
// Types
// ---------------------------------------------------------------------------

/// The scalar type that the format assigns to a tag.
pub open spec fn frozen_scalar(tag: u8) -> Option<ScalarType> {
    match tag {
        0 => Some(ScalarType::I1),
        1 => Some(ScalarType::I8),
        2 => Some(ScalarType::I16),
        3 => Some(ScalarType::I32),
        4 => Some(ScalarType::I64),
        5 => Some(ScalarType::F16),
        6 => Some(ScalarType::BF16),
        7 => Some(ScalarType::F32),
        8 => Some(ScalarType::TF32),
        9 => Some(ScalarType::F64),
        10 => Some(ScalarType::F8E4M3FN),
        11 => Some(ScalarType::F8E5M2),
        18 => Some(ScalarType::F8E8M0FNU),
        19 => Some(ScalarType::F4E2M1FN),
        20 => Some(ScalarType::I4),
        _ => None,
    }
}

/// Scalar types have the tags that the format assigns, and tags are read as their types.
pub proof fn lemma_scalars(s: ScalarType, tag: u8)
    ensures
        frozen_scalar(wire_types::scalar_tag(s)) == Some(s),
        wire_types::scalar_of_tag(tag) == frozen_scalar(tag),
{
}

/// Padding values have the codes that the format assigns.
pub proof fn lemma_paddings(v: PaddingValue)
    ensures
        v.spec_code() == 0 <==> v == PaddingValue::Zero,
        v.spec_code() == 1 <==> v == PaddingValue::NegZero,
        v.spec_code() == 2 <==> v == PaddingValue::Nan,
        v.spec_code() == 3 <==> v == PaddingValue::PosInf,
        v.spec_code() == 4 <==> v == PaddingValue::NegInf,
        PaddingValue::spec_from_u8(v.spec_code()) == Some(v),
{
}

/// A varint.
pub open spec fn num(v: int) -> Seq<u8> {
    wire::varint_bytes(v as u64)
}

/// The entry of a type: its tag, then its parts in the order of the format. References
/// are indices into the table.
pub open spec fn type_entry(t: TypeV, l: Seq<TypeV>, v13_3: bool) -> Seq<u8> {
    match t {
        TypeV::Scalar(s) => num(wire_types::scalar_tag(s) as int),
        TypeV::Pointer(s) => num(12) + num(l.index_of(TypeV::Scalar(s))),
        TypeV::Tile(shape, TileElementType::Scalar(s)) => num(13) + (num(
            l.index_of(TypeV::Scalar(s)),
        ) + wire::i64_array_bytes(shape)),
        TypeV::Tile(shape, TileElementType::Pointer(p)) => num(13) + (num(
            l.index_of(TypeV::Pointer(p.pointee)),
        ) + wire::i64_array_bytes(shape)),
        TypeV::TensorView(tv) => num(14) + (num(l.index_of(TypeV::Scalar(tv.element_type)))
            + wire::i64_array_bytes(tv.shape) + wire::i64_array_bytes(tv.strides)),
        TypeV::PartitionView(shape, tv, dims, pad) => {
            let core = wire::i32_array_bytes(shape) + num(l.index_of(TypeV::TensorView(tv)))
                + wire::i32_array_bytes(dims);
            num(15) + (match pad {
                Some(v) => if v13_3 {
                    num(1) + core + seq![v.spec_code()]
                } else {
                    core + (seq![1u8] + num(v.spec_code() as int))
                },
                None => if v13_3 {
                    num(0) + core + seq![]
                } else {
                    core + seq![0u8]
                },
            })
        },
        TypeV::Func(inputs, results) => num(16) + (num(inputs.len() as int)
            + type_writer::refs_bytes(l, inputs, inputs.len() as int) + num(results.len() as int)
            + type_writer::refs_bytes(l, results, results.len() as int)),
        TypeV::Token => num(17) + seq![],
        TypeV::GatherScatterView(shape, tv, dim, pad) => num(21) + (num(
            if pad is Some {
                1
            } else {
                0
            },
        ) + wire::i32_array_bytes(shape) + num(l.index_of(TypeV::TensorView(tv))) + num(
            wire::i64_pattern(dim as i64),
        ) + (match pad {
            Some(v) => seq![v.spec_code()],
            None => seq![],
        })),
        TypeV::StridedView(shape, strides, tv, dims, pad) => num(22) + (num(
            if pad is Some {
                1
            } else {
                0
            },
        ) + wire::i32_array_bytes(shape) + (wire::i32_array_bytes(strides) + num(
            l.index_of(TypeV::TensorView(tv)),
        ) + wire::i32_array_bytes(dims)) + (match pad {
            Some(v) => seq![v.spec_code()],
            None => seq![],
        })),
    }
}

/// Types are written as the format orders them.
pub proof fn lemma_type_entry(t: TypeV, l: Seq<TypeV>, version: BytecodeVersion)
    ensures
        type_writer::type_bytes(t, l, version) == type_entry(t, l, version.spec_v13_3()),
{
    assert(type_writer::type_bytes(t, l, version) =~= type_entry(t, l, version.spec_v13_3()));
}

/// References stand in the order of what they refer to.
pub proof fn lemma_type_refs(l: Seq<TypeV>, s: Seq<TypeV>, t: TypeV)
    ensures
        type_writer::refs_bytes(l, s.push(t), s.len() as int + 1) == type_writer::refs_bytes(
            l,
            s,
            s.len() as int,
        ) + num(l.index_of(t)),
{
    lemma_refs_prefix(l, s, t, s.len() as int);
}

proof fn lemma_refs_prefix(l: Seq<TypeV>, s: Seq<TypeV>, t: TypeV, n: int)
    requires
        n <= s.len(),
    ensures
        type_writer::refs_bytes(l, s.push(t), n) == type_writer::refs_bytes(l, s, n),
    decreases n,
{
    if n > 0 {
        lemma_refs_prefix(l, s, t, n - 1);
    }
}

// ---------------------------------------------------------------------------
// Attributes
// ---------------------------------------------------------------------------

/// Where one of two optional numbers is there, its bit is set, the first number's being
/// the lower; the numbers that are there follow.
pub open spec fn optional_pair(x: Option<i64>, y: Option<i64>) -> Seq<u8> {
    match (x, y) {
        (None, None) => seq![0u8],
        (Some(a), None) => seq![1u8] + wire::varint_bytes(wire::zigzag(a)),
        (None, Some(b)) => seq![2u8] + wire::varint_bytes(wire::zigzag(b)),
        (Some(a), Some(b)) => seq![3u8] + wire::varint_bytes(wire::zigzag(a)) + wire::varint_bytes(
            wire::zigzag(b),
        ),
    }
}

/// Attributes are written as the format orders them: the tag, and the parts behind it.
pub proof fn lemma_attr_entry(a: AttrV, t: TablesV, c: int)
    ensures
        attr_writer::attr_bytes(a, t, c) == (match a {
            AttrV::Integer(v, ty) => num(1) + num(t.types.index_of(ty)) + num(wire::i64_pattern(v)),
            AttrV::Float(v, ty) => num(2) + num(t.types.index_of(ty)) + attrs::ap_float_bytes(v, ty),
            AttrV::Bool(b) => num(3) + seq![if b { 1u8 } else { 0u8 }],
            AttrV::Type(ty) => num(4) + num(t.types.index_of(ty)),
            AttrV::Str(s) => num(5) + num(t.strings.index_of(s)),
            AttrV::Array(s) => num(6) + num(s.len() as int) + attr_writer::list_bytes(
                s,
                t,
                c,
                s.len() as int,
            ),
            AttrV::Dense(d) => num(7) + num(t.types.index_of(d.element_type)) + num(c),
            AttrV::DivBy(d) => num(8) + num(d.divisor as int) + optional_pair(d.every, d.along),
            AttrV::Same(s) => num(9) + wire::i64_array_bytes(s),
            AttrV::Dict(s) => num(10) + num(s.len() as int) + attr_writer::dict_bytes(
                s,
                t,
                c,
                s.len() as int,
            ),
            AttrV::Hints(s) => num(11) + num(s.len() as int) + attr_writer::hints_bytes(
                s,
                t,
                c,
                s.len() as int,
            ),
            AttrV::Bounded(b) => num(12) + optional_pair(b.lb, b.ub),
            AttrV::DenseI32(s) => wire::i32_array_bytes(s),
        }),
{
    match a {
        AttrV::DivBy(d) => {
            assert(attr_writer::opt_pair_bytes(d.every, d.along) =~= optional_pair(
                d.every,
                d.along,
            ));
        },
        AttrV::Bounded(b) => {
            assert(attr_writer::opt_pair_bytes(b.lb, b.ub) =~= optional_pair(b.lb, b.ub));
        },
        _ => {},
    }
    assert(attr_writer::attr_bytes(a, t, c) =~= (match a {
        AttrV::Integer(v, ty) => num(1) + num(t.types.index_of(ty)) + num(wire::i64_pattern(v)),
        AttrV::Float(v, ty) => num(2) + num(t.types.index_of(ty)) + attrs::ap_float_bytes(v, ty),
        AttrV::Bool(b) => num(3) + seq![if b { 1u8 } else { 0u8 }],
        AttrV::Type(ty) => num(4) + num(t.types.index_of(ty)),
        AttrV::Str(s) => num(5) + num(t.strings.index_of(s)),
        AttrV::Array(s) => num(6) + num(s.len() as int) + attr_writer::list_bytes(
            s,
            t,
            c,
            s.len() as int,
        ),
        AttrV::Dense(d) => num(7) + num(t.types.index_of(d.element_type)) + num(c),
        AttrV::DivBy(d) => num(8) + num(d.divisor as int) + optional_pair(d.every, d.along),
        AttrV::Same(s) => num(9) + wire::i64_array_bytes(s),
        AttrV::Dict(s) => num(10) + num(s.len() as int) + attr_writer::dict_bytes(
            s,
            t,
            c,
            s.len() as int,
        ),
        AttrV::Hints(s) => num(11) + num(s.len() as int) + attr_writer::hints_bytes(
            s,
            t,
            c,
            s.len() as int,
        ),
        AttrV::Bounded(b) => num(12) + optional_pair(b.lb, b.ub),
        AttrV::DenseI32(s) => wire::i32_array_bytes(s),
    }));
}

/// The payload of a floating point attribute takes a byte where its format has eight
/// bits, and else a signed varint of the format's pattern.
pub proof fn lemma_float_payload(bits: u64, s: ScalarType)
    ensures
        s == ScalarType::F8E4M3FN || s == ScalarType::F8E5M2 ==> attrs::ap_float_bytes(
            bits,
            TypeV::Scalar(s),
        ) == seq![(bits % 0x100) as u8],
        s == ScalarType::F16 || s == ScalarType::BF16 ==> attrs::ap_float_bytes(
            bits,
            TypeV::Scalar(s),
        ) == wire::varint_bytes(wire::zigzag((bits % 0x1_0000) as i64)),
        s == ScalarType::F32 || s == ScalarType::TF32 ==> attrs::ap_float_bytes(
            bits,
            TypeV::Scalar(s),
        ) == wire::varint_bytes(wire::zigzag((bits % 0x1_0000_0000) as i64)),
        s == ScalarType::F64 ==> attrs::ap_float_bytes(bits, TypeV::Scalar(s))
            == wire::varint_bytes(wire::zigzag(wire::i64_of_pattern(bits as int))),
{
}

/// The data of a constant stand behind their length.
pub proof fn lemma_constant(data: Seq<u8>)
    ensures
        attr_writer::constant_entry(data) == num(data.len() as int) + data,
{
}

// ---------------------------------------------------------------------------
// Debug information
// ---------------------------------------------------------------------------

/// Debug attributes are written as the format orders them: the tag and varints.
pub proof fn lemma_debug_entries(
    p: DebugPool,
    f: FileV,
    file: u64,
    line: u64,
    column: u64,
    name: Seq<char>,
    linkage: Seq<char>,
    unit: u64,
    scope: u64,
    scope_line: u64,
)
    ensures
        ({
            let q = debug_writer::with_string(debug_writer::with_string(p, f.name), f.directory);
            debug_writer::file_attr(p, f) == debug_writer::with_entry(
                q,
                seq![2u8] + (num(q.strings.index_of(f.name)) + num(q.strings.index_of(f.directory))),
            )
        }),
        debug_writer::unit_attr(p, file) == debug_writer::with_entry(
            p,
            seq![1u8] + wire::varint_bytes(file),
        ),
        ({
            let q = debug_writer::with_string(debug_writer::with_string(p, name), linkage);
            debug_writer::subprogram_entry(p, file, line, name, linkage, unit, scope_line)
                == debug_writer::with_entry(
                q,
                seq![5u8] + (wire::varint_bytes(file) + wire::varint_bytes(line) + num(
                    q.strings.index_of(name),
                ) + num(q.strings.index_of(linkage)) + wire::varint_bytes(unit)
                    + wire::varint_bytes(scope_line)),
            )
        }),
        ({
            let q = debug_writer::with_string(p, name);
            debug_writer::loc_attr(p, scope, name, line, column) == debug_writer::with_entry(
                q,
                seq![4u8] + (wire::varint_bytes(scope) + num(q.strings.index_of(name))
                    + wire::varint_bytes(line) + wire::varint_bytes(column)),
            )
        }),
{
    let q1 = debug_writer::with_string(debug_writer::with_string(p, f.name), f.directory);
    lemma_two_fields(
        debug_writer::string_id(q1.strings, f.name),
        debug_writer::string_id(q1.strings, f.directory),
    );
    lemma_one_field(file);
    let q2 = debug_writer::with_string(debug_writer::with_string(p, name), linkage);
    lemma_six_fields(
        file,
        line,
        debug_writer::string_id(q2.strings, name),
        debug_writer::string_id(q2.strings, linkage),
        unit,
        scope_line,
    );
    let q3 = debug_writer::with_string(p, name);
    lemma_four_fields(scope, debug_writer::string_id(q3.strings, name), line, column);
}

proof fn lemma_one_field(a: u64)
    ensures
        debug_writer::fields_bytes(seq![a]) == wire::varint_bytes(a),
{
    assert(seq![a].drop_last() =~= seq![]);
    assert(debug_writer::fields_bytes(seq![]) =~= seq![]);
    assert(debug_writer::fields_bytes(seq![a]) =~= wire::varint_bytes(a));
}

proof fn lemma_two_fields(a: u64, b: u64)
    ensures
        debug_writer::fields_bytes(seq![a, b]) == wire::varint_bytes(a) + wire::varint_bytes(b),
{
    lemma_one_field(a);
    assert(seq![a, b].drop_last() =~= seq![a]);
}

proof fn lemma_four_fields(a: u64, b: u64, c: u64, d: u64)
    ensures
        debug_writer::fields_bytes(seq![a, b, c, d]) == wire::varint_bytes(a) + wire::varint_bytes(b)
            + wire::varint_bytes(c) + wire::varint_bytes(d),
{
    lemma_two_fields(a, b);
    assert(seq![a, b, c].drop_last() =~= seq![a, b]);
    assert(debug_writer::fields_bytes(seq![a, b, c]) == debug_writer::fields_bytes(seq![a, b])
        + wire::varint_bytes(c));
    assert(seq![a, b, c, d].drop_last() =~= seq![a, b, c]);
}

proof fn lemma_six_fields(a: u64, b: u64, c: u64, d: u64, e: u64, f: u64)
    ensures
        debug_writer::fields_bytes(seq![a, b, c, d, e, f]) == wire::varint_bytes(a)
            + wire::varint_bytes(b) + wire::varint_bytes(c) + wire::varint_bytes(d)
            + wire::varint_bytes(e) + wire::varint_bytes(f),
{
    lemma_four_fields(a, b, c, d);
    assert(seq![a, b, c, d, e].drop_last() =~= seq![a, b, c, d]);
    assert(debug_writer::fields_bytes(seq![a, b, c, d, e]) == debug_writer::fields_bytes(
        seq![a, b, c, d],
    ) + wire::varint_bytes(e));
    assert(seq![a, b, c, d, e, f].drop_last() =~= seq![a, b, c, d, e]);
}

/// The entry that the format assigns to a tag and its fields.
pub proof fn lemma_debug_tags(f: Seq<u64>)
    ensures
        debug::field_count(0) == Some(0int) && debug::attr_of_fields(0, f) == DebugAttr::Unknown,
        debug::field_count(1) == Some(1int) && debug::attr_of_fields(1, f) == (
        DebugAttr::CompileUnit { file: f[0] }),
        debug::field_count(2) == Some(2int) && debug::attr_of_fields(2, f) == (DebugAttr::File {
            name: f[0],
            dir: f[1],
        }),
        debug::field_count(3) == Some(4int) && (debug::attr_of_fields(
            3,
            f,
        ) matches DebugAttr::LexicalBlock { scope, file, line, column } && scope == f[0] && file
            == f[1] && line == f[2] % 0x1_0000_0000 && column == f[3] % 0x1_0000_0000),
        debug::field_count(4) == Some(4int) && (debug::attr_of_fields(
            4,
            f,
        ) matches DebugAttr::Loc { scope, file, line, column } && scope == f[0] && file == f[1]
            && line == f[2] % 0x1_0000_0000 && column == f[3] % 0x1_0000_0000),
        debug::field_count(5) == Some(6int) && (debug::attr_of_fields(
            5,
            f,
        ) matches DebugAttr::Subprogram { file, line, name, linkage, unit, scope_line } && file
            == f[0] && line == f[1] % 0x1_0000_0000 && name == f[2] && linkage == f[3] && unit
            == f[4] && scope_line == f[5] % 0x1_0000_0000),
        debug::field_count(6) == Some(2int) && debug::attr_of_fields(6, f) == (DebugAttr::CallSite {
            callee: f[0],
            caller: f[1],
        }),
        forall|tag: u8| tag > 6 ==> #[trigger] debug::field_count(tag) is None,
{
}

/// The debug section: the number of lists, where each starts, the number of ids, the
/// ids, the number of entries, where each starts, and the entries, each part aligned.
pub proof fn lemma_debug_section(lists: Seq<Seq<u64>>, entries: Seq<Seq<u8>>)
    ensures
        ({
            let n = lists.len() as int;
            let starts = writer::padded(num(n), 4) + writer::starts_bytes(lists, n);
            let ids = writer::padded(starts + num(writer::ids_before(lists, n)), 8)
                + writer::lists_bytes(lists, n);
            writer::debug_bytes(lists, entries) == writer::padded(ids + num(entries.len() as int), 4)
                + table::offsets_bytes(entries, 4, entries.len() as int) + table::concat(entries)
        }),
{
}

// ---------------------------------------------------------------------------
// Globals, functions and operations
// ---------------------------------------------------------------------------

/// A global variable is its name, its type, its data, its alignment, and from 13.3 on
/// whether it is private and whether it is constant.
pub proof fn lemma_global_entry(g: GlobalV, t: TablesV, c: int)
    ensures
        writer::global_bytes(g, t, false, c) == num(t.strings.index_of(g.sym_name)) + num(
            t.types.index_of(g.value.element_type),
        ) + num(c) + wire::varint_bytes(g.alignment),
        writer::global_bytes(g, t, true, c) == num(t.strings.index_of(g.sym_name)) + num(
            t.types.index_of(g.value.element_type),
        ) + num(c) + wire::varint_bytes(g.alignment) + seq![
            if g.symbol_visibility == SymbolVisibility::Private {
                1u8
            } else {
                0u8
            },
        ] + num(
            if g.constant {
                1
            } else {
                0
            },
        ),
{
    assert(writer::global_bytes(g, t, false, c) =~= num(t.strings.index_of(g.sym_name)) + num(
        t.types.index_of(g.value.element_type),
    ) + num(c) + wire::varint_bytes(g.alignment));
    assert(writer::global_bytes(g, t, true, c) =~= num(t.strings.index_of(g.sym_name)) + num(
        t.types.index_of(g.value.element_type),
    ) + num(c) + wire::varint_bytes(g.alignment) + seq![
        if g.symbol_visibility == SymbolVisibility::Private {
            1u8
        } else {
            0u8
        },
    ] + num(
        if g.constant {
            1
        } else {
            0
        },
    ));
}

/// A function record is its name, its signature, its flags, its debug index, its hints,
/// the length of its body and its body. Bit one says that it is a kernel, bit two that
/// hints follow.
pub proof fn lemma_record_entry(r: RecordV, t: TablesV, v13_3: bool, index: int, c: int)
    requires
        r.hints is Some ==> r.kernel,
    ensures
        ({
            let body = records::record_body(r, t, v13_3, c);
            let flags = (if r.kernel {
                2int
            } else {
                0
            }) + (if r.hints is Some {
                4int
            } else {
                0
            });
            let hints = match r.hints {
                Some(h) => attr_writer::attr_bytes(h, t, c),
                None => seq![],
            };
            records::record_bytes(r, t, v13_3, index, c) == num(t.strings.index_of(r.name)) + num(
                t.types.index_of(r.signature),
            ) + seq![flags as u8] + num(index) + hints + num(body.len() as int) + body
        }),
{
}

/// An operation is the number that the format assigns to it, and its body in the order
/// that the format fixes for that number.
pub proof fn lemma_operation(op: OpN, t: TablesV, v13_3: bool, c: int)
    ensures
        exists|number: u16|
            #![trigger frozen::assigned(number)]
            frozen::assigned(number) == Some(op.opcode) && body_writer::op_bytes(op, t, v13_3, c)
                == num(number as int) + body_writer::steps_bytes(
                op,
                t,
                v13_3,
                c,
                frozen::frozen_body(number, v13_3),
                frozen::frozen_body(number, v13_3).len() as int,
            ),
{
    frozen::lemma_numbers(op.opcode, 0);
    frozen::lemma_bodies(op.opcode, v13_3);
}

/// A block is its argument types and its operations, each behind their number.
pub proof fn lemma_block(b: BlockN, t: TablesV, v13_3: bool, c: int)
    ensures
        body_writer::block_bytes(b, t, v13_3, c) == num(b.arg_types.len() as int)
            + type_writer::refs_bytes(t.types, b.arg_types, b.arg_types.len() as int) + num(
            b.ops.len() as int,
        ) + body_writer::ops_bytes(b.ops, t, v13_3, c, b.ops.len() as int),
{
}

/// What the parts of an operation's body hold.
pub proof fn lemma_parts(op: OpN, t: TablesV, steps: Seq<Step>, k: int, c: int, n: u8, name: AttrName)
    requires
        0 <= k < steps.len(),
    ensures
        steps[k] == Step::Results(n) ==> body_writer::value_step_bytes(op, t, steps, k)
            == type_writer::refs_bytes(t.types, op.result_types, op.result_types.len() as int),
        steps[k] == Step::ResultsCounted ==> body_writer::value_step_bytes(op, t, steps, k) == num(
            op.result_types.len() as int,
        ) + type_writer::refs_bytes(t.types, op.result_types, op.result_types.len() as int),
        steps[k] == Step::Operands(n) ==> body_writer::value_step_bytes(op, t, steps, k)
            == body_writer::operands_bytes(op.operands, op.operands.len() as int),
        steps[k] == Step::OperandsCounted ==> body_writer::value_step_bytes(op, t, steps, k) == num(
            op.operands.len() as int,
        ) + body_writer::operands_bytes(op.operands, op.operands.len() as int),
        body_writer::find_attr(op.attributes, layout::name_text(name)) matches Some(
            AttrV::Integer(v, _),
        ) ==> {
            &&& body_writer::attr_step_bytes(op, t, c, Step::Int(name)) == num(wire::i64_pattern(v))
            &&& body_writer::attr_step_bytes(op, t, c, Step::IntIf(n, name)) == num(
                wire::i64_pattern(v),
            )
        },
        body_writer::find_attr(op.attributes, layout::name_text(name)) matches Some(AttrV::Str(s))
            ==> body_writer::attr_step_bytes(op, t, c, Step::Str(name)) == num(
            t.strings.index_of(s),
        ),
        body_writer::find_attr(op.attributes, layout::name_text(name)) matches Some(AttrV::Type(ty))
            ==> body_writer::attr_step_bytes(op, t, c, Step::TypeRef(name)) == num(
            t.types.index_of(ty),
        ),
        body_writer::find_attr(op.attributes, layout::name_text(name)) matches Some(AttrV::Bool(b))
            ==> body_writer::attr_step_bytes(op, t, c, Step::BoolByte(name)) == seq![
            if b {
                1u8
            } else {
                0u8
            },
        ],
        body_writer::find_attr(op.attributes, layout::name_text(name)) matches Some(
            AttrV::DenseI32(s),
        ) ==> body_writer::attr_step_bytes(op, t, c, Step::I32s(name)) == wire::i32_array_bytes(s),
        body_writer::attr_step_bytes(op, t, c, Step::Constant) == num(c),
        body_writer::attr_step_bytes(op, t, c, Step::GlobalValue) == num(c),
{
}

/// Operands stand in their order.
pub proof fn lemma_operands(s: Seq<u64>, x: u64)
    ensures
        body_writer::operands_bytes(s.push(x), s.len() as int + 1) == body_writer::operands_bytes(
            s,
            s.len() as int,
        ) + wire::varint_bytes(x),
{
    lemma_operands_prefix(s, x, s.len() as int);
}

proof fn lemma_operands_prefix(s: Seq<u64>, x: u64, n: int)
    requires
        n <= s.len(),
    ensures
        body_writer::operands_bytes(s.push(x), n) == body_writer::operands_bytes(s, n),
    decreases n,
{
    if n > 0 {
        lemma_operands_prefix(s, x, n - 1);
    }
}

/// A named attribute is found by its name: the first with it.
pub proof fn lemma_found(s: Seq<(Seq<char>, AttrV)>, i: int)
    requires
        0 <= i < s.len(),
        forall|j: int| 0 <= j < i ==> (#[trigger] s[j]).0 != s[i].0,
    ensures
        body_writer::find_attr(s, s[i].0) == Some(s[i].1),
{
    lemma_found_among(s, i, s.len() as int);
}

proof fn lemma_found_among(s: Seq<(Seq<char>, AttrV)>, i: int, n: int)
    requires
        0 <= i < s.len(),
        n <= s.len(),
        forall|j: int| 0 <= j < i ==> (#[trigger] s[j]).0 != s[i].0,
    ensures
        n > i ==> body_writer::find_attr_in(s, s[i].0, n) == Some(s[i].1),
        n <= i ==> body_writer::find_attr_in(s, s[i].0, n) is None,
    decreases n,
{
    if n > 0 {
        lemma_found_among(s, i, n - 1);
        if n - 1 < i {
            assert(s[n - 1].0 != s[i].0);
        }
    }
}

/// A nested scope is its parent, its file, its line and its column; a call is where it
/// is, and where its caller is.
pub proof fn lemma_scopes_and_calls(
    p: DebugPool,
    parent: ScopeV,
    file: FileV,
    line: u32,
    column: u32,
    current: u64,
    callee: LocationV,
    caller: LocationV,
)
    ensures
        ({
            let (p1, scope) = debug_writer::scope_attr(p, parent);
            let (p2, f) = debug_writer::file_attr(p1, file);
            debug_writer::scope_attr(p, ScopeV::LexicalBlock(Box::new(parent), file, line, column))
                == debug_writer::with_entry(
                p2,
                seq![3u8] + (wire::varint_bytes(scope) + wire::varint_bytes(f) + num(line as int)
                    + num(column as int)),
            )
        }),
        ({
            let (p1, x) = debug_writer::location_attr(p, current, callee);
            let (p2, y) = debug_writer::location_attr(p1, current, caller);
            debug_writer::location_attr(
                p,
                current,
                LocationV::CallSite(Box::new(callee), Box::new(caller)),
            ) == (if x == 0 {
                (p1, 0u64)
            } else {
                debug_writer::with_entry(p2, seq![6u8] + (wire::varint_bytes(x) + wire::varint_bytes(y)))
            })
        }),
        debug_writer::location_attr(p, current, LocationV::Unknown) == (p, 0u64),
{
    let (p1, scope) = debug_writer::scope_attr(p, parent);
    let (p2, f) = debug_writer::file_attr(p1, file);
    lemma_four_fields(scope, f, line as u64, column as u64);
    let (q1, x) = debug_writer::location_attr(p, current, callee);
    let (q2, y) = debug_writer::location_attr(q1, current, caller);
    lemma_two_fields(x, y);
}

/// A position belongs to its own scope; a bare one to that of the function, which a
/// function without a location does not have.
pub proof fn lemma_positions(
    p: DebugPool,
    current: u64,
    filename: Seq<char>,
    line: u32,
    column: u32,
    scope: ScopeV,
)
    ensures
        debug_writer::location_attr(p, 0, LocationV::FileLineCol(filename, line, column)) == (p, 0u64),
        current != 0 ==> debug_writer::location_attr(
            p,
            current,
            LocationV::FileLineCol(filename, line, column),
        ) == debug_writer::loc_attr(p, current, filename, line as u64, column as u64),
        ({
            let (p1, s) = debug_writer::scope_attr(p, scope);
            debug_writer::location_attr(
                p,
                current,
                LocationV::DebugInfo(filename, line, column, scope),
            ) == debug_writer::loc_attr(p1, s, filename, line as u64, column as u64)
        }),
{
}

/// The debug information of a function names its file, its unit and itself: the file of
/// the path in its location, its line, the name that is shown and the name that is
/// linked.
pub proof fn lemma_function_scope(
    p: DebugPool,
    sym_name: Seq<char>,
    display: Seq<char>,
    filename: Seq<char>,
    line: u32,
    column: u32,
    sp: SubprogramV,
)
    ensures
        ({
            let f = FileV { name: text::path_base(filename), directory: text::path_directory(filename) };
            let (p1, file) = debug_writer::file_attr(p, f);
            let (p2, unit) = debug_writer::unit_attr(p1, file);
            debug_writer::function_scope(
                p,
                sym_name,
                display,
                LocationV::FileLineCol(filename, line, column),
            ) == debug_writer::subprogram_entry(
                p2,
                file,
                line as u64,
                display,
                sym_name,
                unit,
                line as u64,
            )
        }),
        ({
            let (p1, file) = debug_writer::file_attr(p, sp.file);
            let (p2, unit_file) = debug_writer::file_attr(p1, sp.compile_unit);
            let (p3, unit) = debug_writer::unit_attr(p2, unit_file);
            debug_writer::scope_attr(p, ScopeV::Subprogram(sp)) == debug_writer::subprogram_entry(
                p3,
                file,
                sp.line as u64,
                sp.name,
                sp.linkage_name,
                unit,
                sp.scope_line as u64,
            )
        }),
{
}

/// An entry that is asked for is in the table, once, and its id is its place, counted
/// from one.
pub proof fn lemma_entry_ids(p: DebugPool, e: Seq<u8>)
    ensures
        ({
            let (q, id) = debug_writer::with_entry(p, e);
            &&& q.strings == p.strings
            &&& p.entries.contains(e) ==> q.entries == p.entries
            &&& !p.entries.contains(e) ==> q.entries == p.entries.push(e)
            &&& q.entries.contains(e)
            &&& q.entries.len() < u64::MAX ==> 1 <= id <= q.entries.len() && q.entries[id - 1] == e
        }),
{
    let q = debug_writer::with_entry(p, e).0;
    if !p.entries.contains(e) {
        assert(q.entries[p.entries.len() as int] == e);
    }
    let i = q.entries.index_of(e);
    assert(q.entries.contains(e));
    assert(0 <= i < q.entries.len() && q.entries[i] == e);
}

/// A file has its sections in this order: globals, functions, constants, debug
/// information, types and strings, each but the debug information only where it is not
/// empty, and then the end.
pub proof fn lemma_file(gs: Seq<GlobalV>, rs: Seq<RecordV>, c: CollectV, version: BytecodeVersion)
    ensures
        ({
            let v = version.spec_v13_3();
            let b0 = writer::header_bytes(version);
            let b1 = if gs.len() > 0 {
                writer::with_section(
                    b0,
                    Section::Global,
                    1,
                    num(gs.len() as int) + writer::globals_bytes(gs, c.t, v, gs.len() as int),
                )
            } else {
                b0
            };
            let functions = writer::padded(
                num(rs.len() as int) + records::records_bytes(
                    rs,
                    c.t,
                    v,
                    gs.len() as int,
                    rs.len() as int,
                ),
                8,
            );
            let b2 = if rs.len() > 0 {
                writer::with_section(b1, Section::Func, 8, functions)
            } else {
                b1
            };
            let b3 = if c.t.constants.len() > 0 {
                writer::with_section(b2, Section::Constant, 8, table::table_bytes(c.t.constants, 8))
            } else {
                b2
            };
            let b4 = writer::with_section(
                b3,
                Section::Debug,
                8,
                writer::debug_bytes(
                    c.lists,
                    if c.entries.len() == 0 {
                        seq![seq![0u8]]
                    } else {
                        c.entries
                    },
                ),
            );
            let b5 = if c.t.types.len() > 0 {
                writer::with_section(
                    b4,
                    Section::Type,
                    4,
                    table::table_bytes(
                        Seq::new(
                            c.t.types.len(),
                            |i: int| type_writer::type_bytes(c.t.types[i], c.t.types, version),
                        ),
                        4,
                    ),
                )
            } else {
                b4
            };
            let b6 = if c.t.strings.len() > 0 {
                writer::with_section(
                    b5,
                    Section::Str,
                    4,
                    table::table_bytes(
                        Seq::new(
                            c.t.strings.len(),
                            |i: int| vstd::utf8::encode_utf8(c.t.strings[i]),
                        ),
                        4,
                    ),
                )
            } else {
                b5
            };
            writer::file_bytes(gs, rs, c, version) == b6.push(0u8)
        }),
{
    assert(debug_writer::entry_bytes(0, seq![]) =~= seq![0u8]);
    assert(type_writer::type_entries(c.t.types, version, c.t.types.len() as int) =~= Seq::new(
        c.t.types.len(),
        |i: int| type_writer::type_bytes(c.t.types[i], c.t.types, version),
    ));
    assert(strings::string_entries(c.t.strings) =~= Seq::new(
        c.t.strings.len(),
        |i: int| vstd::utf8::encode_utf8(c.t.strings[i]),
    ));
}

/// A table is its length, padded to the width of its offsets, where each entry starts,
/// and the entries.
pub proof fn lemma_table(s: Seq<Seq<u8>>, w: nat, i: int)
    requires
        0 <= i < s.len(),
    ensures
        table::table_bytes(s, w) == writer::padded(num(s.len() as int), w as int)
            + table::offsets_bytes(s, w, s.len() as int) + table::concat(s),
        table::offset_of(s, 0) == 0,
        table::offset_of(s, i + 1) == table::offset_of(s, i) + s[i].len(),
        table::concat(s.take(i + 1)) == table::concat(s.take(i)) + s[i],
        table::offsets_bytes(s, w, i + 1) == table::offsets_bytes(s, w, i) + wire::le_bytes(
            table::offset_of(s, i),
            w,
        ),
{
    assert(s.take(i + 1).drop_last() =~= s.take(i));
    assert(s.take(0) =~= seq![]);
}

/// The flag of a part is set where the part is there: an attribute that may be missing is
/// found, a truth value is true, a number is not zero, a group has its operand.
pub proof fn lemma_flag_meaning(op: OpN, m: u8, name: AttrName, g: int, flags: u64)
    requires
        m > 0,
    ensures
        body::flag_set(flags, m) <==> (flags / m as u64) % 2 == 1,
        ({
            let found = body_writer::find_attr(op.attributes, layout::name_text(name));
            let hints = body_writer::find_attr(op.attributes, "optimization_hints"@);
            &&& body_writer::is_present(op, Step::IntIf(m, name), g) <==> (found matches Some(
                AttrV::Integer(_, _),
            ))
            &&& body_writer::is_present(op, Step::StrIf(m, name), g) <==> (found matches Some(
                AttrV::Str(_),
            ))
            &&& body_writer::is_present(op, Step::DictIf(m, name), g) <==> (found matches Some(
                AttrV::Dict(_),
            ))
            &&& body_writer::is_present(op, Step::FlagBool(m, name), g) <==> found == Some(
                AttrV::Bool(true),
            )
            &&& body_writer::is_present(op, Step::FlagInt(m, name), g) <==> (found matches Some(
                AttrV::Integer(v, _),
            ) && v != 0)
            &&& body_writer::is_present(op, Step::HintsIf(m), g) <==> (hints matches Some(
                AttrV::Hints(_),
            ))
            &&& body_writer::is_present(op, Step::HintsFirstIf(m), g) <==> (hints matches Some(
                AttrV::Hints(_),
            ))
            &&& body_writer::is_present(op, Step::GroupIf(m), g) <==> body_writer::group_size(op, g)
                == 1
        }),
{
}

/// The sizes of operand groups are those of the attribute that lists them, and the groups
/// follow each other.
pub proof fn lemma_group_places(op: OpN, s: Seq<AttrV>, j: int)
    requires
        body_writer::find_attr(op.attributes, "operandSegmentSizes"@) == Some(AttrV::Array(s)),
        0 <= j < s.len(),
    ensures
        s[j] matches AttrV::Integer(v, _) ==> body_writer::group_size(op, j) == v,
        body_writer::group_start(op, 0) == 0,
        body_writer::group_start(op, j + 1) == body_writer::group_start(op, j)
            + body_writer::group_size(op, j),
        body_writer::group_operands(op, j) == op.operands.subrange(
            body_writer::group_start(op, j),
            body_writer::group_start(op, j + 1),
        ),
{
}

/// The parts of a body that are groups of operands hold the operands of their groups.
pub proof fn lemma_group_parts(op: OpN, t: TablesV, steps: Seq<Step>, k: int, m: u8)
    requires
        0 <= k < steps.len(),
    ensures
        ({
            let g = body_writer::groups_before(steps, k);
            let held = body_writer::operands_bytes(
                body_writer::group_operands(op, g),
                body_writer::group_size(op, g),
            );
            &&& steps[k] == Step::Group ==> body_writer::value_step_bytes(op, t, steps, k) == held
            &&& steps[k] == Step::GroupIf(m) ==> body_writer::value_step_bytes(op, t, steps, k)
                == held
            &&& steps[k] == Step::GroupCounted ==> body_writer::value_step_bytes(op, t, steps, k)
                == num(body_writer::group_size(op, g)) + held
            &&& body_writer::groups_before(steps, 0) == 0
            &&& body_writer::groups_before(steps, k + 1) == g + (if steps[k] is Group || steps[k]
                is GroupCounted || steps[k] is GroupIf {
                1int
            } else {
                0
            })
        }),
{
}

/// The attributes of a list follow each other, each with the constants behind those before it.
pub proof fn lemma_list_order(s: Seq<AttrV>, a: AttrV, t: TablesV, c: int)
    ensures
        attr_writer::list_bytes(s.push(a), t, c, s.len() as int + 1) == attr_writer::list_bytes(
            s.push(a),
            t,
            c,
            s.len() as int,
        ) + attr_writer::attr_bytes(
            a,
            t,
            c + attr_writer::list_consts(s.push(a), s.len() as int).len(),
        ),
{
}

/// A named attribute is its name and its value.
pub proof fn lemma_dict_order(s: Seq<(Seq<char>, AttrV)>, i: int, t: TablesV, c: int)
    requires
        0 <= i < s.len(),
    ensures
        attr_writer::dict_bytes(s, t, c, i + 1) == attr_writer::dict_bytes(s, t, c, i) + (num(
            t.strings.index_of(s[i].0),
        ) + attr_writer::attr_bytes(s[i].1, t, c + attr_writer::dict_consts(s, i).len())),
{
}

/// The hints of an architecture are its name and a dictionary.
pub proof fn lemma_hints_order(
    s: Seq<(Seq<char>, Seq<(Seq<char>, AttrV)>)>,
    i: int,
    t: TablesV,
    c: int,
)
    requires
        0 <= i < s.len(),
    ensures
        attr_writer::hints_bytes(s, t, c, i + 1) == attr_writer::hints_bytes(s, t, c, i) + (num(
            t.strings.index_of(s[i].0),
        ) + (num(10) + (num(s[i].1.len() as int) + attr_writer::dict_bytes(
            s[i].1,
            t,
            c + attr_writer::hints_consts(s, i).len(),
            s[i].1.len() as int,
        )))),
{
}

// ---------------------------------------------------------------------------
// Values
// ---------------------------------------------------------------------------

/// The number of a value is its place among the values that are known, the last where it
/// is known more than once.
pub proof fn lemma_value_number(env: Seq<Value>, v: Value, n: int)
    requires
        0 <= n <= env.len() <= u64::MAX,
    ensures
        match number::number_of(env, v, n) {
            Some(k) => k < n && env[k as int] == v && forall|j: int|
                k < j < n ==> #[trigger] env[j] != v,
            None => forall|j: int| 0 <= j < n ==> #[trigger] env[j] != v,
        },
    decreases n,
{
    if n > 0 {
        lemma_value_number(env, v, n - 1);
    }
}

/// The operands of an operation keep their order; the first that is not known is an
/// error.
pub proof fn lemma_operand_numbers(env: Seq<Value>, s: Seq<Value>, n: int, i: int)
    requires
        0 <= n <= s.len(),
    ensures
        match number::numbers_of(env, s, n) {
            Ok(t) => t.len() == n && (0 <= i < n ==> number::number_of(env, s[i], env.len() as int)
                == Some(t[i])),
            Err(e) => exists|j: int|
                0 <= j < n && number::number_of(env, #[trigger] s[j], env.len() as int) is None && e
                    == WriteError::UndefinedOperand(s[j].0),
        },
    decreases n,
{
    if n > 0 {
        lemma_operand_numbers(env, s, n - 1, i);
        match number::numbers_of(env, s, n - 1) {
            Ok(_) => {
                if number::number_of(env, s[n - 1], env.len() as int) is None {
                    assert(number::numbers_of(env, s, n) == Err::<Seq<u64>, WriteError>(
                        WriteError::UndefinedOperand(s[n - 1].0),
                    ));
                }
            },
            Err(e) => {
                let j = choose|j: int|
                    0 <= j < n - 1 && number::number_of(env, #[trigger] s[j], env.len() as int) is None
                        && e == WriteError::UndefinedOperand(s[j].0);
                assert(number::number_of(env, s[j], env.len() as int) is None);
            },
        }
    }
}

/// A numbered operation is the module's, with its operands numbered by the values known
/// before it; behind it its results are known as well, in order.
pub proof fn lemma_numbered(m: ModuleV, env: Seq<Value>, id: OpId, depth: nat)
    requires
        number::number_op(m, env, id, depth) is Ok,
    ensures
        ({
            let (op, after) = number::number_op(m, env, id, depth)->Ok_0;
            let given = m.ops[id.0 as int];
            &&& id.0 < m.ops.len()
            &&& op.opcode == given.opcode
            &&& op.result_types == given.result_types
            &&& op.attributes == given.attributes
            &&& op.location == given.location
            &&& number::numbers_of(env, given.operands, given.operands.len() as int) == Ok::<
                Seq<u64>,
                WriteError,
            >(op.operands)
            &&& after == number::with_found(m.values, env, id, given.result_types.len() as int)
        }),
{
}

/// A numbered block knows its arguments before its operations.
pub proof fn lemma_numbered_block(m: ModuleV, env: Seq<Value>, id: BlockId, depth: nat)
    requires
        number::number_block(m, env, id, depth) is Ok,
    ensures
        ({
            let b = number::number_block(m, env, id, depth)->Ok_0;
            let given = m.blocks[id.0 as int];
            &&& id.0 < m.blocks.len()
            &&& b.arg_types.len() == given.args.len()
            &&& forall|i: int|
                0 <= i < given.args.len() ==> #[trigger] b.arg_types[i] == given.args[i].1
            &&& number::number_ops(
                m,
                env + Seq::new(given.args.len(), |i: int| given.args[i].0),
                given.ops,
                depth,
                given.ops.len() as int,
            ) matches Ok((ops, _)) && ops == b.ops
        }),
{
}

/// The result of an operation is the value that names the operation and the result's
/// place.
pub proof fn lemma_result_found(vs: Seq<ValueV>, op: OpId, i: u32, from: int)
    requires
        0 <= from,
        vs.len() <= u32::MAX,
    ensures
        match number::find_result(vs, op, i, from) {
            Some(v) => from <= v.0 < vs.len() && vs[v.0 as int].producer == (
            ValueProducer::OpResult { op, result_index: i }),
            None => forall|j: int|
                from <= j < vs.len() ==> (#[trigger] vs[j]).producer != (ValueProducer::OpResult {
                    op,
                    result_index: i,
                }),
        },
    decreases vs.len() - from,
{
    if from < vs.len() {
        lemma_result_found(vs, op, i, from + 1);
    }
}

// ---------------------------------------------------------------------------
// Function records
// ---------------------------------------------------------------------------

/// The record of a function holds what the function's operation says: the texts and the
/// type under their names, whether it is an entry, where it is, and the operations of the
/// first block of its first region.
pub proof fn lemma_record(m: ModuleV, id: OpId, version: BytecodeVersion)
    requires
        records::record_of(m, id, version) is Ok,
    ensures
        ({
            let r = records::record_of(m, id, version)->Ok_0;
            let op = m.ops[id.0 as int];
            &&& id.0 < m.ops.len()
            &&& records::string_attr(op.attributes, "sym_name"@) == Some(r.name)
            &&& records::type_attr(op.attributes, "function_type"@) == Some(r.signature)
            &&& r.kernel <==> op.opcode == Opcode::Entry
            &&& r.di_name == records::string_attr(op.attributes, "di_name"@)
            &&& r.location == op.location
            &&& op.opcode == Opcode::Entry ==> r.hints == body_writer::find_attr(
                op.attributes,
                "optimization_hints"@,
            )
            &&& op.opcode != Opcode::Entry ==> r.hints is None
            &&& records::function_body(m, op) == Ok::<Seq<OpN>, WriteError>(r.ops)
        }),
{
}

/// A text is found under its name: the first text that has it.
pub proof fn lemma_string_found(s: Seq<(Seq<char>, AttrV)>, name: Seq<char>, n: int)
    requires
        0 <= n <= s.len(),
    ensures
        match records::string_attr_in(s, name, n) {
            Some(t) => exists|i: int|
                0 <= i < n && #[trigger] s[i] == (name, AttrV::Str(t)) && forall|j: int|
                    0 <= j < i ==> !((#[trigger] s[j]).0 == name && s[j].1 is Str),
            None => forall|j: int| 0 <= j < n ==> !((#[trigger] s[j]).0 == name && s[j].1 is Str),
        },
        match records::type_attr_in(s, name, n) {
            Some(t) => exists|i: int|
                0 <= i < n && #[trigger] s[i] == (name, AttrV::Type(t)) && forall|j: int|
                    0 <= j < i ==> !((#[trigger] s[j]).0 == name && s[j].1 is Type),
            None => forall|j: int| 0 <= j < n ==> !((#[trigger] s[j]).0 == name && s[j].1 is Type),
        },
    decreases n,
{
    if n > 0 {
        lemma_string_found(s, name, n - 1);
        match records::string_attr_in(s, name, n - 1) {
            Some(t) => {
                let i = choose|i: int|
                    0 <= i < n - 1 && #[trigger] s[i] == (name, AttrV::Str(t)) && forall|j: int|
                        0 <= j < i ==> !((#[trigger] s[j]).0 == name && s[j].1 is Str);
                assert(s[i] == (name, AttrV::Str(t)));
            },
            None => {
                match records::string_attr_in(s, name, n) {
                    Some(t) => {
                        assert(s[n - 1] == (name, AttrV::Str(t)));
                    },
                    None => {},
                }
            },
        }
        match records::type_attr_in(s, name, n - 1) {
            Some(t) => {
                let i = choose|i: int|
                    0 <= i < n - 1 && #[trigger] s[i] == (name, AttrV::Type(t)) && forall|j: int|
                        0 <= j < i ==> !((#[trigger] s[j]).0 == name && s[j].1 is Type);
                assert(s[i] == (name, AttrV::Type(t)));
            },
            None => {
                match records::type_attr_in(s, name, n) {
                    Some(t) => {
                        assert(s[n - 1] == (name, AttrV::Type(t)));
                    },
                    None => {},
                }
            },
        }
    }
}

/// A function that was read is a kernel with its name, the name that it is shown under,
/// its signature and its hints as attributes, in this order.
pub proof fn lemma_read_attributes(f: FuncN)
    ensures
        ({
            let a = reader::entry_attrs(f);
            let k = if f.di_name is Some {
                1int
            } else {
                0
            };
            &&& a.len() == 2 + k + (if f.hints is Some {
                1int
            } else {
                0
            })
            &&& a[0] == ("sym_name"@, AttrV::Str(f.name))
            &&& f.di_name is Some ==> a[1] == ("di_name"@, AttrV::Str(f.di_name->Some_0))
            &&& a[1 + k] == ("function_type"@, AttrV::Type(TypeV::Func(f.inputs, f.results)))
            &&& f.hints is Some ==> a[2 + k] == ("optimization_hints"@, f.hints->Some_0)
        }),
{
}

} // verus!
