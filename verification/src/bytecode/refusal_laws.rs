//! What a file, or a module that is to be written, is refused for.
use vstd::prelude::*;
use crate::bytecode::attrs::TablesV;
use crate::bytecode::attrs;
use crate::bytecode::body::CtxV;
use crate::bytecode::body;
use crate::bytecode::body_writer;
use crate::bytecode::debug::{DebugAttr, DebugV};
use crate::bytecode::debug;
use crate::bytecode::enums::BytecodeVersion;
use crate::bytecode::frozen;
use crate::bytecode::layout::{AttrName, Step};
use crate::bytecode::layout;
use crate::bytecode::node::OpN;
use crate::bytecode::number;
use crate::bytecode::reader;
use crate::bytecode::records;
use crate::bytecode::strings;
use crate::bytecode::table;
use crate::bytecode::types as wire_types;
use crate::bytecode::wire;
use crate::bytecode::writer;
use crate::error::{ReadError, Subject, WriteError};
use crate::ir::attr::AttrV;
use crate::ir::location::{FileV, LocationV, ScopeV};
use crate::ir::module::{BlockId, ModuleV, OpId, SymbolVisibility, Value};
use crate::ir::types::{PaddingValue, TypeV};

verus! {

// ---------------------------------------------------------------------------
// Values
// ---------------------------------------------------------------------------

/// Bytes can be read as far as there are any.
pub proof fn lemma_end(d: Seq<u8>, p: int, n: int)
    requires
        0 <= p,
        0 <= n,
    ensures
        p < d.len() ==> wire::byte_at(d, p) == Ok::<(u8, int), ReadError>((d[p], p + 1)),
        p >= d.len() ==> wire::byte_at(d, p) == Err::<(u8, int), ReadError>(
            ReadError::UnexpectedEnd,
        ),
        p >= d.len() ==> wire::varint_at(d, p) == Err::<(u64, int), ReadError>(
            ReadError::UnexpectedEnd,
        ),
        p + n <= d.len() ==> wire::bytes_at(d, p, n) == Ok::<(Seq<u8>, int), ReadError>(
            (d.subrange(p, p + n), p + n),
        ),
        p + n > d.len() ==> wire::bytes_at(d, p, n) == Err::<(Seq<u8>, int), ReadError>(
            ReadError::UnexpectedEnd,
        ),
{
}

/// A varint with ten continuation bytes is refused.
pub proof fn lemma_varint_overflow(d: Seq<u8>, p: int, k: int)
    requires
        0 <= p,
        0 <= k <= 9,
        p + 10 - k <= d.len(),
        forall|i: int| p <= i < p + 10 - k ==> #[trigger] d[i] >= 128,
    ensures
        wire::varint_groups(d, p, k) == Err::<(int, int), ReadError>(ReadError::VarintOverflow),
        k == 0 ==> wire::varint_at(d, p) == Err::<(u64, int), ReadError>(
            ReadError::VarintOverflow,
        ),
    decreases 10 - k,
{
    assert(d[p] >= 128);
    if k < 9 {
        lemma_varint_overflow(d, p + 1, k + 1);
    }
}

/// A count has at most 32 bits; a larger one is refused with what it counts.
pub proof fn lemma_count(d: Seq<u8>, p: int, what: Subject)
    ensures
        wire::varint_at(d, p) matches Ok((n, q)) ==> wire::count_at(d, p, what) == (if n
            < 0x1_0000_0000 {
            Ok::<(int, int), ReadError>((n as int, q))
        } else {
            Err(ReadError::CountOutOfRange(what, n))
        }),
        wire::varint_at(d, p) matches Err(e) ==> wire::count_at(d, p, what) == Err::<
            (int, int),
            ReadError,
        >(e),
{
}

/// An index finds the entry at its place, and is refused beyond the table.
pub proof fn lemma_lookup<T>(s: Seq<T>, i: u64, what: Subject)
    ensures
        i < s.len() && i < 0x1_0000_0000 ==> wire_types::lookup(s, i, what) == Ok::<T, ReadError>(
            s[i as int],
        ),
        i >= s.len() && i < 0x1_0000_0000 ==> wire_types::lookup(s, i, what) == Err::<T, ReadError>(
            ReadError::IndexOutOfRange(what, i),
        ),
        i >= 0x1_0000_0000 ==> wire_types::lookup(s, i, what) == Err::<T, ReadError>(
            ReadError::CountOutOfRange(what, i),
        ),
{
}

/// The first padding byte with another value than the marker is refused.
pub proof fn lemma_padding(d: Seq<u8>, p: int, k: int, n: int)
    requires
        0 <= p,
        0 <= k < n,
        p + k < d.len(),
        forall|i: int| p <= i < p + k ==> #[trigger] d[i] == 0xCB,
        d[p + k] != 0xCB,
    ensures
        wire::skip_pad_bytes(d, p, n) == Err::<int, ReadError>(ReadError::BadPadding(d[p + k])),
    decreases k,
{
    if k > 0 {
        assert(d[p] == 0xCB);
        lemma_padding(d, p + 1, k - 1, n - 1);
    }
}

/// Counted things are refused by what they are.
pub proof fn lemma_subjects(d: Seq<u8>, p: int, prev: Seq<TypeV>, t: TablesV, e: ReadError)
    ensures
        wire::count_at(d, p, Subject::I32Array) == Err::<(int, int), ReadError>(e)
            ==> wire::i32_array_at(d, p) == Err::<(Seq<i32>, int), ReadError>(e),
        wire::count_at(d, p, Subject::I64Array) == Err::<(int, int), ReadError>(e)
            ==> wire::i64_array_at(d, p) == Err::<(Seq<i64>, int), ReadError>(e),
        wire::count_at(d, p, Subject::FuncInput) == Err::<(int, int), ReadError>(e)
            ==> wire_types::func_type_at(d, p, prev) == Err::<(TypeV, int), ReadError>(e),
        wire::count_at(d, p, Subject::Operand) == Err::<(int, int), ReadError>(e)
            ==> body::operand_list_at(d, p, 0) == Err::<(Seq<u64>, int), ReadError>(e),
        wire::count_at(d, p, Subject::ResultType) == Err::<(int, int), ReadError>(e)
            ==> body::result_list_at(d, p, t) == Err::<(Seq<TypeV>, int), ReadError>(e),
        wire::count_at(d, 0, Subject::Str) == Err::<(int, int), ReadError>(e)
            ==> strings::string_section(Some(d)) == Err::<Seq<Seq<char>>, ReadError>(e),
        wire::count_at(d, 0, Subject::Constant) == Err::<(int, int), ReadError>(e)
            ==> attrs::constant_section(Some(d)) == Err::<Seq<Seq<u8>>, ReadError>(e),
        wire::count_at(d, p, Subject::ConstantLength) == Err::<(int, int), ReadError>(e) && p == 0
            ==> attrs::constant_data(d, Subject::ConstantLength) == Err::<Seq<u8>, ReadError>(e),
{
}

// ---------------------------------------------------------------------------
// Types and attributes
// ---------------------------------------------------------------------------

/// A type's parts have to be types of the right kind.
pub proof fn lemma_kinds(d: Seq<u8>, p: int, prev: Seq<TypeV>)
    ensures
        wire_types::type_ref_at(d, p, prev, Subject::Pointee) matches Ok((t, _)) && !(t is Scalar)
            ==> wire_types::pointer_at(d, p, prev) == Err::<(TypeV, int), ReadError>(
            ReadError::WrongTypeKind(Subject::Pointee),
        ),
        wire_types::type_ref_at(d, p, prev, Subject::TileElement) matches Ok((t, _)) && !(
        t is Scalar) && !(t is Pointer) ==> wire_types::tile_at(d, p, prev) == Err::<
            (TypeV, int),
            ReadError,
        >(ReadError::WrongTypeKind(Subject::TileElement)),
        wire_types::type_ref_at(d, p, prev, Subject::TensorViewElement) matches Ok((t, _)) && !(
        t is Scalar) ==> wire_types::tensor_view_at(d, p, prev) == Err::<(TypeV, int), ReadError>(
            ReadError::WrongTypeKind(Subject::TensorViewElement),
        ),
        wire_types::type_ref_at(d, p, prev, Subject::ViewTensorView) matches Ok((t, _)) && !(
        t is TensorView) ==> wire_types::tensor_view_ref_at(d, p, prev) is Err
            && wire_types::tensor_view_ref_at(d, p, prev)->Err_0 == ReadError::WrongTypeKind(
            Subject::ViewTensorView,
        ),
{
}

/// A table entry has to be read to its end, and to be text in the string table.
pub proof fn lemma_entries(entries: Seq<Seq<u8>>, version: BytecodeVersion, n: int)
    requires
        0 <= n < entries.len(),
    ensures
        wire_types::types_of_entries(entries, version, n) matches Ok(prev) ==> (
        wire_types::type_entry_at(entries[n], 0, prev, version) matches Ok((t, q)) ==> (
        wire_types::types_of_entries(entries, version, n + 1) == (if q == entries[n].len() {
            Ok::<Seq<TypeV>, ReadError>(prev.push(t))
        } else {
            Err(ReadError::TrailingBytes(Subject::Type, n as u64))
        }))),
        strings::strings_of_entries(entries, n) matches Ok(prev) ==> (
        strings::strings_of_entries(entries, n + 1) is Ok <==> vstd::utf8::valid_utf8(entries[n])),
        strings::strings_of_entries(entries, n) is Ok && !vstd::utf8::valid_utf8(entries[n])
            ==> strings::strings_of_entries(entries, n + 1) == Err::<Seq<Seq<char>>, ReadError>(
            ReadError::NotUtf8(n as u64),
        ),
{
}

/// The offsets of a table have to cut pieces out of it, one behind the other.
pub proof fn lemma_offsets(payload: Seq<u8>, offs: Seq<int>, what: Subject, n: int)
    requires
        0 <= n < offs.len(),
        table::entries_of(payload, offs, what, n) is Ok,
    ensures
        ({
            let end = if n + 1 < offs.len() {
                offs[n + 1]
            } else {
                payload.len() as int
            };
            table::entries_of(payload, offs, what, n + 1) == (if offs[n] <= end && end
                <= payload.len() {
                Ok::<Seq<Seq<u8>>, ReadError>(
                    table::entries_of(payload, offs, what, n)->Ok_0.push(
                        payload.subrange(offs[n], end),
                    ),
                )
            } else {
                Err(ReadError::OffsetOutOfRange(what, n as u64))
            })
        }),
{
}

/// A tag that no attribute has is refused, and a byte that no padding value has.
pub proof fn lemma_tags(d: Seq<u8>, p: int, t: TablesV, tag: u8, b: u8)
    ensures
        tag == 0 || tag > 13 ==> attrs::leaf_at(d, p, t, tag) == Err::<(AttrV, int), ReadError>(
            ReadError::UnknownAttributeTag(tag),
        ),
        b > 4 ==> wire_types::padding_of(b) == Err::<PaddingValue, ReadError>(
            ReadError::InvalidPaddingValue(b),
        ),
        b <= 4 ==> wire_types::padding_of(b) is Ok,
{
}

// ---------------------------------------------------------------------------
// Bodies
// ---------------------------------------------------------------------------

/// An operand has to be a value that is defined before it.
pub proof fn lemma_operands(d: Seq<u8>, p: int, next: int, n: int)
    requires
        0 <= n,
        body::operands_at(d, p, next, n) is Ok,
        wire::varint_at(d, body::operands_at(d, p, next, n)->Ok_0.1) is Ok,
    ensures
        ({
            let (s, q) = body::operands_at(d, p, next, n)->Ok_0;
            let (v, q2) = wire::varint_at(d, q)->Ok_0;
            body::operands_at(d, p, next, n + 1) == (if v < next {
                Ok::<(Seq<u64>, int), ReadError>((s.push(v), q2))
            } else {
                Err(ReadError::UndefinedValue(v))
            })
        }),
{
}

/// A number that no operation has is refused.
pub proof fn lemma_operation(c: CtxV, d: Seq<u8>, p: int, next: int, cur: int, depth: nat)
    requires
        depth > 0,
        body::location_at(c, cur) is Ok,
        wire::varint_at(d, p) is Ok,
        frozen::assigned((wire::varint_at(d, p)->Ok_0.0 % 0x1_0000) as u16) is None,
    ensures
        body::op_at(c, d, p, next, cur, depth) is Err,
        body::op_at(c, d, p, next, cur, depth)->Err_0 == ReadError::UnknownOpcode(
            wire::varint_at(d, p)->Ok_0.0,
        ),
{
    let raw = wire::varint_at(d, p)->Ok_0.0;
    let k = (raw % 0x1_0000) as u16;
    if let Some(o) = crate::bytecode::opcode::opcode_of(k) {
        frozen::lemma_numbers(o, k);
    }
}

/// Each operation takes one debug id, in order; a function without ids has no locations.
pub proof fn lemma_location_ids(c: CtxV, cur: int)
    requires
        0 <= cur,
    ensures
        debug::func_ids(c.debug, c.func) is None ==> body::location_at(c, cur) == Ok::<
            (LocationV, int),
            ReadError,
        >((LocationV::Unknown, cur)),
        debug::func_ids(c.debug, c.func) matches Some(ids) ==> {
            &&& cur >= ids.len() ==> body::location_at(c, cur) == Err::<
                (LocationV, int),
                ReadError,
            >(ReadError::DebugIdsExhausted(c.func))
            &&& cur < ids.len() ==> (body::location_at(c, cur) matches Ok((l, k)) ==> k == cur + 1
                && debug::location_of(
                c.debug,
                c.tables.strings,
                ids[cur] as u64,
                debug::levels(c.debug),
            ) == Ok::<LocationV, ReadError>(l))
        },
{
}

/// A body uses up all of its function's debug ids.
pub proof fn lemma_body_ids(c: CtxV, d: Seq<u8>, args: int)
    requires
        reader::body_at(c, d, 0, args, 1) is Ok,
    ensures
        ({
            let (ops, cur) = reader::body_at(c, d, 0, args, 1)->Ok_0;
            match debug::func_ids(c.debug, c.func) {
                None => reader::whole_body(c, d, args) is Ok,
                Some(ids) => if cur == ids.len() {
                    reader::whole_body(c, d, args) is Ok && reader::whole_body(c, d, args)->Ok_0
                        == ops
                } else {
                    reader::whole_body(c, d, args) is Err && reader::whole_body(
                        c,
                        d,
                        args,
                    )->Err_0 == ReadError::DebugIdsLeftOver(c.func)
                },
            }
        }),
{
}

// ---------------------------------------------------------------------------
// Debug information
// ---------------------------------------------------------------------------

/// Ids of debug attributes count from one; zero stands for no location, and for nothing
/// else.
pub proof fn lemma_debug_ids(s: DebugV, t: Seq<Seq<char>>, id: u64, depth: nat)
    requires
        depth > 0,
    ensures
        debug::attr_of(s, 0) == Err::<DebugAttr, ReadError>(ReadError::DebugIdZero),
        id > s.attr_offsets.len() ==> debug::attr_of(s, id) == Err::<DebugAttr, ReadError>(
            ReadError::IndexOutOfRange(Subject::DebugAttribute, id),
        ),
        debug::location_of(s, t, 0, depth) == Ok::<LocationV, ReadError>(LocationV::Unknown),
        debug::scope_of(s, t, 0, depth) == Err::<ScopeV, ReadError>(ReadError::DebugIdZero),
        debug::file_of(s, t, 0) == Err::<FileV, ReadError>(ReadError::DebugIdZero),
{
}

/// Each use of a debug attribute asks for its own kinds.
pub proof fn lemma_debug_kinds(s: DebugV, t: Seq<Seq<char>>, id: u64, depth: nat, a: DebugAttr)
    requires
        depth > 0,
        id > 0,
        debug::attr_of(s, id) == Ok::<DebugAttr, ReadError>(a),
    ensures
        !(a is File) ==> debug::file_of(s, t, id) == Err::<FileV, ReadError>(
            ReadError::UnexpectedDebugKind,
        ),
        !(a is CompileUnit) ==> debug::unit_of(s, t, id) == Err::<FileV, ReadError>(
            ReadError::UnexpectedDebugKind,
        ),
        !(a is Subprogram) && !(a is LexicalBlock) ==> debug::scope_of(s, t, id, depth) == Err::<
            ScopeV,
            ReadError,
        >(ReadError::UnexpectedDebugKind),
        !(a is Loc) && !(a is CallSite) ==> debug::location_of(s, t, id, depth) == Err::<
            LocationV,
            ReadError,
        >(ReadError::UnexpectedDebugKind),
{
}

/// What refers to itself without end is refused.
pub proof fn lemma_debug_cycle(s: DebugV, t: Seq<Seq<char>>, id: u64)
    ensures
        debug::scope_of(s, t, id, 0) == Err::<ScopeV, ReadError>(ReadError::DebugCycle),
        id > 0 ==> debug::location_of(s, t, id, 0) == Err::<LocationV, ReadError>(
            ReadError::DebugCycle,
        ),
        debug::levels(s) == s.attr_offsets.len() + 1,
{
}

/// A count that the section could not hold is refused.
pub proof fn lemma_debug_count(d: Seq<u8>, p: int, w: nat, what: Subject)
    requires
        w > 0,
        wire::count_at(d, p, what) is Ok,
        wire::count_at(d, p, what)->Ok_0.0 > d.len() as int / w as int,
    ensures
        debug::counted_at(d, p, w, what) == Err::<(Seq<int>, int), ReadError>(
            ReadError::CountExceedsPayload(what),
        ),
        what == Subject::DebugFunction && p == 0 && w == 4 ==> debug::debug_section(Some(d))
            == Err::<DebugV, ReadError>(ReadError::CountExceedsPayload(what)),
{
}

// ---------------------------------------------------------------------------
// Files
// ---------------------------------------------------------------------------

/// A visibility is 0 for public or 1 for private; a file before 13.3 has none, and its
/// globals are public and not constant.
pub proof fn lemma_visibility(d: Seq<u8>, p: int)
    requires
        0 <= p < d.len(),
    ensures
        d[p] == 0 ==> reader::visibility_at(d, p) == Ok::<(SymbolVisibility, int), ReadError>(
            (SymbolVisibility::Public, p + 1),
        ),
        d[p] == 1 ==> reader::visibility_at(d, p) == Ok::<(SymbolVisibility, int), ReadError>(
            (SymbolVisibility::Private, p + 1),
        ),
        d[p] > 1 ==> reader::visibility_at(d, p) == Err::<(SymbolVisibility, int), ReadError>(
            ReadError::InvalidVisibility(d[p]),
        ),
        reader::linkage_at(d, p, false) == Ok::<((SymbolVisibility, bool), int), ReadError>(
            ((SymbolVisibility::Public, false), p),
        ),
{
}

/// A file starts with the eight bytes of the magic number.
pub proof fn lemma_magic(d: Seq<u8>)
    requires
        d.len() >= 8,
        d[0] != 0x7F || d[1] != 0x54 || d[2] != 0x69 || d[3] != 0x6C || d[4] != 0x65 || d[5] != 0x49
            || d[6] != 0x52 || d[7] != 0x00,
    ensures
        reader::header_at(d) == Err::<(BytecodeVersion, int), ReadError>(ReadError::InvalidMagic),
{
    let m = d.subrange(0, 8);
    assert(m[0] == d[0] && m[1] == d[1] && m[2] == d[2] && m[3] == d[3] && m[4] == d[4] && m[5]
        == d[5] && m[6] == d[6] && m[7] == d[7]);
}

/// A section with an id that the format does not assign is refused; a file ends with the
/// id zero.
pub proof fn lemma_section_ids(d: Seq<u8>, p: int, acc: Seq<Option<Seq<u8>>>)
    requires
        reader::section_header_at(d, p) is Ok,
    ensures
        ({
            let ((id, len), q) = reader::section_header_at(d, p)->Ok_0;
            &&& id == 0 ==> reader::sections_at(d, p, acc) == Ok::<
                Seq<Option<Seq<u8>>>,
                ReadError,
            >(acc)
            &&& id >= 7 ==> reader::sections_at(d, p, acc) == Err::<
                Seq<Option<Seq<u8>>>,
                ReadError,
            >(ReadError::UnknownSection(id))
            &&& 0 < id < 7 && p < q && q + len <= d.len() ==> reader::sections_at(d, p, acc)
                == reader::sections_at(
                d,
                q + len,
                acc.update(id as int, Some(d.subrange(q, q + len))),
            )
        }),
{
    let ((id, len), q) = reader::section_header_at(d, p)->Ok_0;
    if 0 < id < 7 && p < q && q + len <= d.len() {
        assert(0 <= p);
    }
}

/// The versions from 13.1 to 13.3 can be read, with any tag below the last.
pub proof fn lemma_readable(v: BytecodeVersion)
    ensures
        reader::readable(v) <==> v.major == 13 && (v.minor == 1 || v.minor == 2 || (v.minor == 3
            && v.tag == 0)),
{
}

/// Only a file of a version that can be read is read.
pub proof fn lemma_version(d: Seq<u8>)
    requires
        reader::header_at(d) is Ok,
    ensures
        ({
            let v = reader::header_at(d)->Ok_0.0;
            !reader::readable(v) ==> reader::file_at(d) is Err && reader::file_at(d)->Err_0
                == ReadError::UnsupportedVersion(v.major, v.minor, v.tag)
        }),
{
}

/// A function needs a function type, and is shown under another name only where that
/// differs from its own.
pub proof fn lemma_function(
    t: TablesV,
    v13_3: bool,
    dbg: DebugV,
    name: Seq<char>,
    sig: TypeV,
    func: u64,
    hints: Option<AttrV>,
    code: Seq<u8>,
    shown: Seq<char>,
)
    ensures
        !(sig is Func) ==> reader::function_of(t, v13_3, dbg, name, sig, func, hints, code) is Err
            && reader::function_of(t, v13_3, dbg, name, sig, func, hints, code)->Err_0
            == ReadError::SignatureNotFunction,
        reader::function_of(t, v13_3, dbg, name, sig, func, hints, code) matches Ok(f) ==> {
            &&& f.name == name
            &&& sig == TypeV::Func(f.inputs, f.results)
            &&& f.hints == hints
        },
        reader::display_name(None, name) is None,
        reader::display_name(Some(name), name) is None,
        shown != name ==> reader::display_name(Some(shown), name) == Some(shown),
{
}

// ---------------------------------------------------------------------------
// Writing
// ---------------------------------------------------------------------------

/// A function needs a name first, then a signature, then hints that the version has.
pub proof fn lemma_function_refused(m: ModuleV, id: OpId, v: BytecodeVersion)
    ensures
        ({
            let r = records::record_of(m, id, v);
            let a = m.ops[id.0 as int].attributes;
            let name = records::string_attr(a, "sym_name"@);
            let signature = records::type_attr(a, "function_type"@);
            let hints = records::written_hints(m.ops[id.0 as int]);
            &&& id.0 >= m.ops.len() ==> r is Err && r->Err_0 == WriteError::DanglingId(id.0)
            &&& id.0 < m.ops.len() && name is None ==> r is Err && r->Err_0
                == WriteError::MissingSymName
            &&& id.0 < m.ops.len() && name is Some && signature is None ==> r is Err && r->Err_0
                == WriteError::MissingFunctionType
            &&& id.0 < m.ops.len() && name is Some && signature is Some && records::too_new(
                hints,
                v,
            ) ==> r is Err && r->Err_0 == WriteError::HintNeedsNewerVersion(
                v.major,
                v.minor,
                v.tag,
            )
        }),
{
}

/// Of the hints, one came with 13.3: it is refused before that, on whatever architecture
/// it is set.
pub proof fn lemma_new_hint(
    h: Seq<(Seq<char>, Seq<(Seq<char>, AttrV)>)>,
    v: BytecodeVersion,
    i: int,
    j: int,
)
    requires
        0 <= i < h.len(),
        0 <= j < h[i].1.len(),
        h[i].1[j].0 == "num_worker_warps_per_cta"@,
    ensures
        records::has_new_hint(h),
        records::too_new(Some(AttrV::Hints(h)), v) <==> v.major < 13 || (v.major == 13 && v.minor
            < 3),
{
}

/// What an operation lacks is refused by its kind.
pub proof fn lemma_step_refused(op: OpN, name: AttrName, n: u8, g: int)
    ensures
        ({
            let found = body_writer::find_attr(op.attributes, layout::name_text(name));
            let missing = Some(WriteError::MissingAttribute);
            &&& body_writer::check_step(op, Step::Int(name), g) == (match found {
                Some(AttrV::Integer(_, _)) => None,
                _ => missing,
            })
            &&& body_writer::check_step(op, Step::BoolByte(name), g) == (match found {
                Some(AttrV::Bool(_)) => None,
                _ => missing,
            })
            &&& body_writer::check_step(op, Step::I32s(name), g) == (match found {
                Some(AttrV::DenseI32(_)) => None,
                _ => missing,
            })
            &&& body_writer::check_step(op, Step::Str(name), g) == (match found {
                Some(AttrV::Str(_)) => None,
                _ => missing,
            })
            &&& body_writer::check_step(op, Step::TypeRef(name), g) == (match found {
                Some(AttrV::Type(_)) => None,
                _ => missing,
            })
            &&& body_writer::check_step(op, Step::Array(name), g) == (match found {
                Some(AttrV::Array(_)) => None,
                _ => missing,
            })
            &&& body_writer::check_step(op, Step::Tagged(name), g) == (if found is Some {
                None
            } else {
                missing
            })
        }),
        body_writer::check_step(op, Step::Results(n), g) == (if op.result_types.len() == n {
            None
        } else {
            Some(WriteError::WrongResultCount)
        }),
        body_writer::check_step(op, Step::Operands(n), g) == (if op.operands.len() == n {
            None
        } else {
            Some(WriteError::BadOperandSegments)
        }),
        body_writer::check_step(op, Step::Region, g) == (if op.regions.len() == 1 {
            None
        } else {
            Some(WriteError::WrongRegionCount)
        }),
{
}

/// A module is written in no version before 13.1.
pub proof fn lemma_oldest(m: ModuleV, v: BytecodeVersion)
    requires
        v.major < 13 || (v.major == 13 && v.minor < 1),
    ensures
        writer::written(m, v) == Err::<Seq<u8>, WriteError>(
            WriteError::UnsupportedVersion(v.major, v.minor, v.tag),
        ),
{
}

/// What is not part of a module is refused by its id.
pub proof fn lemma_dangling(m: ModuleV, env: Seq<Value>, op: OpId, block: BlockId, depth: nat)
    ensures
        op.0 >= m.ops.len() ==> number::number_op(m, env, op, depth) is Err && number::number_op(
            m,
            env,
            op,
            depth,
        )->Err_0 == WriteError::DanglingId(op.0),
        block.0 >= m.blocks.len() ==> number::number_block(m, env, block, depth) is Err
            && number::number_block(m, env, block, depth)->Err_0 == WriteError::DanglingId(
            block.0,
        ),
{
}

} // verus!
