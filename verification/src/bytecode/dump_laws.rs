//! What stands in a dump, and where.
use vstd::prelude::*;
use crate::bytecode::attrs::TablesV;
use crate::bytecode::attrs;
use crate::bytecode::debug;
use crate::bytecode::decoder::{DebugEntryV, DumpV, FuncEntryV, GlobalEntry};
use crate::bytecode::decoder;
use crate::bytecode::enums::BytecodeVersion;
use crate::bytecode::reader;
use crate::bytecode::strings;
use crate::bytecode::types as wire_types;
use crate::error::ReadError;
use crate::frontend::global_laws;
use crate::ir::attr::AttrV;
use crate::ir::fmt;
use crate::ir::module::SymbolVisibility;
use crate::ir::types::{PaddingValue, ScalarType, TensorViewV, TileElementType, TypeV};
use crate::text;

verus! {

// ---------------------------------------------------------------------------
// Types and attributes
// ---------------------------------------------------------------------------

/// A number of bits as a plain type name shows it.
pub proof fn lemma_scalar_names(s: ScalarType)
    ensures
        ({
            let bits = text::decimal_text(global_laws::stored_bits(s) as int);
            match s {
                ScalarType::I1 | ScalarType::I4 | ScalarType::I8 | ScalarType::I16 | ScalarType::I32
                | ScalarType::I64 => fmt::scalar_text(s) == seq!['i'] + bits,
                ScalarType::F16 | ScalarType::F32 | ScalarType::F64 => fmt::scalar_text(s) == seq![
                    'f',
                ] + bits,
                ScalarType::BF16 => fmt::scalar_text(s) == seq!['b', 'f'] + bits,
                ScalarType::TF32 => fmt::scalar_text(s) == seq!['t', 'f'] + bits,
                ScalarType::F8E4M3FN => fmt::scalar_text(s) == "f8E4M3FN"@,
                ScalarType::F8E5M2 => fmt::scalar_text(s) == "f8E5M2"@,
                ScalarType::F8E8M0FNU => fmt::scalar_text(s) == "f8E8M0FNU"@,
                ScalarType::F4E2M1FN => fmt::scalar_text(s) == "f4E2M1FN"@,
            }
        }),
{
    reveal_strlit("i1");
    reveal_strlit("i4");
    reveal_strlit("i8");
    reveal_strlit("i16");
    reveal_strlit("i32");
    reveal_strlit("i64");
    reveal_strlit("f16");
    reveal_strlit("f32");
    reveal_strlit("f64");
    reveal_strlit("bf16");
    reveal_strlit("tf32");
    reveal_with_fuel(text::decimal_text, 3);
    assert(text::decimal_text(1) =~= seq!['1']);
    assert(text::decimal_text(4) =~= seq!['4']);
    assert(text::decimal_text(8) =~= seq!['8']);
    assert(text::decimal_text(16) =~= seq!['1', '6']);
    assert(text::decimal_text(32) =~= seq!['3', '2']);
    assert(text::decimal_text(64) =~= seq!['6', '4']);
    assert("i1"@ =~= seq!['i'] + seq!['1']);
    assert("i4"@ =~= seq!['i'] + seq!['4']);
    assert("i8"@ =~= seq!['i'] + seq!['8']);
    assert("i16"@ =~= seq!['i'] + seq!['1', '6']);
    assert("i32"@ =~= seq!['i'] + seq!['3', '2']);
    assert("i64"@ =~= seq!['i'] + seq!['6', '4']);
    assert("f16"@ =~= seq!['f'] + seq!['1', '6']);
    assert("f32"@ =~= seq!['f'] + seq!['3', '2']);
    assert("f64"@ =~= seq!['f'] + seq!['6', '4']);
    assert("bf16"@ =~= seq!['b', 'f'] + seq!['1', '6']);
    assert("tf32"@ =~= seq!['t', 'f'] + seq!['3', '2']);
}

/// Numbers show their sign, and stand in their order with commas between them; extents
/// have a cross behind each.
pub proof fn lemma_numbers(s: Seq<int>, n: int, x: int)
    requires
        0 <= n < s.len(),
    ensures
        x >= 0 ==> fmt::signed_text(x) == text::decimal_text(x),
        x < 0 ==> fmt::signed_text(x) == seq!['-'] + text::decimal_text(-x),
        fmt::numbers_text(s, 0) == Seq::<char>::empty(),
        fmt::numbers_text(s, n + 1) == (if n == 0 {
            fmt::signed_text(s[0])
        } else {
            fmt::numbers_text(s, n) + seq![',', ' '] + fmt::signed_text(s[n])
        }),
        fmt::extents_text(s, 0) == Seq::<char>::empty(),
        fmt::extents_text(s, n + 1) == fmt::extents_text(s, n) + fmt::signed_text(s[n]) + seq!['x'],
{
    reveal_strlit("-");
    reveal_strlit(", ");
    reveal_strlit("x");
    assert("-"@ =~= seq!['-']);
    assert(", "@ =~= seq![',', ' ']);
    assert("x"@ =~= seq!['x']);
}

/// The numbers of a list, with commas between them.
pub open spec fn list(s: Seq<i32>) -> Seq<char> {
    fmt::numbers_text(Seq::new(s.len(), |i: int| s[i] as int), s.len() as int)
}

/// What a type shows: its kind, and its parts in the order in which they are declared.
pub proof fn lemma_type_text(t: TypeV)
    ensures
        match t {
            TypeV::Scalar(s) => fmt::type_text(t) == fmt::scalar_text(s),
            TypeV::Token => fmt::type_text(t) == "token"@,
            TypeV::Pointer(s) => fmt::type_text(t) == "ptr<"@ + fmt::scalar_text(s) + ">"@,
            TypeV::Tile(shape, TileElementType::Scalar(s)) => fmt::type_text(t) == "tile<"@
                + fmt::extents_text(
                Seq::new(shape.len(), |i: int| shape[i] as int),
                shape.len() as int,
            ) + fmt::scalar_text(s) + ">"@,
            TypeV::Tile(shape, TileElementType::Pointer(p)) => fmt::type_text(t) == "tile<"@
                + fmt::extents_text(
                Seq::new(shape.len(), |i: int| shape[i] as int),
                shape.len() as int,
            ) + ("ptr<"@ + fmt::scalar_text(p.pointee) + ">"@) + ">"@,
            TypeV::TensorView(v) => fmt::type_text(t) == view(v),
            TypeV::PartitionView(tile, v, map, pad) => fmt::type_text(t)
                == "partition_view<tile=("@ + list(tile) + "), "@ + view(v) + ", dim_map=["@ + list(
                map,
            ) + "]"@ + fmt::padding_text(pad) + ">"@,
            TypeV::GatherScatterView(tile, v, dim, pad) => fmt::type_text(t)
                == "gather_scatter_view<tile=("@ + list(tile) + "), "@ + view(v)
                + ", sparse_dim="@ + fmt::signed_text(dim as int) + fmt::padding_text(pad) + ">"@,
            TypeV::StridedView(tile, steps, v, map, pad) => fmt::type_text(t)
                == "strided_view<tile=("@ + list(tile) + "), traversal_strides=["@ + list(steps)
                + "], "@ + view(v) + ", dim_map=["@ + list(map) + "]"@ + fmt::padding_text(pad)
                + ">"@,
            TypeV::Func(inputs, results) => fmt::type_text(t) == "("@ + fmt::types_text(
                inputs,
                inputs.len() as int,
            ) + ") -> ("@ + fmt::types_text(results, results.len() as int) + ")"@,
        },
{
}

/// What a tensor view shows: extents, element type and strides.
pub open spec fn view(v: TensorViewV) -> Seq<char> {
    "tensor_view<"@ + fmt::extents_text(
        Seq::new(v.shape.len(), |i: int| v.shape[i] as int),
        v.shape.len() as int,
    ) + fmt::scalar_text(v.element_type) + ", strides=["@ + fmt::numbers_text(
        Seq::new(v.strides.len(), |i: int| v.strides[i] as int),
        v.strides.len() as int,
    ) + "]>"@
}

/// What an element outside a view reads as.
pub proof fn lemma_padding_text()
    ensures
        fmt::padding_text(None) == ""@,
        fmt::padding_text(Some(PaddingValue::Zero)) == ", padding=zero"@,
        fmt::padding_text(Some(PaddingValue::NegZero)) == ", padding=neg_zero"@,
        fmt::padding_text(Some(PaddingValue::Nan)) == ", padding=nan"@,
        fmt::padding_text(Some(PaddingValue::PosInf)) == ", padding=pos_inf"@,
        fmt::padding_text(Some(PaddingValue::NegInf)) == ", padding=neg_inf"@,
{
}

/// What an attribute shows: its value, and its type where it has one.
pub proof fn lemma_attr_text(a: AttrV)
    ensures
        match a {
            AttrV::Integer(v, t) => fmt::attr_text(a) == fmt::signed_text(v as int) + " : "@
                + fmt::type_text(t),
            AttrV::Bool(b) => fmt::attr_text(a) == (if b {
                "true"@
            } else {
                "false"@
            }),
            AttrV::Type(t) => fmt::attr_text(a) == fmt::type_text(t),
            AttrV::Str(s) => fmt::attr_text(a) == text::quoted(s),
            AttrV::Array(s) => fmt::attr_text(a) == "["@ + fmt::attrs_text(s, s.len() as int) + "]"@,
            AttrV::DenseI32(s) => fmt::attr_text(a) == "array<i32: "@ + list(s) + ">"@,
            AttrV::Dict(s) => fmt::attr_text(a) == "{"@ + fmt::dict_text(s, s.len() as int) + "}"@,
            AttrV::Hints(s) => fmt::attr_text(a) == "optimization_hints<"@ + fmt::hints_text(
                s,
                s.len() as int,
            ) + ">"@,
            AttrV::Float(v, t) => fmt::attr_text(a) == "bits "@ + text::decimal_text(v as int)
                + " : "@ + fmt::type_text(t),
            AttrV::Dense(d) => fmt::attr_text(a) == "dense<"@ + text::decimal_text(
                d.data.len() as int,
            ) + " bytes> : "@ + fmt::type_text(d.element_type),
            AttrV::DivBy(d) => fmt::attr_text(a) == "div_by<"@ + text::decimal_text(
                d.divisor as int,
            ) + ", every "@ + bound(d.every) + ", along "@ + bound(d.along) + ">"@,
            AttrV::Bounded(b) => fmt::attr_text(a) == "bounded<"@ + bound(b.lb) + ", "@ + bound(b.ub)
                + ">"@,
            AttrV::Same(s) => fmt::attr_text(a) == "same_elements<"@ + fmt::numbers_text(
                Seq::new(s.len(), |i: int| s[i] as int),
                s.len() as int,
            ) + ">"@,
        },
{
}

/// What a bound shows, a question mark where there is none.
pub open spec fn bound(v: Option<i64>) -> Seq<char> {
    match v {
        Some(n) => fmt::signed_text(n as int),
        None => "?"@,
    }
}

/// Attributes and types stand in their order with commas between them; names stand
/// before what they name.
pub proof fn lemma_lists(
    a: Seq<AttrV>,
    t: Seq<TypeV>,
    d: Seq<(Seq<char>, AttrV)>,
    h: Seq<(Seq<char>, Seq<(Seq<char>, AttrV)>)>,
    n: int,
)
    requires
        0 < n,
    ensures
        n < a.len() ==> fmt::attrs_text(a, n + 1) == fmt::attrs_text(a, n) + ", "@ + fmt::attr_text(
            a[n],
        ),
        a.len() > 0 ==> fmt::attrs_text(a, 1) == fmt::attr_text(a[0]),
        n < t.len() ==> fmt::types_text(t, n + 1) == fmt::types_text(t, n) + ", "@ + fmt::type_text(
            t[n],
        ),
        t.len() > 0 ==> fmt::types_text(t, 1) == fmt::type_text(t[0]),
        n < d.len() ==> fmt::dict_text(d, n + 1) == fmt::dict_text(d, n) + ", "@ + d[n].0 + " = "@
            + fmt::attr_text(d[n].1),
        d.len() > 0 ==> fmt::dict_text(d, 1) == d[0].0 + " = "@ + fmt::attr_text(d[0].1),
        n < h.len() ==> fmt::hints_text(h, n + 1) == fmt::hints_text(h, n) + ", "@ + h[n].0
            + " = {"@ + fmt::dict_text(h[n].1, h[n].1.len() as int) + "}"@,
        h.len() > 0 ==> fmt::hints_text(h, 1) == h[0].0 + " = {"@ + fmt::dict_text(
            h[0].1,
            h[0].1.len() as int,
        ) + "}"@,
{
    reveal_strlit("");
    assert(fmt::attrs_text(a, 0) =~= Seq::<char>::empty());
    assert(fmt::dict_text(d, 0) =~= Seq::<char>::empty());
    assert(fmt::hints_text(h, 0) =~= Seq::<char>::empty());
}

// ---------------------------------------------------------------------------
// Lines
// ---------------------------------------------------------------------------

/// Strings, types and constants stand on a line each, numbered from zero, in their order.
pub proof fn lemma_lines(t: TablesV, i: int)
    requires
        0 <= i,
    ensures
        i < t.strings.len() ==> decoder::strings_text(t.strings, i + 1) == decoder::strings_text(
            t.strings,
            i,
        ) + ("  ["@ + text::decimal_text(i) + "] "@ + text::quoted(t.strings[i]) + "\n"@),
        i < t.types.len() ==> decoder::type_lines(t.types, i + 1) == decoder::type_lines(t.types, i)
            + ("  ["@ + text::decimal_text(i) + "] "@ + fmt::type_text(t.types[i]) + "\n"@),
        i < t.constants.len() ==> decoder::constants_text(t.constants, i + 1)
            == decoder::constants_text(t.constants, i) + ("  ["@ + text::decimal_text(i) + "] "@ + (
        text::decimal_text(t.constants[i].len() as int) + " bytes"@) + "\n"@),
{
}

/// A global shows its name, its type, its constant and its alignment, and from 13.3 on
/// whether it is seen outside and whether it is constant.
pub proof fn lemma_global_line(g: GlobalEntry, t: TablesV)
    requires
        g.name < t.strings.len(),
        g.ty < t.types.len(),
        g.visibility <= 1,
    ensures
        decoder::global_text(g, t, false) == "  @"@ + t.strings[g.name as int] + " : "@
            + fmt::type_text(t.types[g.ty as int]) + " = const["@ + text::decimal_text(
            g.constant as int,
        ) + "], align "@ + text::decimal_text(g.alignment as int) + ""@ + "\n"@,
        decoder::global_text(g, t, true) == "  @"@ + t.strings[g.name as int] + " : "@
            + fmt::type_text(t.types[g.ty as int]) + " = const["@ + text::decimal_text(
            g.constant as int,
        ) + "], align "@ + text::decimal_text(g.alignment as int) + (", "@ + (if g.visibility == 0 {
            "public"@
        } else {
            "private"@
        }) + ", constant="@ + (if g.is_constant {
            "true"@
        } else {
            "false"@
        })) + "\n"@,
{
}

/// A function shows whether it is an entry, its name, its signature, the number of its
/// bytes and its hints.
pub proof fn lemma_function_lines(f: FuncEntryV, t: TablesV)
    requires
        f.name < t.strings.len(),
        f.signature < t.types.len(),
    ensures
        decoder::func_text(f, t) == (if (f.flags / 2) % 2 == 1 {
            "  entry @"@
        } else {
            "  func @"@
        }) + t.strings[f.name as int] + " : "@ + fmt::type_text(t.types[f.signature as int])
            + "\n    body: "@ + text::decimal_text(f.body_len as int) + " bytes, ~"@
            + text::decimal_text(f.body_len as int) + " ops\n"@ + (match f.hints {
            Some(a) => "    optimization_hints = "@ + fmt::attr_text(a) + "\n"@,
            None => ""@,
        }) + "\n"@,
{
}

/// A debug attribute shows its fields in their order: strings as they are, other
/// attributes by their ids.
pub proof fn lemma_debug_line(f: Seq<u64>, s: Seq<Seq<char>>)
    ensures
        decoder::debug_entry_text(DebugEntryV { tag: 0, fields: f }, s) == "Unknown\n"@,
        decoder::debug_entry_text(DebugEntryV { tag: 1, fields: f }, s)
            == "DICompileUnit(file=di["@ + text::decimal_text(f[0] as int) + "])\n"@,
        decoder::debug_entry_text(DebugEntryV { tag: 2, fields: f }, s) == "DIFile(name="@
            + decoder::debug_string(s, f[0]) + ", dir="@ + decoder::debug_string(s, f[1]) + ")\n"@,
        decoder::debug_entry_text(DebugEntryV { tag: 3, fields: f }, s)
            == "DILexicalBlock(scope=di["@ + text::decimal_text(f[0] as int) + "], file=di["@
            + text::decimal_text(f[1] as int) + "], "@ + text::decimal_text(f[2] as int) + ":"@
            + text::decimal_text(f[3] as int) + ")\n"@,
        decoder::debug_entry_text(DebugEntryV { tag: 4, fields: f }, s) == "DILoc(scope=di["@
            + text::decimal_text(f[0] as int) + "], "@ + decoder::debug_string(s, f[1]) + ":"@
            + text::decimal_text(f[2] as int) + ":"@ + text::decimal_text(f[3] as int) + ")\n"@,
        decoder::debug_entry_text(DebugEntryV { tag: 5, fields: f }, s)
            == "DISubprogram(file=di["@ + text::decimal_text(f[0] as int) + "], line="@
            + text::decimal_text(f[1] as int) + ", name="@ + decoder::debug_string(s, f[2])
            + ", linkage="@ + decoder::debug_string(s, f[3]) + ", cu=di["@ + text::decimal_text(
            f[4] as int,
        ) + "], scope_line="@ + text::decimal_text(f[5] as int) + ")\n"@,
        decoder::debug_entry_text(DebugEntryV { tag: 6, fields: f }, s) == "CallSite(callee=di["@
            + text::decimal_text(f[0] as int) + "], caller=di["@ + text::decimal_text(f[1] as int)
            + "])\n"@,
{
}

/// The debug attributes stand under their ids, from one on; each function's ids stand on
/// a line, from function zero on, with commas between them.
pub proof fn lemma_debug_lines(
    a: Seq<DebugEntryV>,
    lists: Seq<Seq<u64>>,
    ids: Seq<u64>,
    s: Seq<Seq<char>>,
    n: int,
)
    requires
        0 <= n,
    ensures
        decoder::debug_entries_text(a, s, n + 1) == decoder::debug_entries_text(a, s, n) + "  di["@
            + text::decimal_text(n + 1) + "] = "@ + decoder::debug_entry_text(a[n], s),
        decoder::lists_text(lists, n + 1) == decoder::lists_text(lists, n) + "  fn "@
            + text::decimal_text(n) + ": ["@ + decoder::ids_text(lists[n], lists[n].len() as int)
            + "]\n"@,
        decoder::ids_text(ids, 0) == Seq::<char>::empty(),
        decoder::ids_text(ids, n + 1) == (if n == 0 {
            text::decimal_text(ids[0] as int)
        } else {
            decoder::ids_text(ids, n) + ", "@ + text::decimal_text(ids[n] as int)
        }),
        n < s.len() && n < 0x1_0000_0000 ==> decoder::debug_string(s, n as u64) == text::quoted(
            s[n],
        ),
        n >= s.len() && n < 0x1_0000_0000 ==> decoder::debug_string(s, n as u64) == text::quoted(
            "<bad string index>"@,
        ),
{
}

/// Globals and functions stand in their order.
pub proof fn lemma_item_lines(
    g: Seq<GlobalEntry>,
    f: Seq<FuncEntryV>,
    t: TablesV,
    v13_3: bool,
    n: int,
)
    requires
        0 <= n,
    ensures
        decoder::globals_text(g, t, v13_3, n + 1) == decoder::globals_text(g, t, v13_3, n)
            + decoder::global_text(g[n], t, v13_3),
        decoder::funcs_text(f, t, n + 1) == decoder::funcs_text(f, t, n) + decoder::func_text(
            f[n],
            t,
        ),
{
}

/// An index without an entry shows as a question mark.
pub proof fn lemma_unknown(g: GlobalEntry, f: FuncEntryV, t: TablesV)
    ensures
        decoder::string_or(t.strings, g.name) == (if g.name < t.strings.len() {
            t.strings[g.name as int]
        } else {
            "?"@
        }),
        decoder::type_or(t.types, f.signature) == (if f.signature < t.types.len() {
            fmt::type_text(t.types[f.signature as int])
        } else {
            "?"@
        }),
        g.visibility > 1 ==> decoder::visibility_text(g.visibility) == "unknown"@,
{
}

/// A dump starts with the version, and shows strings, types, constants, globals,
/// functions and debug information in this order; what is empty is left out, but not
/// the functions and the debug information of a file that has them.
pub proof fn lemma_dump(d: DumpV)
    ensures
        ({
            let t = d.tables;
            let shown = |name: Seq<char>, n: int, lines: Seq<char>|
                if n == 0 {
                    ""@
                } else {
                    "=== "@ + name + " ("@ + text::decimal_text(n) + ""@ + ") ===\n"@ + lines + "\n"@
                };
            decoder::dump_text(d) == ("TileIR bytecode v"@ + text::decimal_text(
                d.version.major as int,
            ) + "."@ + text::decimal_text(d.version.minor as int) + "\n\n"@) + shown(
                "Strings"@,
                t.strings.len() as int,
                decoder::strings_text(t.strings, t.strings.len() as int),
            ) + shown(
                "Types"@,
                t.types.len() as int,
                decoder::type_lines(t.types, t.types.len() as int),
            ) + shown(
                "Constants"@,
                t.constants.len() as int,
                decoder::constants_text(t.constants, t.constants.len() as int),
            ) + shown(
                "Globals"@,
                d.globals.len() as int,
                decoder::globals_text(
                    d.globals,
                    t,
                    d.version.spec_v13_3(),
                    d.globals.len() as int,
                ),
            ) + (match d.functions {
                Some(s) => "=== "@ + "Functions"@ + " ("@ + text::decimal_text(s.len() as int) + ""@
                    + ") ===\n"@ + decoder::funcs_text(s, t, s.len() as int),
                None => ""@,
            }) + (match d.debug {
                Some(g) => "=== "@ + "Debug"@ + " ("@ + text::decimal_text(g.lists.len() as int)
                    + " functions"@ + ") ===\n"@ + decoder::debug_entries_text(
                    g.entries,
                    t.strings,
                    g.entries.len() as int,
                ) + decoder::lists_text(g.lists, g.lists.len() as int),
                None => ""@,
            })
        }),
{
}

// ---------------------------------------------------------------------------
// What a dump reads
// ---------------------------------------------------------------------------

/// A dump shows the global that reading the file gives: its name and type by their
/// indices, its alignment, and whether it is seen outside and constant.
pub proof fn lemma_global_read(d: Seq<u8>, p: int, t: TablesV, v13_3: bool)
    requires
        reader::global_at(d, p, t, v13_3) is Ok,
    ensures
        ({
            let (g, q) = reader::global_at(d, p, t, v13_3)->Ok_0;
            decoder::global_entry_at(d, p, v13_3) matches Ok((e, q2)) && {
                &&& q2 == q
                &&& e.name < t.strings.len() && t.strings[e.name as int] == g.sym_name
                &&& e.ty < t.types.len() && t.types[e.ty as int] == g.value.element_type
                &&& e.constant < t.constants.len()
                &&& e.alignment == g.alignment
                &&& e.is_constant == g.constant
                &&& e.visibility == 0 <==> g.symbol_visibility == SymbolVisibility::Public
                &&& e.visibility <= 1
            }
        }),
{
    reveal_with_fuel(debug::varints_at, 5);
}

/// A dump shows the function that reading the file gives: its name and signature by their
/// indices, its hints and the number of bytes of its body.
pub proof fn lemma_function_read(d: Seq<u8>, p: int, t: TablesV)
    requires
        reader::record_at(d, p, t) is Ok,
    ensures
        ({
            let ((name, signature, _, hints, body), q) = reader::record_at(d, p, t)->Ok_0;
            decoder::func_entry_at(d, p, t) matches Ok((e, q2)) && {
                &&& q2 == q
                &&& e.name < t.strings.len() && t.strings[e.name as int] == name
                &&& e.signature < t.types.len() && t.types[e.signature as int] == signature
                &&& e.hints == hints
                &&& e.hints is Some <==> (e.flags / 4) % 2 == 1
                &&& e.body_len == body.len()
            }
        }),
{
    reveal_with_fuel(debug::varints_at, 3);
}

/// Each part of a dump comes from the section with the id that the format assigns to it.
pub proof fn lemma_parts_read(s: Seq<Option<Seq<u8>>>, version: BytecodeVersion)
    requires
        decoder::dump_of(s, version) is Ok,
    ensures
        ({
            let d = decoder::dump_of(s, version)->Ok_0;
            &&& d.version == version
            &&& strings::string_section(s[1]) == Ok::<Seq<Seq<char>>, ReadError>(d.tables.strings)
            &&& wire_types::type_section(s[5], version) == Ok::<Seq<TypeV>, ReadError>(
                d.tables.types,
            )
            &&& attrs::constant_section(s[4]) == Ok::<Seq<Seq<u8>>, ReadError>(d.tables.constants)
            &&& decoder::global_entries(s[6], version.spec_v13_3()) == Ok::<
                Seq<GlobalEntry>,
                ReadError,
            >(d.globals)
            &&& d.functions is Some <==> s[2] is Some
            &&& s[2] matches Some(x) ==> decoder::func_entries(x, d.tables) == Ok::<
                Seq<FuncEntryV>,
                ReadError,
            >(d.functions->Some_0)
            &&& d.debug is Some <==> s[3] is Some
        }),
{
}

/// A debug attribute has a tag and as many fields as the format gives to the tag.
pub proof fn lemma_debug_read(d: Seq<u8>)
    ensures
        decoder::entry_at(d) matches Ok(e) ==> {
            &&& d.len() > 0 && e.tag == d[0] && e.tag <= 6
            &&& e.tag == 0 ==> e.fields.len() == 0
            &&& e.tag == 1 ==> e.fields.len() == 1
            &&& e.tag == 2 ==> e.fields.len() == 2
            &&& e.tag == 3 ==> e.fields.len() == 4
            &&& e.tag == 4 ==> e.fields.len() == 4
            &&& e.tag == 5 ==> e.fields.len() == 6
            &&& e.tag == 6 ==> e.fields.len() == 2
        },
        d.len() > 0 && d[0] > 6 ==> decoder::entry_at(d) == Err::<DebugEntryV, ReadError>(
            ReadError::UnknownDebugTag(d[0]),
        ),
{
    reveal_with_fuel(debug::varints_at, 7);
}

} // verus!
