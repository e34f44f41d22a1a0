//! Reading bytecode files.
use vstd::prelude::*;
use crate::bytecode::assemble::add_ops;
use crate::bytecode::assemble;
use crate::bytecode::attrs::{
    parse_constant_section,
    read_self_contained_attribute,
    Tables,
    TablesV,
};
use crate::bytecode::attrs;
use crate::bytecode::body::{read_body_op, Ctx, CtxV};
use crate::bytecode::body;
use crate::bytecode::debug::{parse_debug_section, DebugSection, DebugV};
use crate::bytecode::debug;
use crate::bytecode::encoding::EncodingReader;
use crate::bytecode::encoding;
use crate::bytecode::enums::{BytecodeVersion, Section, NUM_SECTIONS};
use crate::bytecode::enums;
use crate::bytecode::layout::AttrName;
use crate::bytecode::layout;
use crate::bytecode::node::{OpN, OpNode};
use crate::bytecode::node;
use crate::bytecode::opcode::Opcode;
use crate::bytecode::strings::parse_string_section;
use crate::bytecode::strings;
use crate::bytecode::types::{parse_type_section, read_type_ref};
use crate::bytecode::types as wire_types;
use crate::bytecode::wire;
use crate::error::{ReadError, Subject};
use crate::ir::attr::{AttrV, Attribute, DenseElements};
use crate::ir::attr;
use crate::ir::location::{Location, LocationV};
use crate::ir::module::{
    Block,
    BlockV,
    Global,
    GlobalV,
    Module,
    ModuleV,
    OpId,
    Operation,
    OperationV,
    Region,
    SymbolVisibility,
    Value,
};
use crate::ir::module;
use crate::ir::types::{FuncType, Type, TypeV};
use crate::ir::types;
use crate::text::same_text;

verus! {

// ---------------------------------------------------------------------------
// Global variables
// ---------------------------------------------------------------------------

/// A visibility byte at position `p`.
pub open spec fn visibility_at(d: Seq<u8>, p: int) -> Result<(SymbolVisibility, int), ReadError> {
    match wire::byte_at(d, p) {
        Ok((b, q)) => if b == 0 {
            Ok((SymbolVisibility::Public, q))
        } else if b == 1 {
            Ok((SymbolVisibility::Private, q))
        } else {
            Err(ReadError::InvalidVisibility(b))
        },
        Err(e) => Err(e),
    }
}

/// The visibility of a global variable and whether it is constant, at position
/// `p`. Before 13.3 every global variable is public and not constant.
pub open spec fn linkage_at(d: Seq<u8>, p: int, v13_3: bool) -> Result<
    ((SymbolVisibility, bool), int),
    ReadError,
> {
    if v13_3 {
        match visibility_at(d, p) {
            Ok((v, q)) => match wire::varint_at(d, q) {
                Ok((c, q2)) => Ok(((v, c != 0), q2)),
                Err(e) => Err(e),
            },
            Err(e) => Err(e),
        }
    } else {
        Ok(((SymbolVisibility::Public, false), p))
    }
}

/// A global variable at position `p`.
pub open spec fn global_at(d: Seq<u8>, p: int, t: TablesV, v13_3: bool) -> Result<
    (GlobalV, int),
    ReadError,
> {
    match attrs::string_at(d, p, t, Subject::Str) {
        Ok((sym_name, q)) => match wire_types::type_ref_at(d, q, t.types, Subject::Type) {
            Ok((ty, q2)) => match wire::count_at(d, q2, Subject::GlobalConstant) {
                Ok((i, q3)) => match wire::varint_at(d, q3) {
                    Ok((alignment, q4)) => match linkage_at(d, q4, v13_3) {
                        Ok(((symbol_visibility, constant), q5)) => match attrs::constant_of(
                            t,
                            i,
                            Subject::Constant,
                            Subject::ConstantLength,
                        ) {
                            Ok(data) => Ok(
                                (
                                    GlobalV {
                                        sym_name,
                                        value: attrs::dense_of(ty, data),
                                        alignment,
                                        constant,
                                        symbol_visibility,
                                    },
                                    q5,
                                ),
                            ),
                            Err(e) => Err(e),
                        },
                        Err(e) => Err(e),
                    },
                    Err(e) => Err(e),
                },
                Err(e) => Err(e),
            },
            Err(e) => Err(e),
        },
        Err(e) => Err(e),
    }
}

/// `n` global variables at position `p`.
pub open spec fn globals_at(d: Seq<u8>, p: int, t: TablesV, v13_3: bool, n: int) -> Result<
    (Seq<GlobalV>, int),
    ReadError,
>
    decreases n,
{
    if n <= 0 {
        Ok((seq![], p))
    } else {
        match globals_at(d, p, t, v13_3, n - 1) {
            Ok((s, q)) => match global_at(d, q, t, v13_3) {
                Ok((g, q2)) => Ok((s.push(g), q2)),
                Err(e) => Err(e),
            },
            Err(e) => Err(e),
        }
    }
}

/// The global variables of a global section, none where the section is absent.
pub open spec fn global_section(payload: Option<Seq<u8>>, t: TablesV, v13_3: bool) -> Result<
    Seq<GlobalV>,
    ReadError,
> {
    match payload {
        None => Ok(seq![]),
        Some(d) => match wire::count_at(d, 0, Subject::Global) {
            Ok((n, p)) => match globals_at(d, p, t, v13_3, n) {
                Ok((s, _)) => Ok(s),
                Err(e) => Err(e),
            },
            Err(e) => Err(e),
        },
    }
}

proof fn lemma_globals_error(d: Seq<u8>, p: int, t: TablesV, v13_3: bool, k: int, n: int)
    requires
        0 <= k <= n,
        globals_at(d, p, t, v13_3, k) is Err,
    ensures
        globals_at(d, p, t, v13_3, n) == globals_at(d, p, t, v13_3, k),
    decreases n,
{
    if k < n {
        lemma_globals_error(d, p, t, v13_3, k, n - 1);
    }
}

fn read_linkage(r: &mut EncodingReader, v13_3: bool) -> (res: Result<
    (SymbolVisibility, bool),
    ReadError,
>)
    requires
        old(r).wf(),
    ensures
        encoding::reads(
            res,
            *old(r),
            *final(r),
            linkage_at(old(r).bytes(), old(r).at(), v13_3),
        ),
{
    if !v13_3 {
        return Ok((SymbolVisibility::Public, false));
    }
    let b: u8 = r.read_byte()?;
    let v = if b == 0 {
        SymbolVisibility::Public
    } else if b == 1 {
        SymbolVisibility::Private
    } else {
        return Err(ReadError::InvalidVisibility(b));
    };
    let c: u64 = r.read_varint()?;
    Ok((v, c != 0))
}

fn read_global(r: &mut EncodingReader, t: &Tables, v13_3: bool) -> (res: Result<Global, ReadError>)
    requires
        old(r).wf(),
    ensures
        encoding::reads_view(
            res,
            *old(r),
            *final(r),
            global_at(old(r).bytes(), old(r).at(), t@, v13_3),
        ),
{
    let name = t.read_string(r, Subject::Str)?;
    let ty = read_type_ref(r, &t.types, Subject::Type)?;
    let i: usize = r.read_count(Subject::GlobalConstant)?;
    let alignment: u64 = r.read_varint()?;
    let (symbol_visibility, constant): (SymbolVisibility, bool) = read_linkage(r, v13_3)?;
    let data = t.read_constant_entry(i, Subject::Constant, Subject::ConstantLength)?;
    let value = DenseElements { element_type: ty.duplicate(), shape: ty.tile_shape(), data };
    Ok(Global { sym_name: name.clone(), value, alignment, constant, symbol_visibility })
}

fn parse_global_section(payload: Option<&[u8]>, t: &Tables, v13_3: bool) -> (res: Result<
    Vec<Global>,
    ReadError,
>)
    ensures
        match global_section(wire_types::payload_view(payload), t@, v13_3) {
            Ok(s) => res is Ok && module::views(res->Ok_0@) == s,
            Err(e) => res == Err::<Vec<Global>, ReadError>(e),
        },
{
    let mut out: Vec<Global> = Vec::new();
    assert(module::views(out@) =~= seq![]);
    let data = match payload {
        None => {
            return Ok(out);
        },
        Some(d) => d,
    };
    let mut r = EncodingReader::new(data);
    let ghost d = r.bytes();
    let n: usize = r.read_count(Subject::Global)?;
    let ghost p = r.at();
    let mut i: usize = 0;
    while i < n
        invariant
            i <= n,
            r.wf(),
            r.bytes() == d,
            global_section(wire_types::payload_view(payload), t@, v13_3) == (match globals_at(
                d,
                p,
                t@,
                v13_3,
                n as int,
            ) {
                Ok((s, _)) => Ok(s),
                Err(e) => Err(e),
            }),
            globals_at(d, p, t@, v13_3, i as int) == Ok::<(Seq<GlobalV>, int), ReadError>(
                (module::views(out@), r.at()),
            ),
        decreases n - i,
    {
        proof {
            if globals_at(d, p, t@, v13_3, i + 1) is Err {
                lemma_globals_error(d, p, t@, v13_3, i + 1, n as int);
            }
        }
        let g = read_global(&mut r, t, v13_3)?;
        let ghost before = out@;
        out.push(g);
        assert(module::views(out@) =~= module::views(before).push(g@));
        i = i + 1;
    }
    Ok(out)
}

// ---------------------------------------------------------------------------
// Functions
// ---------------------------------------------------------------------------

/// A function: a name, a signature, a display name where it differs from the
/// name, optimization hints, and the operations of its only block.
pub struct FuncNode {
    pub name: String,
    pub signature: FuncType,
    pub di_name: Option<String>,
    pub hints: Option<Attribute>,
    pub ops: Vec<OpNode>,
    pub location: Location,
}

/// The contents of a function.
#[verifier::ext_equal]
pub struct FuncN {
    pub name: Seq<char>,
    pub inputs: Seq<TypeV>,
    pub results: Seq<TypeV>,
    pub di_name: Option<Seq<char>>,
    pub hints: Option<AttrV>,
    pub ops: Seq<OpN>,
    pub location: LocationV,
}

/// The contents of an optional text.
pub open spec fn opt_text(s: Option<String>) -> Option<Seq<char>> {
    match s {
        Some(s) => Some(s@),
        None => None,
    }
}

/// The contents of an optional attribute.
pub open spec fn opt_attr(a: Option<Attribute>) -> Option<AttrV> {
    match a {
        Some(a) => Some(a@),
        None => None,
    }
}

impl View for FuncNode {
    type V = FuncN;

    open spec fn view(&self) -> FuncN {
        FuncN {
            name: self.name@,
            inputs: types::types_view(self.signature.inputs@),
            results: types::types_view(self.signature.results@),
            di_name: opt_text(self.di_name),
            hints: opt_attr(self.hints),
            ops: node::ops_view(self.ops@),
            location: self.location@,
        }
    }
}

/// Operations in front of others that are still to be read.
pub open spec fn ops_before(s: Seq<OpN>, r: Result<(Seq<OpN>, int), ReadError>) -> Result<
    (Seq<OpN>, int),
    ReadError,
> {
    match r {
        Ok((t, cur)) => Ok((s + t, cur)),
        Err(e) => Err(e),
    }
}

/// The operations from position `p` to the end of a body, and the debug ids
/// that are used up behind them. An operation takes at least one byte.
pub open spec fn body_at(c: CtxV, d: Seq<u8>, p: int, next: int, cur: int) -> Result<
    (Seq<OpN>, int),
    ReadError,
>
    decreases d.len() - p,
{
    if p >= d.len() {
        Ok((seq![], cur))
    } else {
        match body::body_op_at(c, d, p, next, cur) {
            Ok((op, cur2, q)) => if q <= p || q > d.len() {
                Err(ReadError::UnexpectedEnd)
            } else {
                ops_before(
                    seq![op],
                    body_at(c, d, q, next + op.result_types.len(), cur2),
                )
            },
            Err(e) => Err(e),
        }
    }
}

/// The operations of a function's body; the debug ids must be used up behind
/// them.
pub open spec fn whole_body(c: CtxV, d: Seq<u8>, args: int) -> Result<Seq<OpN>, ReadError> {
    match body_at(c, d, 0, args, 1) {
        Ok((ops, cur)) => match debug::func_ids(c.debug, c.func) {
            Some(ids) => if cur != ids.len() {
                Err(ReadError::DebugIdsLeftOver(c.func))
            } else {
                Ok(ops)
            },
            None => Ok(ops),
        },
        Err(e) => Err(e),
    }
}

/// Optional hints at position `p`.
pub open spec fn opt_hints_at(d: Seq<u8>, p: int, t: TablesV, present: bool) -> Result<
    (Option<AttrV>, int),
    ReadError,
> {
    if present {
        match attrs::attr_at(d, p, t, d.len()) {
            Ok((a, q)) => Ok((Some(a), q)),
            Err(e) => Err(e),
        }
    } else {
        Ok((None, p))
    }
}

/// The display name of a function, where it differs from the name.
pub open spec fn display_name(display: Option<Seq<char>>, name: Seq<char>) -> Option<Seq<char>> {
    match display {
        Some(s) => if s == name {
            None
        } else {
            Some(s)
        },
        None => None,
    }
}

/// A function from its parts.
pub open spec fn function_of(
    t: TablesV,
    v13_3: bool,
    dbg: DebugV,
    name: Seq<char>,
    sig: TypeV,
    func: u64,
    hints: Option<AttrV>,
    body: Seq<u8>,
) -> Result<FuncN, ReadError> {
    match sig {
        TypeV::Func(inputs, results) => match debug::function_location(
            dbg,
            t.strings,
            func,
            name,
        ) {
            Ok((location, display)) => {
                let c = CtxV { tables: t, v13_3, debug: dbg, func };
                match whole_body(c, body, inputs.len() as int) {
                    Ok(ops) => Ok(
                        FuncN {
                            name,
                            inputs,
                            results,
                            di_name: display_name(display, name),
                            hints,
                            ops,
                            location,
                        },
                    ),
                    Err(e) => Err(e),
                }
            },
            Err(e) => Err(e),
        },
        _ => Err(ReadError::SignatureNotFunction),
    }
}

/// The record of a function at position `p`: name, signature, debug index,
/// hints and body.
pub open spec fn record_at(d: Seq<u8>, p: int, t: TablesV) -> Result<
    ((Seq<char>, TypeV, u64, Option<AttrV>, Seq<u8>), int),
    ReadError,
> {
    match attrs::string_at(d, p, t, Subject::Str) {
        Ok((name, q)) => match wire_types::type_ref_at(d, q, t.types, Subject::Type) {
            Ok((sig, q2)) => match wire::byte_at(d, q2) {
                Ok((flags, q3)) => match wire::varint_at(d, q3) {
                    Ok((func, q4)) => match opt_hints_at(d, q4, t, flags / 4 % 2 == 1) {
                        Ok((hints, q5)) => match wire::varint_at(d, q5) {
                            Ok((len, q6)) => match wire::bytes_at(d, q6, len as int) {
                                Ok((body, q7)) => Ok(((name, sig, func, hints, body), q7)),
                                Err(e) => Err(e),
                            },
                            Err(e) => Err(e),
                        },
                        Err(e) => Err(e),
                    },
                    Err(e) => Err(e),
                },
                Err(e) => Err(e),
            },
            Err(e) => Err(e),
        },
        Err(e) => Err(e),
    }
}

/// A function at position `p`.
pub open spec fn function_at(d: Seq<u8>, p: int, t: TablesV, v13_3: bool, dbg: DebugV) -> Result<
    (FuncN, int),
    ReadError,
> {
    match record_at(d, p, t) {
        Ok(((name, sig, func, hints, body), q)) => match function_of(
            t,
            v13_3,
            dbg,
            name,
            sig,
            func,
            hints,
            body,
        ) {
            Ok(f) => Ok((f, q)),
            Err(e) => Err(e),
        },
        Err(e) => Err(e),
    }
}

/// `n` functions at position `p`.
pub open spec fn functions_at(
    d: Seq<u8>,
    p: int,
    t: TablesV,
    v13_3: bool,
    dbg: DebugV,
    n: int,
) -> Result<(Seq<FuncN>, int), ReadError>
    decreases n,
{
    if n <= 0 {
        Ok((seq![], p))
    } else {
        match functions_at(d, p, t, v13_3, dbg, n - 1) {
            Ok((s, q)) => match function_at(d, q, t, v13_3, dbg) {
                Ok((f, q2)) => Ok((s.push(f), q2)),
                Err(e) => Err(e),
            },
            Err(e) => Err(e),
        }
    }
}

/// The functions of a function section, none where the section is absent. What
/// follows the last function is padding.
pub open spec fn func_section(
    payload: Option<Seq<u8>>,
    t: TablesV,
    v13_3: bool,
    dbg: DebugV,
) -> Result<Seq<FuncN>, ReadError> {
    match payload {
        None => Ok(seq![]),
        Some(d) => match wire::count_at(d, 0, Subject::Function) {
            Ok((n, p)) => match functions_at(d, p, t, v13_3, dbg, n) {
                Ok((s, _)) => Ok(s),
                Err(e) => Err(e),
            },
            Err(e) => Err(e),
        },
    }
}

proof fn lemma_functions_error(
    d: Seq<u8>,
    p: int,
    t: TablesV,
    v13_3: bool,
    dbg: DebugV,
    k: int,
    n: int,
)
    requires
        0 <= k <= n,
        functions_at(d, p, t, v13_3, dbg, k) is Err,
    ensures
        functions_at(d, p, t, v13_3, dbg, n) == functions_at(d, p, t, v13_3, dbg, k),
    decreases n,
{
    if k < n {
        lemma_functions_error(d, p, t, v13_3, dbg, k, n - 1);
    }
}

fn read_body(c: &Ctx, body: &[u8], args: usize) -> (res: Result<Vec<OpNode>, ReadError>)
    requires
        c.debug.wf(),
    ensures
        match whole_body(c@, body@, args as int) {
            Ok(ops) => res is Ok && node::ops_view(res->Ok_0@) == ops,
            Err(e) => res == Err::<Vec<OpNode>, ReadError>(e),
        },
{
    let ghost d = body@;
    let ghost cv = c@;
    let mut r = EncodingReader::new(body);
    let mut out: Vec<OpNode> = Vec::new();
    let len: usize = r.len();
    let mut next: u128 = args as u128;
    assert(next + len <= u128::MAX);
    let mut cur: usize = 1;
    assert(node::ops_view(out@) =~= seq![]);
    proof {
        match body_at(cv, d, 0, args as int, 1) {
            Ok((t, k)) => {
                assert(seq![] + t =~= t);
            },
            Err(_) => {},
        }
    }
    while r.remaining() > 0
        invariant
            r.wf(),
            r.bytes() == d,
            d == body@,
            cv == c@,
            c.debug.wf(),
            body::numbers_left(r, next),
            body_at(cv, d, 0, args as int, 1) == ops_before(
                node::ops_view(out@),
                body_at(cv, d, r.at(), next as int, cur as int),
            ),
        decreases d.len() - r.at(),
    {
        let ghost before = out@;
        let ghost rest = body_at(cv, d, r.at(), next as int, cur as int);
        let op = read_body_op(c, &mut r, next, &mut cur)?;
        next = next + op.result_types.len() as u128;
        proof {
            node::lemma_ops_view_push(out@, op);
            let s = node::ops_view(out@);
            match body_at(cv, d, r.at(), next as int, cur as int) {
                Ok((t, _)) => {
                    assert(s + (seq![op@] + t) =~= s.push(op@) + t);
                },
                Err(_) => {},
            }
        }
        out.push(op);
    }
    proof {
        assert(node::ops_view(out@) + seq![] =~= node::ops_view(out@));
    }
    match c.debug.func_id_count(c.func) {
        Some(n) => {
            if cur != n {
                return Err(ReadError::DebugIdsLeftOver(c.func));
            }
        },
        None => {},
    }
    Ok(out)
}

fn parse_function(r: &mut EncodingReader, t: &Tables, v13_3: bool, dbg: &DebugSection) -> (res:
    Result<FuncNode, ReadError>)
    requires
        old(r).wf(),
        dbg.wf(),
    ensures
        encoding::reads_view(
            res,
            *old(r),
            *final(r),
            function_at(old(r).bytes(), old(r).at(), t@, v13_3, dbg@),
        ),
{
    let name = t.read_string(r, Subject::Str)?;
    let sig = read_type_ref(r, &t.types, Subject::Type)?;
    let flags: u8 = r.read_byte()?;
    let func: u64 = r.read_varint()?;
    let hints: Option<Attribute> = if flags / 4 % 2 == 1 {
        let depth: usize = r.len();
        Some(read_self_contained_attribute(r, t, depth)?)
    } else {
        None
    };
    let len: u64 = r.read_varint()?;
    if len > r.remaining() as u64 {
        return Err(ReadError::UnexpectedEnd);
    }
    let body = r.read_bytes(len as usize)?;
    match sig {
        Type::Func(f) => {
            let (location, display): (Location, Option<String>) = dbg.function_location(
                &t.strings,
                func,
                name.as_str(),
            )?;
            let c = Ctx { tables: t, v13_3, debug: dbg, func };
            let ops = read_body(&c, body, f.inputs.len())?;
            let di_name: Option<String> = match display {
                Some(s) => {
                    if same_text(s.as_str(), name.as_str()) {
                        None
                    } else {
                        Some(s)
                    }
                },
                None => None,
            };
            let signature = FuncType {
                inputs: types::duplicate_types(&f.inputs),
                results: types::duplicate_types(&f.results),
            };
            Ok(FuncNode { name: name.clone(), signature, di_name, hints, ops, location })
        },
        _ => Err(ReadError::SignatureNotFunction),
    }
}

/// The contents of functions.
pub open spec fn funcs_view(s: Seq<FuncNode>) -> Seq<FuncN> {
    Seq::new(s.len(), |i: int| s[i]@)
}

fn parse_func_section(
    payload: Option<&[u8]>,
    t: &Tables,
    v13_3: bool,
    dbg: &DebugSection,
) -> (res: Result<Vec<FuncNode>, ReadError>)
    requires
        dbg.wf(),
    ensures
        match func_section(wire_types::payload_view(payload), t@, v13_3, dbg@) {
            Ok(s) => res is Ok && funcs_view(res->Ok_0@) == s,
            Err(e) => res == Err::<Vec<FuncNode>, ReadError>(e),
        },
{
    let mut out: Vec<FuncNode> = Vec::new();
    assert(funcs_view(out@) =~= seq![]);
    let data = match payload {
        None => {
            return Ok(out);
        },
        Some(d) => d,
    };
    let mut r = EncodingReader::new(data);
    let ghost d = r.bytes();
    let n: usize = r.read_count(Subject::Function)?;
    let ghost p = r.at();
    let mut i: usize = 0;
    while i < n
        invariant
            i <= n,
            r.wf(),
            r.bytes() == d,
            dbg.wf(),
            func_section(wire_types::payload_view(payload), t@, v13_3, dbg@) == (
            match functions_at(d, p, t@, v13_3, dbg@, n as int) {
                Ok((s, _)) => Ok(s),
                Err(e) => Err(e),
            }),
            functions_at(d, p, t@, v13_3, dbg@, i as int) == Ok::<(Seq<FuncN>, int), ReadError>(
                (funcs_view(out@), r.at()),
            ),
        decreases n - i,
    {
        proof {
            if functions_at(d, p, t@, v13_3, dbg@, i + 1) is Err {
                lemma_functions_error(d, p, t@, v13_3, dbg@, i + 1, n as int);
            }
        }
        let f = parse_function(&mut r, t, v13_3, dbg)?;
        let ghost before = out@;
        out.push(f);
        assert(funcs_view(out@) =~= funcs_view(before).push(f@));
        i = i + 1;
    }
    Ok(out)
}

// ---------------------------------------------------------------------------
// Sections
// ---------------------------------------------------------------------------

/// The file header: magic bytes and version.
pub open spec fn header_at(d: Seq<u8>) -> Result<(BytecodeVersion, int), ReadError> {
    match wire::bytes_at(d, 0, 8) {
        Ok((m, p)) => if m != enums::magic() {
            Err(ReadError::InvalidMagic)
        } else {
            match wire::byte_at(d, p) {
                Ok((major, p2)) => match wire::byte_at(d, p2) {
                    Ok((minor, p3)) => match wire::le_at(d, p3, 2) {
                        Ok((tag, p4)) => Ok(
                            (BytecodeVersion { major, minor, tag: tag as u16 }, p4),
                        ),
                        Err(e) => Err(e),
                    },
                    Err(e) => Err(e),
                },
                Err(e) => Err(e),
            }
        },
        Err(e) => Err(e),
    }
}

/// A section header at position `p`: the id, the length and where the payload
/// starts. The end marker has no length.
pub open spec fn section_header_at(d: Seq<u8>, p: int) -> Result<((u8, u64), int), ReadError> {
    match wire::byte_at(d, p) {
        Ok((b, q)) => {
            let id = (b % 128) as u8;
            if id == 0 {
                Ok(((id, 0), q))
            } else {
                match wire::varint_at(d, q) {
                    Ok((len, q2)) => if b >= 128 {
                        match wire::varint_at(d, q2) {
                            Ok((alignment, q3)) => match wire::skip_padding_at(
                                d,
                                q3,
                                alignment as int,
                            ) {
                                Ok(q4) => Ok(((id, len), q4)),
                                Err(e) => Err(e),
                            },
                            Err(e) => Err(e),
                        }
                    } else {
                        Ok(((id, len), q2))
                    },
                    Err(e) => Err(e),
                }
            }
        },
        Err(e) => Err(e),
    }
}

/// No sections.
pub open spec fn no_sections() -> Seq<Option<Seq<u8>>> {
    Seq::new(NUM_SECTIONS as nat, |i: int| None)
}

/// The payloads of the sections from position `p` to the end marker, by id;
/// of sections with the same id the last counts. A section takes at least one
/// byte.
pub open spec fn sections_at(d: Seq<u8>, p: int, acc: Seq<Option<Seq<u8>>>) -> Result<
    Seq<Option<Seq<u8>>>,
    ReadError,
>
    decreases d.len() - p,
{
    match section_header_at(d, p) {
        Ok(((id, len), q)) => if id == 0 {
            Ok(acc)
        } else if id >= NUM_SECTIONS {
            Err(ReadError::UnknownSection(id))
        } else {
            match wire::bytes_at(d, q, len as int) {
                Ok((payload, q2)) => if q2 <= p || q2 > d.len() {
                    Err(ReadError::UnexpectedEnd)
                } else {
                    sections_at(d, q2, acc.update(id as int, Some(payload)))
                },
                Err(e) => Err(e),
            }
        },
        Err(e) => Err(e),
    }
}

/// The raw payloads of sections, by id.
pub struct SectionTable<'a> {
    data: [Option<&'a [u8]>; 7],
}

impl<'a> SectionTable<'a> {
    /// The payloads.
    pub closed spec fn payloads(&self) -> Seq<Option<Seq<u8>>> {
        Seq::new(self.data@.len(), |i: int| wire_types::payload_view(self.data@[i]))
    }

    /// No sections.
    pub fn new() -> (t: SectionTable<'a>)
        ensures
            t.payloads() == no_sections(),
    {
        let t = SectionTable { data: [None, None, None, None, None, None, None] };
        assert(t.payloads() =~= no_sections());
        t
    }

    /// Record the payload of a section; an id that is not assigned is ignored.
    pub fn insert(&mut self, id: u8, payload: &'a [u8])
        ensures
            final(self).payloads() == (if id < NUM_SECTIONS {
                old(self).payloads().update(id as int, Some(payload@))
            } else {
                old(self).payloads()
            }),
    {
        if id < NUM_SECTIONS {
            self.data[id as usize] = Some(payload);
        }
        assert(self.payloads() =~= (if id < NUM_SECTIONS {
            old(self).payloads().update(id as int, Some(payload@))
        } else {
            old(self).payloads()
        }));
    }

    /// The payload of a section, if it is there.
    pub fn get(&self, id: u8) -> (r: Option<&'a [u8]>)
        ensures
            wire_types::payload_view(r) == (if id < NUM_SECTIONS {
                self.payloads()[id as int]
            } else {
                None
            }),
    {
        if id < NUM_SECTIONS {
            self.data[id as usize]
        } else {
            None
        }
    }
}

impl<'a> EncodingReader<'a> {
    /// Read the file header.
    pub fn read_header(&mut self) -> (res: Result<BytecodeVersion, ReadError>)
        requires
            old(self).wf(),
            old(self).at() == 0,
        ensures
            encoding::reads(res, *old(self), *final(self), header_at(old(self).bytes())),
    {
        let m = self.read_bytes(8)?;
        if !is_magic(m) {
            return Err(ReadError::InvalidMagic);
        }
        let major: u8 = self.read_byte()?;
        let minor: u8 = self.read_byte()?;
        let tag: u16 = self.read_le_u16()?;
        Ok(BytecodeVersion { major, minor, tag })
    }

    /// Read a section header: the id and the length of the payload.
    pub fn read_section_header(&mut self) -> (res: Result<(u8, u64), ReadError>)
        requires
            old(self).wf(),
        ensures
            encoding::reads(
                res,
                *old(self),
                *final(self),
                section_header_at(old(self).bytes(), old(self).at()),
            ),
            res is Ok ==> final(self).at() > old(self).at(),
    {
        let b: u8 = self.read_byte()?;
        let id: u8 = b % 128;
        if id == 0 {
            return Ok((id, 0));
        }
        let len: u64 = self.read_varint()?;
        if b >= 128 {
            let alignment: u64 = self.read_varint()?;
            self.skip_padding(alignment)?;
        }
        Ok((id, len))
    }
}

fn is_magic(m: &[u8]) -> (r: bool)
    requires
        m@.len() == 8,
    ensures
        r == (m@ == enums::magic()),
{
    let r: bool = m[0] == 0x7F && m[1] == 0x54 && m[2] == 0x69 && m[3] == 0x6C && m[4] == 0x65
        && m[5] == 0x49 && m[6] == 0x52 && m[7] == 0x00;
    assert(r ==> m@ =~= enums::magic());
    r
}

fn read_sections<'a>(r: &mut EncodingReader<'a>) -> (res: Result<SectionTable<'a>, ReadError>)
    requires
        old(r).wf(),
    ensures
        match sections_at(old(r).bytes(), old(r).at(), no_sections()) {
            Ok(s) => res is Ok && res->Ok_0.payloads() == s,
            Err(e) => res == Err::<SectionTable<'a>, ReadError>(e),
        },
{
    let ghost d = r.bytes();
    let mut t = SectionTable::new();
    loop
        invariant
            r.wf(),
            r.bytes() == d,
            sections_at(old(r).bytes(), old(r).at(), no_sections()) == sections_at(
                d,
                r.at(),
                t.payloads(),
            ),
            t.payloads().len() == NUM_SECTIONS,
        decreases d.len() - r.at(),
    {
        let (id, len): (u8, u64) = r.read_section_header()?;
        if id == 0 {
            return Ok(t);
        }
        if id >= NUM_SECTIONS {
            return Err(ReadError::UnknownSection(id));
        }
        if len > r.remaining() as u64 {
            return Err(ReadError::UnexpectedEnd);
        }
        let payload = r.read_bytes(len as usize)?;
        t.insert(id, payload);
    }
}

// ---------------------------------------------------------------------------
// Files
// ---------------------------------------------------------------------------

/// What a file holds.
#[verifier::ext_equal]
pub struct FileN {
    pub version: BytecodeVersion,
    pub globals: Seq<GlobalV>,
    pub functions: Seq<FuncN>,
}

/// Whether the reader understands a version.
pub open spec fn readable(v: BytecodeVersion) -> bool {
    enums::version_rank(BytecodeVersion::spec_min_supported()) <= enums::version_rank(v)
        <= enums::version_rank(BytecodeVersion { major: 13, minor: 3, tag: 0 })
}

/// The tables of a file.
pub open spec fn tables_of(s: Seq<Option<Seq<u8>>>, v: BytecodeVersion) -> Result<
    (TablesV, DebugV),
    ReadError,
> {
    match strings::string_section(s[Section::Str.spec_id() as int]) {
        Ok(strings) => match wire_types::type_section(s[Section::Type.spec_id() as int], v) {
            Ok(types) => match attrs::constant_section(s[Section::Constant.spec_id() as int]) {
                Ok(constants) => match debug::debug_section(s[Section::Debug.spec_id() as int]) {
                    Ok(dbg) => Ok((TablesV { strings, types, constants }, dbg)),
                    Err(e) => Err(e),
                },
                Err(e) => Err(e),
            },
            Err(e) => Err(e),
        },
        Err(e) => Err(e),
    }
}

/// What the sections of a file hold.
pub open spec fn contents_of(s: Seq<Option<Seq<u8>>>, version: BytecodeVersion) -> Result<
    FileN,
    ReadError,
> {
    let v = version.spec_v13_3();
    match tables_of(s, version) {
        Ok((t, dbg)) => match global_section(s[Section::Global.spec_id() as int], t, v) {
            Ok(globals) => match func_section(s[Section::Func.spec_id() as int], t, v, dbg) {
                Ok(functions) => Ok(FileN { version, globals, functions }),
                Err(e) => Err(e),
            },
            Err(e) => Err(e),
        },
        Err(e) => Err(e),
    }
}

/// What a bytecode file holds.
pub open spec fn file_at(d: Seq<u8>) -> Result<FileN, ReadError> {
    match header_at(d) {
        Ok((v, p)) => if !readable(v) {
            Err(ReadError::UnsupportedVersion(v.major, v.minor, v.tag))
        } else {
            match sections_at(d, p, no_sections()) {
                Ok(s) => contents_of(s, v),
                Err(e) => Err(e),
            }
        },
        Err(e) => Err(e),
    }
}

// ---------------------------------------------------------------------------
// Modules
// ---------------------------------------------------------------------------

/// The attributes of the operation that stands for a function.
pub open spec fn entry_attrs(f: FuncN) -> Seq<(Seq<char>, AttrV)> {
    seq![(layout::name_text(AttrName::SymName), AttrV::Str(f.name))] + (match f.di_name {
        Some(s) => seq![(layout::name_text(AttrName::DiName), AttrV::Str(s))],
        None => seq![],
    }) + seq![
        (
            layout::name_text(AttrName::FunctionType),
            AttrV::Type(TypeV::Func(f.inputs, f.results)),
        ),
    ] + (match f.hints {
        Some(h) => seq![(layout::name_text(AttrName::OptimizationHints), h)],
        None => seq![],
    })
}

/// A function, added to a module.
pub open spec fn build_function(m: ModuleV, f: FuncN) -> ModuleV {
    let (m1, env, block) = assemble::open_block(m, seq![], f.inputs);
    let (m2, _, ids) = assemble::build_ops(m1, env, f.ops, f.ops.len() as int);
    let m3 = ModuleV {
        blocks: m2.blocks.update(
            m.blocks.len() as int,
            BlockV { args: assemble::block_args(m, f.inputs), ops: ids },
        ),
        regions: m2.regions.push(seq![block]),
        ..m2
    };
    ModuleV {
        ops: m3.ops.push(
            OperationV {
                opcode: Opcode::Entry,
                operands: seq![],
                result_types: seq![],
                attributes: entry_attrs(f),
                regions: seq![module::RegionId((m3.regions.len() - 1) as u32)],
                location: f.location,
            },
        ),
        functions: m3.functions.push(OpId(m3.ops.len() as u32)),
        ..m3
    }
}

/// The first `n` of some functions, added to a module.
pub open spec fn build_functions(m: ModuleV, fs: Seq<FuncN>, n: int) -> ModuleV
    decreases n,
{
    if n <= 0 {
        m
    } else {
        build_function(build_functions(m, fs, n - 1), fs[n - 1])
    }
}

/// The module that a file holds. Files do not carry the module's name.
pub open spec fn module_of(f: FileN) -> ModuleV {
    build_functions(
        ModuleV { globals: f.globals, ..module::empty_module("module"@) },
        f.functions,
        f.functions.len() as int,
    )
}

fn entry_attributes(f: &FuncNode) -> (r: Vec<(String, Attribute)>)
    ensures
        attr::dict_view(r@) == entry_attrs(f@),
{
    let mut out: Vec<(String, Attribute)> = Vec::new();
    out.push((AttrName::SymName.text().to_owned(), Attribute::String(f.name.clone())));
    match &f.di_name {
        Some(s) => {
            out.push((AttrName::DiName.text().to_owned(), Attribute::String(s.clone())));
        },
        None => {},
    }
    let sig = FuncType {
        inputs: types::duplicate_types(&f.signature.inputs),
        results: types::duplicate_types(&f.signature.results),
    };
    out.push((AttrName::FunctionType.text().to_owned(), Attribute::Type(Type::Func(sig))));
    match &f.hints {
        Some(h) => {
            out.push((AttrName::OptimizationHints.text().to_owned(), h.duplicate()));
        },
        None => {},
    }
    assert(attr::dict_view(out@) =~= entry_attrs(f@));
    out
}

fn add_function(m: &mut Module, f: &FuncNode)
    ensures
        final(m)@ == build_function(old(m)@, f@),
{
    let ghost m0 = m@;
    let mut env: Vec<Value> = Vec::new();
    let (at, block, args) = assemble::start_block(m, &f.signature.inputs, &mut env);
    let ghost m1 = m@;
    proof {
        assemble::lemma_build_ops_keeps(m1, env@, f@.ops, f@.ops.len() as int);
    }
    let ops = add_ops(m, &mut env, &f.ops);
    m.fill_block(at, Block { args, ops });
    let mut blocks: Vec<module::BlockId> = Vec::new();
    blocks.push(block);
    assert(blocks@ =~= seq![block]);
    let region = m.alloc_region(Region { blocks });
    let mut regions: Vec<module::RegionId> = Vec::new();
    regions.push(region);
    let op = Operation {
        opcode: Opcode::Entry,
        operands: Vec::new(),
        result_types: Vec::new(),
        attributes: entry_attributes(f),
        regions,
        location: f.location.duplicate(),
    };
    proof {
        assert(op@.regions =~= seq![region]);
        assert(op@.operands =~= seq![]);
        assert(op@.result_types =~= seq![]);
    }
    let id = m.alloc_op(op);
    m.push_function(id);
    assert(m@ =~= build_function(m0, f@));
}

/// Read a bytecode file: the module, and the version that the header names.
pub fn read_bytecode_versioned(data: &[u8]) -> (res: Result<(Module, BytecodeVersion), ReadError>)
    ensures
        match file_at(data@) {
            Ok(f) => {
                &&& res is Ok
                &&& res->Ok_0.0@ == module_of(f)
                &&& res->Ok_0.1 == f.version
            },
            Err(e) => res == Err::<(Module, BytecodeVersion), ReadError>(e),
        },
{
    let mut r = EncodingReader::new(data);
    let version = r.read_header()?;
    if version.before(BytecodeVersion::min_supported()) || BytecodeVersion::v13_3().before(
        version,
    ) {
        return Err(ReadError::UnsupportedVersion(version.major, version.minor, version.tag));
    }
    let s = read_sections(&mut r)?;
    let v13_3: bool = version.is_v13_3();
    let strings = parse_string_section(s.get(Section::Str.id()))?;
    let types = parse_type_section(s.get(Section::Type.id()), version)?;
    let constants = parse_constant_section(s.get(Section::Constant.id()))?;
    let dbg = parse_debug_section(s.get(Section::Debug.id()))?;
    let t = Tables { strings, types, constants };
    let globals = parse_global_section(s.get(Section::Global.id()), &t, v13_3)?;
    let functions = parse_func_section(s.get(Section::Func.id()), &t, v13_3, &dbg)?;
    let mut m = Module::new("module");
    m.globals = globals;
    let ghost fv = funcs_view(functions@);
    let ghost m0 = m@;
    proof {
        assert(m0 =~= ModuleV {
            globals: module::views(globals@),
            ..module::empty_module("module"@)
        });
    }
    let mut i: usize = 0;
    while i < functions.len()
        invariant
            i <= functions@.len(),
            fv == funcs_view(functions@),
            m@ == build_functions(m0, fv, i as int),
        decreases functions@.len() - i,
    {
        add_function(&mut m, &functions[i]);
        assert(fv[i as int] == functions@[i as int]@);
        i = i + 1;
    }
    Ok((m, version))
}

/// Read a bytecode file.
pub fn read_bytecode(data: &[u8]) -> (res: Result<Module, ReadError>)
    ensures
        match file_at(data@) {
            Ok(f) => res is Ok && res->Ok_0@ == module_of(f),
            Err(e) => res == Err::<Module, ReadError>(e),
        },
{
    let (m, _version): (Module, BytecodeVersion) = read_bytecode_versioned(data)?;
    Ok(m)
}

} // verus!
