//! Module-level globals: their declarations and the operations on them.
//!
//! A global is declared by a static item of type `Global` whose first type
//! argument names an atomic scalar and whose constant argument is its shape.
//! Loads, stores and atomic additions become operations on its pointer.
use vstd::prelude::*;
use crate::bytecode::assemble;
use crate::bytecode::opcode::Opcode;
use crate::frontend::global_laws;
use crate::frontend::syntax::{Expr, GenericArg, Lit, Path, PathArgs, Stmt, Type as RustType, UnOp};
use crate::ir::attr::{AttrV, Attribute, DenseElements, DenseV};
use crate::ir::attr;
use crate::ir::builder::{append_op, OpBuilder};
use crate::ir::builder;
use crate::ir::location::{Location, LocationV};
use crate::ir::module::{
    BlockId,
    Global,
    GlobalV,
    Module,
    ModuleV,
    OpId,
    OperationV,
    SymbolVisibility,
    Value,
};
use crate::ir::types::{ScalarType, TileElementType, TileType, Type, TypeV};
use crate::text::{joined, same_text};
use crate::text;

verus! {

/// Why a global or a call on one is refused.
#[derive(Clone, Copy, Debug, PartialEq, Eq, Structural)]
pub enum GlobalError {
    /// The number of arguments is wrong.
    ArgumentCount,
    /// No such method.
    UnsupportedMethod,
    /// The memory ordering is not one of those that the access allows.
    MemoryOrder,
    /// The memory scope is neither the device nor the system.
    Scope,
    /// Only globals without dimensions are supported.
    Shaped,
    /// The initializer is not a call of `new` with one argument.
    Initializer,
    /// The initial value is not a scalar literal.
    NotScalar,
}

/// What a method call on a global does.
#[derive(Clone, Copy, Debug, PartialEq, Eq, Structural)]
pub enum GlobalMethod {
    Load,
    Store,
    AtomicAdd,
}

// ---------------------------------------------------------------------------
// Names and numbers
// ---------------------------------------------------------------------------

/// The number of a memory scope.
pub open spec fn scope_value(scope: Seq<char>) -> Option<i64> {
    if scope == "Device"@ {
        Some(1)
    } else if scope == "System"@ {
        Some(2)
    } else {
        None
    }
}

/// The number of a memory scope.
pub fn memory_scope_value(scope: &str) -> (r: Option<i64>)
    ensures
        r == scope_value(scope@),
{
    if same_text(scope, "Device") {
        Some(1)
    } else if same_text(scope, "System") {
        Some(2)
    } else {
        None
    }
}

/// The number of a memory ordering, where the access allows it: a load may
/// acquire, a store may release, an atomic operation may do both.
pub open spec fn ordering_value(method: GlobalMethod, ordering: Seq<char>) -> Option<i64> {
    if ordering == "Relaxed"@ {
        Some(1)
    } else if ordering == "Acquire"@ && method != GlobalMethod::Store {
        Some(2)
    } else if ordering == "Release"@ && method != GlobalMethod::Load {
        Some(3)
    } else if ordering == "AcqRel"@ && method == GlobalMethod::AtomicAdd {
        Some(4)
    } else {
        None
    }
}

/// The number of a load's ordering.
pub fn load_ordering_value(ordering: &str) -> (r: Option<i64>)
    ensures
        r == ordering_value(GlobalMethod::Load, ordering@),
{
    if same_text(ordering, "Relaxed") {
        Some(1)
    } else if same_text(ordering, "Acquire") {
        Some(2)
    } else {
        None
    }
}

/// The number of a store's ordering.
pub fn store_ordering_value(ordering: &str) -> (r: Option<i64>)
    ensures
        r == ordering_value(GlobalMethod::Store, ordering@),
{
    proof {
        reveal_strlit("Acquire");
        reveal_strlit("Release");
    }
    if same_text(ordering, "Relaxed") {
        Some(1)
    } else if same_text(ordering, "Release") {
        Some(3)
    } else {
        None
    }
}

/// The number of an atomic operation's ordering.
pub fn atomic_ordering_value(ordering: &str) -> (r: Option<i64>)
    ensures
        r == ordering_value(GlobalMethod::AtomicAdd, ordering@),
{
    if same_text(ordering, "Relaxed") {
        Some(1)
    } else if same_text(ordering, "Acquire") {
        Some(2)
    } else if same_text(ordering, "Release") {
        Some(3)
    } else if same_text(ordering, "AcqRel") {
        Some(4)
    } else {
        None
    }
}

/// The scalar type behind an atomic type.
pub open spec fn payload_type(name: Seq<char>) -> Option<Seq<char>> {
    if name == "AtomicI32"@ {
        Some("i32"@)
    } else if name == "AtomicU32"@ {
        Some("u32"@)
    } else if name == "AtomicI64"@ {
        Some("i64"@)
    } else if name == "AtomicU64"@ {
        Some("u64"@)
    } else if name == "AtomicF32"@ {
        Some("f32"@)
    } else if name == "AtomicF64"@ {
        Some("f64"@)
    } else {
        None
    }
}

/// The scalar type behind an atomic type.
pub fn atomic_payload_type(name: &str) -> (r: Option<&'static str>)
    ensures
        match r {
            Some(s) => payload_type(name@) == Some(s@),
            None => payload_type(name@) is None,
        },
{
    if same_text(name, "AtomicI32") {
        Some("i32")
    } else if same_text(name, "AtomicU32") {
        Some("u32")
    } else if same_text(name, "AtomicI64") {
        Some("i64")
    } else if same_text(name, "AtomicU64") {
        Some("u64")
    } else if same_text(name, "AtomicF32") {
        Some("f32")
    } else if same_text(name, "AtomicF64") {
        Some("f64")
    } else {
        None
    }
}

/// The size to which a scalar is aligned.
pub open spec fn alignment_of(scalar: ScalarType) -> u64 {
    match scalar {
        ScalarType::I16 | ScalarType::F16 | ScalarType::BF16 => 2,
        ScalarType::I32 | ScalarType::F32 | ScalarType::TF32 => 4,
        ScalarType::I64 | ScalarType::F64 => 8,
        _ => 1,
    }
}

/// The size to which a scalar is aligned.
pub fn scalar_alignment(scalar: ScalarType) -> (r: u64)
    ensures
        r == alignment_of(scalar),
{
    match scalar {
        ScalarType::I1 => 1,
        ScalarType::I4 => 1,
        ScalarType::I8 => 1,
        ScalarType::F4E2M1FN => 1,
        ScalarType::F8E4M3FN => 1,
        ScalarType::F8E5M2 => 1,
        ScalarType::F8E8M0FNU => 1,
        ScalarType::I16 => 2,
        ScalarType::F16 => 2,
        ScalarType::BF16 => 2,
        ScalarType::I32 => 4,
        ScalarType::F32 => 4,
        ScalarType::TF32 => 4,
        ScalarType::I64 => 8,
        ScalarType::F64 => 8,
    }
}

/// Whether a character may stand in a symbol.
pub open spec fn in_symbol(c: char) -> bool {
    ('a' <= c <= 'z') || ('A' <= c <= 'Z') || ('0' <= c <= '9') || c == '_'
}

/// A character of a symbol: what may not stand there becomes an underscore.
pub open spec fn symbol_char(c: char) -> char {
    if in_symbol(c) {
        c
    } else {
        '_'
    }
}

/// The symbol of a global: its module and its name, joined by an underscore.
pub open spec fn symbol_name(module_name: Seq<char>, name: Seq<char>) -> Seq<char> {
    (module_name.push('_') + name).map_values(|c: char| symbol_char(c))
}

/// One character as text.
fn char_text(s: &str, i: usize) -> (r: String)
    requires
        i < s@.len(),
    ensures
        r@ == seq![symbol_char(s@[i as int])],
{
    let n: usize = s.unicode_len();
    let c: char = s.get_char(i);
    if ('a' <= c && c <= 'z') || ('A' <= c && c <= 'Z') || ('0' <= c && c <= '9') || c == '_' {
        let t: &str = s.substring_char(i, i + 1);
        assert(t@ =~= seq![s@[i as int]]);
        t.to_owned()
    } else {
        proof {
            reveal_strlit("_");
        }
        assert("_"@ =~= seq!['_']);
        "_".to_owned()
    }
}

/// The symbol of a global.
pub fn global_symbol_name(module_name: &str, name: &str) -> (r: String)
    ensures
        r@ == symbol_name(module_name@, name@),
{
    proof {
        reveal_strlit("_");
    }
    let head = joined(module_name, "_");
    let whole = joined(head.as_str(), name);
    assert(whole@ =~= module_name@.push('_') + name@);
    let ghost target = symbol_name(module_name@, name@);
    let mut out = String::new();
    let n: usize = whole.as_str().unicode_len();
    let mut i: usize = 0;
    assert(out@ =~= target.take(0));
    while i < n
        invariant
            n == whole@.len(),
            i <= n,
            whole@ == module_name@.push('_') + name@,
            target == symbol_name(module_name@, name@),
            out@ == target.take(i as int),
        decreases n - i,
    {
        let c = char_text(whole.as_str(), i);
        out.append(c.as_str());
        assert(out@ =~= target.take(i + 1));
        i = i + 1;
    }
    assert(target.take(i as int) =~= target);
    out
}

// ---------------------------------------------------------------------------
// Declarations
// ---------------------------------------------------------------------------

/// The integer that an expression writes: a literal, negated or in
/// parentheses.
pub open spec fn written_i32(e: Expr) -> Option<i32>
    decreases e,
{
    match e {
        Expr::Lit(Lit::Int(digits)) => match text::decimal_below(digits@, 0x8000_0000) {
            Some(v) => Some(v as i32),
            None => None,
        },
        Expr::Unary(UnOp::Neg, x) => match written_i32(*x) {
            Some(v) => Some((-v) as i32),
            None => None,
        },
        Expr::Paren(x) => written_i32(*x),
        _ => None,
    }
}

/// The integer that an expression writes.
pub fn expr_i32(expr: &Expr) -> (r: Option<i32>)
    ensures
        r == written_i32(*expr),
        r is Some ==> r->Some_0 > -0x8000_0000,
    decreases expr,
{
    match expr {
        Expr::Lit(lit) => match lit {
            Lit::Int(digits) => match text::parse_decimal(digits.as_str(), 0x8000_0000) {
                Some(v) => Some(v as i32),
                None => None,
            },
            _ => None,
        },
        Expr::Unary(op, x) => {
            if *op == UnOp::Neg {
                match expr_i32(x) {
                    Some(v) => Some(-v),
                    None => None,
                }
            } else {
                None
            }
        },
        Expr::Paren(x) => expr_i32(x),
        _ => None,
    }
}

/// The integers that the first `n` expressions write.
pub open spec fn written_list(s: Seq<Expr>, n: int) -> Option<Seq<i32>>
    decreases n,
{
    if n <= 0 {
        Some(Seq::empty())
    } else {
        match (written_list(s, n - 1), written_i32(s[n - 1])) {
            (Some(t), Some(v)) => Some(t.push(v)),
            _ => None,
        }
    }
}

/// The shape that a constant argument writes: a list of integers, or one
/// integer a number of times, in a block or in parentheses.
pub open spec fn written_shape(e: Expr) -> Option<Seq<i32>>
    decreases e,
{
    match e {
        Expr::Block(stmts) => if stmts@.len() == 1 {
            match stmts@[0] {
                Stmt::Expr(x) => written_shape(x),
                Stmt::Other => None,
            }
        } else {
            None
        },
        Expr::Array(elems) => written_list(elems@, elems@.len() as int),
        Expr::Repeat(x, len) => match (written_i32(*x), written_i32(*len)) {
            (Some(v), Some(n)) => Some(Seq::new(n as nat, |i: int| v)),
            _ => None,
        },
        Expr::Paren(x) => written_shape(*x),
        _ => None,
    }
}

/// No list is to be repeated a negative number of times.
pub open spec fn countable(e: Expr) -> bool
    decreases e,
{
    match e {
        Expr::Block(stmts) => stmts@.len() == 1 ==> match stmts@[0] {
            Stmt::Expr(x) => countable(x),
            Stmt::Other => true,
        },
        Expr::Repeat(_, len) => written_i32(*len) matches Some(n) ==> n >= 0,
        Expr::Paren(x) => countable(*x),
        _ => true,
    }
}

proof fn lemma_list_none(s: Seq<Expr>, k: int, n: int)
    requires
        0 <= k <= n,
        written_list(s, k) is None,
    ensures
        written_list(s, n) is None,
    decreases n,
{
    if k < n {
        lemma_list_none(s, k, n - 1);
    }
}

/// The shape that a constant argument writes.
pub fn const_shape_expr(expr: &Expr) -> (r: Option<Vec<i32>>)
    requires
        countable(*expr),
    ensures
        match r {
            Some(v) => written_shape(*expr) == Some(v@),
            None => written_shape(*expr) is None,
        },
    decreases expr,
{
    match expr {
        Expr::Block(stmts) => {
            if stmts.len() != 1 {
                return None;
            }
            match &stmts[0] {
                Stmt::Expr(x) => const_shape_expr(x),
                Stmt::Other => None,
            }
        },
        Expr::Array(elems) => {
            let mut out: Vec<i32> = Vec::new();
            let mut i: usize = 0;
            while i < elems.len()
                invariant
                    i <= elems@.len(),
                    *expr == Expr::Array(*elems),
                    written_list(elems@, i as int) == Some(out@),
                decreases elems@.len() - i,
            {
                match expr_i32(&elems[i]) {
                    Some(v) => out.push(v),
                    None => {
                        proof {
                            lemma_list_none(elems@, i + 1, elems@.len() as int);
                        }
                        return None;
                    },
                }
                i = i + 1;
            }
            Some(out)
        },
        Expr::Repeat(x, len) => {
            let value: i32 = match expr_i32(x) {
                Some(v) => v,
                None => {
                    return None;
                },
            };
            let n: i32 = match expr_i32(len) {
                Some(n) => n,
                None => {
                    return None;
                },
            };
            let ghost whole = Seq::new(n as nat, |i: int| value);
            let mut out: Vec<i32> = Vec::new();
            let mut i: i32 = 0;
            assert(out@ =~= whole.take(0));
            while i < n
                invariant
                    0 <= i <= n,
                    whole == Seq::new(n as nat, |j: int| value),
                    out@ == whole.take(i as int),
                decreases n - i,
            {
                out.push(value);
                assert(out@ =~= whole.take(i + 1));
                i = i + 1;
            }
            assert(whole.take(n as int) =~= whole);
            Some(out)
        },
        Expr::Paren(x) => const_shape_expr(x),
        _ => None,
    }
}

/// The generic arguments of a type: those of its path's last segment.
pub open spec fn type_args(ty: RustType) -> Option<Seq<GenericArg>> {
    match ty {
        RustType::Path(p) => if p.segments@.len() > 0 {
            match p.segments@.last().arguments {
                PathArgs::Angle(args) => Some(args@),
                _ => None,
            }
        } else {
            None
        },
        _ => None,
    }
}

/// Where the first type argument stands, from `from` on.
pub open spec fn first_type(args: Seq<GenericArg>, from: int) -> Option<int>
    decreases args.len() - from,
{
    if from < 0 || from >= args.len() {
        None
    } else if args[from] is Type {
        Some(from)
    } else {
        first_type(args, from + 1)
    }
}

/// The shape that the first constant argument with a shape writes, from `from`
/// on.
pub open spec fn first_shape(args: Seq<GenericArg>, from: int) -> Option<Seq<i32>>
    decreases args.len() - from,
{
    if from < 0 || from >= args.len() {
        None
    } else {
        match args[from] {
            GenericArg::Const(e) => match written_shape(e) {
                Some(s) => Some(s),
                None => first_shape(args, from + 1),
            },
            _ => first_shape(args, from + 1),
        }
    }
}

fn angle_args(ty: &RustType) -> (r: Option<&Vec<GenericArg>>)
    ensures
        match r {
            Some(v) => type_args(*ty) == Some(v@),
            None => type_args(*ty) is None,
        },
{
    match ty {
        RustType::Path(p) => {
            if p.segments.len() == 0 {
                return None;
            }
            match &p.segments[p.segments.len() - 1].arguments {
                PathArgs::Angle(args) => Some(args),
                _ => None,
            }
        },
        _ => None,
    }
}

/// The element type of a global: the first type argument.
pub fn global_element_type(ty: &RustType) -> (r: Option<&RustType>)
    ensures
        match type_args(*ty) {
            Some(args) => match first_type(args, 0) {
                Some(i) => r is Some && args[i] == GenericArg::Type(*r->Some_0),
                None => r is None,
            },
            None => r is None,
        },
{
    let args = match angle_args(ty) {
        Some(args) => args,
        None => {
            return None;
        },
    };
    let mut i: usize = 0;
    while i < args.len()
        invariant
            i <= args@.len(),
            first_type(args@, 0) == first_type(args@, i as int),
            type_args(*ty) == Some(args@),
        decreases args@.len() - i,
    {
        match &args[i] {
            GenericArg::Type(t) => {
                return Some(t);
            },
            _ => {},
        }
        i = i + 1;
    }
    None
}

/// The shape of a global: the first constant argument that writes one.
pub fn global_shape(ty: &RustType) -> (r: Option<Vec<i32>>)
    requires
        type_args(*ty) matches Some(args) ==> forall|i: int|
            0 <= i < args.len() ==> ((#[trigger] args[i]) matches GenericArg::Const(e) ==> countable(
                e,
            )),
    ensures
        match type_args(*ty) {
            Some(args) => match first_shape(args, 0) {
                Some(s) => r is Some && r->Some_0@ == s,
                None => r is None,
            },
            None => r is None,
        },
{
    let args = match angle_args(ty) {
        Some(args) => args,
        None => {
            return None;
        },
    };
    let mut i: usize = 0;
    while i < args.len()
        invariant
            i <= args@.len(),
            first_shape(args@, 0) == first_shape(args@, i as int),
            type_args(*ty) == Some(args@),
            forall|j: int|
                0 <= j < args@.len() ==> ((#[trigger] args@[j]) matches GenericArg::Const(e)
                    ==> countable(e)),
        decreases args@.len() - i,
    {
        assert(args@[i as int] matches GenericArg::Const(e) ==> countable(e));
        match &args[i] {
            GenericArg::Const(e) => match const_shape_expr(e) {
                Some(s) => {
                    return Some(s);
                },
                None => {},
            },
            _ => {},
        }
        i = i + 1;
    }
    None
}

/// The expression that an initializer `Global::new(x)` wraps.
pub open spec fn initializer(e: Expr) -> Result<Expr, GlobalError> {
    match e {
        Expr::Call(f, args) => if called_new(*f) && args@.len() == 1 {
            Ok(args@[0])
        } else {
            Err(GlobalError::Initializer)
        },
        _ => Err(GlobalError::Initializer),
    }
}

/// Whether the called path ends in `new`.
pub open spec fn called_new(f: Expr) -> bool {
    match f {
        Expr::Path(p) => p.segments@.len() > 0 && p.segments@.last().ident@ == "new"@,
        _ => false,
    }
}

/// Whether the called path ends in `new`.
pub fn call_path_ends_with_new(func: &Expr) -> (r: bool)
    ensures
        r == called_new(*func),
{
    match func {
        Expr::Path(p) => p.segments.len() > 0 && same_text(
            p.segments[p.segments.len() - 1].ident.as_str(),
            "new",
        ),
        _ => false,
    }
}

/// The expression that an initializer wraps.
pub fn global_static_initializer(expr: &Expr) -> (r: Result<&Expr, GlobalError>)
    ensures
        match initializer(*expr) {
            Ok(x) => r is Ok && *r->Ok_0 == x,
            Err(e) => r is Err && r->Err_0 == e,
        },
{
    match expr {
        Expr::Call(f, args) => {
            if call_path_ends_with_new(f) && args.len() == 1 {
                Ok(&args[0])
            } else {
                Err(GlobalError::Initializer)
            }
        },
        _ => Err(GlobalError::Initializer),
    }
}

/// The text of a scalar literal: truth is one, a number keeps its digits, and
/// one minus sign may stand in front of a number.
pub open spec fn scalar_text(e: Expr) -> Option<Seq<char>>
    decreases e,
{
    match e {
        Expr::Lit(Lit::Bool(b)) => Some(
            if b {
                "1"@
            } else {
                "0"@
            },
        ),
        Expr::Lit(Lit::Int(d)) => Some(d@),
        Expr::Lit(Lit::Float(d)) => Some(d@),
        Expr::Unary(UnOp::Neg, x) => match *x {
            Expr::Lit(Lit::Int(d)) => Some("-"@ + d@),
            Expr::Lit(Lit::Float(d)) => Some("-"@ + d@),
            _ => None,
        },
        Expr::Paren(x) => scalar_text(*x),
        _ => None,
    }
}

/// The text of a scalar literal.
pub fn literal_scalar_value(expr: &Expr) -> (r: Option<String>)
    ensures
        match r {
            Some(s) => scalar_text(*expr) == Some(s@),
            None => scalar_text(*expr) is None,
        },
    decreases expr,
{
    match expr {
        Expr::Lit(lit) => match lit {
            Lit::Bool(b) => if *b {
                Some("1".to_owned())
            } else {
                Some("0".to_owned())
            },
            Lit::Int(d) => Some(d.as_str().to_owned()),
            Lit::Float(d) => Some(d.as_str().to_owned()),
            _ => None,
        },
        Expr::Unary(op, x) => {
            if *op != UnOp::Neg {
                return None;
            }
            match &**x {
                Expr::Lit(lit) => match lit {
                    Lit::Int(d) => Some(joined("-", d.as_str())),
                    Lit::Float(d) => Some(joined("-", d.as_str())),
                    _ => None,
                },
                _ => None,
            }
        },
        Expr::Paren(x) => literal_scalar_value(x),
        _ => None,
    }
}

/// A global that holds one scalar: public, not constant, aligned to its size.
pub open spec fn scalar_global(symbol: Seq<char>, scalar: ScalarType, data: Seq<u8>) -> GlobalV {
    GlobalV {
        sym_name: symbol,
        value: DenseV {
            element_type: TypeV::Tile(seq![1i64], TileElementType::Scalar(scalar)),
            shape: seq![1i64],
            data,
        },
        alignment: alignment_of(scalar),
        constant: false,
        symbol_visibility: SymbolVisibility::Public,
    }
}

/// Add a global with an encoded initial value; only globals without dimensions
/// are supported.
pub fn emit_global(
    module: &mut Module,
    symbol: String,
    scalar: ScalarType,
    shape: &Vec<i32>,
    data: Vec<u8>,
) -> (r: Result<(), GlobalError>)
    ensures
        if shape@.len() == 0 {
            r is Ok && final(module)@ == (ModuleV {
                globals: old(module)@.globals.push(scalar_global(symbol@, scalar, data@)),
                ..old(module)@
            })
        } else {
            r == Err::<(), GlobalError>(GlobalError::Shaped) && final(module)@ == old(module)@
        },
{
    if shape.len() != 0 {
        return Err(GlobalError::Shaped);
    }
    let mut dims: Vec<i64> = Vec::new();
    dims.push(1);
    let mut tile: Vec<i64> = Vec::new();
    tile.push(1);
    let g = Global {
        sym_name: symbol,
        value: DenseElements {
            element_type: Type::Tile(
                TileType { shape: tile, element_type: TileElementType::Scalar(scalar) },
            ),
            shape: dims,
            data,
        },
        alignment: scalar_alignment(scalar),
        constant: false,
        symbol_visibility: SymbolVisibility::Public,
    };
    assert(g@.value.shape =~= seq![1i64]);
    assert(tile@ =~= seq![1i64]);
    assert(g@ =~= scalar_global(symbol@, scalar, data@));
    module.push_global(g);
    Ok(())
}

// ---------------------------------------------------------------------------
// Calls
// ---------------------------------------------------------------------------

/// What a method name and a number of arguments ask for.
pub open spec fn called_method(name: Seq<char>, shaped: bool, args: nat) -> Result<
    GlobalMethod,
    GlobalError,
> {
    if shaped {
        Err(GlobalError::Shaped)
    } else if name == "load"@ {
        if args == 2 {
            Ok(GlobalMethod::Load)
        } else {
            Err(GlobalError::ArgumentCount)
        }
    } else if name == "store"@ {
        if args == 3 {
            Ok(GlobalMethod::Store)
        } else {
            Err(GlobalError::ArgumentCount)
        }
    } else if name == "atomic_add"@ {
        if args == 3 {
            Ok(GlobalMethod::AtomicAdd)
        } else {
            Err(GlobalError::ArgumentCount)
        }
    } else {
        Err(GlobalError::UnsupportedMethod)
    }
}

/// What a method call on a global asks for.
pub fn global_method(name: &str, shape: &Vec<i32>, args: usize) -> (r: Result<
    GlobalMethod,
    GlobalError,
>)
    ensures
        r == called_method(name@, shape@.len() > 0, args as nat),
{
    if shape.len() != 0 {
        return Err(GlobalError::Shaped);
    }
    if same_text(name, "load") {
        if args == 2 {
            Ok(GlobalMethod::Load)
        } else {
            Err(GlobalError::ArgumentCount)
        }
    } else if same_text(name, "store") {
        if args == 3 {
            Ok(GlobalMethod::Store)
        } else {
            Err(GlobalError::ArgumentCount)
        }
    } else if same_text(name, "atomic_add") {
        if args == 3 {
            Ok(GlobalMethod::AtomicAdd)
        } else {
            Err(GlobalError::ArgumentCount)
        }
    } else {
        Err(GlobalError::UnsupportedMethod)
    }
}

/// The operation that gets a global's pointer.
pub open spec fn pointer_op(symbol: Seq<char>, ptr_ty: TypeV, location: LocationV) -> OperationV {
    OperationV {
        opcode: Opcode::GetGlobal,
        operands: seq![],
        result_types: seq![ptr_ty],
        attributes: seq![("name"@, AttrV::Str(symbol))],
        regions: seq![],
        location,
    }
}

/// Four operand segments.
pub open spec fn segments(a: i64, b: i64) -> AttrV {
    AttrV::Array(seq![attr::i32_attr(a), attr::i32_attr(b), attr::i32_attr(0), attr::i32_attr(0)])
}

/// The operation that an access becomes. A load and an atomic addition give the
/// value and a token, a store gives a token.
pub open spec fn access_op(
    method: GlobalMethod,
    ptr: Value,
    value: Value,
    tile_ty: TypeV,
    ordering: i64,
    scope: i64,
    mode: i64,
    location: LocationV,
) -> OperationV {
    OperationV {
        opcode: match method {
            GlobalMethod::Load => Opcode::LoadPtrTko,
            GlobalMethod::Store => Opcode::StorePtrTko,
            GlobalMethod::AtomicAdd => Opcode::AtomicRMW,
        },
        operands: if method == GlobalMethod::Load {
            seq![ptr]
        } else {
            seq![ptr, value]
        },
        result_types: if method == GlobalMethod::Store {
            seq![TypeV::Token]
        } else {
            seq![tile_ty, TypeV::Token]
        },
        attributes: match method {
            GlobalMethod::Load => seq![
                ("memory_ordering_semantics"@, attr::i32_attr(ordering)),
                ("memory_scope"@, attr::i32_attr(scope)),
                ("operandSegmentSizes"@, segments(1, 0)),
            ],
            GlobalMethod::Store => seq![
                ("memory_ordering_semantics"@, attr::i32_attr(ordering)),
                ("memory_scope"@, attr::i32_attr(scope)),
                ("operandSegmentSizes"@, segments(1, 1)),
            ],
            GlobalMethod::AtomicAdd => seq![
                ("memory_ordering_semantics"@, attr::i32_attr(ordering)),
                ("memory_scope"@, attr::i32_attr(scope)),
                ("mode"@, attr::i32_attr(mode)),
                ("operandSegmentSizes"@, segments(1, 1)),
            ],
        },
        regions: seq![],
        location,
    }
}

/// A module with an operation at the end of a block.
pub open spec fn emitted(m: ModuleV, block: BlockId, op: OperationV) -> ModuleV {
    builder::with_appended(builder::with_op(m, op), block, OpId(m.ops.len() as u32))
}

/// Get a global's pointer.
pub fn compile_global_ptr(
    module: &mut Module,
    block: BlockId,
    symbol: &str,
    ptr_ty: Type,
    location: Location,
) -> (v: Value)
    requires
        block.0 < old(module)@.blocks.len(),
    ensures
        v == Value(old(module)@.values.len() as u32),
        global_laws::added(old(module)@, block, final(module)@, final(module)@.ops.last()),
        final(module)@ == emitted(
            old(module)@,
            block,
            pointer_op(symbol@, ptr_ty@, location@),
        ),
{
    let b = OpBuilder::new(Opcode::GetGlobal, location).result(ptr_ty).attr(
        "name",
        Attribute::String(symbol.to_owned()),
    );
    assert(b@ =~= pointer_op(symbol@, ptr_ty@, location@));
    proof {
        global_laws::lemma_emitted(module@, block, b@);
    }
    let (id, results) = b.build(module);
    append_op(module, block, id);
    results[0]
}

fn segments_attr(a: i64, b: i64) -> (r: Attribute)
    ensures
        r@ == segments(a, b),
{
    let mut v: Vec<Attribute> = Vec::new();
    v.push(Attribute::i32(a));
    v.push(Attribute::i32(b));
    v.push(Attribute::i32(0));
    v.push(Attribute::i32(0));
    let ghost s = v@;
    assert(attr::attrs_view(s) =~= seq![
        attr::i32_attr(a),
        attr::i32_attr(b),
        attr::i32_attr(0),
        attr::i32_attr(0),
    ]);
    Attribute::Array(v)
}

/// The numbers of an access's ordering and scope, or what is wrong with them;
/// the ordering is looked at first.
pub open spec fn access_numbers(
    method: GlobalMethod,
    ordering: Seq<char>,
    scope: Seq<char>,
) -> Result<(i64, i64), GlobalError> {
    match ordering_value(method, ordering) {
        Some(o) => match scope_value(scope) {
            Some(s) => Ok((o, s)),
            None => Err(GlobalError::Scope),
        },
        None => Err(GlobalError::MemoryOrder),
    }
}

fn access_values(method: GlobalMethod, ordering: &str, scope: &str) -> (r: Result<
    (i64, i64),
    GlobalError,
>)
    ensures
        r == access_numbers(method, ordering@, scope@),
{
    let o = match method {
        GlobalMethod::Load => load_ordering_value(ordering),
        GlobalMethod::Store => store_ordering_value(ordering),
        GlobalMethod::AtomicAdd => atomic_ordering_value(ordering),
    };
    match o {
        Some(o) => match memory_scope_value(scope) {
            Some(s) => Ok((o, s)),
            None => Err(GlobalError::Scope),
        },
        None => Err(GlobalError::MemoryOrder),
    }
}

/// Load from a global: the value and a token.
pub fn compile_global_load(
    module: &mut Module,
    block: BlockId,
    ptr: Value,
    tile_ty: Type,
    ordering: &str,
    scope: &str,
    location: Location,
) -> (r: Result<(Value, Value), GlobalError>)
    requires
        block.0 < old(module)@.blocks.len(),
    ensures
        match access_numbers(GlobalMethod::Load, ordering@, scope@) {
            Ok((o, s)) => {
                &&& r is Ok
                &&& r->Ok_0.0 == assemble::fresh(old(module)@, 2)[0]
                &&& r->Ok_0.1 == assemble::fresh(old(module)@, 2)[1]
                &&& final(module)@ == emitted(
                    old(module)@,
                    block,
                    access_op(GlobalMethod::Load, ptr, ptr, tile_ty@, o, s, 0, location@),
                )
                &&& global_laws::added(
                    old(module)@,
                    block,
                    final(module)@,
                    final(module)@.ops.last(),
                )
                &&& final(module)@.ops.last().opcode == Opcode::LoadPtrTko
                &&& final(module)@.ops.last().operands =~= seq![ptr]
                &&& final(module)@.ops.last().result_types =~= seq![tile_ty@, TypeV::Token]
            },
            Err(e) => r == Err::<(Value, Value), GlobalError>(e) && final(module)@ == old(module)@,
        },
{
    let (o, s) = access_values(GlobalMethod::Load, ordering, scope)?;
    let b = OpBuilder::new(Opcode::LoadPtrTko, location).result(tile_ty).result(Type::Token).operand(
        ptr,
    ).attr("memory_ordering_semantics", Attribute::i32(o)).attr(
        "memory_scope",
        Attribute::i32(s),
    ).attr("operandSegmentSizes", segments_attr(1, 0));
    proof {
        let want = access_op(GlobalMethod::Load, ptr, ptr, tile_ty@, o, s, 0, location@);
        assert(b@.operands =~= want.operands);
        assert(b@.result_types =~= want.result_types);
        assert(b@.attributes =~= want.attributes);
    }
    proof {
        global_laws::lemma_emitted(module@, block, b@);
    }
    let (id, results) = b.build(module);
    append_op(module, block, id);
    Ok((results[0], results[1]))
}

/// Store to a global: a token.
pub fn compile_global_store(
    module: &mut Module,
    block: BlockId,
    ptr: Value,
    value: Value,
    ordering: &str,
    scope: &str,
    location: Location,
) -> (r: Result<Value, GlobalError>)
    requires
        block.0 < old(module)@.blocks.len(),
    ensures
        match access_numbers(GlobalMethod::Store, ordering@, scope@) {
            Ok((o, s)) => {
                &&& r == Ok::<Value, GlobalError>(assemble::fresh(old(module)@, 1)[0])
                &&& final(module)@ == emitted(
                    old(module)@,
                    block,
                    access_op(
                        GlobalMethod::Store,
                        ptr,
                        value,
                        TypeV::Token,
                        o,
                        s,
                        0,
                        location@,
                    ),
                )
                &&& global_laws::added(
                    old(module)@,
                    block,
                    final(module)@,
                    final(module)@.ops.last(),
                )
                &&& final(module)@.ops.last().opcode == Opcode::StorePtrTko
                &&& final(module)@.ops.last().operands =~= seq![ptr, value]
                &&& final(module)@.ops.last().result_types =~= seq![TypeV::Token]
            },
            Err(e) => r == Err::<Value, GlobalError>(e) && final(module)@ == old(module)@,
        },
{
    let (o, s) = access_values(GlobalMethod::Store, ordering, scope)?;
    let b = OpBuilder::new(Opcode::StorePtrTko, location).result(Type::Token).operand(ptr).operand(
        value,
    ).attr("memory_ordering_semantics", Attribute::i32(o)).attr(
        "memory_scope",
        Attribute::i32(s),
    ).attr("operandSegmentSizes", segments_attr(1, 1));
    proof {
        let want = access_op(
            GlobalMethod::Store,
            ptr,
            value,
            TypeV::Token,
            o,
            s,
            0,
            location@,
        );
        assert(b@.operands =~= want.operands);
        assert(b@.result_types =~= want.result_types);
        assert(b@.attributes =~= want.attributes);
    }
    proof {
        global_laws::lemma_emitted(module@, block, b@);
    }
    let (id, results) = b.build(module);
    append_op(module, block, id);
    Ok(results[0])
}

/// The name of the addition that an element type calls for.
pub fn atomic_add_mode(element_is_float: bool) -> (r: &'static str)
    ensures
        r@ == (if element_is_float {
            "AddF"@
        } else {
            "Add"@
        }),
{
    if element_is_float {
        "AddF"
    } else {
        "Add"
    }
}

fn atomic_add_op(
    ptr: Value,
    value: Value,
    tile_ty: Type,
    order: i64,
    scope: i64,
    mode: i64,
    location: Location,
) -> (b: OpBuilder)
    ensures
        b@ == access_op(
            GlobalMethod::AtomicAdd,
            ptr,
            value,
            tile_ty@,
            order,
            scope,
            mode,
            location@,
        ),
{
    let b = OpBuilder::new(Opcode::AtomicRMW, location).result(tile_ty).result(Type::Token).operand(
        ptr,
    ).operand(value);
    assert(b@.operands =~= seq![ptr, value]);
    assert(b@.result_types =~= seq![tile_ty@, TypeV::Token]);
    let b = b.attr("memory_ordering_semantics", Attribute::i32(order)).attr(
        "memory_scope",
        Attribute::i32(scope),
    ).attr("mode", Attribute::i32(mode)).attr("operandSegmentSizes", segments_attr(1, 1));
    assert(b@.attributes =~= seq![
        ("memory_ordering_semantics"@, attr::i32_attr(order)),
        ("memory_scope"@, attr::i32_attr(scope)),
        ("mode"@, attr::i32_attr(mode)),
        ("operandSegmentSizes"@, segments(1, 1)),
    ]);
    b
}

/// Add to a global atomically: the value before and a token. `mode` is the
/// number of the addition that the element type calls for.
pub fn compile_global_atomic_add(
    module: &mut Module,
    block: BlockId,
    ptr: Value,
    value: Value,
    tile_ty: Type,
    ordering: &str,
    scope: &str,
    mode: i64,
    location: Location,
) -> (r: Result<(Value, Value), GlobalError>)
    requires
        block.0 < old(module)@.blocks.len(),
    ensures
        match access_numbers(GlobalMethod::AtomicAdd, ordering@, scope@) {
            Ok((o, s)) => {
                &&& r is Ok
                &&& r->Ok_0.0 == assemble::fresh(old(module)@, 2)[0]
                &&& r->Ok_0.1 == assemble::fresh(old(module)@, 2)[1]
                &&& final(module)@ == emitted(
                    old(module)@,
                    block,
                    access_op(
                        GlobalMethod::AtomicAdd,
                        ptr,
                        value,
                        tile_ty@,
                        o,
                        s,
                        mode,
                        location@,
                    ),
                )
                &&& global_laws::added(
                    old(module)@,
                    block,
                    final(module)@,
                    final(module)@.ops.last(),
                )
                &&& final(module)@.ops.last().opcode == Opcode::AtomicRMW
                &&& final(module)@.ops.last().operands =~= seq![ptr, value]
                &&& final(module)@.ops.last().result_types =~= seq![tile_ty@, TypeV::Token]
            },
            Err(e) => r == Err::<(Value, Value), GlobalError>(e) && final(module)@ == old(module)@,
        },
{
    let (o, s) = access_values(GlobalMethod::AtomicAdd, ordering, scope)?;
    let b = atomic_add_op(ptr, value, tile_ty, o, s, mode, location);
    proof {
        global_laws::lemma_emitted(module@, block, b@);
    }
    let (id, results) = b.build(module);
    append_op(module, block, id);
    Ok((results[0], results[1]))
}

/// Symbols are made of letters, digits and underscores.
pub proof fn lemma_symbol_clean(module_name: Seq<char>, name: Seq<char>, i: int)
    requires
        0 <= i < symbol_name(module_name, name).len(),
    ensures
        in_symbol(symbol_name(module_name, name)[i]),
        symbol_name(module_name, name).len() == module_name.len() + 1 + name.len(),
{
}

} // verus!
