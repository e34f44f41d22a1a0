//! What declarations of globals and accesses to them come down to.
use vstd::prelude::*;
use crate::bytecode::body_writer;
use crate::bytecode::opcode::Opcode;
use crate::frontend::globals::{GlobalError, GlobalMethod};
use crate::frontend::globals;
use crate::frontend::syntax::{Expr, GenericArg, Lit, Stmt, UnOp};
use crate::ir::attr::AttrV;
use crate::ir::location::LocationV;
use crate::ir::module::{BlockId, ModuleV, OpId, OperationV, SymbolVisibility, Value};
use crate::ir::types::{ScalarType, TileElementType, TypeV};
use crate::text;

verus! {

// ---------------------------------------------------------------------------
// Accesses
// ---------------------------------------------------------------------------

/// An integer attribute of an operation.
pub open spec fn int_attr(op: OperationV, name: Seq<char>) -> Option<i64> {
    match body_writer::find_attr(op.attributes, name) {
        Some(AttrV::Integer(v, TypeV::Scalar(ScalarType::I32))) => Some(v),
        _ => None,
    }
}

proof fn lemma_names_differ()
    ensures
        "memory_ordering_semantics"@.len() == 25,
        "memory_scope"@.len() == 12,
        "operandSegmentSizes"@.len() == 19,
        "mode"@.len() == 4,
        "name"@.len() == 4,
{
    reveal_strlit("memory_ordering_semantics");
    reveal_strlit("memory_scope");
    reveal_strlit("operandSegmentSizes");
    reveal_strlit("mode");
    reveal_strlit("name");
}

/// The operation is the last of the module and of its block; everything that was there
/// is as before.
pub open spec fn added(m: ModuleV, block: BlockId, r: ModuleV, op: OperationV) -> bool {
    &&& r.name == m.name
    &&& r.globals == m.globals
    &&& r.functions == m.functions
    &&& r.regions == m.regions
    &&& r.ops.len() == m.ops.len() + 1
    &&& r.ops.drop_last() == m.ops
    &&& r.ops.last() == op
    &&& r.blocks.len() == m.blocks.len()
    &&& r.blocks[block.0 as int].args == m.blocks[block.0 as int].args
    &&& r.blocks[block.0 as int].ops == m.blocks[block.0 as int].ops.push(
        OpId(m.ops.len() as u32),
    )
    &&& forall|i: int|
        0 <= i < m.blocks.len() && i != block.0 ==> #[trigger] r.blocks[i] == m.blocks[i]
    &&& r.values.take(m.values.len() as int) == m.values
}

/// An emitted operation is added at the end of its block.
pub proof fn lemma_emitted(m: ModuleV, block: BlockId, op: OperationV)
    requires
        block.0 < m.blocks.len(),
    ensures
        added(m, block, globals::emitted(m, block, op), op),
        globals::emitted(m, block, op).values.len() == m.values.len() + op.result_types.len(),
{
    let r = globals::emitted(m, block, op);
    assert(r.ops.drop_last() =~= m.ops);
    assert(r.values.take(m.values.len() as int) =~= m.values);
    assert(r.blocks[block.0 as int].ops =~= m.blocks[block.0 as int].ops.push(
        OpId(m.ops.len() as u32),
    ));
}

/// What an access to a global is: its operation, and what stands in each of its places.
/// The pointer comes first; what is stored or added comes second; the ordering and the
/// scope stand under their own names; the groups of operands take all operands.
pub proof fn lemma_access(
    method: GlobalMethod,
    ptr: Value,
    value: Value,
    tile_ty: TypeV,
    ordering: i64,
    scope: i64,
    mode: i64,
    location: LocationV,
)
    ensures
        ({
            let op = globals::access_op(
                method,
                ptr,
                value,
                tile_ty,
                ordering,
                scope,
                mode,
                location,
            );
            &&& op.operands[0] == ptr
            &&& int_attr(op, "memory_ordering_semantics"@) == Some(ordering)
            &&& int_attr(op, "memory_scope"@) == Some(scope)
            &&& op.regions.len() == 0
            &&& op.location == location
            &&& op.result_types.last() == TypeV::Token
            &&& match method {
                GlobalMethod::Load => {
                    &&& op.opcode == Opcode::LoadPtrTko
                    &&& op.operands.len() == 1
                    &&& op.result_types.len() == 2
                    &&& op.result_types[0] == tile_ty
                    &&& op.attributes.len() == 3
                    &&& groups(op, 1, 0)
                },
                GlobalMethod::Store => {
                    &&& op.opcode == Opcode::StorePtrTko
                    &&& op.operands.len() == 2
                    &&& op.operands[1] == value
                    &&& op.result_types.len() == 1
                    &&& op.attributes.len() == 3
                    &&& groups(op, 1, 1)
                },
                GlobalMethod::AtomicAdd => {
                    &&& op.opcode == Opcode::AtomicRMW
                    &&& op.operands.len() == 2
                    &&& op.operands[1] == value
                    &&& op.result_types.len() == 2
                    &&& op.result_types[0] == tile_ty
                    &&& int_attr(op, "mode"@) == Some(mode)
                    &&& op.attributes.len() == 4
                    &&& groups(op, 1, 1)
                },
            }
        }),
{
    lemma_names_differ();
    reveal_with_fuel(body_writer::find_attr_in, 6);
}

/// The first groups of operands have these sizes, and two more are empty.
pub open spec fn groups(op: OperationV, a: i64, b: i64) -> bool {
    body_writer::find_attr(op.attributes, "operandSegmentSizes"@) matches Some(AttrV::Array(s))
        && s.len() == 4 && s[0] == AttrV::Integer(a, TypeV::Scalar(ScalarType::I32)) && s[1]
        == AttrV::Integer(b, TypeV::Scalar(ScalarType::I32)) && s[2] == AttrV::Integer(
        0,
        TypeV::Scalar(ScalarType::I32),
    ) && s[3] == AttrV::Integer(0, TypeV::Scalar(ScalarType::I32))
}

/// A pointer to a global is got under the global's symbol.
pub proof fn lemma_pointer(symbol: Seq<char>, ty: TypeV, location: LocationV)
    ensures
        ({
            let op = globals::pointer_op(symbol, ty, location);
            &&& op.opcode == Opcode::GetGlobal
            &&& op.operands.len() == 0
            &&& op.result_types.len() == 1
            &&& op.result_types[0] == ty
            &&& op.regions.len() == 0
            &&& op.location == location
            &&& body_writer::find_attr(op.attributes, "name"@) == Some(AttrV::Str(symbol))
        }),
{
    reveal_with_fuel(body_writer::find_attr_in, 3);
}

/// The number of a memory ordering.
pub open spec fn order_number(ordering: Seq<char>) -> Option<i64> {
    if ordering == "Relaxed"@ {
        Some(1)
    } else if ordering == "Acquire"@ {
        Some(2)
    } else if ordering == "Release"@ {
        Some(3)
    } else if ordering == "AcqRel"@ {
        Some(4)
    } else {
        None
    }
}

proof fn lemma_orders_differ()
    ensures
        "Relaxed"@ != "Acquire"@,
        "Relaxed"@ != "Release"@,
        "Acquire"@ != "Release"@,
        "AcqRel"@.len() == 6,
        "Relaxed"@.len() == 7,
        "Acquire"@.len() == 7,
        "Release"@.len() == 7,
{
    reveal_strlit("Relaxed");
    reveal_strlit("Acquire");
    reveal_strlit("Release");
    reveal_strlit("AcqRel");
    assert("Relaxed"@[2] != "Release"@[3]);
    assert("Relaxed"@[3] == 'a' && "Release"@[3] == 'e');
    assert("Acquire"@[0] == 'A' && "Relaxed"@[0] == 'R' && "Release"@[0] == 'R');
}

/// An ordering has one number, whatever the access. What reads may acquire, what writes
/// may release, and what does both may do both at once.
pub proof fn lemma_orderings(method: GlobalMethod, ordering: Seq<char>)
    ensures
        globals::ordering_value(method, ordering) matches Some(n) ==> order_number(ordering)
            == Some(n),
        globals::ordering_value(method, "Relaxed"@) is Some,
        globals::ordering_value(method, "Acquire"@) is Some <==> method != GlobalMethod::Store,
        globals::ordering_value(method, "Release"@) is Some <==> method != GlobalMethod::Load,
        globals::ordering_value(method, "AcqRel"@) is Some <==> method == GlobalMethod::AtomicAdd,
{
    lemma_orders_differ();
}

/// The scopes: the device is one, the system two.
pub proof fn lemma_scopes(scope: Seq<char>)
    ensures
        globals::scope_value("Device"@) == Some(1i64),
        globals::scope_value("System"@) == Some(2i64),
        globals::scope_value(scope) is Some ==> scope == "Device"@ || scope == "System"@,
{
    reveal_strlit("Device");
    reveal_strlit("System");
    assert("Device"@[0] != "System"@[0]);
}

/// An access is refused for its ordering before its scope is looked at.
pub proof fn lemma_numbers(method: GlobalMethod, ordering: Seq<char>, scope: Seq<char>)
    ensures
        match globals::access_numbers(method, ordering, scope) {
            Ok((o, s)) => order_number(ordering) == Some(o) && globals::scope_value(scope) == Some(s),
            Err(e) => e == (if globals::ordering_value(method, ordering) is None {
                GlobalError::MemoryOrder
            } else {
                GlobalError::Scope
            }),
        },
{
    lemma_orderings(method, ordering);
}

/// A method is called by its own name: loading takes an ordering and a scope, storing and
/// adding a value as well. Globals with dimensions have no methods.
pub proof fn lemma_methods(name: Seq<char>, args: nat)
    ensures
        globals::called_method(name, true, args) == Err::<GlobalMethod, GlobalError>(
            GlobalError::Shaped,
        ),
        globals::called_method("load"@, false, 2) == Ok::<GlobalMethod, GlobalError>(
            GlobalMethod::Load,
        ),
        globals::called_method("store"@, false, 3) == Ok::<GlobalMethod, GlobalError>(
            GlobalMethod::Store,
        ),
        globals::called_method("atomic_add"@, false, 3) == Ok::<GlobalMethod, GlobalError>(
            GlobalMethod::AtomicAdd,
        ),
        globals::called_method(name, false, args) matches Ok(m) ==> match m {
            GlobalMethod::Load => name == "load"@ && args == 2,
            GlobalMethod::Store => name == "store"@ && args == 3,
            GlobalMethod::AtomicAdd => name == "atomic_add"@ && args == 3,
        },
        globals::called_method(name, false, args) matches Err(e) ==> e == (if name == "load"@
            || name == "store"@ || name == "atomic_add"@ {
            GlobalError::ArgumentCount
        } else {
            GlobalError::UnsupportedMethod
        }),
{
    reveal_strlit("load");
    reveal_strlit("store");
    reveal_strlit("atomic_add");
    assert("load"@.len() == 4 && "store"@.len() == 5 && "atomic_add"@.len() == 10);
}

// ---------------------------------------------------------------------------
// Types
// ---------------------------------------------------------------------------

/// The number of bits in which a scalar is stored.
pub open spec fn stored_bits(s: ScalarType) -> u64 {
    match s {
        ScalarType::I1 => 1,
        ScalarType::I4 | ScalarType::F4E2M1FN => 4,
        ScalarType::I8 | ScalarType::F8E4M3FN | ScalarType::F8E5M2 | ScalarType::F8E8M0FNU => 8,
        ScalarType::I16 | ScalarType::F16 | ScalarType::BF16 => 16,
        ScalarType::I32 | ScalarType::F32 | ScalarType::TF32 => 32,
        ScalarType::I64 | ScalarType::F64 => 64,
    }
}

/// A scalar is aligned to the bytes that it takes, at least one.
pub proof fn lemma_alignment(s: ScalarType)
    ensures
        globals::alignment_of(s) == (if stored_bits(s) < 8 {
            1
        } else {
            stored_bits(s) / 8
        }),
{
}

/// An atomic type is called like the scalar in it, with a capital letter and `Atomic` in
/// front.
pub proof fn lemma_payload(name: Seq<char>)
    ensures
        globals::payload_type(name) matches Some(p) ==> {
            &&& text::has_prefix(name, "Atomic"@)
            &&& name.len() == p.len() + 6
            &&& name[6] as u32 + 32 == p[0] as u32
            &&& name.skip(7) == p.skip(1)
        },
{
    reveal_strlit("Atomic");
    reveal_strlit("AtomicI32");
    reveal_strlit("AtomicU32");
    reveal_strlit("AtomicI64");
    reveal_strlit("AtomicU64");
    reveal_strlit("AtomicF32");
    reveal_strlit("AtomicF64");
    reveal_strlit("i32");
    reveal_strlit("u32");
    reveal_strlit("i64");
    reveal_strlit("u64");
    reveal_strlit("f32");
    reveal_strlit("f64");
    match globals::payload_type(name) {
        Some(p) => {
            assert(name.take(6) =~= "Atomic"@);
            assert(name.skip(7) =~= p.skip(1));
        },
        None => {},
    }
}

/// The six atomic types.
pub proof fn lemma_atomic_types()
    ensures
        globals::payload_type("AtomicI32"@) is Some,
        globals::payload_type("AtomicU32"@) is Some,
        globals::payload_type("AtomicI64"@) is Some,
        globals::payload_type("AtomicU64"@) is Some,
        globals::payload_type("AtomicF32"@) is Some,
        globals::payload_type("AtomicF64"@) is Some,
{
}

/// A symbol is made of the module's name, an underscore and the global's name, each
/// character in its place; a letter, digit or underscore stays, anything else becomes an
/// underscore.
pub proof fn lemma_symbol(module_name: Seq<char>, name: Seq<char>, i: int)
    ensures
        globals::symbol_name(module_name, name).len() == module_name.len() + 1 + name.len(),
        globals::symbol_name(module_name, name)[module_name.len() as int] == '_',
        0 <= i < module_name.len() ==> {
            let c = globals::symbol_name(module_name, name)[i];
            c == module_name[i] || (c == '_' && !globals::in_symbol(module_name[i]))
        },
        0 <= i < module_name.len() && globals::in_symbol(module_name[i]) ==> globals::symbol_name(
            module_name,
            name,
        )[i] == module_name[i],
        0 <= i < name.len() ==> {
            let c = globals::symbol_name(module_name, name)[module_name.len() + 1 + i];
            c == name[i] || (c == '_' && !globals::in_symbol(name[i]))
        },
        0 <= i < name.len() && globals::in_symbol(name[i]) ==> globals::symbol_name(
            module_name,
            name,
        )[module_name.len() + 1 + i] == name[i],
{
}

/// Which characters may stand in a symbol.
pub proof fn lemma_symbol_characters(c: char)
    ensures
        globals::in_symbol(c) <==> (97 <= c as u32 <= 122) || (65 <= c as u32 <= 90) || (48 <= c as u32
            <= 57) || c as u32 == 95,
{
}

// ---------------------------------------------------------------------------
// Declarations
// ---------------------------------------------------------------------------

/// A minus sign negates, parentheses change nothing.
pub proof fn lemma_written(x: Expr, d: String)
    ensures
        globals::written_i32(Expr::Paren(Box::new(x))) == globals::written_i32(x),
        globals::written_i32(x) matches Some(v) ==> globals::written_i32(
            Expr::Unary(UnOp::Neg, Box::new(x)),
        ) matches Some(w) && w == -v,
        globals::written_i32(x) is None ==> globals::written_i32(
            Expr::Unary(UnOp::Neg, Box::new(x)),
        ) is None,
        globals::written_i32(Expr::Unary(UnOp::Not, Box::new(x))) is None,
        globals::written_i32(Expr::Unary(UnOp::Deref, Box::new(x))) is None,
        match globals::written_i32(Expr::Lit(Lit::Int(d))) {
            Some(v) => text::all_digits(d@) && text::decimal_value(d@) == v,
            None => text::decimal_below(d@, 0x8000_0000) is None,
        },
{
    lemma_written_range(x);
    if text::all_digits(d@) {
        text::lemma_decimal_nonneg(d@);
    }
}

proof fn lemma_written_range(x: Expr)
    ensures
        globals::written_i32(x) matches Some(v) ==> -0x8000_0000 < v < 0x8000_0000,
    decreases x,
{
    match x {
        Expr::Lit(Lit::Int(d)) => {
            if text::all_digits(d@) {
                text::lemma_decimal_nonneg(d@);
            }
        },
        Expr::Unary(UnOp::Neg, y) => lemma_written_range(*y),
        Expr::Paren(y) => lemma_written_range(*y),
        _ => {},
    }
}

/// A list writes its integers in order; a repetition writes one integer as often as it
/// says; parentheses and blocks of one expression change nothing.
pub proof fn lemma_shape(elems: Vec<Expr>, x: Expr, n: Expr, i: int)
    requires
        0 <= i < elems@.len(),
    ensures
        match globals::written_shape(Expr::Array(elems)) {
            Some(s) => s.len() == elems@.len() && globals::written_i32(elems@[i]) == Some(s[i]),
            None => exists|j: int|
                0 <= j < elems@.len() && globals::written_i32(#[trigger] elems@[j]) is None,
        },
        match globals::written_shape(Expr::Repeat(Box::new(x), Box::new(n))) {
            Some(s) => {
                &&& globals::written_i32(n) matches Some(k) && (k >= 0 ==> s.len() == k)
                &&& forall|j: int|
                    0 <= j < s.len() ==> globals::written_i32(x) == Some(#[trigger] s[j])
            },
            None => globals::written_i32(x) is None || globals::written_i32(n) is None,
        },
        globals::written_shape(Expr::Paren(Box::new(x))) == globals::written_shape(x),
{
    lemma_written_elements(elems@, elems@.len() as int, i);
}

proof fn lemma_written_elements(s: Seq<Expr>, n: int, i: int)
    requires
        0 <= n <= s.len(),
    ensures
        match globals::written_list(s, n) {
            Some(t) => t.len() == n && (0 <= i < n ==> globals::written_i32(s[i]) == Some(t[i])),
            None => exists|j: int| 0 <= j < n && globals::written_i32(#[trigger] s[j]) is None,
        },
    decreases n,
{
    if n > 0 {
        lemma_written_elements(s, n - 1, i);
        if globals::written_i32(s[n - 1]) is None {
            assert(globals::written_i32(s[n - 1]) is None);
        } else if globals::written_list(s, n - 1) is None {
            let j = choose|j: int| 0 <= j < n - 1 && globals::written_i32(#[trigger] s[j]) is None;
            assert(globals::written_i32(s[j]) is None);
        }
    }
}

/// A block of one expression has that expression's shape.
pub proof fn lemma_block_shape(stmts: Vec<Stmt>)
    ensures
        globals::written_shape(Expr::Block(stmts)) == (if stmts@.len() == 1 {
            match stmts@[0] {
                Stmt::Expr(x) => globals::written_shape(x),
                Stmt::Other => None,
            }
        } else {
            None
        }),
{
}

/// The first type argument, and the first constant argument with a shape, are those that
/// no other comes before.
pub proof fn lemma_first(args: Seq<GenericArg>, from: int)
    requires
        0 <= from,
    ensures
        match globals::first_type(args, from) {
            Some(i) => from <= i < args.len() && args[i] is Type && forall|j: int|
                from <= j < i ==> !((#[trigger] args[j]) is Type),
            None => forall|j: int| from <= j < args.len() ==> !((#[trigger] args[j]) is Type),
        },
        match globals::first_shape(args, from) {
            Some(s) => exists|i: int|
                from <= i < args.len() && has_shape(#[trigger] args[i], s) && forall|j: int|
                    from <= j < i ==> shapeless(#[trigger] args[j]),
            None => forall|j: int| from <= j < args.len() ==> shapeless(#[trigger] args[j]),
        },
    decreases args.len() - from,
{
    if from < args.len() {
        lemma_first(args, from + 1);
        match globals::first_shape(args, from) {
            Some(s) => {
                if has_shape(args[from], s) {
                    assert(has_shape(args[from], s));
                } else {
                    let i = choose|i: int|
                        from + 1 <= i < args.len() && has_shape(#[trigger] args[i], s)
                            && forall|j: int| from + 1 <= j < i ==> shapeless(#[trigger] args[j]);
                    assert(has_shape(args[i], s));
                }
            },
            None => {},
        }
    }
}

/// An argument writes this shape.
pub open spec fn has_shape(a: GenericArg, s: Seq<i32>) -> bool {
    a matches GenericArg::Const(e) && globals::written_shape(e) == Some(s)
}

/// An argument writes no shape.
pub open spec fn shapeless(a: GenericArg) -> bool {
    a matches GenericArg::Const(e) ==> globals::written_shape(e) is None
}

/// An initializer is a call of a path that ends in `new`, with one argument: the initial
/// value.
pub proof fn lemma_initializer(e: Expr)
    ensures
        match globals::initializer(e) {
            Ok(x) => e matches Expr::Call(f, args) && args@.len() == 1 && args@[0] == x && (
            *f matches Expr::Path(p) && p.segments@.len() > 0 && p.segments@.last().ident@ == "new"@),
            Err(err) => err == GlobalError::Initializer && !(e matches Expr::Call(f, args)
                && args@.len() == 1 && (*f matches Expr::Path(p) && p.segments@.len() > 0
                && p.segments@.last().ident@ == "new"@)),
        },
{
}

/// The text of a scalar: truth is one, a number keeps its digits, a minus sign stands in
/// front of a number, and parentheses change nothing.
pub proof fn lemma_scalar_text(d: String, x: Expr, b: bool)
    ensures
        globals::scalar_text(Expr::Lit(Lit::Bool(b))) matches Some(t) && t.len() == 1 && t[0] == (if b {
            '1'
        } else {
            '0'
        }),
        globals::scalar_text(Expr::Lit(Lit::Int(d))) == Some(d@),
        globals::scalar_text(Expr::Lit(Lit::Float(d))) == Some(d@),
        globals::scalar_text(
            Expr::Unary(UnOp::Neg, Box::new(Expr::Lit(Lit::Int(d)))),
        ) matches Some(t) && t.len() == d@.len() + 1 && t[0] == '-' && t.skip(1) == d@,
        globals::scalar_text(
            Expr::Unary(UnOp::Neg, Box::new(Expr::Lit(Lit::Float(d)))),
        ) matches Some(t) && t.len() == d@.len() + 1 && t[0] == '-' && t.skip(1) == d@,
        globals::scalar_text(Expr::Paren(Box::new(x))) == globals::scalar_text(x),
        globals::scalar_text(Expr::Lit(Lit::Str(d))) is None,
        globals::scalar_text(Expr::Unary(UnOp::Not, Box::new(x))) is None,
{
    reveal_strlit("1");
    reveal_strlit("0");
    reveal_strlit("-");
    assert(("-"@ + d@).skip(1) =~= d@);
}

/// A global holds one element of its scalar type, aligned to its size, that is public and
/// may change; its bytes are the given ones.
pub proof fn lemma_scalar_global(symbol: Seq<char>, scalar: ScalarType, data: Seq<u8>)
    ensures
        ({
            let g = globals::scalar_global(symbol, scalar, data);
            &&& g.sym_name == symbol
            &&& g.value.data == data
            &&& g.value.shape.len() == 1 && g.value.shape[0] == 1
            &&& g.value.element_type matches TypeV::Tile(shape, TileElementType::Scalar(s)) && s
                == scalar && shape.len() == 1 && shape[0] == 1
            &&& g.alignment == (if stored_bits(scalar) < 8 {
                1
            } else {
                stored_bits(scalar) / 8
            })
            &&& !g.constant
            &&& g.symbol_visibility == SymbolVisibility::Public
        }),
{
}

} // verus!
