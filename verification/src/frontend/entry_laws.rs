//! What entry functions, constants and static items come down to.
use vstd::prelude::*;
use crate::bytecode::body_writer;
use crate::bytecode::opcode::Opcode;
use crate::bytecode::wire;
use crate::frontend::entry::{ConstantError, KernelErrorV, VarsV};
use crate::frontend::entry;
use crate::frontend::global_laws;
use crate::frontend::globals;
use crate::frontend::hints;
use crate::frontend::items;
use crate::frontend::meta;
use crate::frontend::statics::{StaticError, StaticItem};
use crate::frontend::statics;
use crate::frontend::syntax::{Expr, ItemConst, ItemFn, Lit};
use crate::frontend::typing;
use crate::frontend::typing::VarKind;
use crate::frontend::validate;
use crate::frontend::entry::GenericVars;
use crate::ir::attr::AttrV;
use crate::ir::location::LocationV;
use crate::ir::module::{BlockId, ModuleV, RegionId};
use crate::ir::types::{ScalarType, TileElementType, TypeV};

verus! {

// ---------------------------------------------------------------------------
// Entry functions
// ---------------------------------------------------------------------------

proof fn lemma_names_differ()
    ensures
        "sym_name"@.len() == 8,
        "di_name"@.len() == 7,
        "function_type"@.len() == 13,
        "optimization_hints"@.len() == 18,
{
    reveal_strlit("sym_name");
    reveal_strlit("di_name");
    reveal_strlit("function_type");
    reveal_strlit("optimization_hints");
}

/// An entry function has its symbol, its shown name, its signature without results and
/// its hints under their names, and its body in its region.
pub proof fn lemma_entry_op(
    fn_name: Seq<char>,
    di_name: Seq<char>,
    inputs: Seq<TypeV>,
    region: RegionId,
    h: Option<AttrV>,
    location: LocationV,
)
    ensures
        ({
            let op = entry::entry_op(fn_name, di_name, inputs, region, h, location);
            &&& op.opcode == Opcode::Entry
            &&& op.operands.len() == 0
            &&& op.result_types.len() == 0
            &&& op.regions.len() == 1
            &&& op.regions[0] == region
            &&& op.location == location
            &&& body_writer::find_attr(op.attributes, "sym_name"@) == Some(AttrV::Str(fn_name))
            &&& body_writer::find_attr(op.attributes, "di_name"@) == Some(AttrV::Str(di_name))
            &&& body_writer::find_attr(op.attributes, "function_type"@) matches Some(
                AttrV::Type(TypeV::Func(i, r)),
            ) && i == inputs && r.len() == 0
            &&& body_writer::find_attr(op.attributes, "optimization_hints"@) == h
        }),
{
    lemma_names_differ();
    reveal_with_fuel(body_writer::find_attr_in, 6);
}

/// A kernel is admitted where nothing speaks against it; what does is reported in the
/// order in which it is found.
pub proof fn lemma_refusal<E>(
    known: bool,
    module_name: Seq<char>,
    function: Option<ItemFn>,
    function_name: Seq<char>,
    analysis: Result<(), E>,
    generics: Result<(), E>,
    entry_point: Result<(), E>,
    entry_name: Seq<char>,
    taken: bool,
)
    ensures
        ({
            let r = entry::refusal(
                known,
                module_name,
                function,
                function_name,
                analysis,
                generics,
                entry_point,
                entry_name,
                taken,
            );
            let args = entry::entry_arguments(function->Some_0.attrs@);
            let found = known && function is Some;
            let marked = found && args is Some;
            let unchecked = meta::bare(args->Some_0, "unchecked_accesses"@) || meta::value_of(
                args->Some_0,
                "unchecked_accesses"@,
                0,
            ) == Some(Expr::Lit(Lit::Bool(true)));
            let safe = marked && analysis is Ok && (unchecked ==> function->Some_0.sig.is_unsafe);
            let hint = meta::value_of(args->Some_0, "optimization_hints"@, 0);
            let hinted = safe && (hint matches Some(e) ==> hints::hints_of(e) is Ok);
            &&& (r == Some(KernelErrorV::<E>::UndefinedModule(module_name)) <==> !known)
            &&& (r == Some(KernelErrorV::<E>::UndefinedFunction(function_name)) <==> known
                && function is None)
            &&& (r == Some(KernelErrorV::<E>::MissingEntry(function_name)) <==> found && args is None)
            &&& (r matches Some(KernelErrorV::Analysis(_)) <==> marked && analysis is Err)
            &&& (r == Some(KernelErrorV::<E>::NotUnsafe) <==> marked && analysis is Ok && unchecked
                && !function->Some_0.sig.is_unsafe)
            &&& (r matches Some(KernelErrorV::Hints(_)) <==> safe && !hinted)
            &&& (r matches Some(KernelErrorV::Generics(_)) <==> hinted && generics is Err)
            &&& (r matches Some(KernelErrorV::EntryPoint(_)) <==> hinted && generics is Ok
                && entry_point is Err)
            &&& (r == Some(KernelErrorV::<E>::NameTaken(entry_name)) <==> hinted && generics is Ok
                && entry_point is Ok && taken)
            &&& (r is None <==> hinted && generics is Ok && entry_point is Ok && !taken)
        }),
{
}

// ---------------------------------------------------------------------------
// Constants
// ---------------------------------------------------------------------------

/// The bytes of an integer hold it modulo the range of its width, the lowest byte first.
pub proof fn lemma_low_bytes(v: int, n: nat)
    ensures
        wire::le_bytes(v, n).len() == n,
        wire::pow256(n) > 0,
        wire::le_value(wire::le_bytes(v, n)) == v % wire::pow256(n),
    decreases n,
{
    if n > 0 {
        let k = (n - 1) as nat;
        lemma_low_bytes(v / 256, k);
        let s = wire::le_bytes(v, n);
        let p = wire::pow256(k);
        assert(s.drop_first() =~= wire::le_bytes(v / 256, k));
        let q = (v / 256) / p;
        let r = (v / 256) % p;
        vstd::arithmetic::div_mod::lemma_fundamental_div_mod(v / 256, p);
        vstd::arithmetic::div_mod::lemma_fundamental_div_mod(v, 256);
        assert(v == 256 * (p * q + r) + v % 256);
        assert(256 * (p * q + r) == q * (256 * p) + 256 * r) by (nonlinear_arith);
        assert(0 <= 256 * r + v % 256 < 256 * p);
        vstd::arithmetic::div_mod::lemma_fundamental_div_mod_converse(
            v,
            256 * p,
            q,
            256 * r + v % 256,
        );
    } else {
        assert(v % 1 == 0);
    }
}

/// A constant takes the bytes of its type and holds its value modulo the range of the
/// type; a truth value is all ones or all zeros.
pub proof fn lemma_constant_data(s: ScalarType, v: int)
    ensures
        match entry::constant_data(s, v) {
            Some(b) => {
                &&& s == ScalarType::I1 ==> b == seq![
                    if v == 0 {
                        0u8
                    } else {
                        255u8
                    },
                ]
                &&& s == ScalarType::I4 || s == ScalarType::F4E2M1FN ==> b.len() == 1 && b[0] as int
                    == v % 16
                &&& global_laws::stored_bits(s) >= 8 ==> b.len() * 8 == global_laws::stored_bits(s)
                    && wire::le_value(b) == v % wire::pow256(b.len())
            },
            None => s == ScalarType::F16 || s == ScalarType::BF16 || s == ScalarType::F32 || s
                == ScalarType::F64,
        },
{
    lemma_low_bytes(v, 1);
    lemma_low_bytes(v, 2);
    lemma_low_bytes(v, 4);
    lemma_low_bytes(v, 8);
}

/// A constant is a tile without dimensions of its scalar type, and so is its value, which
/// holds the bytes.
pub proof fn lemma_constant_op(s: ScalarType, data: Seq<u8>, location: LocationV)
    ensures
        ({
            let op = entry::constant_op(s, data, location);
            &&& op.opcode == Opcode::Constant
            &&& op.operands.len() == 0
            &&& op.regions.len() == 0
            &&& op.location == location
            &&& op.result_types.len() == 1
            &&& op.result_types[0] matches TypeV::Tile(shape, TileElementType::Scalar(e)) && e == s
                && shape.len() == 0
            &&& body_writer::find_attr(op.attributes, "value"@) matches Some(AttrV::Dense(d))
                && d.element_type == op.result_types[0] && d.shape.len() == 0 && d.data == data
        }),
{
    reveal_with_fuel(body_writer::find_attr_in, 3);
}

/// Only a value that is known exactly, of a scalar type that is named and supported, is a
/// constant.
pub proof fn lemma_constant_refusal(
    start: i64,
    end: i64,
    named: Option<bool>,
    scalar: Option<ScalarType>,
)
    ensures
        entry::constant_refusal(start, end, named, scalar) is None <==> start == end && named
            == Some(true) && scalar is Some,
        entry::constant_refusal(start, end, named, scalar) matches Some(e) ==> match e {
            ConstantError::NotExact => start != end,
            ConstantError::NotElement => start == end && named is None,
            ConstantError::NoName => start == end && named == Some(false),
            ConstantError::Unsupported => start == end && named == Some(true) && scalar is None,
        },
{
}

/// A constant of a module becomes a generic variable under its name, unless one with the
/// name is known.
pub proof fn lemma_generic_constant(vars: VarsV, name: Seq<char>, item: ItemConst)
    ensures
        ({
            let r = vars.with_const(name, item);
            &&& vars.knows(name) ==> r == vars
            &&& r.others == vars.others
            &&& !vars.knows(name) ==> (match (items::i32_const(item), items::bool_const(item)) {
                (Some(v), _) => r.inst_i32 == vars.inst_i32.push((name, v)) && r.inst_bool
                    == vars.inst_bool,
                (None, Some(b)) => r.inst_bool == vars.inst_bool.push((name, b)) && r.inst_i32
                    == vars.inst_i32,
                (None, None) => r == vars,
            })
        }),
{
}

/// The variables with a value are the integers and behind them the truth values, each
/// with the type and the number that it stands for.
pub proof fn lemma_scalar_variable(vars: VarsV, i: int)
    requires
        0 <= i < vars.inst_i32.len() + vars.inst_bool.len(),
    ensures
        vars.scalars() == vars.inst_i32.len() + vars.inst_bool.len(),
        i < vars.inst_i32.len() ==> vars.scalar(i) == (
            vars.inst_i32[i].0,
            ScalarType::I32,
            vars.inst_i32[i].1 as int,
        ),
        i >= vars.inst_i32.len() ==> {
            let (n, b) = vars.inst_bool[i - vars.inst_i32.len()];
            &&& vars.scalar(i).0 == n
            &&& vars.scalar(i).1 == ScalarType::I1
            &&& (vars.scalar(i).2 != 0 <==> b)
        },
{
}

/// The constants of the variables are added in order, each at the end of the block.
pub proof fn lemma_scalars_added(
    m: ModuleV,
    block: BlockId,
    vars: VarsV,
    location: LocationV,
    n: int,
)
    requires
        0 <= n,
        block.0 < m.blocks.len(),
    ensures
        entry::with_scalars(m, block, vars, location, 0) == m,
        ({
            let p = entry::with_scalars(m, block, vars, location, n);
            let (_, s, v) = vars.scalar(n);
            let op = entry::constant_op(s, entry::constant_data(s, v)->Some_0, location);
            &&& p.blocks.len() == m.blocks.len()
            &&& global_laws::added(
                p,
                block,
                entry::with_scalars(m, block, vars, location, n + 1),
                op,
            )
        }),
    decreases n,
{
    if n > 0 {
        lemma_scalars_added(m, block, vars, location, n - 1);
    }
    let p = entry::with_scalars(m, block, vars, location, n);
    let (_, s, v) = vars.scalar(n);
    let op = entry::constant_op(s, entry::constant_data(s, v)->Some_0, location);
    global_laws::lemma_emitted(p, block, op);
}

/// The strides of a parameter are the last that are given for its name.
pub proof fn lemma_strides(s: Seq<(String, Vec<i32>)>, name: Seq<char>, n: int)
    requires
        0 <= n <= s.len(),
    ensures
        match typing::strides_of(s, name, n) {
            Some(l) => exists|i: int|
                0 <= i < n && (#[trigger] s[i]).0@ == name && s[i].1@ == l && forall|j: int|
                    i < j < n ==> (#[trigger] s[j]).0@ != name,
            None => forall|j: int| 0 <= j < n ==> (#[trigger] s[j]).0@ != name,
        },
    decreases n,
{
    if n > 0 {
        lemma_strides(s, name, n - 1);
        if s[n - 1].0@ != name && typing::strides_of(s, name, n - 1) is Some {
            let l = typing::strides_of(s, name, n - 1)->Some_0;
            let i = choose|i: int|
                0 <= i < n - 1 && (#[trigger] s[i]).0@ == name && s[i].1@ == l && forall|j: int|
                    i < j < n - 1 ==> (#[trigger] s[j]).0@ != name;
            assert(s[i].0@ == name);
        } else if s[n - 1].0@ == name {
            assert(s[n - 1].0@ == name);
        }
    }
}

/// Generic variables are typed in order: integers, truth values, arrays.
pub proof fn lemma_variable(vars: GenericVars, arrays: Seq<(String, usize)>, i: int)
    requires
        0 <= i < typing::var_count(vars, arrays),
    ensures
        ({
            let n = vars.inst_i32@.len();
            let m = vars.inst_bool@.len();
            let v = typing::var(vars, arrays, i);
            &&& typing::var_count(vars, arrays) == n + m + arrays.len()
            &&& i < n ==> v.name == vars.inst_i32@[i].0@ && v.kind == VarKind::I32 && v.written
                == seq!['i', '3', '2']
            &&& n <= i < n + m ==> v.name == vars.inst_bool@[i - n].0@ && v.kind == VarKind::Bool
                && v.written == seq!['b', 'o', 'o', 'l']
            &&& n + m <= i ==> v.name == arrays[i - n - m].0@ && v.kind == VarKind::Array
                && v.written == seq!['[', 'i', '3', '2', ';'] + crate::text::decimal_text(
                arrays[i - n - m].1 as int,
            ) + seq![']']
        }),
{
    reveal_strlit("i32");
    reveal_strlit("bool");
    reveal_strlit("[i32;");
    reveal_strlit("]");
    assert("i32"@ =~= seq!['i', '3', '2']);
    assert("bool"@ =~= seq!['b', 'o', 'o', 'l']);
    assert("[i32;"@ =~= seq!['[', 'i', '3', '2', ';']);
    assert("]"@ =~= seq![']']);
}

// ---------------------------------------------------------------------------
// Static items
// ---------------------------------------------------------------------------

/// A static item becomes a global where it is not mutable, is a `Global` of an atomic
/// type whose element type is known, has a shape without dimensions and a scalar initial
/// value. The global has the item's symbol, the element's scalar type, and the text of
/// the initial value.
pub proof fn lemma_admitted(item: StaticItem)
    ensures
        ({
            let payload = statics::element_type(item.ty) matches Some(t) && statics::atomic_value(
                t,
                item.atomic,
            ) is Some;
            let value = globals::initializer(item.expr);
            &&& statics::admitted(item) is Ok <==> {
                &&& !item.is_mutable
                &&& validate::type_ident(item.ty) == Some("Global"@)
                &&& payload
                &&& item.element matches Some(Some(_))
                &&& statics::shape_of(item.ty) matches Some(s) && s.len() == 0
                &&& item.scalar is Some
                &&& value matches Ok(x) && statics::initial_text(x, item.consts@, 0) is Some
            }
            &&& statics::admitted(item) matches Ok(i) ==> {
                &&& i.symbol == globals::symbol_name(item.module_name@, item.ident@)
                &&& item.scalar == Some(i.scalar)
                &&& item.element->Some_0->Some_0@ == i.element_name
                &&& statics::initial_text(value->Ok_0, item.consts@, 0) == Some(i.text)
            }
        }),
{
}

/// What a refused static item is told: the first thing that is wrong.
pub proof fn lemma_refused_static(item: StaticItem)
    ensures
        statics::admitted(item) matches Err(e) ==> {
            let global = validate::type_ident(item.ty) == Some("Global"@);
            let element = statics::element_type(item.ty);
            match e {
                StaticError::Mutable => item.is_mutable,
                StaticError::NotGlobal => !item.is_mutable && !global,
                StaticError::NoElementType => !item.is_mutable && global && element is None,
                StaticError::NotAtomic => global && element is Some && statics::atomic_value(
                    element->Some_0,
                    item.atomic,
                ) is None,
                StaticError::CompileElement => global && item.element is None,
                StaticError::DetermineElement => global && item.element == Some(None::<String>),
                StaticError::NoShape => global && statics::shape_of(item.ty) is None,
                StaticError::Shaped => global && (statics::shape_of(item.ty) matches Some(s)
                    && s.len() > 0),
                StaticError::UnsupportedElement => global && item.scalar is None,
                StaticError::Initializer => global && globals::initializer(item.expr) is Err,
                StaticError::NotScalar => global && (globals::initializer(item.expr) matches Ok(x)
                    && statics::initial_text(x, item.consts@, 0) is None),
            }
        },
{
}

/// A mutable static is refused whatever else it is.
pub proof fn lemma_mutable_static(item: StaticItem)
    requires
        item.is_mutable,
    ensures
        statics::admitted(item) matches Err(e) && e == StaticError::Mutable,
{
}

/// An initial value is a literal, or a path to a constant that is one; the constants that
/// paths lead to are looked at one after the other.
pub proof fn lemma_initial(e: Expr, consts: Seq<Expr>, from: int)
    requires
        0 <= from,
    ensures
        globals::scalar_text(e) is Some ==> statics::initial_text(e, consts, from)
            == globals::scalar_text(e),
        globals::scalar_text(e) is None && e is Path && from < consts.len() ==> statics::initial_text(
            e,
            consts,
            from,
        ) == statics::initial_text(consts[from], consts, from + 1),
        globals::scalar_text(e) is None && !(e is Path && from < consts.len())
            ==> statics::initial_text(e, consts, from) is None,
{
}

/// Static items are taken in order up to the first that is refused.
pub proof fn lemma_first_refused(items: Seq<StaticItem>, from: int)
    requires
        0 <= from,
    ensures
        match statics::first_refused(items, from) {
            Some((i, e)) => {
                &&& from <= i < items.len()
                &&& statics::admitted(items[i]) matches Err(x) && x == e
                &&& forall|j: int|
                    from <= j < i ==> statics::admitted(#[trigger] items[j]) is Ok
            },
            None => forall|j: int|
                from <= j < items.len() ==> statics::admitted(#[trigger] items[j]) is Ok,
        },
    decreases items.len() - from,
{
    if from < items.len() {
        lemma_first_refused(items, from + 1);
    }
}

} // verus!
