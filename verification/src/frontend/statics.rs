//! Static items of a module: which of them declare globals.
use vstd::prelude::*;
use crate::frontend::globals::{
    atomic_payload_type,
    emit_global,
    global_element_type,
    global_shape,
    global_static_initializer,
    global_symbol_name,
    literal_scalar_value,
};
use crate::frontend::globals;
use crate::frontend::meta::has_text;
use crate::frontend::meta;
use crate::frontend::syntax::{Expr, GenericArg, Type};
use crate::frontend::validate::get_type_ident;
use crate::frontend::validate;
use crate::ir::module::{GlobalV, Module, ModuleV};
use crate::ir::types::ScalarType;
use crate::text::{joined, same_text};

verus! {

/// Why a static item is refused.
#[derive(Clone, Copy, Debug, PartialEq, Eq, Structural)]
pub enum StaticError {
    /// The static is declared mutable.
    Mutable,
    /// The static is not a global.
    NotGlobal,
    /// No type argument is written.
    NoElementType,
    /// The type argument is not one of the atomic types.
    NotAtomic,
    /// The element type does not compile.
    CompileElement,
    /// The element type has no scalar name.
    DetermineElement,
    /// No shape is written.
    NoShape,
    /// The shape has dimensions.
    Shaped,
    /// The element's scalar type is not supported.
    UnsupportedElement,
    /// The initializer is not a call of `new` with one argument.
    Initializer,
    /// The initial value does not lead to a scalar literal.
    NotScalar,
}

/// What a refusal says, for an element with this name.
pub open spec fn static_text(e: StaticError, element: Seq<char>) -> Seq<char> {
    match e {
        StaticError::Mutable =>
            "`Global` declarations should use immutable `static`; mutability is provided by `Global` methods"@,
        StaticError::NotGlobal =>
            "only `static NAME: Global<A, { [] }>` items are supported inside `#[cutile::module]`; use `const` for compile-time constants"@,
        StaticError::NoElementType =>
            "`Global` requires an atomic type: `Global<AtomicI32, { [] }>`"@,
        StaticError::NotAtomic =>
            "`Global` requires a supported sealed Atomic type (AtomicI32, AtomicU32, AtomicI64, AtomicU64, AtomicF32, or AtomicF64)"@,
        StaticError::CompileElement => "failed to compile `Global` element type"@,
        StaticError::DetermineElement => "failed to determine `Global` element type"@,
        StaticError::NoShape => "`Global` requires a static shape: `Global<A, { [] }>`"@,
        StaticError::Shaped =>
            "shaped `Global` statics are not supported yet; use `Global<A, { [] }>`"@,
        StaticError::UnsupportedElement => "unsupported Global element type `"@ + element + "`"@,
        StaticError::Initializer => "`Global` static initializer must be `Global::new(value)`"@,
        StaticError::NotScalar =>
            "`Global::new` currently requires a scalar literal or module-level scalar const initializer"@,
    }
}

impl StaticError {
    /// What the refusal says, for an element with this name.
    pub fn message(&self, element: &str) -> (r: String)
        ensures
            r@ == static_text(*self, element@),
    {
        match self {
            StaticError::Mutable =>
                "`Global` declarations should use immutable `static`; mutability is provided by `Global` methods".to_owned(),
            StaticError::NotGlobal =>
                "only `static NAME: Global<A, { [] }>` items are supported inside `#[cutile::module]`; use `const` for compile-time constants".to_owned(),
            StaticError::NoElementType =>
                "`Global` requires an atomic type: `Global<AtomicI32, { [] }>`".to_owned(),
            StaticError::NotAtomic =>
                "`Global` requires a supported sealed Atomic type (AtomicI32, AtomicU32, AtomicI64, AtomicU64, AtomicF32, or AtomicF64)".to_owned(),
            StaticError::CompileElement => "failed to compile `Global` element type".to_owned(),
            StaticError::DetermineElement => "failed to determine `Global` element type".to_owned(),
            StaticError::NoShape =>
                "`Global` requires a static shape: `Global<A, { [] }>`".to_owned(),
            StaticError::Shaped =>
                "shaped `Global` statics are not supported yet; use `Global<A, { [] }>`".to_owned(),
            StaticError::UnsupportedElement => {
                let head = joined("unsupported Global element type `", element);
                joined(head.as_str(), "`")
            },
            StaticError::Initializer =>
                "`Global` static initializer must be `Global::new(value)`".to_owned(),
            StaticError::NotScalar =>
                "`Global::new` currently requires a scalar literal or module-level scalar const initializer".to_owned(),
        }
    }
}

/// A static item. What its names stand for comes with it: the atomic type that
/// its type argument names, the scalar name of the element type (outer absent:
/// it does not compile, inner absent: it has none), the scalar type with that
/// name, and the expressions of the constants that the initial value leads to, one
/// after the other.
pub struct StaticItem {
    pub module_name: String,
    pub ident: String,
    pub is_mutable: bool,
    pub ty: Type,
    pub expr: Expr,
    pub atomic: Option<String>,
    pub element: Option<Option<String>>,
    pub scalar: Option<ScalarType>,
    pub consts: Vec<Expr>,
}

/// What is known of a global.
pub struct GlobalInfo {
    pub symbol: String,
    pub element_ty: String,
    pub element_name: String,
    pub shape: Vec<i32>,
}

/// The contents of what is known of a global.
#[verifier::ext_equal]
pub struct InfoV {
    pub symbol: Seq<char>,
    pub element_ty: Seq<char>,
    pub element_name: Seq<char>,
    pub shape: Seq<i32>,
}

impl View for GlobalInfo {
    type V = InfoV;

    open spec fn view(&self) -> InfoV {
        InfoV {
            symbol: self.symbol@,
            element_ty: self.element_ty@,
            element_name: self.element_name@,
            shape: self.shape@,
        }
    }
}

/// The element type that a global writes: its first type argument.
pub open spec fn element_type(ty: Type) -> Option<Type> {
    match globals::type_args(ty) {
        Some(args) => match globals::first_type(args, 0) {
            Some(i) => match args[i] {
                GenericArg::Type(t) => Some(t),
                _ => None,
            },
            None => None,
        },
        None => None,
    }
}

/// The shape that a global writes.
pub open spec fn shape_of(ty: Type) -> Option<Seq<i32>> {
    match globals::type_args(ty) {
        Some(args) => globals::first_shape(args, 0),
        None => None,
    }
}

/// The scalar type behind the atomic type that a path names.
pub open spec fn atomic_value(ty: Type, atomic: Option<String>) -> Option<Seq<char>> {
    match ty {
        Type::Path(_) => match atomic {
            Some(n) => globals::payload_type(n@),
            None => None,
        },
        _ => None,
    }
}

/// What a static item declares: a global, something else, or nothing that is
/// allowed.
pub open spec fn declared(item: StaticItem) -> Result<Option<InfoV>, StaticError> {
    if item.is_mutable {
        Err(StaticError::Mutable)
    } else if validate::type_ident(item.ty) != Some("Global"@) {
        Ok(None)
    } else {
        match element_type(item.ty) {
            None => Err(StaticError::NoElementType),
            Some(t) => match atomic_value(t, item.atomic) {
                None => Err(StaticError::NotAtomic),
                Some(payload) => match item.element {
                    None => Err(StaticError::CompileElement),
                    Some(None) => Err(StaticError::DetermineElement),
                    Some(Some(n)) => match shape_of(item.ty) {
                        None => Err(StaticError::NoShape),
                        Some(s) => Ok(
                            Some(
                                InfoV {
                                    symbol: globals::symbol_name(item.module_name@, item.ident@),
                                    element_ty: payload,
                                    element_name: n@,
                                    shape: s,
                                },
                            ),
                        ),
                    },
                },
            },
        }
    }
}

/// The shapes that a type writes can be counted out.
pub open spec fn countable_type(ty: Type) -> bool {
    globals::type_args(ty) matches Some(args) ==> forall|i: int|
        0 <= i < args.len() ==> ((#[trigger] args[i]) matches GenericArg::Const(e)
            ==> globals::countable(e))
}

/// The scalar type behind the atomic type that a path names.
pub fn global_atomic_value_type(ty: &Type, atomic: &Option<String>) -> (r: Result<
    &'static str,
    StaticError,
>)
    ensures
        match atomic_value(*ty, *atomic) {
            Some(s) => r is Ok && r->Ok_0@ == s,
            None => r == Err::<&'static str, StaticError>(StaticError::NotAtomic),
        },
{
    match ty {
        Type::Path(_) => match atomic {
            Some(n) => match atomic_payload_type(n.as_str()) {
                Some(s) => Ok(s),
                None => Err(StaticError::NotAtomic),
            },
            None => Err(StaticError::NotAtomic),
        },
        _ => Err(StaticError::NotAtomic),
    }
}

/// What a static item declares: a global, or something else.
pub fn global_info(item: &StaticItem) -> (r: Result<Option<GlobalInfo>, StaticError>)
    requires
        countable_type(item.ty),
    ensures
        match declared(*item) {
            Ok(Some(info)) => r is Ok && r->Ok_0 is Some && r->Ok_0->Some_0@ == info,
            Ok(None) => r is Ok && r->Ok_0 is None,
            Err(e) => r is Err && r->Err_0 == e,
        },
{
    if item.is_mutable {
        return Err(StaticError::Mutable);
    }
    let named = match get_type_ident(&item.ty) {
        Some(n) => same_text(n.as_str(), "Global"),
        None => false,
    };
    if !named {
        return Ok(None);
    }
    let t = match global_element_type(&item.ty) {
        Some(t) => t,
        None => {
            return Err(StaticError::NoElementType);
        },
    };
    assert(element_type(item.ty) == Some(*t));
    let payload = match global_atomic_value_type(t, &item.atomic) {
        Ok(p) => p,
        Err(e) => {
            return Err(e);
        },
    };
    let name = match &item.element {
        None => {
            return Err(StaticError::CompileElement);
        },
        Some(None) => {
            return Err(StaticError::DetermineElement);
        },
        Some(Some(n)) => n,
    };
    let shape = match global_shape(&item.ty) {
        Some(s) => s,
        None => {
            return Err(StaticError::NoShape);
        },
    };
    Ok(
        Some(
            GlobalInfo {
                symbol: global_symbol_name(item.module_name.as_str(), item.ident.as_str()),
                element_ty: payload.to_owned(),
                element_name: name.clone(),
                shape,
            },
        ),
    )
}

/// The text of an initial value: a scalar literal, or that of the constant that
/// a path names, from `from` on.
pub open spec fn initial_text(e: Expr, consts: Seq<Expr>, from: int) -> Option<Seq<char>>
    decreases consts.len() - from,
{
    match globals::scalar_text(e) {
        Some(t) => Some(t),
        None => if e is Path && 0 <= from < consts.len() {
            initial_text(consts[from], consts, from + 1)
        } else {
            None
        },
    }
}

/// The text of an initial value.
pub fn global_scalar_initializer_value(expr: &Expr, consts: &Vec<Expr>) -> (r: Result<
    String,
    StaticError,
>)
    ensures
        match initial_text(*expr, consts@, 0) {
            Some(t) => r is Ok && r->Ok_0@ == t,
            None => r is Err && r->Err_0 == StaticError::NotScalar,
        },
{
    let mut e: &Expr = expr;
    let mut i: usize = 0;
    loop
        invariant
            i <= consts@.len(),
            initial_text(*expr, consts@, 0) == initial_text(*e, consts@, i as int),
        decreases consts@.len() - i,
    {
        match literal_scalar_value(e) {
            Some(t) => {
                return Ok(t);
            },
            None => {},
        }
        let path = match e {
            Expr::Path(_) => true,
            _ => false,
        };
        if !path || i >= consts.len() {
            return Err(StaticError::NotScalar);
        }
        e = &consts[i];
        i = i + 1;
    }
}

/// What a global is made of: its symbol, its scalar type, and the text of its initial
/// value with the name of the element type, from which its bytes are encoded.
#[verifier::ext_equal]
pub struct InitialV {
    pub symbol: Seq<char>,
    pub scalar: ScalarType,
    pub text: Seq<char>,
    pub element_name: Seq<char>,
}

/// What the global is made of that a static item becomes, or why the item is refused.
pub open spec fn admitted(item: StaticItem) -> Result<InitialV, StaticError> {
    match declared(item) {
        Err(e) => Err(e),
        Ok(None) => Err(StaticError::NotGlobal),
        Ok(Some(info)) => if info.shape.len() > 0 {
            Err(StaticError::Shaped)
        } else {
            match item.scalar {
                None => Err(StaticError::UnsupportedElement),
                Some(scalar) => match globals::initializer(item.expr) {
                    Err(_) => Err(StaticError::Initializer),
                    Ok(x) => match initial_text(x, item.consts@, 0) {
                        None => Err(StaticError::NotScalar),
                        Some(text) => Ok(
                            InitialV {
                                symbol: info.symbol,
                                scalar,
                                text,
                                element_name: info.element_name,
                            },
                        ),
                    },
                },
            }
        },
    }
}

/// The global holds what `encode` gives for the text and the element name.
pub open spec fn encoded<F: Fn(&str, &str) -> Vec<u8>>(encode: F, i: InitialV, g: GlobalV) -> bool {
    exists|text: &str, element: &str, data: Vec<u8>|
        text@ == i.text && element@ == i.element_name && #[trigger] call_ensures(
            encode,
            (text, element),
            data,
        ) && g == globals::scalar_global(i.symbol, i.scalar, data@)
}

/// The first static item from `from` on that is refused, and why.
pub open spec fn first_refused(items: Seq<StaticItem>, from: int) -> Option<(int, StaticError)>
    decreases items.len() - from,
{
    if from < 0 || from >= items.len() {
        None
    } else {
        match admitted(items[from]) {
            Err(e) => Some((from, e)),
            Ok(_) => first_refused(items, from + 1),
        }
    }
}

/// The first `n` static items have become globals, behind those that were there.
pub open spec fn globals_added<F: Fn(&str, &str) -> Vec<u8>>(
    encode: F,
    items: Seq<StaticItem>,
    n: int,
    before: ModuleV,
    after: ModuleV,
) -> bool {
    let k = before.globals.len();
    &&& after == (ModuleV { globals: after.globals, ..before })
    &&& after.globals.len() == k + n
    &&& after.globals.take(k as int) == before.globals
    &&& forall|i: int|
        0 <= i < n ==> admitted(#[trigger] items[i]) is Ok && encoded(
            encode,
            admitted(items[i])->Ok_0,
            after.globals[k + i],
        )
}

fn emit_static<F: Fn(&str, &str) -> Vec<u8>>(
    module: &mut Module,
    item: &StaticItem,
    encode: &F,
) -> (r: Result<(), StaticError>)
    requires
        countable_type(item.ty),
        forall|text: &str, element: &str| #[trigger] call_requires(encode, (text, element)),
    ensures
        match admitted(*item) {
            Ok(i) => r is Ok && exists|g: GlobalV| #[trigger]
                encoded(*encode, i, g) && final(module)@ == (ModuleV {
                    globals: old(module)@.globals.push(g),
                    ..old(module)@
                }),
            Err(e) => r == Err::<(), StaticError>(e) && final(module)@ == old(module)@,
        },
{
    let info = match global_info(item) {
        Err(e) => {
            return Err(e);
        },
        Ok(None) => {
            return Err(StaticError::NotGlobal);
        },
        Ok(Some(info)) => info,
    };
    if info.shape.len() != 0 {
        return Err(StaticError::Shaped);
    }
    let scalar = match item.scalar {
        None => {
            return Err(StaticError::UnsupportedElement);
        },
        Some(s) => s,
    };
    let text = match global_static_initializer(&item.expr) {
        Err(_) => {
            return Err(StaticError::Initializer);
        },
        Ok(x) => match global_scalar_initializer_value(x, &item.consts) {
            Err(e) => {
                return Err(e);
            },
            Ok(t) => t,
        },
    };
    let data = encode(text.as_str(), info.element_name.as_str());
    assert(encoded(
        *encode,
        admitted(*item)->Ok_0,
        globals::scalar_global(info.symbol@, scalar, data@),
    ));
    match emit_global(module, info.symbol, scalar, &info.shape, data) {
        Ok(()) => Ok(()),
        Err(_) => Err(StaticError::Shaped),
    }
}

/// Add the globals that a module's static items declare, in order; `encode` gives the
/// bytes of an initial value from its text and the name of the element type. The first
/// item that is refused ends this, with its position and the reason.
pub fn emit_module_globals<F: Fn(&str, &str) -> Vec<u8>>(
    module: &mut Module,
    items: &Vec<StaticItem>,
    encode: F,
) -> (r: Result<(), (usize, StaticError)>)
    requires
        forall|i: int| 0 <= i < items@.len() ==> countable_type((#[trigger] items@[i]).ty),
        forall|text: &str, element: &str| #[trigger] call_requires(encode, (text, element)),
    ensures
        match first_refused(items@, 0) {
            None => r is Ok && globals_added(
                encode,
                items@,
                items@.len() as int,
                old(module)@,
                final(module)@,
            ),
            Some((i, e)) => r is Err && r->Err_0.0 == i && r->Err_0.1 == e && globals_added(
                encode,
                items@,
                i,
                old(module)@,
                final(module)@,
            ),
        },
{
    let ghost m0 = module@;
    let mut n: usize = 0;
    assert(m0.globals.take(m0.globals.len() as int) =~= m0.globals);
    while n < items.len()
        invariant
            n <= items@.len(),
            m0 == old(module)@,
            forall|i: int| 0 <= i < items@.len() ==> countable_type((#[trigger] items@[i]).ty),
            forall|text: &str, element: &str| #[trigger] call_requires(encode, (text, element)),
            first_refused(items@, 0) == first_refused(items@, n as int),
            globals_added(encode, items@, n as int, m0, module@),
        decreases items@.len() - n,
    {
        let ghost before = module@;
        match emit_static(module, &items[n], &encode) {
            Err(e) => {
                return Err((n, e));
            },
            Ok(()) => {},
        }
        proof {
            let k = m0.globals.len() as int;
            assert(module@.globals.take(k) =~= before.globals.take(k));
            assert forall|i: int| 0 <= i < n + 1 implies admitted(#[trigger] items@[i]) is Ok
                && encoded(encode, admitted(items@[i])->Ok_0, module@.globals[k + i]) by {
                if i < n {
                    assert(module@.globals[k + i] == before.globals[k + i]);
                }
            }
        }
        n = n + 1;
    }
    Ok(())
}

/// The static that a method call's receiver may name: one plain segment that no
/// local variable hides.
pub open spec fn receiver_name(e: Expr, locals: Seq<Seq<char>>) -> Option<Seq<char>> {
    match e {
        Expr::Path(p) => if p.segments@.len() == 1 && !locals.contains(p.segments@[0].ident@) {
            Some(p.segments@[0].ident@)
        } else {
            None
        },
        _ => None,
    }
}

/// The static that a method call's receiver may name.
pub fn global_receiver<'a>(receiver: &'a Expr, locals: &Vec<String>) -> (r: Option<&'a String>)
    ensures
        match r {
            Some(s) => receiver_name(*receiver, meta::texts(locals@)) == Some(s@),
            None => receiver_name(*receiver, meta::texts(locals@)) is None,
        },
{
    match receiver {
        Expr::Path(p) => {
            if p.segments.len() != 1 || has_text(locals, p.segments[0].ident.as_str()) {
                None
            } else {
                Some(&p.segments[0].ident)
            }
        },
        _ => None,
    }
}

} // verus!
