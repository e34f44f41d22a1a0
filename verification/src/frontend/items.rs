//! Reading items: signatures, generic parameters, constants and closures.
use vstd::prelude::*;
use crate::frontend::globals;
use crate::frontend::meta::is_ident;
use crate::frontend::meta;
use crate::frontend::syntax::{
    Closure,
    Expr,
    FnArg,
    GenericArg,
    GenericParam,
    ItemConst,
    ItemFn,
    Lit,
    Pat,
    Path,
    PathArgs,
    Signature,
    Stmt,
    Type,
    UnOp,
};
use crate::text::{parse_unsigned, same_text};
use crate::text;

verus! {

// ---------------------------------------------------------------------------
// Constant generic arrays
// ---------------------------------------------------------------------------

/// A constant generic array whose length is a generic variable.
#[derive(Debug)]
pub struct VarCGAParameter {
    pub name: String,
    pub element_type: String,
    pub length_var: String,
}

/// A constant generic array of a known length.
#[derive(Debug)]
pub struct CGAParameter {
    pub name: String,
    pub element_type: String,
    pub length: u32,
}

/// A scalar constant generic parameter.
#[derive(Debug)]
pub struct ConstParameter {
    pub name: String,
    pub ty: String,
}

/// The contents of a constant generic array parameter.
#[verifier::ext_equal]
pub struct CgaV {
    pub name: Seq<char>,
    pub element_type: Seq<char>,
    pub length: u32,
}

impl View for CGAParameter {
    type V = CgaV;

    open spec fn view(&self) -> CgaV {
        CgaV { name: self.name@, element_type: self.element_type@, length: self.length }
    }
}

impl VarCGAParameter {
    /// The parameter with a known length.
    pub fn instance(&self, length: u32) -> (r: CGAParameter)
        ensures
            r@ == (CgaV { name: self.name@, element_type: self.element_type@, length }),
    {
        CGAParameter {
            name: self.name.clone(),
            element_type: self.element_type.clone(),
            length,
        }
    }

    /// Whether an array parameter's length is a variable.
    pub fn is_var_cga(ty: &Type) -> (r: bool)
        requires
            ty is Array,
        ensures
            r == (*ty->Array_1 is Path),
    {
        match ty {
            Type::Array(_, len) => match &**len {
                Expr::Path(_) => true,
                _ => false,
            },
            _ => false,
        }
    }

    /// The array parameter with this name and type, whose length is a variable.
    pub fn from_const_param(name: &str, ty: &Type) -> (r: VarCGAParameter)
        requires
            named_array(*ty),
            *ty->Array_1 matches Expr::Path(p) && meta::path_ident(p) is Some,
        ensures
            r.name@ == name@,
            Some(r.element_type@) == element_name(*ty),
            Some(r.length_var@) == meta::path_ident((*ty->Array_1)->Path_0),
    {
        match ty {
            Type::Array(elem, len) => match (&**elem, &**len) {
                (Type::Path(e), Expr::Path(p)) => VarCGAParameter {
                    name: name.to_owned(),
                    element_type: e.segments[0].ident.clone(),
                    length_var: p.segments[0].ident.clone(),
                },
                _ => VarCGAParameter {
                    name: name.to_owned(),
                    element_type: String::new(),
                    length_var: String::new(),
                },
            },
            _ => VarCGAParameter {
                name: name.to_owned(),
                element_type: String::new(),
                length_var: String::new(),
            },
        }
    }

    /// The array parameter, where its length is a variable.
    pub fn maybe_var_cga(name: &str, ty: &Type) -> (r: Option<VarCGAParameter>)
        requires
            named_array(*ty),
            *ty->Array_1 matches Expr::Path(p) ==> meta::path_ident(p) is Some,
        ensures
            match r {
                Some(v) => {
                    &&& *ty->Array_1 is Path
                    &&& v.name@ == name@
                    &&& Some(v.element_type@) == element_name(*ty)
                    &&& Some(v.length_var@) == meta::path_ident((*ty->Array_1)->Path_0)
                },
                None => !(*ty->Array_1 is Path),
            },
    {
        if VarCGAParameter::is_var_cga(ty) {
            Some(VarCGAParameter::from_const_param(name, ty))
        } else {
            None
        }
    }
}

/// The name of an array's element type, where it is one plain name.
pub open spec fn element_name(ty: Type) -> Option<Seq<char>> {
    match ty {
        Type::Array(elem, _) => match *elem {
            Type::Path(p) => meta::path_ident(p),
            _ => None,
        },
        _ => None,
    }
}

/// An array whose elements have a plainly named type.
pub open spec fn named_array(ty: Type) -> bool {
    ty is Array && element_name(ty) is Some
}

/// The length that an array type writes.
pub open spec fn array_length(ty: Type) -> Option<u32> {
    match ty {
        Type::Array(_, len) => match *len {
            Expr::Lit(Lit::Int(d)) => match text::unsigned_below(d@, 0x1_0000_0000) {
                Some(v) => Some(v as u32),
                None => None,
            },
            _ => None,
        },
        _ => None,
    }
}

impl CGAParameter {
    /// The array parameter with this name and type, whose length is written.
    pub fn from_const_param(name: &str, ty: &Type) -> (r: CGAParameter)
        requires
            named_array(*ty),
            array_length(*ty) is Some,
        ensures
            r.name@ == name@,
            Some(r.element_type@) == element_name(*ty),
            Some(r.length) == array_length(*ty),
    {
        let mut length: u32 = 0;
        let mut element_type = String::new();
        match ty {
            Type::Array(elem, len) => {
                match &**len {
                    Expr::Lit(lit) => match lit {
                        Lit::Int(d) => match parse_unsigned(d.as_str()) {
                            Some(v) => {
                                length = v as u32;
                            },
                            None => {},
                        },
                        _ => {},
                    },
                    _ => {},
                }
                match &**elem {
                    Type::Path(p) => {
                        element_type = p.segments[0].ident.clone();
                    },
                    _ => {},
                }
            },
            _ => {},
        }
        CGAParameter { name: name.to_owned(), element_type, length }
    }
}

/// A generic parameter that is a constant array, with its contents.
pub open spec fn cga_of(g: GenericParam) -> Option<CgaV> {
    match g {
        GenericParam::Const(name, ty) => if ty is Array {
            Some(
                CgaV {
                    name: name@,
                    element_type: element_name(ty)->Some_0,
                    length: array_length(ty)->Some_0,
                },
            )
        } else {
            None
        },
        _ => None,
    }
}

/// A generic parameter that is a constant of a named type.
pub open spec fn const_of(g: GenericParam) -> Option<(Seq<char>, Seq<char>)> {
    match g {
        GenericParam::Const(name, Type::Path(p)) => Some(
            (name@, meta::path_text(p)),
        ),
        _ => None,
    }
}

/// The constant arrays among the first `n` generic parameters.
pub open spec fn cgas_of(gs: Seq<GenericParam>, n: int) -> Seq<CgaV>
    decreases n,
{
    if n <= 0 {
        Seq::empty()
    } else {
        match cga_of(gs[n - 1]) {
            Some(c) => cgas_of(gs, n - 1).push(c),
            None => cgas_of(gs, n - 1),
        }
    }
}

/// The scalar constants among the first `n` generic parameters.
pub open spec fn consts_of(gs: Seq<GenericParam>, n: int) -> Seq<(Seq<char>, Seq<char>)>
    decreases n,
{
    if n <= 0 {
        Seq::empty()
    } else {
        match const_of(gs[n - 1]) {
            Some(c) => consts_of(gs, n - 1).push(c),
            None => consts_of(gs, n - 1),
        }
    }
}

/// The contents of constant arrays.
pub open spec fn cga_views(s: Seq<CGAParameter>) -> Seq<CgaV> {
    Seq::new(s.len(), |i: int| s[i]@)
}

/// The contents of scalar constants.
pub open spec fn const_views(s: Seq<ConstParameter>) -> Seq<(Seq<char>, Seq<char>)> {
    Seq::new(s.len(), |i: int| (s[i].name@, s[i].ty@))
}

/// An array parameter has a plainly named element type and a written length.
pub open spec fn readable_param(g: GenericParam) -> bool {
    match g {
        GenericParam::Const(_, ty) => ty is Array ==> named_array(ty) && array_length(ty) is Some,
        _ => true,
    }
}

/// Part constant generic parameters into arrays and scalars, in order. Every
/// array has a plainly named element type and a written length.
pub fn parse_cgas(generics: &Vec<GenericParam>) -> (r: (Vec<CGAParameter>, Vec<ConstParameter>))
    requires
        forall|i: int|
            0 <= i < generics@.len() ==> readable_param(#[trigger] generics@[i]),
    ensures
        cga_views(r.0@) == cgas_of(generics@, generics@.len() as int),
        const_views(r.1@) == consts_of(generics@, generics@.len() as int),
{
    let mut cgas: Vec<CGAParameter> = Vec::new();
    let mut consts: Vec<ConstParameter> = Vec::new();
    let mut i: usize = 0;
    assert(cga_views(cgas@) =~= Seq::empty());
    assert(const_views(consts@) =~= Seq::empty());
    while i < generics.len()
        invariant
            i <= generics@.len(),
            cga_views(cgas@) == cgas_of(generics@, i as int),
            const_views(consts@) == consts_of(generics@, i as int),
            forall|j: int|
                0 <= j < generics@.len() ==> readable_param(#[trigger] generics@[j]),
        decreases generics@.len() - i,
    {
        let ghost before = cgas@;
        let ghost before2 = consts@;
        match &generics[i] {
            GenericParam::Const(name, ty) => match ty {
                Type::Array(_, _) => {
                    assert(readable_param(generics@[i as int]));
                    let c = CGAParameter::from_const_param(name.as_str(), ty);
                    cgas.push(c);
                    assert(cga_views(cgas@) =~= cga_views(before).push(c@));
                },
                Type::Path(p) => {
                    let c = ConstParameter { name: name.clone(), ty: meta::path_string(p) };
                    consts.push(c);
                    assert(const_views(consts@) =~= const_views(before2).push((c.name@, c.ty@)));
                },
                _ => {},
            },
            _ => {},
        }
        i = i + 1;
    }
    (cgas, consts)
}

/// The names of type and constant parameters among the first `n`.
pub open spec fn supported(gs: Seq<GenericParam>, n: int) -> Seq<(Seq<char>, Option<Type>)>
    decreases n,
{
    if n <= 0 {
        Seq::empty()
    } else {
        match gs[n - 1] {
            GenericParam::Type(name) => supported(gs, n - 1).push((name@, None)),
            GenericParam::Const(name, ty) => supported(gs, n - 1).push((name@, Some(ty))),
            GenericParam::Lifetime(_) => supported(gs, n - 1),
        }
    }
}

/// The contents of named parameters.
pub open spec fn param_views(s: Seq<(String, Option<&Type>)>) -> Seq<(Seq<char>, Option<Type>)> {
    Seq::new(
        s.len(),
        |i: int|
            (
                s[i].0@,
                match s[i].1 {
                    Some(t) => Some(*t),
                    None => None,
                },
            ),
    )
}

/// The type and constant parameters, in order; lifetimes are left out.
pub fn get_supported_generic_params(generics: &Vec<GenericParam>) -> (r: Vec<
    (String, Option<&Type>),
>)
    ensures
        param_views(r@) == supported(generics@, generics@.len() as int),
{
    let mut out: Vec<(String, Option<&Type>)> = Vec::new();
    let mut i: usize = 0;
    assert(param_views(out@) =~= Seq::empty());
    while i < generics.len()
        invariant
            i <= generics@.len(),
            param_views(out@) == supported(generics@, i as int),
        decreases generics@.len() - i,
    {
        let ghost before = out@;
        match &generics[i] {
            GenericParam::Type(name) => {
                out.push((name.clone(), None));
                assert(param_views(out@) =~= param_views(before).push((name@, None)));
            },
            GenericParam::Const(name, ty) => {
                out.push((name.clone(), Some(ty)));
                assert(param_views(out@) =~= param_views(before).push((name@, Some(*ty))));
            },
            GenericParam::Lifetime(_) => {},
        }
        i = i + 1;
    }
    out
}

/// Remove lifetime arguments; the others stay in order.
pub fn strip_generic_args_lifetimes(args: Vec<GenericArg>) -> (r: Vec<GenericArg>)
    ensures
        r@ == args@.filter(|a: GenericArg| !(a is Lifetime)),
{
    let ghost all = args@;
    let ghost keep = |a: GenericArg| !(a is Lifetime);
    let mut out: Vec<GenericArg> = Vec::new();
    proof {
        reveal(Seq::filter);
        assert(all.take(0).filter(keep) =~= Seq::empty());
    }
    for a in it: args
        invariant
            all == args@,
            it.seq() == all,
            keep == (|a: GenericArg| !(a is Lifetime)),
            out@ == all.take(it.index() as int).filter(keep),
    {
        let ghost i = it.index() as int;
        proof {
            let s = all.take(i + 1);
            assert(s.drop_last() =~= all.take(i));
            reveal(Seq::filter);
        }
        let keeps = match &a {
            GenericArg::Lifetime(_) => false,
            _ => true,
        };
        if keeps {
            out.push(a);
        }
    }
    assert(all.take(all.len() as int) =~= all);
    out
}

/// Remove lifetime parameters; the others stay in order.
pub fn strip_generics_lifetimes(generics: Vec<GenericParam>) -> (r: Vec<GenericParam>)
    ensures
        r@ == generics@.filter(|a: GenericParam| !(a is Lifetime)),
{
    let ghost all = generics@;
    let ghost keep = |a: GenericParam| !(a is Lifetime);
    let mut out: Vec<GenericParam> = Vec::new();
    proof {
        reveal(Seq::filter);
        assert(all.take(0).filter(keep) =~= Seq::empty());
    }
    for a in it: generics
        invariant
            all == generics@,
            it.seq() == all,
            keep == (|a: GenericParam| !(a is Lifetime)),
            out@ == all.take(it.index() as int).filter(keep),
    {
        let ghost i = it.index() as int;
        proof {
            let s = all.take(i + 1);
            assert(s.drop_last() =~= all.take(i));
            reveal(Seq::filter);
        }
        let keeps = match &a {
            GenericParam::Lifetime(_) => false,
            _ => true,
        };
        if keeps {
            out.push(a);
        }
    }
    assert(all.take(all.len() as int) =~= all);
    out
}

// ---------------------------------------------------------------------------
// Signatures and paths
// ---------------------------------------------------------------------------

/// A parameter that has a name.
pub open spec fn has_name(a: FnArg) -> bool {
    match a {
        FnArg::Receiver => true,
        FnArg::Typed(Pat::Ident(_), _) => true,
        _ => false,
    }
}

/// The name of a parameter.
pub open spec fn arg_name(a: FnArg) -> Seq<char> {
    match a {
        FnArg::Typed(Pat::Ident(n), _) => n@,
        _ => "self"@,
    }
}

/// The name of a parameter; the receiver's is `self`.
pub fn get_fn_arg_var_name(arg: &FnArg) -> (r: String)
    requires
        has_name(*arg),
    ensures
        r@ == arg_name(*arg),
{
    match arg {
        FnArg::Receiver => "self".to_owned(),
        FnArg::Typed(p, _) => match p {
            Pat::Ident(n) => n.clone(),
            _ => "self".to_owned(),
        },
    }
}

/// The names of a signature's parameters.
pub fn get_sig_param_names(sig: &Signature) -> (r: Vec<String>)
    requires
        forall|i: int| 0 <= i < sig.inputs@.len() ==> has_name(#[trigger] sig.inputs@[i]),
    ensures
        meta::texts(r@) == Seq::new(sig.inputs@.len(), |i: int| arg_name(sig.inputs@[i])),
{
    let ghost names = Seq::new(sig.inputs@.len(), |i: int| arg_name(sig.inputs@[i]));
    let mut out: Vec<String> = Vec::new();
    let mut i: usize = 0;
    assert(meta::texts(out@) =~= names.take(0));
    while i < sig.inputs.len()
        invariant
            i <= sig.inputs@.len(),
            names == Seq::new(sig.inputs@.len(), |i: int| arg_name(sig.inputs@[i])),
            meta::texts(out@) == names.take(i as int),
            forall|j: int| 0 <= j < sig.inputs@.len() ==> has_name(#[trigger] sig.inputs@[j]),
        decreases sig.inputs@.len() - i,
    {
        let ghost before = out@;
        let n = get_fn_arg_var_name(&sig.inputs[i]);
        out.push(n);
        assert(meta::texts(out@) =~= meta::texts(before).push(n@));
        assert(names.take(i + 1) =~= names.take(i as int).push(names[i as int]));
        i = i + 1;
    }
    assert(names.take(i as int) =~= names);
    out
}

/// The type that a signature gives back; the unit type where none is written.
pub fn get_sig_output_type(output: Option<Type>) -> (r: Type)
    ensures
        match output {
            Some(ty) => r == ty,
            None => r matches Type::Tuple(elems) && elems@.len() == 0,
        },
{
    match output {
        Some(ty) => ty,
        None => Type::Tuple(Vec::new()),
    }
}

/// The type of a parameter; the receiver's is given.
pub open spec fn arg_type(a: FnArg, self_ty: Option<Type>) -> Type {
    match a {
        FnArg::Typed(_, ty) => ty,
        FnArg::Receiver => self_ty->Some_0,
    }
}

/// The types of a signature's parameters, and the type that it gives back. Only
/// the first parameter can be the receiver, whose type is then given.
pub fn get_sig_types(sig: Signature, self_ty: Option<Type>) -> (r: (Vec<Type>, Type))
    requires
        forall|i: int|
            0 <= i < sig.inputs@.len() ==> has_name(#[trigger] sig.inputs@[i]) && (
            sig.inputs@[i] is Receiver ==> i == 0 && self_ty is Some),
    ensures
        r.0@ == Seq::new(sig.inputs@.len(), |i: int| arg_type(sig.inputs@[i], self_ty)),
        match sig.output {
            Some(ty) => r.1 == ty,
            None => r.1 matches Type::Tuple(elems) && elems@.len() == 0,
        },
{
    let ghost all = sig.inputs@;
    let ghost given = self_ty;
    let ghost want = Seq::new(all.len(), |i: int| arg_type(all[i], given));
    let mut self_ty = self_ty;
    let mut out: Vec<Type> = Vec::new();
    assert(out@ =~= want.take(0));
    for a in it: sig.inputs
        invariant
            it.seq() == all,
            want == Seq::new(all.len(), |i: int| arg_type(all[i], given)),
            out@ == want.take(it.index() as int),
            it.index() == 0 ==> self_ty == given,
            forall|i: int|
                0 <= i < all.len() ==> has_name(#[trigger] all[i]) && (all[i] is Receiver ==> i == 0
                    && given is Some),
    {
        let ghost i = it.index() as int;
        assert(a == all[i]);
        assert(has_name(all[i]));
        match a {
            FnArg::Typed(_, ty) => {
                out.push(ty);
            },
            FnArg::Receiver => match self_ty.take() {
                Some(ty) => {
                    out.push(ty);
                },
                None => {},
            },
        }
        assert(want.take(i + 1) =~= want.take(i).push(want[i]));
        assert(out@ =~= want.take(i + 1));
    }
    assert(want.take(all.len() as int) =~= want);
    (out, get_sig_output_type(sig.output))
}

/// Whether a function gives back more than the unit value.
pub fn function_returns(item: &ItemFn) -> (r: bool)
    ensures
        r == (match item.sig.output {
            Some(Type::Tuple(elems)) => elems@.len() > 0,
            Some(_) => true,
            None => false,
        }),
{
    match &item.sig.output {
        Some(ty) => match ty {
            Type::Tuple(elems) => elems.len() > 0,
            _ => true,
        },
        None => false,
    }
}

/// The last segment of a path.
pub fn get_ident_from_path(path: &Path) -> (r: &String)
    requires
        path.segments@.len() > 0,
    ensures
        *r == path.segments@.last().ident,
{
    &path.segments[path.segments.len() - 1].ident
}

/// The last segment of a path that stands as an expression.
pub fn get_ident_from_path_expr(path: &Path) -> (r: &String)
    requires
        path.segments@.len() > 0,
    ensures
        *r == path.segments@.last().ident,
{
    get_ident_from_path(path)
}

/// The name behind a path expression or references to one.
pub open spec fn expr_ident(e: Expr) -> Option<Seq<char>>
    decreases e,
{
    match e {
        Expr::Path(p) => Some(p.segments@.last().ident@),
        Expr::Reference(x) => expr_ident(*x),
        _ => None,
    }
}

/// No path in a chain of references is empty.
pub open spec fn named_expr(e: Expr) -> bool
    decreases e,
{
    match e {
        Expr::Path(p) => p.segments@.len() > 0,
        Expr::Reference(x) => named_expr(*x),
        _ => true,
    }
}

/// The name behind a path expression or references to one.
pub fn get_ident_from_expr(expr: &Expr) -> (r: Option<&String>)
    requires
        named_expr(*expr),
    ensures
        match r {
            Some(s) => expr_ident(*expr) == Some(s@),
            None => expr_ident(*expr) is None,
        },
    decreases expr,
{
    match expr {
        Expr::Path(p) => Some(get_ident_from_path(p)),
        Expr::Reference(x) => get_ident_from_expr(x),
        _ => None,
    }
}

/// The generic arguments of a type, behind references.
pub open spec fn generic_args(ty: Type) -> Option<Seq<GenericArg>>
    decreases ty,
{
    match ty {
        Type::Path(_) => globals::type_args(ty),
        Type::Reference(_, t) => generic_args(*t),
        _ => None,
    }
}

/// A type of which it is known whether it has generic arguments: a path without
/// a parenthesized argument list, a pointer, an array, a slice, a tuple, or a
/// reference to such a type.
pub open spec fn args_known(ty: Type) -> bool
    decreases ty,
{
    match ty {
        Type::Path(p) => p.segments@.len() > 0 && !(p.segments@.last().arguments is Parenthesized),
        Type::Reference(_, t) => args_known(*t),
        Type::Ptr(_, _) | Type::Array(_, _) | Type::Slice(_) | Type::Tuple(_) => true,
        _ => false,
    }
}

/// The generic arguments of a type, behind references.
pub fn maybe_generic_args(ty: &Type) -> (r: Option<&Vec<GenericArg>>)
    requires
        args_known(*ty),
    ensures
        match r {
            Some(v) => generic_args(*ty) == Some(v@),
            None => generic_args(*ty) is None,
        },
    decreases ty,
{
    match ty {
        Type::Path(p) => match &p.segments[p.segments.len() - 1].arguments {
            PathArgs::Angle(args) => Some(args),
            _ => None,
        },
        Type::Reference(_, t) => maybe_generic_args(t),
        _ => None,
    }
}

/// The last segment of a type's path, behind references.
pub open spec fn path_name(ty: Type) -> Seq<char>
    decreases ty,
{
    match ty {
        Type::Path(p) => p.segments@.last().ident@,
        Type::Reference(_, t) => path_name(*t),
        _ => Seq::empty(),
    }
}

/// The name and the generic arguments of a type that has some, behind references.
pub fn get_ident_generic_args(ty: &Type) -> (r: (Option<&String>, &Vec<GenericArg>))
    requires
        generic_args(*ty) is Some,
    ensures
        r.0 is Some,
        r.0->Some_0@ == path_name(*ty),
        generic_args(*ty) == Some(r.1@),
    decreases ty,
{
    match ty {
        Type::Reference(_, t) => get_ident_generic_args(t),
        Type::Path(p) => {
            let last = &p.segments[p.segments.len() - 1];
            match &last.arguments {
                PathArgs::Angle(args) => (Some(&last.ident), args),
                _ => {
                    assert(false);
                    get_ident_generic_args(ty)
                },
            }
        },
        _ => {
            assert(false);
            get_ident_generic_args(ty)
        },
    }
}

/// The name of a type in words: the last segment of its path, or the words
/// `tokens` of a pointer or reference type.
pub fn get_type_str(ty: &Type, tokens: &str) -> (r: Option<String>)
    requires
        ty matches Type::Path(p) ==> p.segments@.len() > 0,
    ensures
        match *ty {
            Type::Path(p) => r is Some && r->Some_0@ == p.segments@.last().ident@,
            Type::Ptr(_, _) | Type::Reference(_, _) => r is Some && r->Some_0@ == tokens@,
            _ => r is None,
        },
{
    match ty {
        Type::Path(p) => Some(get_ident_from_path(p).clone()),
        Type::Ptr(_, _) | Type::Reference(_, _) => Some(tokens.to_owned()),
        _ => None,
    }
}

/// The generic arguments that a call writes on the called path.
pub fn get_call_expression_generics(func: &Expr) -> (r: Option<&Vec<GenericArg>>)
    ensures
        match *func {
            Expr::Path(p) => match r {
                Some(v) => globals::type_args(Type::Path(p)) == Some(v@),
                None => globals::type_args(Type::Path(p)) is None,
            },
            _ => r is None,
        },
{
    match func {
        Expr::Path(p) => {
            if p.segments.len() == 0 {
                return None;
            }
            match &p.segments[p.segments.len() - 1].arguments {
                PathArgs::Angle(args) => Some(args),
                _ => None,
            }
        },
        _ => None,
    }
}

// ---------------------------------------------------------------------------
// Constants
// ---------------------------------------------------------------------------

/// The last segment of a constant's type, where that is a path.
pub open spec fn const_type(item: ItemConst) -> Option<Seq<char>> {
    match item.ty {
        Type::Path(p) => if p.segments@.len() > 0 {
            Some(p.segments@.last().ident@)
        } else {
            None
        },
        _ => None,
    }
}

fn const_type_is(item: &ItemConst, name: &str) -> (r: bool)
    ensures
        r == (const_type(*item) == Some(name@)),
{
    match &item.ty {
        Type::Path(p) => p.segments.len() > 0 && same_text(
            p.segments[p.segments.len() - 1].ident.as_str(),
            name,
        ),
        _ => false,
    }
}

/// Whether an expression is an integer literal.
pub open spec fn is_int(e: Expr) -> bool {
    match e {
        Expr::Lit(Lit::Int(_)) => true,
        _ => false,
    }
}

fn int_literal(e: &Expr) -> (r: bool)
    ensures
        r == is_int(*e),
{
    match e {
        Expr::Lit(lit) => match lit {
            Lit::Int(_) => true,
            _ => false,
        },
        _ => false,
    }
}

/// Whether a constant's expression can stand in a type: a truth value for a
/// `bool`, an integer, perhaps behind an operator, for an integer type.
pub open spec fn scalar_const(item: ItemConst) -> bool {
    match const_type(item) {
        Some(t) => if t == "bool"@ {
            match item.expr {
                Expr::Lit(Lit::Bool(_)) => true,
                _ => false,
            }
        } else if t == "i32"@ || t == "i64"@ || t == "u32"@ || t == "u64"@ {
            is_int(item.expr) || (item.expr matches Expr::Unary(_, x) && is_int(*x))
        } else {
            false
        },
        None => false,
    }
}

/// A constant's expression, where it can stand in a type.
pub fn const_item_scalar_expr(item: &ItemConst) -> (r: Option<&Expr>)
    ensures
        match r {
            Some(e) => scalar_const(*item) && *e == item.expr,
            None => !scalar_const(*item),
        },
{
    if const_type_is(item, "bool") {
        return match &item.expr {
            Expr::Lit(lit) => match lit {
                Lit::Bool(_) => Some(&item.expr),
                _ => None,
            },
            _ => None,
        };
    }
    if const_type_is(item, "i32") || const_type_is(item, "i64") || const_type_is(item, "u32")
        || const_type_is(item, "u64") {
        if int_literal(&item.expr) {
            return Some(&item.expr);
        }
        return match &item.expr {
            Expr::Unary(_, x) => if int_literal(x) {
                Some(&item.expr)
            } else {
                None
            },
            _ => None,
        };
    }
    None
}

/// The integer that a literal, perhaps with one minus sign, writes.
pub open spec fn signed_literal(e: Expr) -> Option<i32> {
    match e {
        Expr::Lit(Lit::Int(_)) => globals::written_i32(e),
        Expr::Unary(UnOp::Neg, x) => if is_int(*x) {
            globals::written_i32(e)
        } else {
            None
        },
        _ => None,
    }
}

fn read_signed(expr: &Expr) -> (r: Option<i32>)
    ensures
        r == signed_literal(*expr),
{
    match expr {
        Expr::Lit(lit) => match lit {
            Lit::Int(_) => globals::expr_i32(expr),
            _ => None,
        },
        Expr::Unary(op, x) => if *op == UnOp::Neg && int_literal(x) {
            globals::expr_i32(expr)
        } else {
            None
        },
        _ => None,
    }
}

/// The value of an `i32` constant that is a literal.
pub open spec fn i32_const(item: ItemConst) -> Option<i32> {
    if const_type(item) == Some("i32"@) {
        signed_literal(item.expr)
    } else {
        None
    }
}

/// The value of a `bool` constant that is a literal.
pub open spec fn bool_const(item: ItemConst) -> Option<bool> {
    if const_type(item) == Some("bool"@) {
        match item.expr {
            Expr::Lit(Lit::Bool(b)) => Some(b),
            _ => None,
        }
    } else {
        None
    }
}

/// The value of an `i32` constant that is a literal.
pub fn const_item_i32_value(item: &ItemConst) -> (r: Option<i32>)
    ensures
        r == i32_const(*item),
{
    if const_type_is(item, "i32") {
        read_signed(&item.expr)
    } else {
        None
    }
}

/// The value of a `bool` constant that is a literal.
pub fn const_item_bool_value(item: &ItemConst) -> (r: Option<bool>)
    ensures
        r == bool_const(*item),
{
    if !const_type_is(item, "bool") {
        return None;
    }
    match &item.expr {
        Expr::Lit(lit) => match lit {
            Lit::Bool(b) => Some(*b),
            _ => None,
        },
        _ => None,
    }
}

/// The integer that a literal, perhaps with one minus sign, writes.
pub fn parse_signed_literal_as_i32(expr: &Expr) -> (r: i32)
    requires
        signed_literal(*expr) is Some,
    ensures
        signed_literal(*expr) == Some(r),
{
    match read_signed(expr) {
        Some(v) => v,
        None => 0,
    }
}

// ---------------------------------------------------------------------------
// Pointer types in words
// ---------------------------------------------------------------------------

/// Where the white space at the start of `s` ends.
pub open spec fn skip_spaces(s: Seq<char>, from: int) -> int
    decreases s.len() - from,
{
    if from < s.len() && text::is_space(s[from]) {
        skip_spaces(s, from + 1)
    } else {
        from
    }
}

/// Where the white space at the end of `s` starts, from `to` down to `from`.
pub open spec fn drop_spaces(s: Seq<char>, from: int, to: int) -> int
    decreases to - from,
{
    if to > from && text::is_space(s[to - 1]) {
        drop_spaces(s, from, to - 1)
    } else {
        to
    }
}

/// `s` without white space around it.
pub open spec fn trimmed(s: Seq<char>) -> Seq<char> {
    let a = skip_spaces(s, 0);
    s.subrange(a, drop_spaces(s, a, s.len() as int))
}

/// What follows a prefix, trimmed.
pub open spec fn pointee(s: Seq<char>, prefix: Seq<char>) -> Seq<char> {
    trimmed(s.skip(prefix.len() as int))
}

/// A pointer type in words: whether it is mutable, and what it points to.
pub open spec fn pointer_words(s: Seq<char>) -> Option<(bool, Seq<char>)> {
    if text::has_prefix(s, "* mut "@) {
        Some((true, pointee(s, "* mut "@)))
    } else if text::has_prefix(s, "* const "@) {
        Some((false, pointee(s, "* const "@)))
    } else {
        None
    }
}

fn trim(s: &str) -> (r: String)
    ensures
        r@ == trimmed(s@),
{
    let n: usize = s.unicode_len();
    let mut a: usize = 0;
    while a < n && text::space(s.get_char(a))
        invariant
            n == s@.len(),
            a <= n,
            skip_spaces(s@, 0) == skip_spaces(s@, a as int),
        decreases n - a,
    {
        a = a + 1;
    }
    let mut b: usize = n;
    while b > a && text::space(s.get_char(b - 1))
        invariant
            n == s@.len(),
            a <= b <= n,
            drop_spaces(s@, a as int, n as int) == drop_spaces(s@, a as int, b as int),
        decreases b,
    {
        b = b - 1;
    }
    s.substring_char(a, b).to_owned()
}

/// A pointer type in words: whether it is mutable, and what it points to.
pub fn get_ptr_type(rust_ptr: &str) -> (r: Option<(bool, String)>)
    ensures
        match pointer_words(rust_ptr@) {
            Some((m, t)) => r is Some && r->Some_0.0 == m && r->Some_0.1@ == t,
            None => r is None,
        },
{
    proof {
        reveal_strlit("* mut ");
        reveal_strlit("* const ");
    }
    if text::begins_with(rust_ptr, "* mut ") {
        assert(rust_ptr@.subrange(6, rust_ptr@.len() as int) =~= rust_ptr@.skip(6));
        Some((true, trim(rust_ptr.substring_char(6, rust_ptr.unicode_len()))))
    } else if text::begins_with(rust_ptr, "* const ") {
        assert(rust_ptr@.subrange(8, rust_ptr@.len() as int) =~= rust_ptr@.skip(8));
        Some((false, trim(rust_ptr.substring_char(8, rust_ptr.unicode_len()))))
    } else {
        None
    }
}

// ---------------------------------------------------------------------------
// Closures
// ---------------------------------------------------------------------------

/// Whether an expression is a closure.
pub fn is_closure(expr: &Expr) -> (r: bool)
    ensures
        r == (expr is Closure),
{
    match expr {
        Expr::Closure(_) => true,
        _ => false,
    }
}

/// The name of a closure's parameter.
pub open spec fn pat_name(p: Pat) -> Option<Seq<char>> {
    match p {
        Pat::Ident(n) => Some(n@),
        Pat::Typed(n, _) => Some(n@),
        Pat::Other => None,
    }
}

/// Every parameter of a closure is a name, with or without a type.
pub open spec fn named_params(c: Closure) -> bool {
    forall|i: int| 0 <= i < c.inputs@.len() ==> pat_name(#[trigger] c.inputs@[i]) is Some
}

/// A parameter of a closure, with its type where one is written.
pub struct ClosureParam {
    pub name: String,
    pub ty: Option<Type>,
}

/// What a closure is made of.
pub struct ClosureInfo {
    pub params: Vec<ClosureParam>,
    pub body: Expr,
    pub is_async: bool,
    pub is_move: bool,
}

/// Whether a closure's parameter is this pattern.
pub open spec fn param_is(c: ClosureParam, p: Pat) -> bool {
    match p {
        Pat::Ident(n) => c.name == n && c.ty is None,
        Pat::Typed(n, ty) => c.name == n && c.ty == Some(ty),
        Pat::Other => false,
    }
}

/// Take a closure apart; its parameters are names, with or without a type.
pub fn parse_closure(closure: Closure) -> (r: ClosureInfo)
    requires
        named_params(closure),
    ensures
        r.params@.len() == closure.inputs@.len(),
        forall|i: int|
            0 <= i < r.params@.len() ==> param_is(#[trigger] r.params@[i], closure.inputs@[i]),
        r.body == closure.body,
        r.is_async == closure.is_async,
        r.is_move == closure.is_move,
{
    let ghost all = closure.inputs@;
    let mut params: Vec<ClosureParam> = Vec::new();
    for p in it: closure.inputs
        invariant
            it.seq() == all,
            forall|i: int| 0 <= i < all.len() ==> pat_name(#[trigger] all[i]) is Some,
            params@.len() == it.index(),
            forall|i: int| 0 <= i < params@.len() ==> param_is(#[trigger] params@[i], all[i]),
    {
        assert(p == all[it.index() as int]);
        assert(pat_name(all[it.index() as int]) is Some);
        match p {
            Pat::Ident(name) => {
                params.push(ClosureParam { name, ty: None });
            },
            Pat::Typed(name, ty) => {
                params.push(ClosureParam { name, ty: Some(ty) });
            },
            Pat::Other => {},
        }
    }
    ClosureInfo {
        params,
        body: closure.body,
        is_async: closure.is_async,
        is_move: closure.is_move,
    }
}

/// Whether a closure has a parameter with this name.
pub open spec fn takes(c: Closure, name: Seq<char>) -> bool {
    exists|i: int| 0 <= i < c.inputs@.len() && pat_name(#[trigger] c.inputs@[i]) == Some(name)
}

/// Whether a closure has a parameter with this name.
pub fn has_param(c: &Closure, name: &str) -> (r: bool)
    ensures
        r == takes(*c, name@),
{
    let mut i: usize = 0;
    while i < c.inputs.len()
        invariant
            i <= c.inputs@.len(),
            forall|j: int| 0 <= j < i ==> pat_name(#[trigger] c.inputs@[j]) != Some(name@),
        decreases c.inputs@.len() - i,
    {
        let same = match &c.inputs[i] {
            Pat::Ident(n) => same_text(n.as_str(), name),
            Pat::Typed(n, _) => same_text(n.as_str(), name),
            Pat::Other => false,
        };
        if same {
            assert(pat_name(c.inputs@[i as int]) == Some(name@));
            return true;
        }
        i = i + 1;
    }
    false
}

/// Whether an expression refers to a variable: in operands, calls, fields,
/// indices, parentheses, references, blocks and branches.
pub open spec fn refers(e: Expr, name: Seq<char>) -> bool
    decreases e,
{
    match e {
        Expr::Path(p) => meta::path_ident(p) == Some(name),
        Expr::Binary(a, b) => refers(*a, name) || refers(*b, name),
        Expr::Unary(_, a) => refers(*a, name),
        Expr::Call(f, args) => refers(*f, name) || any_refers(args@, name),
        Expr::MethodCall(r, _, args) => refers(*r, name) || any_refers(args@, name),
        Expr::Field(b, _) => refers(*b, name),
        Expr::Index(a, b) => refers(*a, name) || refers(*b, name),
        Expr::Paren(a) | Expr::Reference(a) => refers(*a, name),
        Expr::Block(stmts) => any_stmt_refers(stmts@, name),
        Expr::If(c, stmts, other) => refers(*c, name) || any_stmt_refers(stmts@, name) || match other {
            Some(o) => refers(*o, name),
            None => false,
        },
        _ => false,
    }
}

/// Whether one of some expressions refers to a variable.
pub open spec fn any_refers(s: Seq<Expr>, name: Seq<char>) -> bool
    decreases s,
{
    exists|i: int| 0 <= i < s.len() && refers(#[trigger] s[i], name)
}

/// Whether one of some statements refers to a variable.
pub open spec fn any_stmt_refers(s: Seq<Stmt>, name: Seq<char>) -> bool
    decreases s,
{
    exists|i: int|
        0 <= i < s.len() && match #[trigger] s[i] {
            Stmt::Expr(x) => refers(x, name),
            Stmt::Other => false,
        }
}

/// Whether an expression refers to a variable.
pub fn expr_references(expr: &Expr, name: &str) -> (r: bool)
    ensures
        r == refers(*expr, name@),
    decreases expr, 0int,
{
    match expr {
        Expr::Path(p) => is_ident(p, name),
        Expr::Binary(a, b) => expr_references(a, name) || expr_references(b, name),
        Expr::Unary(_, a) => expr_references(a, name),
        Expr::Call(f, args) => expr_references(f, name) || exprs_reference(args, name),
        Expr::MethodCall(r, _, args) => expr_references(r, name) || exprs_reference(args, name),
        Expr::Field(b, _) => expr_references(b, name),
        Expr::Index(a, b) => expr_references(a, name) || expr_references(b, name),
        Expr::Paren(a) | Expr::Reference(a) => expr_references(a, name),
        Expr::Block(stmts) => stmts_reference(stmts, name),
        Expr::If(c, stmts, other) => expr_references(c, name) || stmts_reference(stmts, name)
            || match other {
            Some(o) => expr_references(o, name),
            None => false,
        },
        _ => false,
    }
}

fn exprs_reference(s: &Vec<Expr>, name: &str) -> (r: bool)
    ensures
        r == any_refers(s@, name@),
    decreases s, 1int,
{
    let mut i: usize = 0;
    while i < s.len()
        invariant
            i <= s@.len(),
            forall|j: int| 0 <= j < i ==> !refers(#[trigger] s@[j], name@),
        decreases s@.len() - i,
    {
        if expr_references(&s[i], name) {
            assert(refers(s@[i as int], name@));
            return true;
        }
        i = i + 1;
    }
    false
}

fn stmts_reference(s: &Vec<Stmt>, name: &str) -> (r: bool)
    ensures
        r == any_stmt_refers(s@, name@),
    decreases s, 1int,
{
    let mut i: usize = 0;
    while i < s.len()
        invariant
            i <= s@.len(),
            forall|j: int|
                0 <= j < i ==> !(match #[trigger] s@[j] {
                    Stmt::Expr(x) => refers(x, name@),
                    Stmt::Other => false,
                }),
        decreases s@.len() - i,
    {
        let found = match &s[i] {
            Stmt::Expr(x) => expr_references(x, name),
            Stmt::Other => false,
        };
        if found {
            assert(s@[i as int] is Expr);
            return true;
        }
        i = i + 1;
    }
    false
}

/// The variables of the outer scope that a closure captures.
pub open spec fn is_captured(c: Closure, outer: Seq<Seq<char>>, name: Seq<char>) -> bool {
    outer.contains(name) && !takes(c, name) && refers(c.body, name)
}

/// Whether text `a` comes before text `b`: at the first difference its
/// character is smaller, or it ends first.
pub open spec fn before(a: Seq<char>, b: Seq<char>) -> bool
    decreases a.len(),
{
    if b.len() == 0 {
        false
    } else if a.len() == 0 {
        true
    } else if a[0] != b[0] {
        a[0] < b[0]
    } else {
        before(a.skip(1), b.skip(1))
    }
}

fn comes_before(a: &str, b: &str) -> (r: bool)
    ensures
        r == before(a@, b@),
{
    let n: usize = a.unicode_len();
    let k: usize = b.unicode_len();
    let mut i: usize = 0;
    assert(a@.skip(0) =~= a@);
    assert(b@.skip(0) =~= b@);
    while i < n && i < k
        invariant
            n == a@.len(),
            k == b@.len(),
            i <= n,
            i <= k,
            before(a@, b@) == before(a@.skip(i as int), b@.skip(i as int)),
        decreases n - i,
    {
        let x: char = a.get_char(i);
        let y: char = b.get_char(i);
        if x != y {
            return x < y;
        }
        assert(a@.skip(i as int).skip(1) =~= a@.skip(i + 1));
        assert(b@.skip(i as int).skip(1) =~= b@.skip(i + 1));
        i = i + 1;
    }
    i < k
}

/// Texts in increasing order, none twice.
pub open spec fn increasing(s: Seq<Seq<char>>) -> bool {
    forall|i: int, j: int| 0 <= i < j < s.len() ==> before(#[trigger] s[i], #[trigger] s[j])
}

proof fn lemma_before_transitive(a: Seq<char>, b: Seq<char>, c: Seq<char>)
    requires
        before(a, b),
        before(b, c),
    ensures
        before(a, c),
    decreases a.len(),
{
    if a.len() > 0 && b.len() > 0 && c.len() > 0 && a[0] == b[0] && b[0] == c[0] {
        lemma_before_transitive(a.skip(1), b.skip(1), c.skip(1));
    }
}

proof fn lemma_before_total(a: Seq<char>, b: Seq<char>)
    ensures
        before(a, b) || before(b, a) || a == b,
        !(before(a, b) && a == b),
    decreases a.len(),
{
    if a.len() > 0 && b.len() > 0 && a[0] == b[0] {
        lemma_before_total(a.skip(1), b.skip(1));
        if a.skip(1) == b.skip(1) {
            assert(a =~= seq![a[0]] + a.skip(1));
            assert(b =~= seq![b[0]] + b.skip(1));
        }
    } else if a.len() == 0 && b.len() == 0 {
        assert(a =~= b);
    }
}

/// Put a text into its place among increasing texts, once.
fn insert_sorted(v: &mut Vec<String>, name: &str)
    requires
        increasing(meta::texts(old(v)@)),
    ensures
        increasing(meta::texts(final(v)@)),
        forall|t: Seq<char>|
            meta::texts(final(v)@).contains(t) <==> (meta::texts(old(v)@).contains(t) || t
                == name@),
{
    let ghost s = meta::texts(v@);
    let n: usize = v.len();
    let mut i: usize = 0;
    while i < n && comes_before(v[i].as_str(), name)
        invariant
            v@ == old(v)@,
            s == meta::texts(v@),
            n == v@.len(),
            i <= n,
            forall|j: int| 0 <= j < i ==> before(#[trigger] s[j], name@),
        decreases n - i,
    {
        assert(s[i as int] == v@[i as int]@);
        i = i + 1;
    }
    if i < n && same_text(v[i].as_str(), name) {
        assert(s[i as int] == name@);
        assert(s.contains(name@));
        return ;
    }
    let x: String = name.to_owned();
    v.insert(i, x);
    let ghost r = meta::texts(v@);
    proof {
        assert(r =~= s.insert(i as int, name@));
        if i < n {
            assert(s[i as int] == old(v)@[i as int]@);
            lemma_before_total(s[i as int], name@);
        }
        assert forall|a: int, b: int| 0 <= a < b < r.len() implies before(
            #[trigger] r[a],
            #[trigger] r[b],
        ) by {
            if a < i && b == i {
                assert(r[a] == s[a]);
            } else if a < i && b > i {
                assert(r[a] == s[a]);
                assert(r[b] == s[b - 1]);
            } else if a == i {
                assert(r[b] == s[b - 1]);
                if b - 1 > i {
                    lemma_before_transitive(name@, s[i as int], s[b - 1]);
                }
            } else if b < i {
                assert(r[a] == s[a]);
                assert(r[b] == s[b]);
            } else {
                assert(r[a] == s[a - 1]);
                assert(r[b] == s[b - 1]);
            }
        }
        assert forall|t: Seq<char>| r.contains(t) <==> (s.contains(t) || t == name@) by {
            if r.contains(t) {
                let k = choose|k: int| 0 <= k < r.len() && r[k] == t;
                if k < i {
                    assert(s[k] == t);
                } else if k > i {
                    assert(s[k - 1] == t);
                }
            }
            if s.contains(t) {
                let k = choose|k: int| 0 <= k < s.len() && s[k] == t;
                if k < i {
                    assert(r[k] == t);
                } else {
                    assert(r[k + 1] == t);
                }
            }
            if t == name@ {
                assert(r[i as int] == t);
            }
        }
    }
}

/// The outer variables that a closure captures, in order and none twice: those
/// that its body refers to and no parameter shadows.
pub fn get_closure_captures(closure: &Closure, outer: &Vec<String>) -> (r: Vec<String>)
    requires
        named_params(*closure),
    ensures
        increasing(meta::texts(r@)),
        forall|name: Seq<char>|
            meta::texts(r@).contains(name) <==> is_captured(*closure, meta::texts(outer@), name),
{
    let ghost all = meta::texts(outer@);
    let mut out: Vec<String> = Vec::new();
    let mut i: usize = 0;
    assert(meta::texts(out@) =~= Seq::empty());
    while i < outer.len()
        invariant
            i <= outer@.len(),
            all == meta::texts(outer@),
            increasing(meta::texts(out@)),
            forall|name: Seq<char>| #[trigger]
                meta::texts(out@).contains(name) <==> (all.take(i as int).contains(name) && !takes(
                    *closure,
                    name,
                ) && refers(closure.body, name)),
        decreases outer@.len() - i,
    {
        let ghost known = meta::texts(out@);
        let name = outer[i].as_str();
        if !has_param(closure, name) && expr_references(&closure.body, name) {
            insert_sorted(&mut out, name);
        }
        proof {
            let a = all.take(i as int);
            let b = all.take(i + 1);
            assert(b =~= a.push(all[i as int]));
            assert(all[i as int] == name@);
            assert forall|t: Seq<char>| #[trigger] b.contains(t) <==> (a.contains(t) || t == name@) by {
                if b.contains(t) {
                    let k = choose|k: int| 0 <= k < b.len() && b[k] == t;
                    if k < i {
                        assert(a[k] == t);
                    }
                }
                if a.contains(t) {
                    let k = choose|k: int| 0 <= k < a.len() && a[k] == t;
                    assert(b[k] == t);
                }
                if t == name@ {
                    assert(b[i as int] == t);
                }
            }
        }
        i = i + 1;
    }
    assert(all.take(i as int) =~= all);
    out
}

} // verus!
