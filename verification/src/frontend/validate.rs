//! Checks on kernel entry points before they are compiled.
use vstd::prelude::*;
use crate::frontend::meta::get_attribute;
use crate::frontend::meta;
use crate::frontend::syntax::{Expr, FnArg, ItemFn, Lit, Meta, Pat, Path, Type};
use crate::text::{joined, same_text};

verus! {

// ---------------------------------------------------------------------------
// The entry attribute
// ---------------------------------------------------------------------------

/// What kind of value a key of the entry attribute takes.
#[derive(Clone, Copy, Debug, PartialEq, Eq, Structural)]
pub enum EntryValueKind {
    Bool,
    Str,
    /// An expression that its consumer checks.
    Expr,
}

/// Why an entry attribute is refused.
#[derive(Debug)]
pub enum EntryError {
    /// The arguments are no list of attribute contents.
    Malformed,
    /// An argument is neither a pair nor a bare key.
    NotPair,
    UnknownKey(String),
    RequiresValue(String),
    ExpectsBool(String),
    ExpectsString(String),
}

/// The contents of such an error.
#[verifier::ext_equal]
pub enum EntryErrorV {
    Malformed,
    NotPair,
    UnknownKey(Seq<char>),
    RequiresValue(Seq<char>),
    ExpectsBool(Seq<char>),
    ExpectsString(Seq<char>),
}

impl View for EntryError {
    type V = EntryErrorV;

    open spec fn view(&self) -> EntryErrorV {
        match self {
            EntryError::Malformed => EntryErrorV::Malformed,
            EntryError::NotPair => EntryErrorV::NotPair,
            EntryError::UnknownKey(k) => EntryErrorV::UnknownKey(k@),
            EntryError::RequiresValue(k) => EntryErrorV::RequiresValue(k@),
            EntryError::ExpectsBool(k) => EntryErrorV::ExpectsBool(k@),
            EntryError::ExpectsString(k) => EntryErrorV::ExpectsString(k@),
        }
    }
}

impl EntryErrorV {
    /// The error in words; `reason` says why arguments could not be read.
    pub open spec fn words(self, reason: Seq<char>) -> Seq<char> {
        match self {
            EntryErrorV::Malformed => "malformed `#[entry(..)]` arguments: "@ + reason,
            EntryErrorV::NotPair => "`#[entry(..)]` arguments must be `key = value` pairs or bare keys"@,
            EntryErrorV::UnknownKey(k) => "unknown `#[entry]` key `"@ + k
                + "`; expected one of `print_ir`, `dump_mlir_dir`, `unchecked_accesses`, `deny_in_kernel_checks`, `preconditions`, `optimization_hints`"@,
            EntryErrorV::RequiresValue(k) => "`"@ + k + "` requires a value (`"@ + k + " = ...`)"@,
            EntryErrorV::ExpectsBool(k) => "`"@ + k
                + "` expects a boolean literal (`true` or `false`)"@,
            EntryErrorV::ExpectsString(k) => "`"@ + k + "` expects a string literal"@,
        }
    }
}

impl EntryError {
    /// The error in words; `reason` says why arguments could not be read.
    pub fn message(&self, reason: &str) -> (r: String)
        ensures
            r@ == self@.words(reason@),
    {
        match self {
            EntryError::Malformed => joined("malformed `#[entry(..)]` arguments: ", reason),
            EntryError::NotPair =>
                "`#[entry(..)]` arguments must be `key = value` pairs or bare keys".to_owned(),
            EntryError::UnknownKey(k) => {
                let mut s = joined("unknown `#[entry]` key `", k.as_str());
                s.append(
                    "`; expected one of `print_ir`, `dump_mlir_dir`, `unchecked_accesses`, `deny_in_kernel_checks`, `preconditions`, `optimization_hints`",
                );
                s
            },
            EntryError::RequiresValue(k) => {
                let mut s = joined("`", k.as_str());
                s.append("` requires a value (`");
                s.append(k.as_str());
                s.append(" = ...`)");
                s
            },
            EntryError::ExpectsBool(k) => {
                let mut s = joined("`", k.as_str());
                s.append("` expects a boolean literal (`true` or `false`)");
                s
            },
            EntryError::ExpectsString(k) => {
                let mut s = joined("`", k.as_str());
                s.append("` expects a string literal");
                s
            },
        }
    }
}

/// The kind of value that a key takes, if it is one of the entry attribute's.
pub open spec fn key_kind(key: Seq<char>) -> Option<EntryValueKind> {
    if key == "print_ir"@ || key == "unchecked_accesses"@ || key == "deny_in_kernel_checks"@ {
        Some(EntryValueKind::Bool)
    } else if key == "dump_mlir_dir"@ {
        Some(EntryValueKind::Str)
    } else if key == "preconditions"@ || key == "optimization_hints"@ {
        Some(EntryValueKind::Expr)
    } else {
        None
    }
}

/// The kind of value that a key takes, if it is one of the entry attribute's.
pub fn entry_key_kind(key: &str) -> (r: Option<EntryValueKind>)
    ensures
        r == key_kind(key@),
{
    if same_text(key, "print_ir") || same_text(key, "unchecked_accesses") || same_text(
        key,
        "deny_in_kernel_checks",
    ) {
        Some(EntryValueKind::Bool)
    } else if same_text(key, "dump_mlir_dir") {
        Some(EntryValueKind::Str)
    } else if same_text(key, "preconditions") || same_text(key, "optimization_hints") {
        Some(EntryValueKind::Expr)
    } else {
        None
    }
}

/// The key that a path names: its last segment.
pub open spec fn key_of(p: Path) -> Seq<char> {
    if p.segments@.len() > 0 {
        p.segments@.last().ident@
    } else {
        Seq::empty()
    }
}

fn key_string(p: &Path) -> (r: String)
    ensures
        r@ == key_of(*p),
{
    if p.segments.len() > 0 {
        p.segments[p.segments.len() - 1].ident.clone()
    } else {
        let r = String::new();
        assert(r@ =~= Seq::empty());
        r
    }
}

/// What is wrong with one argument of the entry attribute: a bare key is only
/// for what takes a truth value.
pub open spec fn argument_error(m: Meta) -> Option<EntryErrorV> {
    match m {
        Meta::List(_, _) => Some(EntryErrorV::NotPair),
        Meta::Path(p) => match key_kind(key_of(p)) {
            None => Some(EntryErrorV::UnknownKey(key_of(p))),
            Some(EntryValueKind::Bool) => None,
            Some(_) => Some(EntryErrorV::RequiresValue(key_of(p))),
        },
        Meta::NameValue(p, e) => match key_kind(key_of(p)) {
            None => Some(EntryErrorV::UnknownKey(key_of(p))),
            Some(EntryValueKind::Bool) => match e {
                Expr::Lit(Lit::Bool(_)) => None,
                _ => Some(EntryErrorV::ExpectsBool(key_of(p))),
            },
            Some(EntryValueKind::Str) => match e {
                Expr::Lit(Lit::Str(_)) => None,
                _ => Some(EntryErrorV::ExpectsString(key_of(p))),
            },
            Some(EntryValueKind::Expr) => None,
        },
    }
}

/// The first error among the arguments from `from` on.
pub open spec fn first_argument_error(args: Seq<Meta>, from: int) -> Option<EntryErrorV>
    decreases args.len() - from,
{
    if from < 0 || from >= args.len() {
        None
    } else {
        match argument_error(args[from]) {
            Some(e) => Some(e),
            None => first_argument_error(args, from + 1),
        }
    }
}

/// What is wrong with a function's entry attribute, if it has one: it is found
/// by its last segment, and the bare form has nothing to check.
pub open spec fn entry_error(attrs: Seq<Meta>) -> Option<EntryErrorV> {
    match meta::first_named(attrs, "entry"@, true, 0) {
        Some(i) => match attrs[i] {
            Meta::List(_, Some(args)) => first_argument_error(args@, 0),
            Meta::List(_, None) => Some(EntryErrorV::Malformed),
            _ => None,
        },
        None => None,
    }
}

fn check_argument(m: &Meta) -> (r: Option<EntryError>)
    ensures
        match argument_error(*m) {
            Some(e) => r is Some && r->Some_0@ == e,
            None => r is None,
        },
{
    match m {
        Meta::List(_, _) => Some(EntryError::NotPair),
        Meta::Path(p) => {
            let key = key_string(p);
            match entry_key_kind(key.as_str()) {
                None => Some(EntryError::UnknownKey(key)),
                Some(EntryValueKind::Bool) => None,
                Some(_) => Some(EntryError::RequiresValue(key)),
            }
        },
        Meta::NameValue(p, e) => {
            let key = key_string(p);
            match entry_key_kind(key.as_str()) {
                None => Some(EntryError::UnknownKey(key)),
                Some(EntryValueKind::Bool) => match e {
                    Expr::Lit(lit) => match lit {
                        Lit::Bool(_) => None,
                        _ => Some(EntryError::ExpectsBool(key)),
                    },
                    _ => Some(EntryError::ExpectsBool(key)),
                },
                Some(EntryValueKind::Str) => match e {
                    Expr::Lit(lit) => match lit {
                        Lit::Str(_) => None,
                        _ => Some(EntryError::ExpectsString(key)),
                    },
                    _ => Some(EntryError::ExpectsString(key)),
                },
                Some(EntryValueKind::Expr) => None,
            }
        },
    }
}

/// Refuse a malformed entry attribute.
pub fn validate_entry_attribute(item: &ItemFn) -> (r: Result<(), EntryError>)
    ensures
        match entry_error(item.attrs@) {
            Some(e) => r is Err && r->Err_0@ == e,
            None => r is Ok,
        },
{
    let i: usize = match get_attribute("entry", &item.attrs, true) {
        Some(i) => i,
        None => {
            return Ok(());
        },
    };
    proof {
        meta::lemma_first_named(item.attrs@, "entry"@, true, 0);
    }
    match &item.attrs[i] {
        Meta::List(_, args) => match args {
            None => Err(EntryError::Malformed),
            Some(args) => {
                let mut k: usize = 0;
                while k < args.len()
                    invariant
                        k <= args@.len(),
                        entry_error(item.attrs@) == first_argument_error(args@, k as int),
                    decreases args@.len() - k,
                {
                    match check_argument(&args[k]) {
                        Some(e) => {
                            return Err(e);
                        },
                        None => {},
                    }
                    k = k + 1;
                }
                Ok(())
            },
        },
        _ => Ok(()),
    }
}

// ---------------------------------------------------------------------------
// Parameters
// ---------------------------------------------------------------------------

/// Why a parameter is refused.
#[derive(Debug)]
pub enum ParamProblem {
    /// A reference to something without a name.
    Unsupported,
    /// A mapped partition is passed by value.
    MappedByReference,
    /// A reference to something that is not a tensor.
    ReferenceTo(String),
    /// A tensor is passed by reference.
    OwnedTensor,
    /// Neither scalar, reference, pointer nor partition.
    NotParameter,
}

/// The contents of such a problem.
#[verifier::ext_equal]
pub enum ParamProblemV {
    Unsupported,
    MappedByReference,
    ReferenceTo(Seq<char>),
    OwnedTensor,
    NotParameter,
}

impl View for ParamProblem {
    type V = ParamProblemV;

    open spec fn view(&self) -> ParamProblemV {
        match self {
            ParamProblem::Unsupported => ParamProblemV::Unsupported,
            ParamProblem::MappedByReference => ParamProblemV::MappedByReference,
            ParamProblem::ReferenceTo(n) => ParamProblemV::ReferenceTo(n@),
            ParamProblem::OwnedTensor => ParamProblemV::OwnedTensor,
            ParamProblem::NotParameter => ParamProblemV::NotParameter,
        }
    }
}

impl ParamProblemV {
    /// The problem in words; `ty` is the text of the parameter's type.
    pub open spec fn words(self, ty: Seq<char>) -> Seq<char> {
        match self {
            ParamProblemV::Unsupported => "Not a supported parameter type."@,
            ParamProblemV::MappedByReference => "MappedPartitionMut parameters are passed by value; use `mut z: MappedPartitionMut<...>`, not `&mut MappedPartitionMut<...>`."@,
            ParamProblemV::ReferenceTo(n) => "References to `"@ + n
                + "` as parameters are not supported. If this is a type alias for `Tensor`, define the alias in the same `#[cutile::module]` as the entry function; imported Tensor aliases are not supported by launcher generation."@,
            ParamProblemV::OwnedTensor => "Tensors cannot be moved into kernel functions. &mut Tensor corresponds to a partitioned tensor argument (e.g. x.partition([...])), and &Tensor corresponds to a tensor reference argument (e.g. Arc::new(x) or x.into())."@,
            ParamProblemV::NotParameter => ty + " is not a supported parameter type."@,
        }
    }
}

impl ParamProblem {
    /// The problem in words; `ty` is the text of the parameter's type.
    pub fn message(&self, ty: &str) -> (r: String)
        ensures
            r@ == self@.words(ty@),
    {
        match self {
            ParamProblem::Unsupported => "Not a supported parameter type.".to_owned(),
            ParamProblem::MappedByReference =>
                "MappedPartitionMut parameters are passed by value; use `mut z: MappedPartitionMut<...>`, not `&mut MappedPartitionMut<...>`.".to_owned(),
            ParamProblem::ReferenceTo(n) => {
                let mut s = joined("References to `", n.as_str());
                s.append(
                    "` as parameters are not supported. If this is a type alias for `Tensor`, define the alias in the same `#[cutile::module]` as the entry function; imported Tensor aliases are not supported by launcher generation.",
                );
                s
            },
            ParamProblem::OwnedTensor =>
                "Tensors cannot be moved into kernel functions. &mut Tensor corresponds to a partitioned tensor argument (e.g. x.partition([...])), and &Tensor corresponds to a tensor reference argument (e.g. Arc::new(x) or x.into()).".to_owned(),
            ParamProblem::NotParameter => joined(ty, " is not a supported parameter type."),
        }
    }
}

/// The name of a type: the last segment of its path, behind references and
/// pointers.
pub open spec fn type_ident(ty: Type) -> Option<Seq<char>>
    decreases ty,
{
    match ty {
        Type::Path(p) => if p.segments@.len() > 0 {
            Some(p.segments@.last().ident@)
        } else {
            None
        },
        Type::Ptr(_, t) => type_ident(*t),
        Type::Reference(_, t) => type_ident(*t),
        _ => None,
    }
}

/// The name of a type.
pub fn get_type_ident(ty: &Type) -> (r: Option<&String>)
    ensures
        match type_ident(*ty) {
            Some(s) => r is Some && r->Some_0@ == s,
            None => r is None,
        },
    decreases ty,
{
    match ty {
        Type::Path(p) => if p.segments.len() > 0 {
            Some(&p.segments[p.segments.len() - 1].ident)
        } else {
            None
        },
        Type::Ptr(_, t) => get_type_ident(t),
        Type::Reference(_, t) => get_type_ident(t),
        _ => None,
    }
}

/// What is wrong with a parameter of this type. Allowed are scalars, references
/// to tensors, partitions by value, and pointers.
pub open spec fn param_problem(ty: Type) -> Option<ParamProblemV> {
    match ty {
        Type::Reference(_, _) => match type_ident(ty) {
            None => Some(ParamProblemV::Unsupported),
            Some(n) => if n == "MappedPartitionMut"@ {
                Some(ParamProblemV::MappedByReference)
            } else if n != "Tensor"@ {
                Some(ParamProblemV::ReferenceTo(n))
            } else {
                None
            },
        },
        Type::Path(_) => if type_ident(ty) == Some("Tensor"@) {
            Some(ParamProblemV::OwnedTensor)
        } else {
            None
        },
        Type::Ptr(_, _) => None,
        _ => Some(ParamProblemV::NotParameter),
    }
}

/// What is wrong with a parameter of this type.
pub fn check_param(ty: &Type) -> (r: Option<ParamProblem>)
    ensures
        match param_problem(*ty) {
            Some(e) => r is Some && r->Some_0@ == e,
            None => r is None,
        },
{
    match ty {
        Type::Reference(_, _) => match get_type_ident(ty) {
            None => Some(ParamProblem::Unsupported),
            Some(n) => {
                if same_text(n.as_str(), "MappedPartitionMut") {
                    Some(ParamProblem::MappedByReference)
                } else if !same_text(n.as_str(), "Tensor") {
                    Some(ParamProblem::ReferenceTo(n.clone()))
                } else {
                    None
                }
            },
        },
        Type::Path(_) => match get_type_ident(ty) {
            Some(n) => if same_text(n.as_str(), "Tensor") {
                Some(ParamProblem::OwnedTensor)
            } else {
                None
            },
            None => None,
        },
        Type::Ptr(_, _) => None,
        _ => Some(ParamProblem::NotParameter),
    }
}

/// A parameter with a plain name and a type.
pub open spec fn is_plain_param(a: FnArg) -> bool {
    match a {
        FnArg::Typed(Pat::Ident(_), _) => true,
        _ => false,
    }
}

/// The first parameter from `from` on that is refused, and why.
pub open spec fn first_param_problem(args: Seq<FnArg>, from: int) -> Option<(int, ParamProblemV)>
    decreases args.len() - from,
{
    if from < 0 || from >= args.len() {
        None
    } else {
        match args[from] {
            FnArg::Typed(_, ty) => match param_problem(ty) {
                Some(e) => Some((from, e)),
                None => first_param_problem(args, from + 1),
            },
            FnArg::Receiver => first_param_problem(args, from + 1),
        }
    }
}

/// Refuse a parameter that a kernel cannot have; the position of the parameter
/// comes with the problem.
pub fn validate_entry_point_parameters(item: &ItemFn) -> (r: Result<(), (usize, ParamProblem)>)
    requires
        forall|i: int|
            0 <= i < item.sig.inputs@.len() ==> is_plain_param(#[trigger] item.sig.inputs@[i]),
    ensures
        match first_param_problem(item.sig.inputs@, 0) {
            Some((i, e)) => r is Err && r->Err_0.0 == i && r->Err_0.1@ == e,
            None => r is Ok,
        },
{
    let mut i: usize = 0;
    while i < item.sig.inputs.len()
        invariant
            i <= item.sig.inputs@.len(),
            first_param_problem(item.sig.inputs@, 0) == first_param_problem(
                item.sig.inputs@,
                i as int,
            ),
        decreases item.sig.inputs@.len() - i,
    {
        match &item.sig.inputs[i] {
            FnArg::Typed(_, ty) => match check_param(ty) {
                Some(e) => {
                    return Err((i, e));
                },
                None => {},
            },
            FnArg::Receiver => {},
        }
        i = i + 1;
    }
    Ok(())
}

} // verus!
