//! Which entry points pass.
use vstd::prelude::*;
use crate::frontend::meta;
use crate::frontend::syntax::{Expr, FnArg, Lit, Meta, Path, Type};
use crate::frontend::validate::{EntryErrorV, EntryValueKind, ParamProblemV};
use crate::frontend::validate;

verus! {

proof fn lemma_keys_differ()
    ensures
        "print_ir"@.len() == 8,
        "unchecked_accesses"@.len() == 18,
        "deny_in_kernel_checks"@.len() == 21,
        "dump_mlir_dir"@.len() == 13,
        "preconditions"@.len() == 13,
        "dump_mlir_dir"@ != "preconditions"@,
        "optimization_hints"@.len() == 18,
        "optimization_hints"@ != "unchecked_accesses"@,
{
    reveal_strlit("print_ir");
    reveal_strlit("unchecked_accesses");
    reveal_strlit("deny_in_kernel_checks");
    reveal_strlit("dump_mlir_dir");
    reveal_strlit("preconditions");
    reveal_strlit("optimization_hints");
    assert("dump_mlir_dir"@[0] != "preconditions"@[0]);
    assert("optimization_hints"@[0] != "unchecked_accesses"@[0]);
}

/// The keys that an entry attribute may have, and what each takes.
pub proof fn lemma_keys(key: Seq<char>)
    ensures
        validate::key_kind("print_ir"@) == Some(EntryValueKind::Bool),
        validate::key_kind("unchecked_accesses"@) == Some(EntryValueKind::Bool),
        validate::key_kind("deny_in_kernel_checks"@) == Some(EntryValueKind::Bool),
        validate::key_kind("dump_mlir_dir"@) == Some(EntryValueKind::Str),
        validate::key_kind("preconditions"@) == Some(EntryValueKind::Expr),
        validate::key_kind("optimization_hints"@) == Some(EntryValueKind::Expr),
        validate::key_kind(key) is Some ==> key == "print_ir"@ || key == "unchecked_accesses"@
            || key == "deny_in_kernel_checks"@ || key == "dump_mlir_dir"@ || key
            == "preconditions"@ || key == "optimization_hints"@,
{
    lemma_keys_differ();
}

/// The value that an argument gives its key: none where the key stands alone.
pub open spec fn given(m: Meta) -> Option<(Seq<char>, Option<Expr>)> {
    match m {
        Meta::Path(p) => Some((last_name(p), None)),
        Meta::NameValue(p, e) => Some((last_name(p), Some(e))),
        Meta::List(_, _) => None,
    }
}

/// The last name of a path.
pub open spec fn last_name(p: Path) -> Seq<char> {
    if p.segments@.len() > 0 {
        p.segments@[p.segments@.len() - 1].ident@
    } else {
        Seq::empty()
    }
}

/// What a key accepts: a flag stands alone or has a truth value, a text is a text, and
/// any expression will do for the others.
pub open spec fn accepts(kind: EntryValueKind, value: Option<Expr>) -> bool {
    match kind {
        EntryValueKind::Bool => value is None || (value->Some_0 matches Expr::Lit(Lit::Bool(_))),
        EntryValueKind::Str => value is Some && (value->Some_0 matches Expr::Lit(Lit::Str(_))),
        EntryValueKind::Expr => value is Some,
    }
}

/// An argument passes where its key is known and accepts its value; else the error names
/// the key.
pub proof fn lemma_argument(m: Meta)
    ensures
        match given(m) {
            None => validate::argument_error(m) == Some(EntryErrorV::NotPair),
            Some((key, value)) => match validate::key_kind(key) {
                None => validate::argument_error(m) == Some(EntryErrorV::UnknownKey(key)),
                Some(kind) => {
                    &&& validate::argument_error(m) is None <==> accepts(kind, value)
                    &&& validate::argument_error(m) matches Some(e) ==> e == (if value is None {
                        EntryErrorV::RequiresValue(key)
                    } else if kind == EntryValueKind::Bool {
                        EntryErrorV::ExpectsBool(key)
                    } else {
                        EntryErrorV::ExpectsString(key)
                    })
                },
            },
        },
{
}

/// Arguments pass where each of them does; else the first that does not gives the error.
pub proof fn lemma_arguments(args: Seq<Meta>, from: int)
    requires
        0 <= from,
    ensures
        match validate::first_argument_error(args, from) {
            None => forall|i: int|
                from <= i < args.len() ==> validate::argument_error(#[trigger] args[i]) is None,
            Some(e) => exists|i: int|
                from <= i < args.len() && validate::argument_error(#[trigger] args[i]) == Some(e)
                    && forall|j: int|
                    from <= j < i ==> validate::argument_error(#[trigger] args[j]) is None,
        },
    decreases args.len() - from,
{
    if from < args.len() && validate::argument_error(args[from]) is None {
        lemma_arguments(args, from + 1);
        match validate::first_argument_error(args, from + 1) {
            None => {},
            Some(e) => {
                let i = choose|i: int|
                    from + 1 <= i < args.len() && validate::argument_error(#[trigger] args[i])
                        == Some(e) && forall|j: int|
                        from + 1 <= j < i ==> validate::argument_error(#[trigger] args[j]) is None;
                assert(validate::argument_error(args[i]) == Some(e));
            },
        }
    } else if from < args.len() {
        assert(validate::argument_error(args[from]) is Some);
    }
}

/// The first attribute called `entry` is the one that is looked at; its bare form and a
/// function without one pass.
pub proof fn lemma_entry(attrs: Seq<Meta>, i: int)
    ensures
        meta::first_named(attrs, "entry"@, true, 0) is None ==> validate::entry_error(attrs) is None,
        meta::first_named(attrs, "entry"@, true, 0) == Some(i) ==> match attrs[i] {
            Meta::Path(_) => validate::entry_error(attrs) is None,
            Meta::List(_, None) => validate::entry_error(attrs) == Some(EntryErrorV::Malformed),
            Meta::List(_, Some(args)) => validate::entry_error(attrs)
                == validate::first_argument_error(args@, 0),
            Meta::NameValue(_, _) => true,
        },
{
}

/// The name of a type is that of what it points or refers to.
pub proof fn lemma_type_name(p: Path, t: Type, m: bool)
    ensures
        validate::type_ident(Type::Reference(m, Box::new(t))) == validate::type_ident(t),
        validate::type_ident(Type::Ptr(m, Box::new(t))) == validate::type_ident(t),
        p.segments@.len() > 0 ==> validate::type_ident(Type::Path(p)) == Some(last_name(p)),
        p.segments@.len() == 0 ==> validate::type_ident(Type::Path(p)) is None,
{
}

/// A kernel takes references to tensors, pointers, and anything named by value but a
/// tensor.
pub proof fn lemma_parameter(p: Path, t: Type, m: bool)
    ensures
        validate::param_problem(Type::Ptr(m, Box::new(t))) is None,
        validate::param_problem(Type::Path(p)) is None <==> !(p.segments@.len() > 0 && last_name(p)
            == "Tensor"@),
        validate::param_problem(Type::Reference(m, Box::new(t))) is None <==> validate::type_ident(t)
            == Some("Tensor"@),
        p.segments@.len() > 0 && last_name(p) == "Tensor"@ ==> validate::param_problem(Type::Path(p))
            == Some(ParamProblemV::OwnedTensor),
        validate::param_problem(Type::Reference(m, Box::new(t))) matches Some(e) ==> match
        validate::type_ident(t) {
            None => e == ParamProblemV::Unsupported,
            Some(n) => e == (if n == "MappedPartitionMut"@ {
                ParamProblemV::MappedByReference
            } else {
                ParamProblemV::ReferenceTo(n)
            }),
        },
        !(t is Path) && !(t is Ptr) && !(t is Reference) ==> validate::param_problem(t) == Some(
            ParamProblemV::NotParameter,
        ),
{
    reveal_strlit("Tensor");
    reveal_strlit("MappedPartitionMut");
    assert("Tensor"@.len() == 6 && "MappedPartitionMut"@.len() == 18);
}

/// Parameters pass where each of them does; else the first that does not is the one that
/// is reported.
pub proof fn lemma_parameters(args: Seq<FnArg>, from: int)
    requires
        0 <= from,
    ensures
        match validate::first_param_problem(args, from) {
            None => forall|i: int|
                from <= i < args.len() ==> ((#[trigger] args[i]) matches FnArg::Typed(_, ty)
                    ==> validate::param_problem(ty) is None),
            Some((i, e)) => {
                &&& from <= i < args.len()
                &&& args[i] matches FnArg::Typed(_, ty) && validate::param_problem(ty) == Some(e)
                &&& forall|j: int|
                    from <= j < i ==> ((#[trigger] args[j]) matches FnArg::Typed(_, ty)
                        ==> validate::param_problem(ty) is None)
            },
        },
    decreases args.len() - from,
{
    if from < args.len() {
        lemma_parameters(args, from + 1);
    }
}

} // verus!
