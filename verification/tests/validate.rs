//! Checks on entry points.
use cutile::frontend::syntax::{
    Expr, FnArg, ItemFn, Lit, Meta, Pat, Path, PathArgs, Segment, Signature, Type,
};
use cutile::frontend::validate::{
    validate_entry_attribute, validate_entry_point_parameters, EntryError, ParamProblem,
};

fn path(names: &[&str]) -> Path {
    Path {
        qself: None,
        leading: false,
        segments: names
            .iter()
            .map(|n| Segment {
                ident: n.to_string(),
                arguments: PathArgs::Absent,
                words: String::new(),
            })
            .collect(),
    }
}

fn function(attrs: Vec<Meta>, inputs: Vec<FnArg>) -> ItemFn {
    ItemFn {
        attrs,
        sig: Signature {
            ident: "k".to_owned(),
            generics: vec![],
            inputs,
            output: None,
            is_unsafe: false,
        },
    }
}

fn entry_fn(args: Vec<Meta>) -> ItemFn {
    function(vec![Meta::List(path(&["cutile", "entry"]), Some(args))], vec![])
}

fn pair(key: &str, value: Expr) -> Meta {
    Meta::NameValue(path(&[key]), value)
}

fn bare(key: &str) -> Meta {
    Meta::Path(path(&[key]))
}

fn boolean(b: bool) -> Expr {
    Expr::Lit(Lit::Bool(b))
}

fn string(s: &str) -> Expr {
    Expr::Lit(Lit::Str(s.to_owned()))
}

fn name(n: &str) -> Expr {
    Expr::Path(path(&[n]))
}

fn err_of(args: Vec<Meta>) -> String {
    match validate_entry_attribute(&entry_fn(args)) {
        Ok(()) => panic!("the arguments were accepted but should not be"),
        Err(e) => e.message(""),
    }
}

#[test]
fn known_keys_with_the_right_value_kind_are_accepted() {
    let condition = Expr::Paren(Box::new(Expr::Binary(
        Box::new(name("n")),
        Box::new(Expr::Lit(Lit::Int("0".to_owned()))),
    )));
    let accepted: Vec<Vec<Meta>> = vec![
        vec![],
        vec![pair("unchecked_accesses", boolean(true))],
        vec![pair("deny_in_kernel_checks", boolean(false))],
        vec![bare("print_ir")],
        vec![pair("dump_mlir_dir", string("/tmp/ir"))],
        vec![pair("preconditions", condition)],
        vec![pair("optimization_hints", Expr::Paren(Box::new(name("allow_tma"))))],
        vec![pair("print_ir", boolean(true)), pair("unchecked_accesses", boolean(false))],
    ];
    for ok in accepted {
        assert!(validate_entry_attribute(&entry_fn(ok)).is_ok());
    }
}

#[test]
fn a_misspelled_key_names_itself_and_the_alternatives() {
    let e = err_of(vec![pair("unchecked_acceses", boolean(true))]);
    assert!(e.contains("unchecked_acceses"), "should quote the bad key: {e}");
    assert!(e.contains("unchecked_accesses"), "should list the real one: {e}");
}

#[test]
fn a_wrong_value_kind_says_which_kind_it_wanted() {
    assert!(err_of(vec![pair("print_ir", string("yes"))]).contains("boolean"));
    assert!(err_of(vec![pair("dump_mlir_dir", boolean(true))]).contains("string"));
}

#[test]
fn a_bare_key_is_only_allowed_for_booleans() {
    assert!(validate_entry_attribute(&entry_fn(vec![bare("print_ir")])).is_ok());
    assert!(err_of(vec![bare("dump_mlir_dir")]).contains("requires a value"));
}

#[test]
fn the_attribute_is_recognised_whatever_crate_names_it() {
    for spelling in [vec!["cutile", "entry"], vec!["wax", "entry"], vec!["entry"]] {
        let f = function(
            vec![Meta::List(path(&spelling), Some(vec![pair("bogus", boolean(true))]))],
            vec![],
        );
        assert!(
            validate_entry_attribute(&f).is_err(),
            "`#[{spelling:?}(..)]` should have been validated"
        );
    }
}

#[test]
fn imported_tensor_alias_parameter_error_mentions_same_module_aliases() {
    let ty = Type::Reference(false, Box::new(Type::Path(path(&["ImportedTensorAlias"]))));
    let item = function(vec![], vec![FnArg::Typed(Pat::Ident("x".to_owned()), ty)]);
    let err = validate_entry_point_parameters(&item).expect_err("expected alias rejection");
    let message = err.1.message("& ImportedTensorAlias");
    assert!(
        message.contains("define the alias in the same `#[cutile::module]`")
            && message.contains("imported Tensor aliases are not supported"),
        "{message}"
    );
}

#[test]
fn arguments_that_are_no_pairs_are_refused() {
    let nested = Meta::List(path(&["print_ir"]), Some(vec![]));
    assert!(matches!(
        validate_entry_attribute(&entry_fn(vec![nested])),
        Err(EntryError::NotPair)
    ));
    let f = function(vec![Meta::List(path(&["entry"]), None)], vec![]);
    let e = validate_entry_attribute(&f).unwrap_err();
    assert_eq!(e.message("expected `,`"), "malformed `#[entry(..)]` arguments: expected `,`");
    let f = function(vec![Meta::Path(path(&["entry"]))], vec![]);
    assert!(validate_entry_attribute(&f).is_ok());
    assert!(validate_entry_attribute(&function(vec![], vec![])).is_ok());
}

fn param(ty: Type) -> FnArg {
    FnArg::Typed(Pat::Ident("x".to_owned()), ty)
}

fn named(n: &str) -> Type {
    Type::Path(path(&[n]))
}

#[test]
fn parameters_are_scalars_tensor_references_partitions_and_pointers() {
    let ok = function(
        vec![],
        vec![
            param(named("f32")),
            param(Type::Reference(true, Box::new(named("Tensor")))),
            param(named("MappedPartitionMut")),
            param(Type::Ptr(true, Box::new(named("f32")))),
        ],
    );
    assert!(validate_entry_point_parameters(&ok).is_ok());
    let check = |ty: Type| {
        validate_entry_point_parameters(&function(vec![], vec![param(named("i32")), param(ty)]))
            .unwrap_err()
    };
    assert!(matches!(check(named("Tensor")), (1, ParamProblem::OwnedTensor)));
    assert!(matches!(
        check(Type::Reference(true, Box::new(named("MappedPartitionMut")))),
        (1, ParamProblem::MappedByReference)
    ));
    assert!(matches!(
        check(Type::Reference(false, Box::new(Type::Tuple(vec![])))),
        (1, ParamProblem::Unsupported)
    ));
    let (i, e) = check(Type::Tuple(vec![]));
    assert_eq!(i, 1);
    assert_eq!(e.message("()"), "() is not a supported parameter type.");
}
