//! Type aliases.
use cutile::frontend::aliases::{
    collect_type_aliases, normalize_const_paths_in_type, normalize_item_fn_param_type_aliases,
    normalize_type_aliases, Alias, AliasError, ArgTree, ArgsTree, ExprTree, Formal, ModuleItem,
    PathTree, QSelfTree, SegmentTree, TypeTree, Words, Wrapper,
};

fn path(n: &str, args: ArgsTree) -> PathTree {
    PathTree {
        qself: None,
        leading: false,
        segments: vec![SegmentTree { name: n.to_owned(), args }],
    }
}

fn ty(n: &str) -> TypeTree {
    TypeTree::Path(path(n, ArgsTree::Absent))
}

fn with(n: &str, args: Vec<ArgTree>) -> TypeTree {
    TypeTree::Path(path(n, ArgsTree::Angle(args)))
}

fn number(n: &str) -> ExprTree {
    ExprTree::Node(n.to_owned(), vec![])
}

fn show(t: &TypeTree) -> String {
    match t {
        TypeTree::Path(p) => show_path(p),
        TypeTree::Wrap(_, t) => format!("&{}", show(t)),
        TypeTree::Tuple(v) => {
            format!("({})", v.iter().map(show).collect::<Vec<String>>().join(","))
        }
        TypeTree::Array(t, n) => format!("[{};{}]", show(t), show_expr(n)),
        TypeTree::Other(w) => show_words(w),
    }
}

fn show_path(p: &PathTree) -> String {
    let s = &p.segments[p.segments.len() - 1];
    match &s.args {
        ArgsTree::Angle(v) => {
            let a: Vec<String> = v
                .iter()
                .map(|a| match a {
                    ArgTree::Type(t) => show(t),
                    ArgTree::Const(e) => format!("{{{}}}", show_expr(e)),
                    ArgTree::Other(w) => show_words(w),
                })
                .collect();
            format!("{}<{}>", s.name, a.join(","))
        }
        _ => s.name.clone(),
    }
}

fn words(template: &str, parts: Vec<ExprTree>) -> Words {
    Words { template: template.to_owned(), parts }
}

fn show_words(w: &Words) -> String {
    format!("{}({})", w.template, w.parts.iter().map(show_expr).collect::<Vec<String>>().join(","))
}

fn show_expr(e: &ExprTree) -> String {
    match e {
        ExprTree::Path(p) => show_path(p),
        ExprTree::Node(s, v) if v.is_empty() => s.clone(),
        ExprTree::Node(s, v) => {
            format!("{}({})", s, v.iter().map(show_expr).collect::<Vec<String>>().join(","))
        }
    }
}

fn alias(n: &str, params: Vec<Formal>, t: TypeTree) -> Alias {
    Alias { name: n.to_owned(), params, ty: t }
}

fn matrix() -> Alias {
    // type Matrix<E, const N: i32> = Tensor<E, { [N, N] }>;
    let n = || ExprTree::Path(path("N", ArgsTree::Absent));
    alias(
        "Matrix",
        vec![Formal::Type("E".to_owned()), Formal::Const("N".to_owned())],
        with(
            "Tensor",
            vec![
                ArgTree::Type(ty("E")),
                ArgTree::Const(ExprTree::Node("array".to_owned(), vec![n(), n()])),
            ],
        ),
    )
}

#[test]
fn arguments_stand_for_parameters() {
    let aliases = vec![matrix(), alias("Scalar", vec![], ty("f32"))];
    let t = TypeTree::Wrap(
        Wrapper::Reference,
        Box::new(with("Matrix", vec![ArgTree::Type(ty("Scalar")), ArgTree::Const(number("8"))])),
    );
    let r = normalize_type_aliases(&t, &aliases).ok().unwrap();
    assert_eq!(show(&r), "&Tensor<f32,{array(8,8)}>");
    let again = normalize_type_aliases(&r, &aliases).ok().unwrap();
    assert_eq!(show(&again), show(&r));
}

#[test]
fn a_path_argument_can_be_a_constant() {
    let t = with("Matrix", vec![ArgTree::Type(ty("f32")), ArgTree::Type(ty("BM"))]);
    let r = normalize_type_aliases(&t, &vec![matrix()]).ok().unwrap();
    assert_eq!(show(&r), "Tensor<f32,{array(BM,BM)}>");
}

#[test]
fn each_way_to_fail_has_its_words() {
    let fails = |t: TypeTree, aliases: Vec<Alias>| {
        normalize_type_aliases(&t, &aliases).err().unwrap().message("X")
    };
    assert_eq!(
        fails(ty("A"), vec![alias("A", vec![], ty("B")), alias("B", vec![], ty("A"))]),
        "recursive type alias expansion involving `A`"
    );
    assert_eq!(
        fails(with("Matrix", vec![ArgTree::Type(ty("f32"))]), vec![matrix()]),
        "type alias `Matrix` expects 2 generic argument(s), got 1"
    );
    assert_eq!(
        fails(TypeTree::Path(path("Matrix", ArgsTree::Parenthesized(words("", vec![])))), vec![matrix()]),
        "type alias `Matrix` uses unsupported parenthesized generic arguments"
    );
    let wrong = with("Matrix", vec![ArgTree::Const(number("1")), ArgTree::Const(number("2"))]);
    assert!(matches!(
        normalize_type_aliases(&wrong, &vec![matrix()]),
        Err(AliasError::ExpectedType(a, p, ArgTree::Const(e)))
            if a == "Matrix" && p == "E" && show_expr(&e) == "1"
    ));
    assert_eq!(
        fails(
            with("Matrix", vec![ArgTree::Const(number("1")), ArgTree::Const(number("2"))]),
            vec![matrix()]
        ),
        "type alias `Matrix` expected type argument for `E`, got `X`"
    );
    assert_eq!(
        fails(
            with("Matrix", vec![ArgTree::Type(ty("f32")), ArgTree::Type(TypeTree::Tuple(vec![]))]),
            vec![matrix()]
        ),
        "type alias `Matrix` expected const argument for `N`, got `X`"
    );
}

#[test]
fn a_chain_of_aliases_has_an_end() {
    let chain = |n: usize| -> Vec<Alias> {
        (0..n)
            .map(|i| alias(&format!("A{i}"), vec![], ty(&format!("A{}", i + 1))))
            .collect()
    };
    assert_eq!(show(&normalize_type_aliases(&ty("A0"), &chain(64)).ok().unwrap()), "A64");
    assert!(matches!(
        normalize_type_aliases(&ty("A0"), &chain(66)),
        Err(AliasError::TooDeep)
    ));
}

#[test]
fn the_last_alias_of_a_name_counts() {
    let items = vec![
        ModuleItem::Alias(alias("A", vec![], ty("i32"))),
        ModuleItem::Other,
        ModuleItem::Alias(alias("A", vec![], ty("f32"))),
    ];
    let aliases = collect_type_aliases(items);
    assert_eq!(aliases.len(), 2);
    let r = normalize_item_fn_param_type_aliases(&vec![ty("A"), ty("u8")], &aliases).ok().unwrap();
    assert_eq!(show(&r[0]), "f32");
    assert_eq!(show(&r[1]), "u8");
}

#[test]
fn constants_in_lengths_are_filled_in() {
    let t = TypeTree::Array(
        Box::new(ty("f32")),
        ExprTree::Path(path("LEN", ArgsTree::Absent)),
    );
    let r = normalize_const_paths_in_type(&t, &vec![("LEN".to_owned(), number("16"))]);
    assert_eq!(show(&r), "[f32;16]");
    let len = || ExprTree::Path(path("LEN", ArgsTree::Absent));
    let consts = vec![("LEN".to_owned(), number("16"))];
    let t = TypeTree::Other(words("fn([f32; _])", vec![len()]));
    assert_eq!(show(&normalize_const_paths_in_type(&t, &consts)), "fn([f32; _])(16)");
    let t = TypeTree::Path(PathTree {
        qself: Some(QSelfTree { ty: words("[f32; _]", vec![len()]), position: 1 }),
        leading: true,
        ..path("Item", ArgsTree::Absent)
    });
    match normalize_const_paths_in_type(&t, &consts) {
        TypeTree::Path(p) => {
            assert!(p.leading);
            let q = p.qself.unwrap();
            assert_eq!((show_words(&q.ty), q.position), ("[f32; _](16)".to_owned(), 1));
        }
        _ => panic!("a path stays a path"),
    }
}

#[test]
fn a_qualified_path_is_expanded_and_kept_whole() {
    let scalar = || vec![alias("Scalar", vec![], ty("f32"))];
    let qualified = |n: &str| {
        TypeTree::Path(PathTree {
            qself: Some(QSelfTree { ty: words("T", vec![]), position: 0 }),
            leading: true,
            ..path(n, ArgsTree::Angle(vec![ArgTree::Type(ty("Scalar"))]))
        })
    };
    match normalize_type_aliases(&qualified("Out"), &scalar()).ok().unwrap() {
        TypeTree::Path(p) => {
            assert_eq!(show_path(&p), "Out<f32>");
            assert!(p.leading);
            assert_eq!(show_words(&p.qself.unwrap().ty), "T()");
        }
        _ => panic!("a path stays a path"),
    }
    let named = vec![alias("Out", vec![Formal::Type("E".to_owned())], ty("E"))];
    assert_eq!(show(&normalize_type_aliases(&qualified("Out"), &named).ok().unwrap()), "Scalar");
}
