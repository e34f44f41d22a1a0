//! Hints, globals, obligations, frames, signatures and constants.
use cutile::bytecode::opcode::Opcode;
use cutile::frontend::entry::{
    array_type, bind_constants, compile_constant_from_exact_bounds, constant_bytes, strides_type, ConstantError,
    GenericVars,
};
use cutile::frontend::frames::{InlineStack, SourceLocation};
use cutile::frontend::globals::{
    atomic_ordering_value, compile_global_ptr, global_method, global_symbol_name,
    literal_scalar_value, load_ordering_value, memory_scope_value, scalar_alignment,
    store_ordering_value, GlobalError, GlobalMethod,
};
use cutile::frontend::hints::{
    CompileOptions, DebugInfoLevel, Hint, HintError, OptimizationHints,
};
use cutile::frontend::items::{
    get_closure_captures, get_ident_generic_args, get_ptr_type, get_sig_types, get_type_str,
    maybe_generic_args, parse_cgas, parse_closure, parse_signed_literal_as_i32,
};
use cutile::frontend::meta::{
    clear_attributes, get_cuda_tile_meta_list, get_meta_list, get_meta_list_by_last_segment,
};
use cutile::frontend::obligations::{
    deny_residual_check, lower_obligation, resolve_dim_eq, resolve_dim_le, Atom, KernelParams,
    Predicate, Resolution,
};
use cutile::frontend::statics::{
    emit_module_globals, global_receiver, global_scalar_initializer_value, StaticError, StaticItem,
};
use cutile::frontend::syntax::{
    Closure, Expr, FnArg, GenericArg, GenericParam, ItemConst, Lit, Meta, Pat, Path, PathArgs,
    QSelf, Segment, Signature, Stmt, Type, UnOp,
};
use cutile::frontend::typing::{
    compile_call_args, compile_function_param_types, initial_typeck_types, TypingError, VarKind,
};
use cutile::ir::attr::Attribute;
use cutile::ir::builder::build_single_block_region;
use cutile::ir::location::Location;
use cutile::ir::module::Module;
use cutile::ir::types::{PointerType, ScalarType, TileElementType, TileType, Type as IrType};

fn segment(n: &str) -> Segment {
    Segment { ident: n.to_owned(), arguments: PathArgs::Absent, words: String::new() }
}

fn path(names: &[&str]) -> Path {
    Path {
        qself: None,
        leading: false,
        segments: names.iter().map(|n| segment(n)).collect(),
    }
}

fn name(n: &str) -> Expr {
    Expr::Path(path(&[n]))
}

fn integer(d: &str) -> Expr {
    Expr::Lit(Lit::Int(d.to_owned()))
}

fn boolean(b: bool) -> Expr {
    Expr::Lit(Lit::Bool(b))
}

fn string(s: &str) -> Expr {
    Expr::Lit(Lit::Str(s.to_owned()))
}

fn named(n: &str) -> Type {
    Type::Path(path(&[n]))
}

fn assign(key: &str, value: Expr) -> Expr {
    Expr::Assign(Box::new(name(key)), Box::new(value))
}

// --- hints ------------------------------------------------------------------

#[test]
fn hints_are_kept_by_architecture_and_overridden_by_options() {
    let e = Expr::Tuple(vec![
        assign("sm_90", Expr::Tuple(vec![assign("occupancy", integer("4"))])),
        assign("sm_100", Expr::Tuple(vec![assign("num_cta_in_cga", integer("2"))])),
    ]);
    let mut h = OptimizationHints::parse(&e, "sm_100".to_owned()).unwrap();
    assert_eq!(h.get_sm_hints("sm_90").unwrap().occupancy, Some(4));
    assert_eq!(h.get_sm_hints("sm_100").unwrap().num_cta_in_cga, Some(2));
    assert!(h.get_sm_hints("sm_80").is_none());
    let options = CompileOptions::new(DebugInfoLevel::Off).num_cta_in_cga(8).occupancy(1);
    h.apply_compile_options(&options);
    assert_eq!(h.get_sm_hints("sm_100").unwrap().num_cta_in_cga, Some(8));
    assert_eq!(h.get_sm_hints("sm_100").unwrap().occupancy, Some(1));
    assert_eq!(h.get_sm_hints("sm_90").unwrap().occupancy, Some(4));
    assert_eq!(h.get_sm_hints("sm_90").unwrap().num_cta_in_cga, None);
}

#[test]
fn a_hint_is_set_once() {
    let e = Expr::Tuple(vec![assign(
        "sm_90",
        Expr::Tuple(vec![assign("occupancy", integer("4")), assign("occupancy", integer("5"))]),
    )]);
    assert_eq!(
        OptimizationHints::parse(&e, "sm_90".to_owned()).err(),
        Some(HintError::AlreadySet(Hint::Occupancy))
    );
}

#[test]
fn refused_hints_say_which() {
    let arch = |k: &str, v: Vec<Expr>| assign(k, Expr::Tuple(v));
    let refusal = |e: Vec<Expr>| {
        OptimizationHints::parse(&Expr::Tuple(e), "sm_90".to_owned()).err().unwrap()
    };
    let e = refusal(vec![arch("sm_90", vec![assign("warp", integer("1"))])]);
    assert_eq!(e, HintError::UnknownKey("warp".to_owned()));
    assert_eq!(e.message(""), "Unexpected optimization hint key 'warp'.");
    let e = refusal(vec![arch("sm_90", vec![assign("latency", integer("1"))])]);
    assert_eq!(e, HintError::PerOpHint("latency".to_owned()));
    assert_eq!(
        e.message(""),
        "'latency' is a per-op hint and cannot be set at the entry level. \
         Use it as a parameter on individual load/store operations instead."
    );
    let e = refusal(vec![arch("sm_90", vec![]), arch("sm_90", vec![])]);
    assert_eq!(e, HintError::DuplicateArch("sm_90".to_owned()));
    assert_eq!(e.message(""), "Duplicate optimization hint key 'sm_90'.");
    let e = refusal(vec![arch("sm_90", vec![]), arch("gfx", vec![])]);
    assert_eq!(e, HintError::UnexpectedHint(1));
    assert_eq!(e.message("gfx = ()"), "Unexpected optimization hint gfx = ().");
    let e = refusal(vec![assign("sm_90", integer("1"))]);
    assert_eq!(
        e.message(""),
        "expected a tuple expression for architecture-specific optimization hints"
    );
    assert_eq!(
        HintError::AlreadySet(Hint::MaxDivisibility).message(""),
        "max_divisibility hint has already been set"
    );
    assert_eq!(HintError::BadInteger.message("too large"), "Failed to parse int hint: too large");
    assert_eq!(
        HintError::KeySegments(2).message(""),
        "Expected single-segment path in optimization hints key, got 2 segments."
    );
}

#[test]
fn full_debug_information_switches_optimization_off() {
    let o = CompileOptions::new(DebugInfoLevel::Full);
    assert_eq!(o.effective_opt_level(), 0);
    assert_eq!(o.debug_info(DebugInfoLevel::Line).effective_opt_level(), 3);
    assert_eq!(o.opt_level(2).effective_opt_level(), 2);
}

// --- globals ----------------------------------------------------------------

#[test]
fn names_of_globals_have_numbers() {
    assert_eq!(memory_scope_value("Device"), Some(1));
    assert_eq!(memory_scope_value("System"), Some(2));
    assert_eq!(memory_scope_value("Block"), None);
    assert_eq!(load_ordering_value("Acquire"), Some(2));
    assert_eq!(store_ordering_value("Acquire"), None);
    assert_eq!(atomic_ordering_value("AcqRel"), Some(4));
    assert_eq!(global_symbol_name("a::b", "C"), "a__b_C");
    assert_eq!(scalar_alignment(ScalarType::F64), 8);
    assert_eq!(scalar_alignment(ScalarType::I1), 1);
}

#[test]
fn methods_of_globals_are_counted_out() {
    assert_eq!(global_method("load", &vec![], 2), Ok(GlobalMethod::Load));
    assert_eq!(global_method("store", &vec![], 2), Err(GlobalError::ArgumentCount));
    assert_eq!(global_method("atomic_add", &vec![], 3), Ok(GlobalMethod::AtomicAdd));
    assert_eq!(global_method("swap", &vec![], 3), Err(GlobalError::UnsupportedMethod));
    assert_eq!(global_method("load", &vec![4], 2), Err(GlobalError::Shaped));
}

#[test]
fn a_global_pointer_is_an_operation() {
    let mut m = Module::new("m");
    let (_, block, _) = build_single_block_region(&mut m, &vec![]);
    let ty = IrType::Tile(TileType {
        shape: vec![],
        element_type: TileElementType::Pointer(PointerType { pointee: ScalarType::I32 }),
    });
    let v = compile_global_ptr(&mut m, block, "g", ty, Location::Unknown);
    assert_eq!(v.0, 0);
    let op = m.op(m.block(block).unwrap().ops[0]).unwrap();
    assert_eq!(op.opcode, Opcode::GetGlobal);
    assert!(matches!(&op.attributes[0].1, Attribute::String(s) if s == "g"));
}

fn static_item(ty: Type, expr: Expr) -> StaticItem {
    StaticItem {
        module_name: "m".to_owned(),
        ident: "G".to_owned(),
        is_mutable: false,
        ty,
        expr,
        atomic: Some("AtomicI32".to_owned()),
        element: Some(Some("i32".to_owned())),
        scalar: Some(ScalarType::I32),
        consts: vec![],
    }
}

fn global_type(shape: Vec<Expr>) -> Type {
    Type::Path(Path {
        qself: None,
        leading: false,
        segments: vec![Segment {
            ident: "Global".to_owned(),
            arguments: PathArgs::Angle(vec![
                GenericArg::Type(named("AtomicI32")),
                GenericArg::Const(Expr::Block(vec![Stmt::Expr(Expr::Array(shape))])),
            ]),
            words: "< AtomicI32 , { [] } >".to_owned(),
        }],
    })
}

fn new_call(args: Vec<Expr>) -> Expr {
    Expr::Call(Box::new(Expr::Path(path(&["Global", "new"]))), args)
}

#[test]
fn static_items_become_globals() {
    let mut m = Module::new("m");
    let items = vec![
        static_item(global_type(vec![]), new_call(vec![integer("7")])),
        StaticItem {
            consts: vec![integer("9")],
            ident: "H".to_owned(),
            ..static_item(global_type(vec![]), new_call(vec![name("N")]))
        },
    ];
    let encode = |text: &str, element: &str| -> Vec<u8> {
        assert_eq!(element, "i32");
        text.parse::<i32>().unwrap().to_le_bytes().to_vec()
    };
    assert_eq!(emit_module_globals(&mut m, &items, encode), Ok(()));
    assert_eq!(m.globals.len(), 2);
    assert_eq!(m.globals[0].sym_name, "m_G");
    assert_eq!(m.globals[0].value.data, vec![7, 0, 0, 0]);
    assert_eq!(m.globals[0].alignment, 4);
    assert!(!m.globals[0].constant);
    assert_eq!(m.globals[1].sym_name, "m_H");
    assert_eq!(m.globals[1].value.data, vec![9, 0, 0, 0]);
}

#[test]
fn static_items_are_refused_with_a_reason() {
    let good = || static_item(global_type(vec![]), new_call(vec![integer("7")]));
    let refused = |item: StaticItem| {
        let mut m = Module::new("m");
        let r = emit_module_globals(&mut m, &vec![good(), item], |_: &str, _: &str| vec![7]);
        assert_eq!(m.globals.len(), 1);
        let (at, e) = r.unwrap_err();
        assert_eq!(at, 1);
        e
    };
    assert_eq!(refused(StaticItem { is_mutable: true, ..good() }), StaticError::Mutable);
    assert_eq!(refused(StaticItem { ty: named("i32"), ..good() }), StaticError::NotGlobal);
    assert_eq!(refused(StaticItem { ty: named("Global"), ..good() }), StaticError::NoElementType);
    assert_eq!(refused(StaticItem { atomic: None, ..good() }), StaticError::NotAtomic);
    assert_eq!(refused(StaticItem { element: None, ..good() }), StaticError::CompileElement);
    assert_eq!(
        refused(StaticItem { element: Some(None), ..good() }),
        StaticError::DetermineElement
    );
    let no_shape = Type::Path(Path {
        qself: None,
        leading: false,
        segments: vec![Segment {
            ident: "Global".to_owned(),
            arguments: PathArgs::Angle(vec![GenericArg::Type(named("AtomicI32"))]),
            words: "< AtomicI32 >".to_owned(),
        }],
    });
    assert_eq!(refused(StaticItem { ty: no_shape, ..good() }), StaticError::NoShape);
    assert_eq!(
        refused(StaticItem { ty: global_type(vec![integer("4")]), ..good() }),
        StaticError::Shaped
    );
    assert_eq!(refused(StaticItem { scalar: None, ..good() }), StaticError::UnsupportedElement);
    assert_eq!(refused(StaticItem { expr: integer("7"), ..good() }), StaticError::Initializer);
    assert_eq!(
        refused(StaticItem { expr: new_call(vec![name("N")]), ..good() }),
        StaticError::NotScalar
    );
    assert_eq!(
        StaticError::UnsupportedElement.message("tf32"),
        "unsupported Global element type `tf32`"
    );
}

#[test]
fn an_initial_value_is_a_literal_or_leads_to_one() {
    assert_eq!(literal_scalar_value(&boolean(true)).unwrap(), "1");
    let minus = Expr::Unary(UnOp::Neg, Box::new(integer("5")));
    assert_eq!(literal_scalar_value(&Expr::Paren(Box::new(minus))).unwrap(), "-5");
    assert_eq!(
        global_scalar_initializer_value(&name("A"), &vec![name("B"), integer("3")]),
        Ok("3".to_owned())
    );
    assert_eq!(
        global_scalar_initializer_value(&name("A"), &vec![name("B")]),
        Err(StaticError::NotScalar)
    );
}

#[test]
fn a_local_variable_hides_a_static() {
    let g = name("G");
    assert_eq!(global_receiver(&g, &vec![]).map(|s| s.as_str()), Some("G"));
    assert_eq!(global_receiver(&g, &vec!["G".to_owned()]), None);
    assert_eq!(global_receiver(&Expr::Path(path(&["m", "G"])), &vec![]), None);
}

// --- obligations ------------------------------------------------------------

fn params() -> KernelParams {
    KernelParams {
        names: vec![Some("x".to_owned()), Some("y".to_owned()), None],
        is_mutable: vec![false, true, false],
        shapes: vec![None, Some(vec![4, 8]), None],
    }
}

#[test]
fn extents_are_those_that_the_kernel_sees() {
    let p = params();
    assert_eq!(p.param_index("y"), Some(1));
    assert_eq!(p.param_index("z"), None);
    assert_eq!(p.extent_atom(0, 1), Atom::Dim { param: 0, axis: 1 });
    assert_eq!(p.extent_atom(1, 1), Atom::ViewExtent { param: 1, axis: 1 });
    assert_eq!(p.root_framed_param("x"), Some(0));
    assert_eq!(p.root_framed_param("y"), None);
    let mut dims = vec![None, Some(Atom::Dim { param: 5, axis: 0 })];
    p.label_param_extents(Some("x"), &mut dims);
    assert_eq!(
        dims,
        vec![Some(Atom::Dim { param: 0, axis: 0 }), Some(Atom::Dim { param: 5, axis: 0 })]
    );
}

#[test]
fn a_launch_check_is_made_once() {
    let p = params();
    let mut checks = Vec::new();
    assert!(resolve_dim_eq(&p, "x", 0, "y", 1, |_| Resolution::Launch, &mut checks));
    assert!(resolve_dim_eq(&p, "x", 0, "y", 1, |_| Resolution::Launch, &mut checks));
    assert_eq!(checks.len(), 1);
    assert!(!resolve_dim_eq(&p, "x", 0, "z", 1, |_| Resolution::Jit, &mut checks));
    assert!(!resolve_dim_eq(&p, "x", 0, "y", 0, |_| Resolution::Device, &mut checks));
    assert_eq!(checks.len(), 1);
    let a = Atom::Dim { param: 0, axis: 0 };
    assert!(lower_obligation(
        Predicate::AtMost(a, a),
        "again".to_owned(),
        Resolution::Launch,
        &mut checks
    ));
    assert_eq!(checks.len(), 2);
}

#[test]
fn an_upper_bound_stays_in_the_kernel_where_nothing_is_moved() {
    let p = params();
    let mut checks = Vec::new();
    assert!(!resolve_dim_le(&p, false, "x", 0, "y", 1, 16, |_| Resolution::Device, &mut checks));
    assert!(checks.is_empty());
}

#[test]
fn a_denied_check_says_what_to_do() {
    assert!(deny_residual_check(false, "the bounds check", "Pad x").is_ok());
    let e = deny_residual_check(true, "the bounds check", "Pad x").unwrap_err();
    assert!(e.starts_with("`deny_in_kernel_checks`: the bounds check could not"));
    assert!(e.ends_with("Pad x. Or drop the flag."));
}

// --- frames -----------------------------------------------------------------

fn at(file: &str, line: u32, column: u32) -> SourceLocation {
    SourceLocation::At { file: file.to_owned(), line, column }
}

#[test]
fn inlined_operations_are_chained_to_the_call() {
    let mut s = InlineStack::new("m");
    assert!(matches!(s.ir_location(&at("d/k.rs", 3, 1)), Location::FileLineCol { line: 3, .. }));
    s.push_call_site(&at("d/k.rs", 5, 2), "helper", &at("d/h.rs", 10, 4), "d/k.rs");
    match s.ir_location(&at("d/h.rs", 11, 6)) {
        Location::CallSite { callee, caller } => {
            assert!(matches!(*caller, Location::FileLineCol { line: 5, column: 2, .. }));
            match *callee {
                Location::DebugInfo(d) => {
                    assert_eq!(d.line, 11);
                    assert_eq!(d.filename, "d/h.rs");
                }
                _ => panic!("the callee has a scope"),
            }
        }
        _ => panic!("the operation belongs to a call"),
    }
    s.push_opaque_call_site(&at("d/h.rs", 12, 1));
    assert!(matches!(s.resolve_span(at("core.rs", 1, 1)), SourceLocation::At { line: 12, .. }));
    s.pop_call_site();
    s.pop_call_site();
    assert!(matches!(s.ir_location(&at("d/k.rs", 3, 1)), Location::FileLineCol { line: 3, .. }));
    s.push_module_scope("helpers");
    assert_eq!(s.current_module(), "helpers");
    s.pop_module_scope();
    assert_eq!(s.current_module(), "m");
}

// --- signatures and types ---------------------------------------------------

#[test]
fn types_of_a_signature_default_to_unit() {
    let sig = Signature {
        ident: "f".to_owned(),
        generics: vec![],
        inputs: vec![FnArg::Receiver, FnArg::Typed(Pat::Ident("x".to_owned()), named("i32"))],
        output: None,
        is_unsafe: false,
    };
    let (inputs, output) = get_sig_types(sig, Some(named("Tile")));
    assert_eq!(inputs.len(), 2);
    assert_eq!(get_type_str(&inputs[0], "").unwrap(), "Tile");
    assert_eq!(get_type_str(&inputs[1], "").unwrap(), "i32");
    assert!(matches!(output, Type::Tuple(v) if v.is_empty()));
    let p = Type::Ptr(true, Box::new(named("f32")));
    assert_eq!(get_type_str(&p, "* mut f32").unwrap(), "* mut f32");
    assert_eq!(get_type_str(&Type::Tuple(vec![]), "()"), None);
}

#[test]
fn generic_arguments_are_found_behind_references() {
    let ty = Type::Reference(false, Box::new(global_type(vec![])));
    let (n, args) = get_ident_generic_args(&ty);
    assert_eq!(n.unwrap(), "Global");
    assert_eq!(args.len(), 2);
    assert_eq!(maybe_generic_args(&ty).unwrap().len(), 2);
    assert!(maybe_generic_args(&named("i32")).is_none());
}

#[test]
fn pointer_types_are_read_from_words() {
    assert_eq!(get_ptr_type("* mut f32"), Some((true, "f32".to_owned())));
    assert_eq!(get_ptr_type("* const  i64 "), Some((false, "i64".to_owned())));
    assert_eq!(get_ptr_type("& f32"), None);
    assert_eq!(get_ptr_type("* mut * mut f32"), Some((true, "* mut f32".to_owned())));
    assert_eq!(get_ptr_type("* const * mut f32"), Some((false, "* mut f32".to_owned())));
    assert_eq!(get_ptr_type("* mut "), Some((true, String::new())));
}

#[test]
fn attributes_are_found_and_cleared() {
    let attrs = || {
        vec![
            Meta::Path(path(&["inline"])),
            Meta::List(
                path(&["cuda_tile", "op"]),
                Some(vec![Meta::NameValue(path(&["name"]), string("addf"))]),
            ),
        ]
    };
    let l = get_cuda_tile_meta_list(attrs()).unwrap();
    assert_eq!(l.name_as_str().unwrap(), "cuda_tile :: op");
    assert_eq!(l.name_as_vec().unwrap(), vec!["cuda_tile", "op"]);
    assert_eq!(l.parse_string("name").unwrap(), "addf");
    assert!(l.parse_string("other").is_none());
    assert!(get_meta_list("op", attrs()).is_none());
    assert!(get_meta_list("cuda_tile :: op", attrs()).is_some());
    assert!(get_meta_list_by_last_segment("op", attrs()).is_some());
    assert!(get_cuda_tile_meta_list(vec![Meta::Path(path(&["cuda_tile"]))]).is_none());
    let kept = clear_attributes(&vec!["inline".to_owned()], attrs());
    assert_eq!(kept.len(), 1);
}

#[test]
fn values_are_looked_up_to_the_first_with_the_name() {
    let l = get_meta_list(
        "entry",
        vec![Meta::List(
            path(&["entry"]),
            Some(vec![
                Meta::NameValue(path(&["n"]), integer("4")),
                Meta::NameValue(path(&["x", "y"]), integer("5")),
                Meta::Path(path(&["flag"])),
            ]),
        )],
    )
    .unwrap();
    assert_eq!(l.parse_int("n"), Some(4));
    assert_eq!(l.parse_bool("flag"), Some(true));
}

#[test]
fn a_closure_captures_what_it_does_not_shadow() {
    let body = Expr::Binary(
        Box::new(Expr::Binary(Box::new(name("x")), Box::new(name("scale")))),
        Box::new(name("offset")),
    );
    let c = Closure {
        inputs: vec![Pat::Ident("x".to_owned()), Pat::Typed("acc".to_owned(), named("i32"))],
        body,
        is_async: false,
        is_move: true,
    };
    let outer: Vec<String> = ["scale", "x", "offset", "unused", "scale"]
        .iter()
        .map(|s| s.to_string())
        .collect();
    assert_eq!(get_closure_captures(&c, &outer), vec!["offset", "scale"]);
    let info = parse_closure(c);
    assert_eq!(info.params.len(), 2);
    assert_eq!(info.params[1].name, "acc");
    assert!(info.params[0].ty.is_none());
    assert!(info.params[1].ty.is_some());
    assert!(info.is_move && !info.is_async);
}

#[test]
fn a_closure_captures_what_it_refers_to_by_reference() {
    let c = Closure {
        inputs: vec![],
        body: Expr::MethodCall(
            Box::new(name("tile")),
            "load".to_owned(),
            vec![Expr::Reference(Box::new(name("view"))), name("index")],
        ),
        is_async: false,
        is_move: false,
    };
    let outer: Vec<String> =
        ["tile", "view", "index", "z"].iter().map(|n| n.to_string()).collect();
    assert_eq!(get_closure_captures(&c, &outer), vec!["index", "tile", "view"]);
}

#[test]
fn a_path_from_the_root_is_no_plain_name() {
    let root = |names: &[&str]| Path { leading: true, ..path(names) };
    let c = Closure {
        inputs: vec![],
        body: Expr::Path(root(&["a"])),
        is_async: false,
        is_move: false,
    };
    assert!(get_closure_captures(&c, &vec!["a".to_owned()]).is_empty());
    let attrs = || vec![Meta::List(root(&["cuda_tile", "op"]), Some(vec![]))];
    assert!(get_meta_list("cuda_tile :: op", attrs()).is_none());
    assert!(get_meta_list(":: cuda_tile :: op", attrs()).is_some());
    assert!(get_meta_list_by_last_segment("op", attrs()).is_some());
    assert!(get_cuda_tile_meta_list(attrs()).is_none());
}

#[test]
fn the_text_of_a_path_is_whole() {
    let with = |n: &str, words: &str| Segment {
        ident: n.to_owned(),
        arguments: PathArgs::Angle(vec![GenericArg::Type(named("i32"))]),
        words: words.to_owned(),
    };
    let generics = |p: Path| vec![GenericParam::Const("N".to_owned(), Type::Path(p))];
    let text = |p: Path| parse_cgas(&generics(p)).1[0].ty.clone();
    let wrapped = || vec![segment("a"), with("Wrapper", "< i32 >")];
    let plain = || Path { qself: None, leading: false, segments: wrapped() };
    assert_eq!(text(plain()), "a :: Wrapper < i32 >");
    assert_eq!(text(Path { leading: true, ..plain() }), ":: a :: Wrapper < i32 >");
    let of = |position: usize| Some(QSelf { ty: "T".to_owned(), position });
    assert_eq!(text(Path { qself: of(1), ..plain() }), "< T as a > :: Wrapper < i32 >");
    assert_eq!(
        text(Path { qself: of(0), leading: true, segments: vec![segment("X")] }),
        "< T > :: X"
    );
}

#[test]
fn one_comparison_is_made_once() {
    let a = Atom::Dim { param: 0, axis: 0 };
    let b = Atom::Dim { param: 1, axis: 2 };
    let mut checks = Vec::new();
    for p in [
        Predicate::Equal(a, b),
        Predicate::Equal(b, a),
        Predicate::Equal(a, b),
        Predicate::AtMost(a, b),
        Predicate::AtMost(b, a),
    ] {
        assert!(lower_obligation(p, "c".to_owned(), Resolution::Launch, &mut checks));
    }
    let kept: Vec<Predicate> = checks.iter().map(|c| c.predicate).collect();
    assert_eq!(
        kept,
        vec![Predicate::Equal(a, b), Predicate::AtMost(a, b), Predicate::AtMost(b, a)]
    );
}

// --- constants --------------------------------------------------------------

#[test]
fn constants_are_encoded_by_their_low_bits() {
    assert_eq!(constant_bytes(ScalarType::I1, 5), Some(vec![0xFF]));
    assert_eq!(constant_bytes(ScalarType::I4, -1), Some(vec![0x0F]));
    assert_eq!(constant_bytes(ScalarType::I16, -2), Some(vec![0xFE, 0xFF]));
    assert_eq!(
        constant_bytes(ScalarType::I64, i64::MIN),
        Some(i64::MIN.to_le_bytes().to_vec())
    );
    assert_eq!(constant_bytes(ScalarType::F32, 1), None);
}

#[test]
fn a_constant_needs_exact_bounds() {
    let mut m = Module::new("m");
    let (_, block, _) = build_single_block_region(&mut m, &vec![]);
    let i32_ty = Some(ScalarType::I32);
    let e = compile_constant_from_exact_bounds(
        &mut m, block, -1, 4, Some(true), i32_ty, vec![], Location::Unknown,
    )
    .unwrap_err();
    assert_eq!(e, ConstantError::NotExact);
    assert_eq!(
        e.message(-1, 4, "i32"),
        "expected a compile-time constant, but got a value with bounds [-1, 4]"
    );
    assert!(m.ops.is_empty());
    for (named, scalar, want) in [
        (None, i32_ty, ConstantError::NotElement),
        (Some(false), i32_ty, ConstantError::NoName),
        (Some(true), None, ConstantError::Unsupported),
    ] {
        let r = compile_constant_from_exact_bounds(
            &mut m, block, 3, 3, named, scalar, vec![], Location::Unknown,
        );
        assert_eq!(r, Err(want));
    }
    let v = compile_constant_from_exact_bounds(
        &mut m, block, 3, 3, Some(true), i32_ty, vec![], Location::Unknown,
    )
    .unwrap();
    assert_eq!(v.0, 0);
    let op = m.op(m.block(block).unwrap().ops[0]).unwrap();
    assert!(matches!(&op.attributes[0].1, Attribute::DenseElements(d) if d.data == [3, 0, 0, 0]));
    let bytes = 3f32.to_le_bytes().to_vec();
    compile_constant_from_exact_bounds(
        &mut m, block, 3, 3, Some(true), Some(ScalarType::F32), bytes.clone(), Location::Unknown,
    )
    .unwrap();
    let op = m.op(m.block(block).unwrap().ops[1]).unwrap();
    assert!(matches!(&op.attributes[0].1, Attribute::DenseElements(d) if d.data == bytes));
}

#[test]
fn module_constants_become_variables() {
    let item = |ty: &str, expr: Expr| ItemConst { ident: "C".to_owned(), ty: named(ty), expr };
    let mut g = GenericVars {
        others: vec!["S".to_owned()],
        inst_i32: vec![("N".to_owned(), 1)],
        inst_bool: vec![],
    };
    g.add_module_const_vars(&vec![
        ("N".to_owned(), item("i32", integer("2"))),
        ("M".to_owned(), item("i32", Expr::Unary(UnOp::Neg, Box::new(integer("3"))))),
        ("S".to_owned(), item("i32", integer("4"))),
        ("B".to_owned(), item("bool", boolean(true))),
        ("F".to_owned(), item("f32", integer("5"))),
    ]);
    assert_eq!(g.inst_i32, vec![("N".to_owned(), 1), ("M".to_owned(), -3)]);
    assert_eq!(g.inst_bool, vec![("B".to_owned(), true)]);
    assert_eq!(parse_signed_literal_as_i32(&integer("2147483647")), i32::MAX);
    assert_eq!(strides_type(&vec![8, -1]), "Array<{[8, -1]}>");
    assert_eq!(strides_type(&vec![]), "Array<{[]}>");
    assert_eq!(array_type(3), "[i32;3]");
}

#[test]
fn variables_become_constants_of_the_entry_function() {
    let mut m = Module::new("m");
    let (_, block, _) = build_single_block_region(&mut m, &vec![]);
    let g = GenericVars {
        others: vec![],
        inst_i32: vec![("N".to_owned(), -2)],
        inst_bool: vec![("B".to_owned(), true), ("C".to_owned(), false)],
    };
    let r = bind_constants(&mut m, block, &g, &Location::Unknown);
    let names: Vec<&str> = r.iter().map(|b| b.name.as_str()).collect();
    assert_eq!(names, vec!["N", "B", "C"]);
    assert!(r.iter().all(|b| !b.mutable));
    let data: Vec<Vec<u8>> = m
        .block(block)
        .unwrap()
        .ops
        .iter()
        .map(|id| match &m.op(*id).unwrap().attributes[0].1 {
            Attribute::DenseElements(d) => d.data.clone(),
            _ => panic!("constants hold data"),
        })
        .collect();
    assert_eq!(data, vec![vec![0xFE, 0xFF, 0xFF, 0xFF], vec![0xFF], vec![0]]);
    assert_eq!(r[2].value.0, 2);
}

#[test]
fn parameter_types_are_compiled_in_order() {
    let names = vec!["x".to_owned(), "y".to_owned()];
    let strides = vec![
        ("y".to_owned(), vec![7]),
        ("z".to_owned(), vec![1]),
        ("y".to_owned(), vec![16, 1]),
    ];
    let plain = |i: usize, s: Option<String>| Ok::<_, String>(Some(format!("{i} {s:?}")));
    assert_eq!(
        compile_function_param_types(&names, &strides, plain),
        Ok(vec!["0 None".to_owned(), "1 Some(\"Array<{[16, 1]}>\")".to_owned()])
    );
    let none = |i: usize, _: Option<String>| Ok::<_, String>(if i == 1 { None } else { Some(i) });
    let e = compile_function_param_types(&names, &strides, none).unwrap_err();
    assert_eq!(e, TypingError::NoParam(1));
    assert_eq!(
        e.message("Foo<T>"),
        Some("unable to compile parameter type `Foo<T>`".to_owned())
    );
    let bad = |i: usize, _: Option<String>| if i == 0 { Err("no") } else { Ok(Some(i)) };
    let e = compile_function_param_types(&names, &strides, bad).unwrap_err();
    assert_eq!(e, TypingError::Elsewhere("no"));
    assert_eq!(e.message("x"), None);
}

#[test]
fn generic_variables_have_types_behind_the_parameters() {
    let names = vec!["x".to_owned(), "N".to_owned()];
    let vars = GenericVars {
        others: vec![],
        inst_i32: vec![("N".to_owned(), 4)],
        inst_bool: vec![("B".to_owned(), true)],
    };
    let arrays = vec![("S".to_owned(), 3)];
    let same = |s: String| Ok::<_, String>(Some(s));
    let types = vec!["a".to_owned(), "b".to_owned()];
    let pair = |n: &str, t: &str| (n.to_owned(), t.to_owned());
    assert_eq!(
        initial_typeck_types(&names, types, &vars, &arrays, same),
        Ok(vec![
            pair("x", "a"),
            pair("N", "b"),
            pair("N", "i32"),
            pair("B", "bool"),
            pair("S", "[i32;3]"),
        ])
    );
    let texts = [("i32", VarKind::I32), ("bool", VarKind::Bool), ("[i32;3]", VarKind::Array)];
    let messages = ["i32", "bool", "array"];
    for (k, (text, kind)) in texts.iter().enumerate() {
        let missing = |s: String| Ok::<_, String>(if s == *text { None } else { Some(s) });
        let e = initial_typeck_types(&names, vec![], &vars, &arrays, missing).unwrap_err();
        assert_eq!(e, TypingError::NoVariable(*kind));
        assert_eq!(
            e.message(""),
            Some(format!("unable to compile const generic {} type", messages[k]))
        );
    }
    let bad = |_: String| Err::<Option<String>, _>("no");
    assert_eq!(
        initial_typeck_types(&names, vec![], &vars, &arrays, bad),
        Err(TypingError::Elsewhere("no"))
    );
}

#[test]
fn arguments_are_compiled_with_what_is_expected() {
    let args = vec![integer("5"), Expr::Path(path(&["x"]))];
    let derive = |i: usize| Ok::<_, String>(Some(i + 10));
    let compile = |i: usize, t: Option<usize>| Ok::<_, String>(Some((i, t)));
    assert_eq!(compile_call_args(&args, derive, compile), Ok(vec![(0, Some(10)), (1, None)]));
    let none = |i: usize, _: Option<usize>| Ok::<_, String>(if i == 1 { None } else { Some(i) });
    let e = compile_call_args(&args, derive, none).unwrap_err();
    assert_eq!(e, TypingError::NoArgument(1));
    assert_eq!(
        e.message("a \"b\""),
        Some("Failed to compile argument: \"a \\\"b\\\"\"".to_owned())
    );
    let lost = |_: usize| Err::<Option<usize>, _>("no".to_owned());
    assert_eq!(
        compile_call_args(&args, lost, compile),
        Err(TypingError::Elsewhere("no".to_owned()))
    );
}
