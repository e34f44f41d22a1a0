//! Kernels: admission, entry functions, accesses to globals, generic parameters.
use cutile::bytecode::encoding::{patch_u32, patch_u64};
use cutile::bytecode::opcode::Opcode;
use cutile::device::context::{Device, ExecutionContext, MemPool, Stream};
use cutile::frontend::entry::{
    bind_parameters, finish_entry_function, needs_expected_type, start_entry_function,
    CUDATileFunctionCompiler, CheckOptimizations, KernelError,
};
use cutile::frontend::frames::{has_inline_source, SourceLocation, SpanBase};
use cutile::frontend::globals::{
    atomic_add_mode, compile_global_atomic_add, compile_global_load, compile_global_store,
    GlobalError,
};
use cutile::frontend::hints::{CompileOptions, DebugInfoLevel};
use cutile::frontend::items::{
    function_returns, get_call_expression_generics, get_ident_from_path_expr,
    get_sig_param_names, get_supported_generic_params, is_closure, parse_cgas,
    strip_generic_args_lifetimes, strip_generics_lifetimes, VarCGAParameter,
};
use cutile::frontend::meta::SingleMetaList;
use cutile::frontend::obligations::KernelParams;
use cutile::frontend::syntax::{
    Closure, Expr, FnArg, GenericArg, GenericParam, ItemFn, Lit, Meta, Pat, Path, PathArgs,
    Segment, Signature, Type,
};
use cutile::ir::attr::Attribute;
use cutile::ir::builder::build_single_block_region;
use cutile::ir::location::Location;
use cutile::ir::module::{Module, Value};
use cutile::ir::types::{ScalarType, TileElementType, TileType, Type as IrType};

fn path(names: &[&str]) -> Path {
    Path {
        qself: None,
        leading: false,
        segments: names
            .iter()
            .map(|n| Segment {
                ident: n.to_string(),
                arguments: PathArgs::Absent,
                words: String::new(),
            })
            .collect(),
    }
}

fn named(n: &str) -> Type {
    Type::Path(path(&[n]))
}

fn integer(d: &str) -> Expr {
    Expr::Lit(Lit::Int(d.to_owned()))
}

fn scalar(s: ScalarType) -> IrType {
    IrType::Tile(TileType { shape: vec![], element_type: TileElementType::Scalar(s) })
}

fn kernel(args: Option<Vec<Meta>>, is_unsafe: bool) -> ItemFn {
    let attrs = match args {
        Some(a) => vec![Meta::List(path(&["cutile", "entry"]), Some(a))],
        None => vec![],
    };
    ItemFn {
        attrs,
        sig: Signature {
            ident: "k".to_owned(),
            generics: vec![],
            inputs: vec![FnArg::Typed(Pat::Ident("x".to_owned()), named("f32"))],
            output: None,
            is_unsafe,
        },
    }
}

fn compile(
    f: Option<&ItemFn>,
    module_known: bool,
    outcomes: [Result<(), u8>; 3],
    taken: bool,
    options: &CompileOptions,
) -> Result<CUDATileFunctionCompiler, KernelError<u8>> {
    let [analysis, generics, entry_point] = outcomes;
    CUDATileFunctionCompiler::new(
        module_known,
        "m",
        f,
        "k",
        analysis,
        generics,
        entry_point,
        "k_entry",
        taken,
        vec![false],
        vec![None],
        None,
        "sm_90".to_owned(),
        CheckOptimizations { hoist_to_preheaders: true, relocate_to_launch: true },
        options,
    )
}

fn refused(r: Result<CUDATileFunctionCompiler, KernelError<u8>>) -> KernelError<u8> {
    match r {
        Ok(_) => panic!("the kernel was admitted"),
        Err(e) => e,
    }
}

#[test]
fn a_kernel_is_admitted_with_its_hints_and_flags() {
    let occupancy = Expr::Assign(Box::new(Expr::Path(path(&["occupancy"]))), Box::new(integer("4")));
    let hints = Expr::Tuple(vec![Expr::Assign(
        Box::new(Expr::Path(path(&["sm_90"]))),
        Box::new(Expr::Tuple(vec![occupancy])),
    )]);
    let f = kernel(
        Some(vec![
            Meta::NameValue(path(&["optimization_hints"]), hints),
            Meta::Path(path(&["deny_in_kernel_checks"])),
        ]),
        false,
    );
    let options = CompileOptions::new(DebugInfoLevel::Full).max_divisibility(16);
    let c = compile(Some(&f), true, [Ok(()), Ok(()), Ok(())], false, &options).ok().unwrap();
    assert_eq!(c.gpu_name(), "sm_90");
    assert!(c.deny_in_kernel_checks);
    assert!(!c.check_opts.hoist_to_preheaders);
    assert!(c.check_opts.relocate_to_launch);
    assert_eq!(c.scalar_max_divisibility(), Some(16));
    assert_eq!(c.optimization_hints.get_sm_hints("sm_90").unwrap().occupancy, Some(4));
    assert_eq!(c.params.names, vec![Some("x".to_owned())]);
    assert!(c.launch_checks.is_empty());
}

#[test]
fn a_kernel_is_refused_step_by_step() {
    let o = CompileOptions::new(DebugInfoLevel::Off);
    let plain = kernel(Some(vec![]), false);
    let fine = || [Ok(()), Ok(()), Ok(())];
    let e = refused(compile(Some(&plain), false, fine(), false, &o));
    assert_eq!(e.message().unwrap(), "Undefined module: m");
    let e = refused(compile(None, true, fine(), false, &o));
    assert_eq!(e.message().unwrap(), "Undefined function: k");
    let bare = kernel(None, false);
    let e = refused(compile(Some(&bare), true, fine(), false, &o));
    assert_eq!(
        e.message().unwrap(),
        "function `k` is missing a required `#[entry(...)]` attribute"
    );
    let e = refused(compile(Some(&plain), true, [Err(1), Err(2), Err(3)], true, &o));
    assert!(matches!(e, KernelError::Analysis(1)));
    let unchecked = || Some(vec![Meta::Path(path(&["unchecked_accesses"]))]);
    let e = refused(compile(Some(&kernel(unchecked(), false)), true, fine(), false, &o));
    assert!(matches!(e, KernelError::NotUnsafe));
    assert!(compile(Some(&kernel(unchecked(), true)), true, fine(), false, &o).is_ok());
    let hints = Some(vec![Meta::NameValue(path(&["optimization_hints"]), integer("1"))]);
    let e = refused(compile(Some(&kernel(hints, false)), true, fine(), false, &o));
    assert!(matches!(e, KernelError::Hints(_)));
    let e = refused(compile(Some(&plain), true, [Ok(()), Err(2), Err(3)], true, &o));
    assert!(matches!(e, KernelError::Generics(2)));
    let e = refused(compile(Some(&plain), true, [Ok(()), Ok(()), Err(3)], true, &o));
    assert!(matches!(e, KernelError::EntryPoint(3)));
    let e = refused(compile(Some(&plain), true, fine(), true, &o));
    assert_eq!(e.message().unwrap(), "Entry point namespace collision: k_entry");
}

#[test]
fn an_entry_function_is_started_and_finished() {
    let mut m = Module::new("m");
    let types = vec![scalar(ScalarType::I32), scalar(ScalarType::F32)];
    let (region, block, args) = start_entry_function(&mut m, &types);
    assert_eq!(m.block(block).unwrap().args.len(), 2);
    let names = vec!["a".to_owned(), "b".to_owned()];
    let bound = bind_parameters(&names, &args, &vec![false, true]);
    assert_eq!(bound[1].name, "b");
    assert_eq!(bound[1].value, args[1]);
    assert!(bound[1].mutable && !bound[0].mutable);
    assert!(finish_entry_function(
        &mut m, "k_entry", "k", &types, region, true, None, Location::Unknown
    )
    .is_none());
    assert!(m.functions.is_empty());
    let id = finish_entry_function(
        &mut m, "k_entry", "k", &types, region, false, None, Location::Unknown,
    )
    .unwrap();
    assert_eq!(m.functions, vec![id]);
    let op = m.op(id).unwrap();
    assert_eq!(op.opcode, Opcode::Entry);
    assert!(matches!(&op.attributes[1].1, Attribute::String(s) if s == "k"));
    assert!(needs_expected_type(&integer("1")));
    assert!(!needs_expected_type(&Expr::Path(path(&["x"]))));
}

#[test]
fn accesses_to_globals_are_operations() {
    let mut m = Module::new("m");
    let (_, block, _) = build_single_block_region(&mut m, &vec![]);
    let p = Value(0);
    let i32_tile = || scalar(ScalarType::I32);
    let (v, t) =
        compile_global_load(&mut m, block, p, i32_tile(), "Relaxed", "Device", Location::Unknown)
            .unwrap();
    assert_eq!((v.0, t.0), (0, 1));
    assert_eq!(
        compile_global_load(&mut m, block, p, i32_tile(), "Release", "Device", Location::Unknown),
        Err(GlobalError::MemoryOrder)
    );
    let t = compile_global_store(&mut m, block, p, v, "Release", "System", Location::Unknown);
    assert_eq!(t.unwrap().0, 2);
    assert_eq!(
        compile_global_store(&mut m, block, p, v, "Release", "Block", Location::Unknown),
        Err(GlobalError::Scope)
    );
    let (old, t) = compile_global_atomic_add(
        &mut m, block, p, v, i32_tile(), "AcqRel", "Device", 3, Location::Unknown,
    )
    .unwrap();
    assert_eq!((old.0, t.0), (3, 4));
    let ops: Vec<Opcode> = m
        .block(block)
        .unwrap()
        .ops
        .iter()
        .map(|id| m.op(*id).unwrap().opcode)
        .collect();
    assert_eq!(ops, vec![Opcode::LoadPtrTko, Opcode::StorePtrTko, Opcode::AtomicRMW]);
    assert_eq!(atomic_add_mode(true), "AddF");
    assert_eq!(atomic_add_mode(false), "Add");
}

#[test]
fn generic_parameters_are_parted() {
    let array = |len: Expr| Type::Array(Box::new(named("i32")), Box::new(len));
    let generics = || {
        vec![
            GenericParam::Lifetime("a".to_owned()),
            GenericParam::Type("E".to_owned()),
            GenericParam::Const("S".to_owned(), array(integer("2"))),
            GenericParam::Const("N".to_owned(), named("i32")),
        ]
    };
    let (cgas, consts) = parse_cgas(&generics());
    assert_eq!(cgas.len(), 1);
    assert_eq!((cgas[0].name.as_str(), cgas[0].length), ("S", 2));
    assert_eq!(cgas[0].element_type, "i32");
    assert_eq!(consts.len(), 1);
    assert_eq!((consts[0].name.as_str(), consts[0].ty.as_str()), ("N", "i32"));
    let g = generics();
    let names: Vec<String> =
        get_supported_generic_params(&g).into_iter().map(|(n, _)| n).collect();
    assert_eq!(names, vec!["E", "S", "N"]);
    assert_eq!(strip_generics_lifetimes(generics()).len(), 3);
    let args = vec![GenericArg::Lifetime("a".to_owned()), GenericArg::Type(named("f32"))];
    assert_eq!(strip_generic_args_lifetimes(args).len(), 1);
    let v = VarCGAParameter::maybe_var_cga("S", &array(Expr::Path(path(&["R"])))).unwrap();
    assert_eq!(v.length_var, "R");
    assert_eq!(v.instance(3).length, 3);
    assert!(VarCGAParameter::maybe_var_cga("S", &array(integer("2"))).is_none());
}

#[test]
fn signatures_and_calls_are_read() {
    let f = kernel(None, false);
    assert_eq!(get_sig_param_names(&f.sig), vec!["x"]);
    assert!(!function_returns(&f));
    let mut g = kernel(None, false);
    g.sig.output = Some(Type::Tuple(vec![]));
    assert!(!function_returns(&g));
    g.sig.output = Some(named("i32"));
    assert!(function_returns(&g));
    assert_eq!(get_ident_from_path_expr(&path(&["a", "b"])), "b");
    let mut callee = path(&["f"]);
    callee.segments[0].arguments = PathArgs::Angle(vec![GenericArg::Const(integer("3"))]);
    assert_eq!(get_call_expression_generics(&Expr::Path(callee)).unwrap().len(), 1);
    assert!(get_call_expression_generics(&integer("3")).is_none());
    let c = Closure { inputs: vec![], body: integer("1"), is_async: false, is_move: false };
    assert!(is_closure(&Expr::Closure(Box::new(c))));
    assert!(!is_closure(&integer("1")));
}

#[test]
fn arguments_of_attributes_are_read() {
    let l = SingleMetaList::from_attribute(Meta::List(
        path(&["cuda_tile", "op"]),
        Some(vec![
            Meta::NameValue(
                path(&["params"]),
                Expr::Array(vec![
                    Expr::Lit(Lit::Str("a".to_owned())),
                    Expr::Lit(Lit::Str("b".to_owned())),
                ]),
            ),
            Meta::NameValue(path(&["n"]), integer("4294967295")),
            Meta::NameValue(path(&["off"]), Expr::Lit(Lit::Bool(false))),
            Meta::Path(path(&["on"])),
        ]),
    ));
    assert_eq!(l.parse_string_arr("params").unwrap(), vec!["a", "b"]);
    assert_eq!(l.parse_int("n"), Some(u32::MAX));
    assert_eq!(l.parse_bool("off"), Some(false));
    assert_eq!(l.parse_bool("on"), Some(true));
    assert_eq!(l.parse_bool("other"), None);
}

#[test]
fn declared_extents_follow_the_dimension_map() {
    let p = KernelParams {
        names: vec![Some("x".to_owned())],
        is_mutable: vec![false],
        shapes: vec![Some(vec![4, -1])],
    };
    assert_eq!(p.declared_view_extent(Some("x"), &vec![1, 0], 1), Some(4));
    assert_eq!(p.declared_view_extent(Some("x"), &vec![1, 0], 0), None);
    assert_eq!(p.declared_view_extent(Some("x"), &vec![-1], 0), None);
    assert_eq!(p.declared_view_extent(Some("y"), &vec![0], 0), None);
    assert_eq!(p.declared_view_extent(None, &vec![0], 0), None);
}

#[test]
fn the_core_library_has_no_inline_source() {
    let base = |file: &str, known: bool| SpanBase {
        file: file.to_owned(),
        base_line: 1,
        base_col: 0,
        known,
    };
    let core = base("core.rs", true);
    assert!(has_inline_source(Some(&base("k.rs", true)), Some(&core)));
    assert!(!has_inline_source(Some(&base("core.rs", true)), Some(&core)));
    assert!(!has_inline_source(Some(&base("k.rs", false)), Some(&core)));
    assert!(!has_inline_source(None, Some(&core)));
    assert!(!SourceLocation::Unknown.is_known());
}

#[test]
fn opcodes_know_their_results() {
    assert_eq!(Opcode::AddI.fixed_result_count(), Some(1));
    assert_eq!(Opcode::GetTileBlockId.fixed_result_count(), Some(3));
    assert_eq!(Opcode::LoadPtrTko.fixed_result_count(), Some(2));
    assert_eq!(Opcode::If.fixed_result_count(), None);
    for n in 0..200u16 {
        if let Some(op) = Opcode::from_u16(n) {
            assert_eq!(op.as_u16(), n);
        }
    }
}

#[test]
fn bytes_are_patched_in_place() {
    let mut b = vec![0xAAu8; 14];
    patch_u32(&mut b, 1, 0x01020304);
    patch_u64(&mut b, 6, 1);
    assert_eq!(b, vec![0xAA, 4, 3, 2, 1, 0xAA, 1, 0, 0, 0, 0, 0, 0, 0]);
}

#[test]
fn a_capturing_context_records_resources() {
    let stream = Stream { handle: 3, device: Device { ordinal: 1 } };
    let mut c: ExecutionContext<u8, u16> =
        ExecutionContext::for_capture(stream, Some(MemPool { handle: 9 }));
    assert!(c.is_recording());
    c.record_resource(5);
    assert_eq!(c.submission.recorded, vec![5]);
    assert_eq!(c.get_pool().unwrap().handle, 9);
    let fresh = c.fresh_submission();
    assert!(!fresh.is_recording() && fresh.submission.recorded.is_empty());
}
