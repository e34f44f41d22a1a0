//! Modules that are written, read and written again.
use cutile::bytecode::enums::BytecodeVersion;
use cutile::bytecode::opcode::Opcode;
use cutile::bytecode::reader::{read_bytecode, read_bytecode_versioned};
use cutile::bytecode::writer::{write_bytecode, write_bytecode_version};
use cutile::error::{ReadError, WriteError};
use cutile::ir::attr::{Attribute, DenseElements, OptimizationHints};
use cutile::ir::builder::{append_op, build_single_block_region, OpBuilder};
use cutile::ir::location::Location;
use cutile::ir::module::{BlockId, Global, Module, SymbolVisibility, Value};
use cutile::ir::types::{
    FuncType, PaddingValue, PartitionViewType, PointerType, ScalarType, TensorViewType,
    TileElementType, TileType, Type,
};

const DYNAMIC: i64 = i64::MIN;

fn assert_roundtrip(module: &Module, version: BytecodeVersion) {
    let bytes = write_bytecode_version(module, version).unwrap();
    let (rebuilt, read_version) = read_bytecode_versioned(&bytes).unwrap();
    assert_eq!(read_version, version, "reader must report the header version");
    let bytes2 = write_bytecode_version(&rebuilt, version).unwrap();
    assert_eq!(bytes2.len(), bytes.len());
    assert_eq!(bytes2, bytes);
}

fn copies(types: &[Type]) -> Vec<Type> {
    types.iter().map(|t| t.duplicate()).collect()
}

fn build_kernel(
    name: &str,
    arg_types: &[Type],
    build_body: impl FnOnce(&mut Module, BlockId, &[Value]),
) -> Module {
    build_kernel_with_entry(name, arg_types, &Location::Unknown, None, None, build_body)
}

fn build_kernel_with_entry(
    name: &str,
    arg_types: &[Type],
    entry_loc: &Location,
    di_name: Option<String>,
    hints: Option<Attribute>,
    build_body: impl FnOnce(&mut Module, BlockId, &[Value]),
) -> Module {
    let mut module = Module::new("test");
    let func_type = Type::Func(FuncType { inputs: copies(arg_types), results: vec![] });
    let (region_id, block_id, args) = build_single_block_region(&mut module, &copies(arg_types));
    build_body(&mut module, block_id, &args);
    let needs_return = {
        let block = module.block(block_id).unwrap();
        match block.ops.last() {
            Some(last) => module.op(*last).unwrap().opcode != Opcode::Return,
            None => true,
        }
    };
    if needs_return {
        let (ret, _) = OpBuilder::new(Opcode::Return, Location::Unknown).build(&mut module);
        append_op(&mut module, block_id, ret);
    }
    let mut builder = OpBuilder::new(Opcode::Entry, entry_loc.duplicate())
        .attr("sym_name", Attribute::String(name.to_owned()));
    if let Some(dn) = di_name {
        builder = builder.attr("di_name", Attribute::String(dn));
    }
    builder = builder.attr("function_type", Attribute::Type(func_type));
    if let Some(h) = hints {
        builder = builder.attr("optimization_hints", h);
    }
    builder = builder.region(region_id);
    let (entry, _) = builder.build(&mut module);
    module.push_function(entry);
    module
}

fn tile(shape: Vec<i64>, scalar: ScalarType) -> Type {
    Type::Tile(TileType { shape, element_type: TileElementType::Scalar(scalar) })
}

fn tile_f32() -> Type {
    tile(vec![128], ScalarType::F32)
}

fn tile_i32() -> Type {
    tile(vec![128], ScalarType::I32)
}

fn scalar_i32() -> Type {
    tile(vec![], ScalarType::I32)
}

fn scalar_f32() -> Type {
    tile(vec![], ScalarType::F32)
}

fn tile_ptr_f32() -> Type {
    Type::Tile(TileType {
        shape: vec![],
        element_type: TileElementType::Pointer(PointerType { pointee: ScalarType::F32 }),
    })
}

fn tile_i1() -> Type {
    tile(vec![128], ScalarType::I1)
}

fn token() -> Type {
    Type::Token
}

fn view_f32() -> TensorViewType {
    TensorViewType {
        element_type: ScalarType::F32,
        shape: vec![DYNAMIC, 128],
        strides: vec![128, 1],
    }
}

fn tensor_view_f32() -> Type {
    Type::TensorView(view_f32())
}

fn partition_view_f32() -> Type {
    Type::PartitionView(PartitionViewType {
        tile_shape: vec![128],
        tensor_view: view_f32(),
        dim_map: vec![0, 1],
        padding_value: Some(PaddingValue::Nan),
    })
}

fn dense_const(module: &mut Module, block: BlockId, ty: Type, data: Vec<u8>) -> Value {
    let (op, results) = OpBuilder::new(Opcode::Constant, Location::Unknown)
        .result(ty.duplicate())
        .attr(
            "value",
            Attribute::DenseElements(DenseElements { element_type: ty, shape: vec![], data }),
        )
        .build(module);
    append_op(module, block, op);
    results[0]
}

fn sizes(s: &[i64]) -> Attribute {
    Attribute::Array(s.iter().map(|n| Attribute::i32(*n)).collect())
}

fn operands(mut b: OpBuilder, vs: &[Value]) -> OpBuilder {
    for v in vs {
        b = b.operand(*v);
    }
    b
}

fn arith_module() -> Module {
    build_kernel("basic", &[tile_f32(), tile_i32()], |m, b, a| {
        let zero = dense_const(m, b, scalar_i32(), 0i32.to_le_bytes().to_vec());
        let (cmp, cmp_res) = OpBuilder::new(Opcode::CmpI, Location::Unknown)
            .result(scalar_i32())
            .attr("comparison_predicate", Attribute::i32(2))
            .attr("signedness", Attribute::i32(1))
            .operand(a[1])
            .operand(zero)
            .build(m);
        append_op(m, b, cmp);
        let (sel, sel_res) = OpBuilder::new(Opcode::Select, Location::Unknown)
            .result(tile_f32())
            .operand(cmp_res[0])
            .operand(a[0])
            .operand(a[0])
            .build(m);
        append_op(m, b, sel);
        let (neg, neg_res) = OpBuilder::new(Opcode::NegI, Location::Unknown)
            .result(tile_i32())
            .attr("overflow", Attribute::i32(3))
            .operand(a[1])
            .build(m);
        append_op(m, b, neg);
        let (add, _) = OpBuilder::new(Opcode::AddI, Location::Unknown)
            .result(tile_i32())
            .attr("overflow", Attribute::i32(0))
            .operand(a[1])
            .operand(neg_res[0])
            .build(m);
        append_op(m, b, add);
        let (fadd, _) = OpBuilder::new(Opcode::AddF, Location::Unknown)
            .result(tile_f32())
            .attr("rounding_mode", Attribute::i32(5))
            .operand(a[0])
            .operand(sel_res[0])
            .build(m);
        append_op(m, b, fadd);
    })
}

#[test]
fn roundtrip_empty_module() {
    let module = Module::new("empty");
    assert_roundtrip(&module, BytecodeVersion::v13_3());
}

#[test]
fn roundtrip_basic_arith_kernel() {
    assert_roundtrip(&arith_module(), BytecodeVersion::v13_3());
}

#[test]
fn roundtrip_for_loop_with_carry() {
    let module = build_kernel("for_loop", &[tile_f32()], |m, b, a| {
        let zero_i = dense_const(m, b, scalar_i32(), 0i32.to_le_bytes().to_vec());
        let one_i = dense_const(m, b, scalar_i32(), 1i32.to_le_bytes().to_vec());
        let bound = dense_const(m, b, scalar_i32(), 16i32.to_le_bytes().to_vec());
        let (loop_region, loop_block, loop_args) =
            build_single_block_region(m, &vec![tile_i32(), tile_f32()]);
        let (body_add, body_add_res) = OpBuilder::new(Opcode::AddF, Location::Unknown)
            .result(tile_f32())
            .attr("rounding_mode", Attribute::i32(5))
            .operand(a[0])
            .operand(loop_args[1])
            .build(m);
        append_op(m, loop_block, body_add);
        let (yield_op, _) = operands(
            OpBuilder::new(Opcode::Yield, Location::Unknown),
            &[loop_args[0], body_add_res[0]],
        )
        .build(m);
        append_op(m, loop_block, yield_op);
        let (for_op, _) = operands(
            OpBuilder::new(Opcode::For, Location::Unknown).result(tile_f32()),
            &[zero_i, bound, one_i, a[0]],
        )
        .region(loop_region)
        .build(m);
        append_op(m, b, for_op);
    });
    assert_roundtrip(&module, BytecodeVersion::v13_3());
}

#[test]
fn roundtrip_if_else_and_loop() {
    let module = build_kernel("if_loop", &[tile_i32()], |m, b, a| {
        let zero = dense_const(m, b, scalar_i32(), 0i32.to_le_bytes().to_vec());
        let one = dense_const(m, b, scalar_i32(), 1i32.to_le_bytes().to_vec());
        let (cmp, cmp_res) = OpBuilder::new(Opcode::CmpI, Location::Unknown)
            .result(scalar_i32())
            .attr("comparison_predicate", Attribute::i32(0))
            .attr("signedness", Attribute::i32(0))
            .operand(a[0])
            .operand(zero)
            .build(m);
        append_op(m, b, cmp);

        let (if_region, if_block, if_args) = build_single_block_region(m, &vec![tile_i32()]);
        let (y, _) =
            operands(OpBuilder::new(Opcode::Yield, Location::Unknown), &if_args).build(m);
        append_op(m, if_block, y);
        let (else_region, else_block, _) = build_single_block_region(m, &vec![tile_i32()]);
        let (y2, _) = OpBuilder::new(Opcode::Yield, Location::Unknown).operand(one).build(m);
        append_op(m, else_block, y2);
        let (if_op, if_res) = OpBuilder::new(Opcode::If, Location::Unknown)
            .result(tile_i32())
            .operand(cmp_res[0])
            .region(if_region)
            .region(else_region)
            .build(m);
        append_op(m, b, if_op);

        let (loop_region, loop_block, loop_args) = build_single_block_region(m, &vec![tile_i32()]);
        let (cmp2, _) = OpBuilder::new(Opcode::CmpI, Location::Unknown)
            .result(scalar_i32())
            .attr("comparison_predicate", Attribute::i32(2))
            .attr("signedness", Attribute::i32(0))
            .operand(loop_args[0])
            .operand(one)
            .build(m);
        append_op(m, loop_block, cmp2);
        let (break_op, _) =
            OpBuilder::new(Opcode::Break, Location::Unknown).operand(if_res[0]).build(m);
        append_op(m, loop_block, break_op);
        let (continue_op, _) =
            OpBuilder::new(Opcode::Continue, Location::Unknown).operand(one).build(m);
        append_op(m, loop_block, continue_op);
        let (loop_op, _) = OpBuilder::new(Opcode::Loop, Location::Unknown)
            .result(tile_i32())
            .operand(if_res[0])
            .region(loop_region)
            .build(m);
        append_op(m, b, loop_op);
    });
    assert_roundtrip(&module, BytecodeVersion::v13_3());
}

fn hinted_module() -> Module {
    let hints = Attribute::OptimizationHints(OptimizationHints {
        entries: vec![(
            "sm_100a".to_owned(),
            vec![
                ("num_cta_in_cga".to_owned(), Attribute::i32(2)),
                ("max_dynamic_shared_memory_bytes".to_owned(), Attribute::i32(232448)),
            ],
        )],
    });
    let entry_loc =
        Location::FileLineCol { filename: "kernel.cu".to_owned(), line: 42, column: 5 };
    let mut module = build_kernel_with_entry(
        "hinted",
        &[],
        &entry_loc,
        Some("hinted_kernel".to_owned()),
        Some(hints),
        |_, _, _| {},
    );
    let func_type = Type::Func(FuncType { inputs: vec![tile_i32()], results: vec![] });
    let (region_id, block_id, args) = build_single_block_region(&mut module, &vec![tile_i32()]);
    let (use_op, use_res) = OpBuilder::new(Opcode::NegI, Location::Unknown)
        .result(tile_i32())
        .operand(args[0])
        .build(&mut module);
    append_op(&mut module, block_id, use_op);
    let (ret, _) = OpBuilder::new(Opcode::Return, Location::Unknown)
        .operand(use_res[0])
        .build(&mut module);
    append_op(&mut module, block_id, ret);
    let plain_loc =
        Location::FileLineCol { filename: "kernel.cu".to_owned(), line: 99, column: 1 };
    let (entry, _) = OpBuilder::new(Opcode::Entry, plain_loc)
        .attr("sym_name", Attribute::String("plain".to_owned()))
        .attr("function_type", Attribute::Type(func_type))
        .region(region_id)
        .build(&mut module);
    module.push_function(entry);
    module
}

#[test]
fn roundtrip_entry_with_optimization_hints() {
    assert_roundtrip(&hinted_module(), BytecodeVersion::v13_3());
}

#[test]
fn roundtrip_views_and_reduce() {
    let module = build_kernel("views", &[tensor_view_f32()], |m, b, a| {
        let (mv, mv_res) = OpBuilder::new(Opcode::MakeTensorView, Location::Unknown)
            .result(tensor_view_f32())
            .attr("operandSegmentSizes", sizes(&[1, 0, 0]))
            .operand(a[0])
            .build(m);
        append_op(m, b, mv);
        let (pv, pv_res) = OpBuilder::new(Opcode::MakePartitionView, Location::Unknown)
            .result(partition_view_f32())
            .operand(mv_res[0])
            .build(m);
        append_op(m, b, pv);

        let (tok, tok_res) =
            OpBuilder::new(Opcode::MakeToken, Location::Unknown).result(Type::Token).build(m);
        append_op(m, b, tok);
        let c0 = dense_const(m, b, scalar_i32(), 0i32.to_le_bytes().to_vec());
        let (ld, ld_res) = OpBuilder::new(Opcode::LoadViewTko, Location::Unknown)
            .result(tile_f32())
            .result(Type::Token)
            .attr("memory_ordering_semantics", Attribute::i32(2))
            .attr("operandSegmentSizes", sizes(&[1, 2, 1]))
            .operand(pv_res[0])
            .operand(c0)
            .operand(c0)
            .operand(tok_res[0])
            .build(m);
        append_op(m, b, ld);

        let (reduce_region, reduce_block, reduce_args) =
            build_single_block_region(m, &vec![tile_f32(), tile_f32()]);
        let (acc_add, acc_add_res) = OpBuilder::new(Opcode::AddF, Location::Unknown)
            .result(tile_f32())
            .attr("rounding_mode", Attribute::i32(5))
            .operand(reduce_args[0])
            .operand(reduce_args[1])
            .build(m);
        append_op(m, reduce_block, acc_add);
        let (ry, _) = OpBuilder::new(Opcode::Yield, Location::Unknown)
            .operand(acc_add_res[0])
            .build(m);
        append_op(m, reduce_block, ry);
        let identity = (0.0f32).to_bits() as u64;
        let (reduce, _) = OpBuilder::new(Opcode::Reduce, Location::Unknown)
            .result(scalar_f32())
            .attr("dim", Attribute::i32(1))
            .attr(
                "identities",
                Attribute::Array(vec![Attribute::Float(
                    identity,
                    Type::Scalar(ScalarType::F32),
                )]),
            )
            .operand(ld_res[0])
            .region(reduce_region)
            .build(m);
        append_op(m, b, reduce);
    });
    assert_roundtrip(&module, BytecodeVersion::v13_3());
}

#[test]
fn roundtrip_v13_2() {
    let module = build_kernel("v132", &[tile_f32()], |m, b, a| {
        let (exp, _) = OpBuilder::new(Opcode::Exp, Location::Unknown)
            .result(tile_f32())
            .operand(a[0])
            .build(m);
        append_op(m, b, exp);
    });
    assert_roundtrip(&module, BytecodeVersion::v13_2());
    assert_roundtrip(&module, BytecodeVersion::v13_3());
}

fn global_module() -> Module {
    let mut module = Module::new("test");
    module.push_global(Global {
        sym_name: "my_global".to_owned(),
        value: DenseElements {
            element_type: tile(vec![1], ScalarType::F32),
            shape: vec![1],
            data: 1.5f32.to_le_bytes().to_vec(),
        },
        alignment: 4,
        constant: false,
        symbol_visibility: SymbolVisibility::Public,
    });
    let func_type = Type::Func(FuncType { inputs: vec![], results: vec![] });
    let (region_id, block_id, _args) = build_single_block_region(&mut module, &vec![]);
    let (gg, gg_res) = OpBuilder::new(Opcode::GetGlobal, Location::Unknown)
        .result(tile_ptr_f32())
        .attr("name", Attribute::String("my_global".to_owned()))
        .build(&mut module);
    append_op(&mut module, block_id, gg);
    let (ld, _) = OpBuilder::new(Opcode::LoadPtrTko, Location::Unknown)
        .operand(gg_res[0])
        .result(scalar_f32())
        .result(token())
        .attr("memory_ordering_semantics", Attribute::i32(0))
        .attr("operandSegmentSizes", sizes(&[1, 0, 0, 0]))
        .build(&mut module);
    append_op(&mut module, block_id, ld);
    let (ret, _) = OpBuilder::new(Opcode::Return, Location::Unknown).build(&mut module);
    append_op(&mut module, block_id, ret);
    let (entry, _) = OpBuilder::new(Opcode::Entry, Location::Unknown)
        .attr("sym_name", Attribute::String("global_kernel".to_owned()))
        .attr("function_type", Attribute::Type(func_type))
        .region(region_id)
        .build(&mut module);
    module.push_function(entry);
    module
}

#[test]
fn roundtrip_globals_and_get_global() {
    let module = global_module();
    assert_roundtrip(&module, BytecodeVersion::v13_3());
    assert_roundtrip(&module, BytecodeVersion::v13_2());
}

#[test]
fn roundtrip_ptr_store_and_atomics() {
    let module = build_kernel(
        "ptr_atomic",
        &[tile_ptr_f32(), tile_f32(), tile_i1(), token()],
        |m, b, a| {
            let (st, _) = operands(
                OpBuilder::new(Opcode::StorePtrTko, Location::Unknown),
                &[a[0], a[1], a[2], a[3]],
            )
            .result(token())
            .attr("memory_ordering_semantics", Attribute::i32(0))
            .attr("operandSegmentSizes", sizes(&[1, 1, 1, 1]))
            .build(m);
            append_op(m, b, st);
            let (rmw, _) = OpBuilder::new(Opcode::AtomicRMW, Location::Unknown)
                .operand(a[0])
                .operand(a[1])
                .result(tile_f32())
                .result(token())
                .attr("memory_ordering_semantics", Attribute::i32(0))
                .attr("memory_scope", Attribute::i32(0))
                .attr("mode", Attribute::i32(0))
                .attr("operandSegmentSizes", sizes(&[1, 1, 0, 0]))
                .build(m);
            append_op(m, b, rmw);
        },
    );
    assert_roundtrip(&module, BytecodeVersion::v13_3());
}

#[test]
fn roundtrip_join_tokens() {
    let module = build_kernel("jtok", &[token()], |m, b, a| {
        let (t2, t2_res) =
            OpBuilder::new(Opcode::MakeToken, Location::Unknown).result(token()).build(m);
        append_op(m, b, t2);
        let (join, _) = OpBuilder::new(Opcode::JoinTokens, Location::Unknown)
            .result(token())
            .operand(a[0])
            .operand(t2_res[0])
            .build(m);
        append_op(m, b, join);
    });
    assert_roundtrip(&module, BytecodeVersion::v13_3());
}

#[test]
fn roundtrip_ops_with_file_line_col_locations() {
    let loc = |line: u32| Location::FileLineCol {
        filename: "kernel.cu".to_owned(),
        line,
        column: 3,
    };
    let entry_loc = loc(10);
    let module = build_kernel_with_entry(
        "located",
        &[tile_f32()],
        &entry_loc,
        Some("located_kernel".to_owned()),
        None,
        |m, b, a| {
            let (c, _) = OpBuilder::new(Opcode::Constant, loc(11))
                .result(scalar_f32())
                .attr(
                    "value",
                    Attribute::DenseElements(DenseElements {
                        element_type: scalar_f32(),
                        shape: vec![],
                        data: 2.0f32.to_le_bytes().to_vec(),
                    }),
                )
                .build(m);
            append_op(m, b, c);
            let (cmp, _) = OpBuilder::new(Opcode::CmpF, loc(12))
                .result(tile_i1())
                .attr("comparison_predicate", Attribute::i32(0))
                .attr("comparison_ordering", Attribute::i32(0))
                .operand(a[0])
                .operand(a[0])
                .build(m);
            append_op(m, b, cmp);
        },
    );
    assert_roundtrip(&module, BytecodeVersion::v13_3());
}

#[test]
fn a_function_is_found_at_its_bare_location_again() {
    for shown in [None, Some("shown".to_owned())] {
        let place =
            Location::FileLineCol { filename: "kernel.cu".to_owned(), line: 10, column: 3 };
        let module =
            build_kernel_with_entry("f", &[tile_f32()], &place, shown.clone(), None, |_, _, _| {});
        let m = read_bytecode(&write_bytecode(&module).unwrap()).unwrap();
        let op = m.op(m.functions[0]).unwrap();
        assert!(matches!(
            &op.location,
            Location::FileLineCol { filename, line: 10, column: 3 } if filename == "kernel.cu"
        ));
        let found = op.attributes.iter().find(|a| a.0 == "di_name").map(|a| &a.1);
        match shown {
            Some(s) => assert!(matches!(found, Some(Attribute::String(t)) if *t == s)),
            None => assert!(found.is_none()),
        }
    }
}

#[test]
fn reader_rejects_malformed_input() {
    assert!(read_bytecode(&[]).is_err());
    let bad = vec![0u8; 16];
    assert!(read_bytecode(&bad).is_err());
    assert!(read_bytecode(&[0x7F, b'T', b'i']).is_err());
    let mut v = vec![
        0x7F, b'T', b'i', b'l', b'e', b'I', b'R', 0x00, 13, 3, 0, 0, 0x7F,
    ];
    v.resize(32, 0);
    assert!(read_bytecode(&v).is_err());
    let mut rng_state: u64 = 0x1234_5678_9abc_def0;
    let mut rand = || {
        rng_state =
            rng_state.wrapping_mul(6364136223846793005).wrapping_add(1442695040888963407);
        (rng_state >> 33) as u8
    };
    for _ in 0..50 {
        let garbage: Vec<u8> = (0..64).map(|_| rand()).collect();
        let _ = read_bytecode(&garbage);
    }
}

#[test]
fn reader_roundtrip_is_stable_under_repeated_reads() {
    let module = build_kernel("stable", &[tile_f32()], |m, b, a| {
        let (add, _) = OpBuilder::new(Opcode::AddF, Location::Unknown)
            .result(tile_f32())
            .attr("rounding_mode", Attribute::i32(5))
            .operand(a[0])
            .operand(a[0])
            .build(m);
        append_op(m, b, add);
    });
    let b1 = write_bytecode_version(&module, BytecodeVersion::v13_3()).unwrap();
    for _ in 0..3 {
        let (m2, ver) = read_bytecode_versioned(&b1).unwrap();
        let b2 = write_bytecode_version(&m2, ver).unwrap();
        assert_eq!(b2, b1);
    }
}

#[test]
fn an_empty_module_is_a_header_a_debug_section_and_an_end() {
    let bytes = write_bytecode(&Module::new("empty")).unwrap();
    assert_eq!(&bytes[0..8], &[0x7F, b'T', b'i', b'l', b'e', b'I', b'R', 0x00]);
    assert_eq!(&bytes[8..12], &[13, 3, 0, 0]);
    assert_eq!(bytes[bytes.len() - 1], 0);
}

#[test]
fn the_parts_of_a_module_are_read_back() {
    let bytes = write_bytecode(&global_module()).unwrap();
    let (m, version) = read_bytecode_versioned(&bytes).unwrap();
    assert_eq!(version, BytecodeVersion::v13_3());
    assert_eq!(m.name, "module");
    assert_eq!(m.globals.len(), 1);
    assert_eq!(m.globals[0].sym_name, "my_global");
    assert_eq!(m.globals[0].alignment, 4);
    assert_eq!(m.globals[0].value.data, 1.5f32.to_le_bytes().to_vec());
    assert_eq!(m.globals[0].value.shape, vec![1]);
    assert_eq!(m.functions.len(), 1);
    let entry = m.op(m.functions[0]).unwrap();
    assert_eq!(entry.opcode, Opcode::Entry);
    assert_eq!(entry.attributes[0].0, "sym_name");
    assert!(matches!(&entry.attributes[0].1, Attribute::String(s) if s == "global_kernel"));
    let block = m.block(m.region(entry.regions[0]).unwrap().blocks[0]).unwrap();
    let opcodes: Vec<Opcode> = block.ops.iter().map(|id| m.op(*id).unwrap().opcode).collect();
    assert_eq!(opcodes, vec![Opcode::GetGlobal, Opcode::LoadPtrTko, Opcode::Return]);
    let load = m.op(block.ops[1]).unwrap();
    let got = m.op(block.ops[0]).unwrap();
    assert_eq!(got.operands.len(), 0);
    assert_eq!(load.operands.len(), 1);
}

#[test]
fn attributes_in_another_order_give_other_bytes_once() {
    // Strings are numbered in the order in which attributes mention them.
    let build = |swapped: bool| {
        build_kernel("order", &[tile_i32()], |m, b, a| {
            let mut op = OpBuilder::new(Opcode::CmpI, Location::Unknown).result(scalar_i32());
            if swapped {
                op = op
                    .attr("signedness", Attribute::i32(1))
                    .attr("comparison_predicate", Attribute::i32(2));
            } else {
                op = op
                    .attr("comparison_predicate", Attribute::i32(2))
                    .attr("signedness", Attribute::i32(1));
            }
            let (cmp, _) = op.operand(a[0]).operand(a[0]).build(m);
            append_op(m, b, cmp);
        })
    };
    let plain = write_bytecode(&build(false)).unwrap();
    let swapped = write_bytecode(&build(true)).unwrap();
    assert_ne!(plain, swapped);
    let again = write_bytecode(&read_bytecode(&swapped).unwrap()).unwrap();
    assert_eq!(again, plain);
    assert_eq!(write_bytecode(&read_bytecode(&again).unwrap()).unwrap(), again);
}

#[test]
fn nothing_changes_from_the_second_pass_on() {
    // The reader adds a number that was left out where its name is among the strings.
    let module = build_kernel("twice", &[tile_i32()], |m, b, a| {
        let (neg, _) = OpBuilder::new(Opcode::NegI, Location::Unknown)
            .result(tile_i32())
            .operand(a[0])
            .build(m);
        append_op(m, b, neg);
        let (add, _) = OpBuilder::new(Opcode::AddI, Location::Unknown)
            .result(tile_i32())
            .attr("overflow", Attribute::i32(0))
            .operand(a[0])
            .operand(a[0])
            .build(m);
        append_op(m, b, add);
    });
    let first = write_bytecode(&module).unwrap();
    let second = write_bytecode(&read_bytecode(&first).unwrap()).unwrap();
    let third = write_bytecode(&read_bytecode(&second).unwrap()).unwrap();
    assert_eq!(third, second);
}

#[test]
fn what_cannot_be_written_is_refused() {
    let mut m = Module::new("m");
    let (e, _) = OpBuilder::new(Opcode::Entry, Location::Unknown).build(&mut m);
    m.push_function(e);
    assert_eq!(write_bytecode(&m), Err(WriteError::MissingSymName));

    let mut m = Module::new("m");
    let (e, _) = OpBuilder::new(Opcode::Entry, Location::Unknown)
        .attr("sym_name", Attribute::String("k".to_owned()))
        .build(&mut m);
    m.push_function(e);
    assert_eq!(write_bytecode(&m), Err(WriteError::MissingFunctionType));

    let m = build_kernel("k", &[tile_i32()], |m, b, a| {
        let (op, _) = OpBuilder::new(Opcode::AddI, Location::Unknown)
            .result(tile_i32())
            .operand(a[0])
            .operand(a[0])
            .build(m);
        append_op(m, b, op);
    });
    assert_eq!(write_bytecode(&m), Err(WriteError::MissingAttribute));

    let m = build_kernel("k", &[tile_i32()], |m, b, a| {
        let (op, _) = OpBuilder::new(Opcode::AndI, Location::Unknown)
            .operand(a[0])
            .operand(a[0])
            .build(m);
        append_op(m, b, op);
    });
    assert_eq!(write_bytecode(&m), Err(WriteError::WrongResultCount));

    let m = build_kernel("k", &[], |m, b, _| {
        let (op, _) = OpBuilder::new(Opcode::Return, Location::Unknown)
            .operand(Value(77))
            .build(m);
        append_op(m, b, op);
    });
    assert_eq!(write_bytecode(&m), Err(WriteError::UndefinedOperand(77)));

    let m = build_kernel("k", &[], |_, _, _| {});
    let old = BytecodeVersion { major: 13, minor: 0, tag: 0 };
    assert_eq!(write_bytecode_version(&m, old), Err(WriteError::UnsupportedVersion(13, 0, 0)));
}

#[test]
fn what_is_read_refers_to_values_that_are_defined() {
    let bytes = write_bytecode(&arith_module()).unwrap();
    let mut undefined = 0;
    for i in 0..bytes.len() {
        let mut changed = bytes.clone();
        changed[i] = 0x7F;
        match read_bytecode(&changed) {
            Ok(m) => assert!(!matches!(write_bytecode(&m), Err(WriteError::UndefinedOperand(_)))),
            Err(ReadError::UndefinedValue(v)) => {
                assert_eq!(v, 0x7F);
                undefined += 1;
            }
            Err(_) => {}
        }
    }
    assert!(undefined > 0);
}

#[test]
fn a_new_hint_needs_the_new_version() {
    let hints = Attribute::OptimizationHints(OptimizationHints {
        entries: vec![(
            "sm_100".to_owned(),
            vec![("num_worker_warps_per_cta".to_owned(), Attribute::i32(4))],
        )],
    });
    let m = build_kernel_with_entry("k", &[], &Location::Unknown, None, Some(hints), |_, _, _| {});
    assert_eq!(
        write_bytecode_version(&m, BytecodeVersion::v13_2()),
        Err(WriteError::HintNeedsNewerVersion(13, 2, 0))
    );
    assert!(write_bytecode_version(&m, BytecodeVersion::v13_3()).is_ok());
}
