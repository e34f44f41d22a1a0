//! Dumps of bytecode files.
use cutile::bytecode::decoder::decode_bytecode;
use cutile::bytecode::encoding::EncodingWriter;
use cutile::bytecode::enums::{Section, MAGIC};
use cutile::bytecode::opcode::Opcode;
use cutile::bytecode::writer::write_bytecode;
use cutile::error::ReadError;
use cutile::ir::attr::{Attribute, DenseElements, OptimizationHints};
use cutile::ir::builder::{append_op, build_single_block_region, OpBuilder};
use cutile::ir::fmt::{format_attr, format_signed, format_type};
use cutile::ir::location::Location;
use cutile::ir::module::{Global, Module, SymbolVisibility};
use cutile::ir::types::{FuncType, ScalarType, TileElementType, TileType, Type};

fn minimal_bytecode() -> Vec<u8> {
    let mut buf = Vec::new();
    buf.extend_from_slice(&MAGIC);
    buf.push(13);
    buf.push(1);
    buf.extend_from_slice(&0u16.to_le_bytes());
    buf.push(Section::EndOfBytecode.id());
    buf
}

#[test]
fn decode_minimal() {
    let data = minimal_bytecode();
    let out = decode_bytecode(&data).unwrap();
    assert!(out.contains("TileIR bytecode v13.1"));
    assert_eq!(out, "TileIR bytecode v13.1\n\n");
}

#[test]
fn decode_bad_magic() {
    let mut data = minimal_bytecode();
    data[1] = b'X';
    assert!(decode_bytecode(&data).is_err());
    assert_eq!(decode_bytecode(&data), Err(ReadError::InvalidMagic));
}

#[test]
fn roundtrip_string_section() {
    let mut buf = Vec::new();
    buf.extend_from_slice(&MAGIC);
    buf.push(13);
    buf.push(1);
    buf.extend_from_slice(&0u16.to_le_bytes());

    let mut section = EncodingWriter::new();
    section.write_varint(2);
    section.align_to(4);
    let offsets_pos = section.tell();
    section.write_le_u32(0);
    section.write_le_u32(0);
    let s1 = b"hello";
    let s2 = b"world";
    let buf_ref = section.buf_mut();
    let o1: u32 = 0;
    let o2: u32 = s1.len() as u32;
    buf_ref[offsets_pos..offsets_pos + 4].copy_from_slice(&o1.to_le_bytes());
    buf_ref[offsets_pos + 4..offsets_pos + 8].copy_from_slice(&o2.to_le_bytes());
    section.write_bytes(s1);
    section.write_bytes(s2);

    let section_bytes = section.into_bytes();
    let mut header = EncodingWriter::new();
    header.write_byte(Section::Str.id() | 0x80);
    header.write_varint(section_bytes.len() as u64);
    header.write_varint(4);
    header.align_to(4);
    buf.extend_from_slice(header.as_bytes());
    buf.extend_from_slice(&section_bytes);

    buf.push(Section::EndOfBytecode.id());

    let out = decode_bytecode(&buf).unwrap();
    assert!(out.contains("\"hello\""));
    assert!(out.contains("\"world\""));
    assert!(out.contains("=== Strings (2) ===\n  [0] \"hello\"\n  [1] \"world\"\n\n"));
}

#[test]
fn quotation_marks_are_escaped() {
    assert_eq!(format_attr(&Attribute::String("a\"b\n".to_owned())), "\"a\\\"b\\n\"");
}

#[test]
fn types_and_attributes_have_a_text() {
    let t = Type::Tile(TileType {
        shape: vec![4, -1],
        element_type: TileElementType::Scalar(ScalarType::BF16),
    });
    assert_eq!(format_type(&t), "tile<4x-1xbf16>");
    let f = Type::Func(FuncType { inputs: vec![t.duplicate(), Type::Token], results: vec![] });
    assert_eq!(format_type(&f), "(tile<4x-1xbf16>, token) -> ()");
    assert_eq!(format_attr(&Attribute::i32(-7)), "-7 : i32");
    assert_eq!(format_signed(i64::MIN), "-9223372036854775808");
    let d = Attribute::Dictionary(vec![
        ("a".to_owned(), Attribute::Bool(true)),
        ("b".to_owned(), Attribute::DenseI32Array(vec![1, 2])),
    ]);
    assert_eq!(format_attr(&d), "{a = true, b = array<i32: 1, 2>}");
}

fn module() -> Module {
    let mut m = Module::new("m");
    let tile = Type::Tile(TileType {
        shape: vec![1],
        element_type: TileElementType::Scalar(ScalarType::F32),
    });
    m.push_global(Global {
        sym_name: "g".to_owned(),
        value: DenseElements { element_type: tile, shape: vec![1], data: vec![0, 0, 0, 0] },
        alignment: 4,
        constant: true,
        symbol_visibility: SymbolVisibility::Private,
    });
    let (region, block, _) = build_single_block_region(&mut m, &vec![]);
    let (ret, _) = OpBuilder::new(Opcode::Return, Location::Unknown).build(&mut m);
    append_op(&mut m, block, ret);
    let hints = OptimizationHints {
        entries: vec![("sm_90".to_owned(), vec![("n".to_owned(), Attribute::i32(2))])],
    };
    let loc = Location::FileLineCol { filename: "d/k.rs".to_owned(), line: 3, column: 4 };
    let (e, _) = OpBuilder::new(Opcode::Entry, loc)
        .attr("sym_name", Attribute::String("k".to_owned()))
        .attr("function_type", Attribute::Type(Type::Func(FuncType {
            inputs: vec![],
            results: vec![],
        })))
        .attr("optimization_hints", Attribute::OptimizationHints(hints))
        .region(region)
        .build(&mut m);
    m.push_function(e);
    m
}

#[test]
fn every_section_is_shown() {
    let out = decode_bytecode(&write_bytecode(&module()).unwrap()).unwrap();
    assert!(out.starts_with("TileIR bytecode v13.3\n\n=== Strings ("));
    assert!(out.contains("=== Globals (1) ===\n  @g : tile<1xf32> = const[0], align 4, private, constant=true\n"));
    assert!(out.contains("=== Constants (1) ===\n  [0] 5 bytes\n"));
    assert!(out.contains("=== Functions (1) ===\n  entry @k : () -> ()\n    body: "));
    assert!(out.contains("    optimization_hints = optimization_hints<sm_90 = {n = 2 : i32}>\n"));
    assert!(out.contains("=== Debug (1 functions) ===\n"));
    assert!(out.contains("DIFile(name=\"k.rs\", dir=\"d\")\n"));
    assert!(out.contains("DISubprogram(file=di[1], line=3, name=\"k\", linkage=\"k\", cu=di["));
    assert!(out.contains("  fn 0: ["));
}

#[test]
fn sections_without_a_meaning_are_passed_over() {
    let mut data = minimal_bytecode();
    let end = data.len() - 1;
    data.truncate(end);
    data.push(0x55);
    data.push(2);
    data.push(1);
    data.push(1);
    data.push(Section::EndOfBytecode.id());
    assert_eq!(decode_bytecode(&data).unwrap(), "TileIR bytecode v13.1\n\n");
}

#[test]
fn a_file_that_breaks_off_is_refused() {
    let bytes = write_bytecode(&module()).unwrap();
    for n in 0..bytes.len() {
        assert!(decode_bytecode(&bytes[0..n]).is_err());
    }
}
