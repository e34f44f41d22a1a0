//! The Tile IR bytecode format: wire primitives, tables, reader and writer.
pub mod again;
pub mod attr_writer;
pub mod attrs;
pub mod body;
pub mod asked;
pub mod assemble;
pub mod body_roundtrip;
pub mod body_writer;
pub mod collect;
pub mod debug;
pub mod debug_roundtrip;
pub mod debug_writer;
pub mod decoder;
pub mod dominance;
pub mod dump_laws;
pub mod encoding;
pub mod enums;
pub mod f8;
pub mod f8_nearest;
pub mod file_roundtrip;
pub mod flags;
pub mod frozen;
pub mod framing;
pub mod func_roundtrip;
pub mod grammar;
pub mod identity;
pub mod layout;
pub mod layout_facts;
pub mod locations;
pub mod mentioned;
pub mod node;
pub mod number;
pub mod opcode;
pub mod ops_again;
pub mod ops_roundtrip;
pub mod prescan;
pub mod reader;
pub mod records;
pub mod refusal_laws;
pub mod restore;
pub mod stable;
pub mod strings;
pub mod table;
pub mod type_writer;
pub mod types;
pub mod wire;
pub mod writer;
