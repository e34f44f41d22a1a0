//! Errors reported by the bytecode reader and writer.
use vstd::prelude::*;

verus! {

/// What a count, an index or a table entry belongs to, for diagnostics.
#[derive(Clone, Copy, Debug, PartialEq, Eq, Structural)]
pub enum Subject {
    I32Array,
    I64Array,
    Str,
    Type,
    Constant,
    Global,
    GlobalConstant,
    GlobalValue,
    Function,
    FuncInput,
    FuncResult,
    Block,
    BlockArgument,
    BlockOperation,
    Region,
    ResultType,
    Operand,
    ArrayElement,
    HintsArch,
    DictionaryEntry,
    AttributeType,
    DenseElementsType,
    DenseElementsConstant,
    DenseElementsLength,
    ConstantLength,
    DebugFunction,
    DebugIndex,
    DebugAttribute,
    DebugString,
    Pointee,
    TileElement,
    TensorViewElement,
    ViewTensorView,
}

/// Why a byte stream is not well-formed Tile IR bytecode.
#[derive(Clone, Copy, Debug, PartialEq, Eq, Structural)]
pub enum ReadError {
    /// The data ended in the middle of a value.
    UnexpectedEnd,
    /// A varint has more continuation bytes than 64 bits can hold.
    VarintOverflow,
    /// A padding byte is not the alignment marker.
    BadPadding(u8),
    /// A count or index does not fit in 32 bits.
    CountOutOfRange(Subject, u64),
    /// An index points past the end of its table.
    IndexOutOfRange(Subject, u64),
    /// The file does not start with the magic number.
    InvalidMagic,
    /// The version triple is outside the supported range.
    UnsupportedVersion(u8, u8, u16),
    /// A section id is not one of the known sections.
    UnknownSection(u8),
    /// An offset table entry does not delimit a range of the payload.
    OffsetOutOfRange(Subject, u64),
    /// A string table entry is not UTF-8.
    NotUtf8(u64),
    /// A table entry was not consumed completely.
    TrailingBytes(Subject, u64),
    /// A type tag is not assigned.
    UnknownTypeTag(u8),
    /// A type refers to a type of the wrong kind.
    WrongTypeKind(Subject),
    /// A padding value byte is not assigned.
    InvalidPaddingValue(u8),
    /// A global's visibility byte is neither public nor private.
    InvalidVisibility(u8),
    /// A function signature is not a function type.
    SignatureNotFunction,
    /// A debug section count is larger than the section could hold.
    CountExceedsPayload(Subject),
    /// A debug attribute tag is not assigned.
    UnknownDebugTag(u8),
    /// Attribute id zero has no table entry.
    DebugIdZero,
    /// A debug attribute has a kind that does not fit where it is used.
    UnexpectedDebugKind,
    /// Debug attributes refer to each other in a cycle.
    DebugCycle,
    /// A function has no list of debug ids.
    NoDebugIds(u64),
    /// A body has more operations than debug ids.
    DebugIdsExhausted(u64),
    /// A body has fewer operations than debug ids.
    DebugIdsLeftOver(u64),
    /// An operand refers to a value that is not defined at this point.
    UndefinedValue(u64),
    /// An opcode is not assigned.
    UnknownOpcode(u64),
    /// An attribute tag is not assigned.
    UnknownAttributeTag(u8),
    /// An architecture entry of optimization hints is not a dictionary.
    HintsNotDictionary,
}

/// Why a module cannot be serialized.
#[derive(Clone, Copy, Debug, PartialEq, Eq, Structural)]
pub enum WriteError {
    /// The version triple is below the minimum.
    UnsupportedVersion(u8, u8, u16),
    /// A function has no `sym_name` attribute.
    MissingSymName,
    /// A function has no `function_type` attribute.
    MissingFunctionType,
    /// A hint is not available in the requested version.
    HintNeedsNewerVersion(u8, u8, u16),
    /// An operation lacks an attribute that its encoding needs.
    MissingAttribute,
    /// An operation does not have the number of results that its encoding needs.
    WrongResultCount,
    /// An operation does not have the number of regions that its encoding needs.
    WrongRegionCount,
    /// An operand was not defined before its use.
    UndefinedOperand(u32),
    /// The operand groups do not match the operation.
    BadOperandSegments,
    /// A section is larger than its offsets can address.
    SectionTooLarge,
    /// A block, region or operation id is not part of the module.
    DanglingId(u32),
    /// Operations are nested deeper than there are operations.
    NestedInItself,
}

} // verus!
