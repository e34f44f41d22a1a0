//! How the body of each operation is laid out.
use vstd::prelude::*;
use crate::bytecode::opcode::Opcode;

verus! {

/// The names of the attributes that operation bodies carry.
#[derive(Clone, Copy, Debug, PartialEq, Eq, Structural)]
pub enum AttrName {
    RoundingMode,
    FastAcc,
    NumElem,
    Alignment,
    Global,
    Overflow,
    Signedness,
    Dim,
    Permutation,
    Message,
    Predicate,
    ComparisonPredicate,
    ComparisonOrdering,
    Value,
    Rounding,
    SignednessLhs,
    SignednessRhs,
    Name,
    UnsignedCmp,
    Identities,
    Reverse,
    OperandSegmentSizes,
    FlushToZero,
    PropagateNan,
    Constant,
    SymName,
    SymbolVisibility,
    Producer,
    Str,
    MemoryOrderingSemantics,
    MemoryScope,
    Mode,
    OptimizationHints,
    FunctionType,
    ArgAttrs,
    ResAttrs,
    DiName,
}

/// The text of an attribute name.
pub open spec fn name_text(n: AttrName) -> Seq<char> {
    match n {
        AttrName::RoundingMode => "rounding_mode"@,
        AttrName::FastAcc => "fast_acc"@,
        AttrName::NumElem => "num_elem"@,
        AttrName::Alignment => "alignment"@,
        AttrName::Global => "global"@,
        AttrName::Overflow => "overflow"@,
        AttrName::Signedness => "signedness"@,
        AttrName::Dim => "dim"@,
        AttrName::Permutation => "permutation"@,
        AttrName::Message => "message"@,
        AttrName::Predicate => "predicate"@,
        AttrName::ComparisonPredicate => "comparison_predicate"@,
        AttrName::ComparisonOrdering => "comparison_ordering"@,
        AttrName::Value => "value"@,
        AttrName::Rounding => "rounding"@,
        AttrName::SignednessLhs => "signedness_lhs"@,
        AttrName::SignednessRhs => "signedness_rhs"@,
        AttrName::Name => "name"@,
        AttrName::UnsignedCmp => "unsigned_cmp"@,
        AttrName::Identities => "identities"@,
        AttrName::Reverse => "reverse"@,
        AttrName::OperandSegmentSizes => "operandSegmentSizes"@,
        AttrName::FlushToZero => "flush_to_zero"@,
        AttrName::PropagateNan => "propagate_nan"@,
        AttrName::Constant => "constant"@,
        AttrName::SymName => "sym_name"@,
        AttrName::SymbolVisibility => "symbol_visibility"@,
        AttrName::Producer => "producer"@,
        AttrName::Str => "str"@,
        AttrName::MemoryOrderingSemantics => "memory_ordering_semantics"@,
        AttrName::MemoryScope => "memory_scope"@,
        AttrName::Mode => "mode"@,
        AttrName::OptimizationHints => "optimization_hints"@,
        AttrName::FunctionType => "function_type"@,
        AttrName::ArgAttrs => "arg_attrs"@,
        AttrName::ResAttrs => "res_attrs"@,
        AttrName::DiName => "di_name"@,
    }
}

impl AttrName {
    /// The text of an attribute name.
    pub fn text(self) -> (s: &'static str)
        ensures
            s@ == name_text(self),
    {
        match self {
            AttrName::RoundingMode => "rounding_mode",
            AttrName::FastAcc => "fast_acc",
            AttrName::NumElem => "num_elem",
            AttrName::Alignment => "alignment",
            AttrName::Global => "global",
            AttrName::Overflow => "overflow",
            AttrName::Signedness => "signedness",
            AttrName::Dim => "dim",
            AttrName::Permutation => "permutation",
            AttrName::Message => "message",
            AttrName::Predicate => "predicate",
            AttrName::ComparisonPredicate => "comparison_predicate",
            AttrName::ComparisonOrdering => "comparison_ordering",
            AttrName::Value => "value",
            AttrName::Rounding => "rounding",
            AttrName::SignednessLhs => "signedness_lhs",
            AttrName::SignednessRhs => "signedness_rhs",
            AttrName::Name => "name",
            AttrName::UnsignedCmp => "unsigned_cmp",
            AttrName::Identities => "identities",
            AttrName::Reverse => "reverse",
            AttrName::OperandSegmentSizes => "operandSegmentSizes",
            AttrName::FlushToZero => "flush_to_zero",
            AttrName::PropagateNan => "propagate_nan",
            AttrName::Constant => "constant",
            AttrName::SymName => "sym_name",
            AttrName::SymbolVisibility => "symbol_visibility",
            AttrName::Producer => "producer",
            AttrName::Str => "str",
            AttrName::MemoryOrderingSemantics => "memory_ordering_semantics",
            AttrName::MemoryScope => "memory_scope",
            AttrName::Mode => "mode",
            AttrName::OptimizationHints => "optimization_hints",
            AttrName::FunctionType => "function_type",
            AttrName::ArgAttrs => "arg_attrs",
            AttrName::ResAttrs => "res_attrs",
            AttrName::DiName => "di_name",
        }
    }
}

/// One part of an operation body. Flag masks are powers of two.
#[derive(Clone, Copy, Debug, PartialEq, Eq, Structural)]
pub enum Step {
    /// That many result types.
    Results(u8),
    /// A count and that many result types.
    ResultsCounted,
    /// The flags, which say what is present further on.
    Flags,
    /// An integer attribute.
    Int(AttrName),
    /// An integer attribute that has a default.
    IntOr(AttrName, u64),
    /// An integer attribute, present if the flag is set.
    IntIf(u8, AttrName),
    /// A boolean attribute in a byte.
    BoolByte(AttrName),
    /// An attribute that is an array of 32-bit integers.
    I32s(AttrName),
    /// A string attribute.
    Str(AttrName),
    /// A string attribute, present if the flag is set.
    StrIf(u8, AttrName),
    /// A type attribute.
    TypeRef(AttrName),
    /// An attribute in self-contained form.
    Tagged(AttrName),
    /// An array attribute.
    Array(AttrName),
    /// Optimization hints, present if the flag is set.
    HintsIf(u8),
    /// Optimization hints, present if the flag is set, and first among the
    /// attributes.
    HintsFirstIf(u8),
    /// A dictionary attribute, present if the flag is set.
    DictIf(u8, AttrName),
    /// A boolean attribute that is a flag.
    FlagBool(u8, AttrName),
    /// An integer attribute that is one where the flag is set.
    FlagInt(u8, AttrName),
    /// A constant of the type of the result.
    Constant,
    /// The data of a global variable.
    GlobalValue,
    /// That many operands.
    Operands(u8),
    /// A count and that many operands.
    OperandsCounted,
    /// A group of one operand.
    Group,
    /// A group of operands: a count and that many.
    GroupCounted,
    /// A group of one operand, present if the flag is set.
    GroupIf(u8),
    /// The sizes of the operand groups, which take no bytes.
    Segments,
    /// A count and that many regions.
    Regions,
    /// One region.
    Region,
}

/// The layout of an operation's body.
#[verifier::opaque]
pub open spec fn layout(op: Opcode, v13_3: bool) -> Seq<Step> {
    match op {
        Opcode::AbsF | Opcode::AbsI | Opcode::Bitcast | Opcode::Broadcast | Opcode::Ceil
        | Opcode::Cos | Opcode::CosH | Opcode::Floor | Opcode::IntToPtr | Opcode::Log
        | Opcode::Log2 | Opcode::MakeGatherScatterView | Opcode::MakeStridedView | Opcode::NegF
        | Opcode::Pack | Opcode::PtrToInt | Opcode::PtrToPtr | Opcode::Reshape | Opcode::Sin
        | Opcode::SinH | Opcode::Tan | Opcode::Unpack | Opcode::MakePartitionView => seq![Step::Results(1), Step::Operands(1)],
        Opcode::AndI | Opcode::Atan2 | Opcode::MulhiI | Opcode::Offset | Opcode::OrI
        | Opcode::Pow | Opcode::RemF | Opcode::XOrI => seq![Step::Results(1), Step::Operands(2)],
        Opcode::Select => seq![Step::Results(1), Step::Operands(3)],
        Opcode::MmaFScaled => seq![Step::Results(1), Step::Operands(5)],
        Opcode::Exp => if v13_3 {
            seq![Step::Results(1), Step::IntOr(AttrName::RoundingMode, 5), Step::Operands(1)]
        } else {
            seq![Step::Results(1), Step::Operands(1)]
        },
        Opcode::MmaF => if v13_3 {
            seq![
                Step::Results(1),
                Step::Flags,
                Step::FlagBool(1, AttrName::FastAcc),
                Step::Operands(3),
            ]
        } else {
            seq![Step::Results(1), Step::Operands(3)]
        },
        Opcode::Alloca => seq![
            Step::Results(1),
            Step::Flags,
            Step::Int(AttrName::NumElem),
            Step::Int(AttrName::Alignment),
            Step::FlagBool(1, AttrName::Global),
        ],
        Opcode::NegI => seq![Step::Results(1), Step::IntOr(AttrName::Overflow, 0), Step::Operands(1)],
        Opcode::TanH => seq![Step::Results(1), Step::IntOr(AttrName::RoundingMode, 5), Step::Operands(1)],
        Opcode::Iota | Opcode::MakeToken => seq![Step::Results(1)],
        Opcode::GetNumTileBlocks | Opcode::GetTileBlockId => seq![Step::Results(3)],
        Opcode::AddI | Opcode::MulI | Opcode::SubI | Opcode::ShLI => seq![Step::Results(1), Step::Int(AttrName::Overflow), Step::Operands(2)],
        Opcode::TruncI => seq![Step::Results(1), Step::Int(AttrName::Overflow), Step::Operands(1)],
        Opcode::ShRI | Opcode::MaxI | Opcode::MinI | Opcode::RemI => seq![Step::Results(1), Step::Int(AttrName::Signedness), Step::Operands(2)],
        Opcode::ExtI => seq![Step::Results(1), Step::Int(AttrName::Signedness), Step::Operands(1)],
        Opcode::Cat => seq![Step::Results(1), Step::Int(AttrName::Dim), Step::Operands(2)],
        Opcode::Permute => seq![Step::Results(1), Step::I32s(AttrName::Permutation), Step::Operands(1)],
        Opcode::Assert => seq![Step::Results(0), Step::Str(AttrName::Message), Step::Operands(1)],
        Opcode::Assume => seq![Step::Results(1), Step::Tagged(AttrName::Predicate), Step::Operands(1)],
        Opcode::CmpF => seq![
            Step::Results(1),
            Step::Int(AttrName::ComparisonPredicate),
            Step::Int(AttrName::ComparisonOrdering),
            Step::Operands(2),
        ],
        Opcode::CmpI => seq![
            Step::Results(1),
            Step::Int(AttrName::ComparisonPredicate),
            Step::Int(AttrName::Signedness),
            Step::Operands(2),
        ],
        Opcode::Constant => seq![Step::Results(1), Step::Constant],
        Opcode::DivI => seq![
            Step::Results(1),
            Step::Int(AttrName::Signedness),
            Step::Int(AttrName::Rounding),
            Step::Operands(2),
        ],
        Opcode::FToF => seq![Step::Results(1), Step::Int(AttrName::RoundingMode), Step::Operands(1)],
        Opcode::FToI | Opcode::IToF => seq![
            Step::Results(1),
            Step::Int(AttrName::Signedness),
            Step::Int(AttrName::RoundingMode),
            Step::Operands(1),
        ],
        Opcode::MmaI => seq![
            Step::Results(1),
            Step::Int(AttrName::SignednessLhs),
            Step::Int(AttrName::SignednessRhs),
            Step::Operands(3),
        ],
        Opcode::GetGlobal => seq![Step::Results(1), Step::Str(AttrName::Name)],
        Opcode::JoinTokens | Opcode::Break | Opcode::Continue | Opcode::Return | Opcode::Yield
        | Opcode::Extract => seq![Step::ResultsCounted, Step::OperandsCounted],
        Opcode::For => seq![
            Step::ResultsCounted,
            Step::Flags,
            Step::FlagInt(1, AttrName::UnsignedCmp),
            Step::OperandsCounted,
            Step::Regions,
        ],
        Opcode::Loop => seq![Step::ResultsCounted, Step::OperandsCounted, Step::Regions],
        Opcode::Reduce => seq![
            Step::ResultsCounted,
            Step::Int(AttrName::Dim),
            Step::Array(AttrName::Identities),
            Step::OperandsCounted,
            Step::Regions,
        ],
        Opcode::Scan => seq![
            Step::ResultsCounted,
            Step::Int(AttrName::Dim),
            Step::BoolByte(AttrName::Reverse),
            Step::Array(AttrName::Identities),
            Step::OperandsCounted,
            Step::Regions,
        ],
        Opcode::MakeTensorView => seq![
            Step::ResultsCounted,
            Step::Group,
            Step::GroupCounted,
            Step::GroupCounted,
            Step::Segments,
        ],
        Opcode::AddF | Opcode::DivF | Opcode::MulF | Opcode::SubF => seq![
            Step::Results(1),
            Step::Flags,
            Step::Int(AttrName::RoundingMode),
            Step::Operands(2),
            Step::FlagBool(1, AttrName::FlushToZero),
        ],
        Opcode::Fma => seq![
            Step::Results(1),
            Step::Flags,
            Step::Int(AttrName::RoundingMode),
            Step::Operands(3),
            Step::FlagBool(1, AttrName::FlushToZero),
        ],
        Opcode::Sqrt => seq![
            Step::Results(1),
            Step::Flags,
            Step::Int(AttrName::RoundingMode),
            Step::Operands(1),
            Step::FlagBool(1, AttrName::FlushToZero),
        ],
        Opcode::Exp2 | Opcode::Rsqrt => seq![
            Step::Results(1),
            Step::Flags,
            Step::Operands(1),
            Step::FlagBool(1, AttrName::FlushToZero),
        ],
        Opcode::MaxF | Opcode::MinF => seq![
            Step::Results(1),
            Step::Flags,
            Step::Operands(2),
            Step::FlagBool(1, AttrName::PropagateNan),
            Step::FlagBool(2, AttrName::FlushToZero),
        ],
        Opcode::GetIndexSpaceShape | Opcode::GetTensorShape => seq![Step::ResultsCounted, Step::Operands(1)],
        Opcode::If => seq![Step::ResultsCounted, Step::Operands(1), Step::Regions],
        Opcode::Global => if v13_3 {
            seq![
                Step::Results(0),
                Step::Flags,
                Step::FlagBool(1, AttrName::Constant),
                Step::Str(AttrName::SymName),
                Step::GlobalValue,
                Step::Int(AttrName::Alignment),
                Step::IntOr(AttrName::SymbolVisibility, 0),
            ]
        } else {
            seq![
                Step::Results(0),
                Step::Str(AttrName::SymName),
                Step::GlobalValue,
                Step::Int(AttrName::Alignment),
            ]
        },
        Opcode::Module => if v13_3 {
            seq![
                Step::Results(0),
                Step::Flags,
                Step::Str(AttrName::SymName),
                Step::StrIf(1, AttrName::Producer),
                Step::Regions,
            ]
        } else {
            seq![Step::Results(0), Step::Str(AttrName::SymName), Step::Regions]
        },
        Opcode::Print => seq![
            Step::ResultsCounted,
            Step::Flags,
            Step::Str(AttrName::Str),
            Step::GroupCounted,
            Step::GroupIf(1),
            Step::Segments,
        ],
        Opcode::AtomicCAS => seq![
            Step::Results(2),
            Step::Flags,
            Step::Int(AttrName::MemoryOrderingSemantics),
            Step::Int(AttrName::MemoryScope),
            Step::Group,
            Step::Group,
            Step::Group,
            Step::GroupIf(1),
            Step::GroupIf(2),
            Step::Segments,
        ],
        Opcode::AtomicRMW => seq![
            Step::Results(2),
            Step::Flags,
            Step::Int(AttrName::MemoryOrderingSemantics),
            Step::Int(AttrName::MemoryScope),
            Step::Int(AttrName::Mode),
            Step::Group,
            Step::Group,
            Step::GroupIf(1),
            Step::GroupIf(2),
            Step::Segments,
        ],
        Opcode::AtomicRedViewTko => seq![
            Step::ResultsCounted,
            Step::Flags,
            Step::Int(AttrName::MemoryOrderingSemantics),
            Step::Int(AttrName::MemoryScope),
            Step::Int(AttrName::Mode),
            Step::Group,
            Step::GroupCounted,
            Step::Group,
            Step::GroupIf(1),
            Step::Segments,
        ],
        Opcode::LoadPtrTko => seq![
            Step::Results(2),
            Step::Flags,
            Step::Int(AttrName::MemoryOrderingSemantics),
            Step::IntIf(1, AttrName::MemoryScope),
            Step::HintsIf(2),
            Step::Group,
            Step::GroupIf(4),
            Step::GroupIf(8),
            Step::GroupIf(16),
            Step::Segments,
        ],
        Opcode::LoadViewTko => seq![
            Step::ResultsCounted,
            Step::Flags,
            Step::Int(AttrName::MemoryOrderingSemantics),
            Step::IntIf(1, AttrName::MemoryScope),
            Step::HintsFirstIf(2),
            Step::Group,
            Step::GroupCounted,
            Step::GroupIf(4),
            Step::Segments,
        ],
        Opcode::StorePtrTko => seq![
            Step::Results(1),
            Step::Flags,
            Step::Int(AttrName::MemoryOrderingSemantics),
            Step::IntIf(1, AttrName::MemoryScope),
            Step::HintsIf(2),
            Step::Group,
            Step::Group,
            Step::GroupIf(4),
            Step::GroupIf(8),
            Step::Segments,
        ],
        Opcode::StoreViewTko => seq![
            Step::ResultsCounted,
            Step::Flags,
            Step::Int(AttrName::MemoryOrderingSemantics),
            Step::IntIf(1, AttrName::MemoryScope),
            Step::HintsFirstIf(2),
            Step::Group,
            Step::Group,
            Step::GroupCounted,
            Step::GroupIf(4),
            Step::Segments,
        ],
        Opcode::Entry => seq![
            Step::Results(0),
            Step::Flags,
            Step::Str(AttrName::SymName),
            Step::TypeRef(AttrName::FunctionType),
            Step::DictIf(1, AttrName::ArgAttrs),
            Step::DictIf(2, AttrName::ResAttrs),
            Step::HintsIf(4),
            Step::Region,
        ],
    }
}

/// The layout of an operation's body.
#[verifier::rlimit(100)]
pub fn layout_of(op: Opcode, v13_3: bool) -> (r: Vec<Step>)
    ensures
        r@ == layout(op, v13_3),
        r@.len() <= 16,
{
    let r: Vec<Step> = match op {
        Opcode::AbsF | Opcode::AbsI | Opcode::Bitcast | Opcode::Broadcast | Opcode::Ceil
        | Opcode::Cos | Opcode::CosH | Opcode::Floor | Opcode::IntToPtr | Opcode::Log
        | Opcode::Log2 | Opcode::MakeGatherScatterView | Opcode::MakeStridedView | Opcode::NegF
        | Opcode::Pack | Opcode::PtrToInt | Opcode::PtrToPtr | Opcode::Reshape | Opcode::Sin
        | Opcode::SinH | Opcode::Tan | Opcode::Unpack | Opcode::MakePartitionView => vec![Step::Results(1), Step::Operands(1)],
        Opcode::AndI | Opcode::Atan2 | Opcode::MulhiI | Opcode::Offset | Opcode::OrI
        | Opcode::Pow | Opcode::RemF | Opcode::XOrI => vec![Step::Results(1), Step::Operands(2)],
        Opcode::Select => vec![Step::Results(1), Step::Operands(3)],
        Opcode::MmaFScaled => vec![Step::Results(1), Step::Operands(5)],
        Opcode::Exp => if v13_3 {
            vec![Step::Results(1), Step::IntOr(AttrName::RoundingMode, 5), Step::Operands(1)]
        } else {
            vec![Step::Results(1), Step::Operands(1)]
        },
        Opcode::MmaF => if v13_3 {
            vec![
                Step::Results(1),
                Step::Flags,
                Step::FlagBool(1, AttrName::FastAcc),
                Step::Operands(3),
            ]
        } else {
            vec![Step::Results(1), Step::Operands(3)]
        },
        Opcode::Alloca => vec![
            Step::Results(1),
            Step::Flags,
            Step::Int(AttrName::NumElem),
            Step::Int(AttrName::Alignment),
            Step::FlagBool(1, AttrName::Global),
        ],
        Opcode::NegI => vec![Step::Results(1), Step::IntOr(AttrName::Overflow, 0), Step::Operands(1)],
        Opcode::TanH => vec![Step::Results(1), Step::IntOr(AttrName::RoundingMode, 5), Step::Operands(1)],
        Opcode::Iota | Opcode::MakeToken => vec![Step::Results(1)],
        Opcode::GetNumTileBlocks | Opcode::GetTileBlockId => vec![Step::Results(3)],
        Opcode::AddI | Opcode::MulI | Opcode::SubI | Opcode::ShLI => vec![Step::Results(1), Step::Int(AttrName::Overflow), Step::Operands(2)],
        Opcode::TruncI => vec![Step::Results(1), Step::Int(AttrName::Overflow), Step::Operands(1)],
        Opcode::ShRI | Opcode::MaxI | Opcode::MinI | Opcode::RemI => vec![Step::Results(1), Step::Int(AttrName::Signedness), Step::Operands(2)],
        Opcode::ExtI => vec![Step::Results(1), Step::Int(AttrName::Signedness), Step::Operands(1)],
        Opcode::Cat => vec![Step::Results(1), Step::Int(AttrName::Dim), Step::Operands(2)],
        Opcode::Permute => vec![Step::Results(1), Step::I32s(AttrName::Permutation), Step::Operands(1)],
        Opcode::Assert => vec![Step::Results(0), Step::Str(AttrName::Message), Step::Operands(1)],
        Opcode::Assume => vec![Step::Results(1), Step::Tagged(AttrName::Predicate), Step::Operands(1)],
        Opcode::CmpF => vec![
            Step::Results(1),
            Step::Int(AttrName::ComparisonPredicate),
            Step::Int(AttrName::ComparisonOrdering),
            Step::Operands(2),
        ],
        Opcode::CmpI => vec![
            Step::Results(1),
            Step::Int(AttrName::ComparisonPredicate),
            Step::Int(AttrName::Signedness),
            Step::Operands(2),
        ],
        Opcode::Constant => vec![Step::Results(1), Step::Constant],
        Opcode::DivI => vec![
            Step::Results(1),
            Step::Int(AttrName::Signedness),
            Step::Int(AttrName::Rounding),
            Step::Operands(2),
        ],
        Opcode::FToF => vec![Step::Results(1), Step::Int(AttrName::RoundingMode), Step::Operands(1)],
        Opcode::FToI | Opcode::IToF => vec![
            Step::Results(1),
            Step::Int(AttrName::Signedness),
            Step::Int(AttrName::RoundingMode),
            Step::Operands(1),
        ],
        Opcode::MmaI => vec![
            Step::Results(1),
            Step::Int(AttrName::SignednessLhs),
            Step::Int(AttrName::SignednessRhs),
            Step::Operands(3),
        ],
        Opcode::GetGlobal => vec![Step::Results(1), Step::Str(AttrName::Name)],
        Opcode::JoinTokens | Opcode::Break | Opcode::Continue | Opcode::Return | Opcode::Yield
        | Opcode::Extract => vec![Step::ResultsCounted, Step::OperandsCounted],
        Opcode::For => vec![
            Step::ResultsCounted,
            Step::Flags,
            Step::FlagInt(1, AttrName::UnsignedCmp),
            Step::OperandsCounted,
            Step::Regions,
        ],
        Opcode::Loop => vec![Step::ResultsCounted, Step::OperandsCounted, Step::Regions],
        Opcode::Reduce => vec![
            Step::ResultsCounted,
            Step::Int(AttrName::Dim),
            Step::Array(AttrName::Identities),
            Step::OperandsCounted,
            Step::Regions,
        ],
        Opcode::Scan => vec![
            Step::ResultsCounted,
            Step::Int(AttrName::Dim),
            Step::BoolByte(AttrName::Reverse),
            Step::Array(AttrName::Identities),
            Step::OperandsCounted,
            Step::Regions,
        ],
        Opcode::MakeTensorView => vec![
            Step::ResultsCounted,
            Step::Group,
            Step::GroupCounted,
            Step::GroupCounted,
            Step::Segments,
        ],
        Opcode::AddF | Opcode::DivF | Opcode::MulF | Opcode::SubF => vec![
            Step::Results(1),
            Step::Flags,
            Step::Int(AttrName::RoundingMode),
            Step::Operands(2),
            Step::FlagBool(1, AttrName::FlushToZero),
        ],
        Opcode::Fma => vec![
            Step::Results(1),
            Step::Flags,
            Step::Int(AttrName::RoundingMode),
            Step::Operands(3),
            Step::FlagBool(1, AttrName::FlushToZero),
        ],
        Opcode::Sqrt => vec![
            Step::Results(1),
            Step::Flags,
            Step::Int(AttrName::RoundingMode),
            Step::Operands(1),
            Step::FlagBool(1, AttrName::FlushToZero),
        ],
        Opcode::Exp2 | Opcode::Rsqrt => vec![
            Step::Results(1),
            Step::Flags,
            Step::Operands(1),
            Step::FlagBool(1, AttrName::FlushToZero),
        ],
        Opcode::MaxF | Opcode::MinF => vec![
            Step::Results(1),
            Step::Flags,
            Step::Operands(2),
            Step::FlagBool(1, AttrName::PropagateNan),
            Step::FlagBool(2, AttrName::FlushToZero),
        ],
        Opcode::GetIndexSpaceShape | Opcode::GetTensorShape => vec![Step::ResultsCounted, Step::Operands(1)],
        Opcode::If => vec![Step::ResultsCounted, Step::Operands(1), Step::Regions],
        Opcode::Global => if v13_3 {
            vec![
                Step::Results(0),
                Step::Flags,
                Step::FlagBool(1, AttrName::Constant),
                Step::Str(AttrName::SymName),
                Step::GlobalValue,
                Step::Int(AttrName::Alignment),
                Step::IntOr(AttrName::SymbolVisibility, 0),
            ]
        } else {
            vec![
                Step::Results(0),
                Step::Str(AttrName::SymName),
                Step::GlobalValue,
                Step::Int(AttrName::Alignment),
            ]
        },
        Opcode::Module => if v13_3 {
            vec![
                Step::Results(0),
                Step::Flags,
                Step::Str(AttrName::SymName),
                Step::StrIf(1, AttrName::Producer),
                Step::Regions,
            ]
        } else {
            vec![Step::Results(0), Step::Str(AttrName::SymName), Step::Regions]
        },
        Opcode::Print => vec![
            Step::ResultsCounted,
            Step::Flags,
            Step::Str(AttrName::Str),
            Step::GroupCounted,
            Step::GroupIf(1),
            Step::Segments,
        ],
        Opcode::AtomicCAS => vec![
            Step::Results(2),
            Step::Flags,
            Step::Int(AttrName::MemoryOrderingSemantics),
            Step::Int(AttrName::MemoryScope),
            Step::Group,
            Step::Group,
            Step::Group,
            Step::GroupIf(1),
            Step::GroupIf(2),
            Step::Segments,
        ],
        Opcode::AtomicRMW => vec![
            Step::Results(2),
            Step::Flags,
            Step::Int(AttrName::MemoryOrderingSemantics),
            Step::Int(AttrName::MemoryScope),
            Step::Int(AttrName::Mode),
            Step::Group,
            Step::Group,
            Step::GroupIf(1),
            Step::GroupIf(2),
            Step::Segments,
        ],
        Opcode::AtomicRedViewTko => vec![
            Step::ResultsCounted,
            Step::Flags,
            Step::Int(AttrName::MemoryOrderingSemantics),
            Step::Int(AttrName::MemoryScope),
            Step::Int(AttrName::Mode),
            Step::Group,
            Step::GroupCounted,
            Step::Group,
            Step::GroupIf(1),
            Step::Segments,
        ],
        Opcode::LoadPtrTko => vec![
            Step::Results(2),
            Step::Flags,
            Step::Int(AttrName::MemoryOrderingSemantics),
            Step::IntIf(1, AttrName::MemoryScope),
            Step::HintsIf(2),
            Step::Group,
            Step::GroupIf(4),
            Step::GroupIf(8),
            Step::GroupIf(16),
            Step::Segments,
        ],
        Opcode::LoadViewTko => vec![
            Step::ResultsCounted,
            Step::Flags,
            Step::Int(AttrName::MemoryOrderingSemantics),
            Step::IntIf(1, AttrName::MemoryScope),
            Step::HintsFirstIf(2),
            Step::Group,
            Step::GroupCounted,
            Step::GroupIf(4),
            Step::Segments,
        ],
        Opcode::StorePtrTko => vec![
            Step::Results(1),
            Step::Flags,
            Step::Int(AttrName::MemoryOrderingSemantics),
            Step::IntIf(1, AttrName::MemoryScope),
            Step::HintsIf(2),
            Step::Group,
            Step::Group,
            Step::GroupIf(4),
            Step::GroupIf(8),
            Step::Segments,
        ],
        Opcode::StoreViewTko => vec![
            Step::ResultsCounted,
            Step::Flags,
            Step::Int(AttrName::MemoryOrderingSemantics),
            Step::IntIf(1, AttrName::MemoryScope),
            Step::HintsFirstIf(2),
            Step::Group,
            Step::Group,
            Step::GroupCounted,
            Step::GroupIf(4),
            Step::Segments,
        ],
        Opcode::Entry => vec![
            Step::Results(0),
            Step::Flags,
            Step::Str(AttrName::SymName),
            Step::TypeRef(AttrName::FunctionType),
            Step::DictIf(1, AttrName::ArgAttrs),
            Step::DictIf(2, AttrName::ResAttrs),
            Step::HintsIf(4),
            Step::Region,
        ],
    };
    reveal(layout);
    assert(r@ =~= layout(op, v13_3));
    r
}

} // verus!
