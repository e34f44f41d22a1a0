//! The numbers and orders that the file format freezes. They are stated here once more,
//! by number, so that what is written can be held against the format and not only
//! against what is read.
use vstd::prelude::*;
use crate::bytecode::layout::{AttrName, Step};
use crate::bytecode::layout;
use crate::bytecode::opcode::Opcode;
use crate::bytecode::opcode;

verus! {

// ---------------------------------------------------------------------------
// Operations
// ---------------------------------------------------------------------------

/// The operation that the format assigns to a number.
#[verifier::opaque]
pub open spec fn assigned(number: u16) -> Option<Opcode> {
    match number {
        0x00 => Some(Opcode::AbsF),
        0x01 => Some(Opcode::AbsI),
        0x02 => Some(Opcode::AddF),
        0x03 => Some(Opcode::AddI),
        0x04 => Some(Opcode::AndI),
        0x05 => Some(Opcode::Assert),
        0x06 => Some(Opcode::Assume),
        0x07 => Some(Opcode::AtomicCAS),
        0x08 => Some(Opcode::AtomicRMW),
        0x09 => Some(Opcode::Bitcast),
        0x0A => Some(Opcode::Break),
        0x0B => Some(Opcode::Broadcast),
        0x0C => Some(Opcode::Cat),
        0x0D => Some(Opcode::Ceil),
        0x0E => Some(Opcode::CmpF),
        0x0F => Some(Opcode::CmpI),
        0x10 => Some(Opcode::Constant),
        0x11 => Some(Opcode::Continue),
        0x12 => Some(Opcode::Cos),
        0x13 => Some(Opcode::CosH),
        0x14 => Some(Opcode::DivF),
        0x15 => Some(Opcode::DivI),
        0x16 => Some(Opcode::Entry),
        0x17 => Some(Opcode::Exp),
        0x18 => Some(Opcode::Exp2),
        0x25 => Some(Opcode::ExtI),
        0x26 => Some(Opcode::Extract),
        0x27 => Some(Opcode::Floor),
        0x28 => Some(Opcode::Fma),
        0x29 => Some(Opcode::For),
        0x2A => Some(Opcode::FToF),
        0x2B => Some(Opcode::FToI),
        0x2C => Some(Opcode::GetGlobal),
        0x2D => Some(Opcode::GetIndexSpaceShape),
        0x2E => Some(Opcode::GetNumTileBlocks),
        0x2F => Some(Opcode::GetTensorShape),
        0x30 => Some(Opcode::GetTileBlockId),
        0x31 => Some(Opcode::Global),
        0x32 => Some(Opcode::If),
        0x33 => Some(Opcode::IntToPtr),
        0x3A => Some(Opcode::Iota),
        0x3B => Some(Opcode::IToF),
        0x3C => Some(Opcode::JoinTokens),
        0x3D => Some(Opcode::LoadPtrTko),
        0x3E => Some(Opcode::LoadViewTko),
        0x3F => Some(Opcode::Log),
        0x40 => Some(Opcode::Log2),
        0x41 => Some(Opcode::Loop),
        0x42 => Some(Opcode::MakePartitionView),
        0x43 => Some(Opcode::MakeTensorView),
        0x44 => Some(Opcode::MakeToken),
        0x45 => Some(Opcode::MaxF),
        0x46 => Some(Opcode::MaxI),
        0x47 => Some(Opcode::MinF),
        0x48 => Some(Opcode::MinI),
        0x49 => Some(Opcode::MmaF),
        0x4A => Some(Opcode::MmaI),
        0x4B => Some(Opcode::Module),
        0x4C => Some(Opcode::MulF),
        0x4D => Some(Opcode::MulhiI),
        0x4E => Some(Opcode::MulI),
        0x4F => Some(Opcode::NegF),
        0x50 => Some(Opcode::NegI),
        0x51 => Some(Opcode::Offset),
        0x52 => Some(Opcode::OrI),
        0x53 => Some(Opcode::Permute),
        0x54 => Some(Opcode::Pow),
        0x55 => Some(Opcode::Print),
        0x56 => Some(Opcode::PtrToInt),
        0x57 => Some(Opcode::PtrToPtr),
        0x58 => Some(Opcode::Reduce),
        0x59 => Some(Opcode::RemF),
        0x5A => Some(Opcode::RemI),
        0x5B => Some(Opcode::Reshape),
        0x5C => Some(Opcode::Return),
        0x5D => Some(Opcode::Rsqrt),
        0x5E => Some(Opcode::Scan),
        0x5F => Some(Opcode::Select),
        0x60 => Some(Opcode::ShLI),
        0x61 => Some(Opcode::ShRI),
        0x62 => Some(Opcode::Sin),
        0x63 => Some(Opcode::SinH),
        0x64 => Some(Opcode::Sqrt),
        0x65 => Some(Opcode::StorePtrTko),
        0x66 => Some(Opcode::StoreViewTko),
        0x67 => Some(Opcode::SubF),
        0x68 => Some(Opcode::SubI),
        0x69 => Some(Opcode::Tan),
        0x6A => Some(Opcode::TanH),
        0x6B => Some(Opcode::TruncI),
        0x6C => Some(Opcode::XOrI),
        0x6D => Some(Opcode::Yield),
        0x6E => Some(Opcode::Atan2),
        0x6F => Some(Opcode::Pack),
        0x70 => Some(Opcode::Unpack),
        0x71 => Some(Opcode::Alloca),
        0x72 => Some(Opcode::MmaFScaled),
        0x73 => Some(Opcode::MakeGatherScatterView),
        0x74 => Some(Opcode::MakeStridedView),
        0x75 => Some(Opcode::AtomicRedViewTko),
        _ => None,
    }
}

/// Every operation is written with the number that the format assigns to it, every
/// assigned number is read as its operation, and any other number as none.
pub proof fn lemma_numbers(op: Opcode, number: u16)
    ensures
        assigned(op.spec_value()) == Some(op),
        opcode::opcode_of(number) == assigned(number),
{
    reveal(assigned);
    reveal(Opcode::spec_value);
    match assigned(number) {
        Some(x) => {
            lemma_of_number(number, x);
        },
        None => {
            if exists|y: Opcode| #[trigger] y.spec_value() == number {
                let y = choose|y: Opcode| #[trigger] y.spec_value() == number;
                assert(assigned(y.spec_value()) == Some(y));
            }
        },
    }
}

proof fn lemma_of_number(number: u16, x: Opcode)
    requires
        assigned(number) == Some(x),
    ensures
        opcode::opcode_of(number) == Some(x),
{
    reveal(assigned);
    reveal(Opcode::spec_value);
    assert(x.spec_value() == number);
    opcode::lemma_opcode_of(x);
}

/// The number of results that the format fixes for the operation with a number; none
/// where a file holds the count.
pub open spec fn frozen_results(number: u16) -> Option<int> {
    match number {
        0x0A | 0x11 | 0x26 | 0x29 | 0x2D | 0x2F | 0x32 | 0x3C | 0x3E | 0x41 | 0x43 | 0x55 | 0x58 | 0x5C | 0x5E | 0x66 | 0x6D => None,
        0x05 | 0x16 | 0x31 | 0x4B => Some(0int),
        0x07 | 0x08 | 0x3D => Some(2int),
        0x2E | 0x30 => Some(3int),
        _ => Some(1int),
    }
}

/// An operation has the number of results that the format fixes.
pub proof fn lemma_result_counts(op: Opcode)
    ensures
        op.spec_fixed_result_count() == frozen_results(op.spec_value()),
{
    reveal(Opcode::spec_value);
}

/// The order in which the body of the operation with a number is written.
#[verifier::opaque]
pub open spec fn frozen_body(number: u16, v13_3: bool) -> Seq<Step> {
    match number {
        0x00 | 0x01 | 0x09 | 0x0B | 0x0D
        | 0x12 | 0x13 | 0x27 | 0x33 | 0x3F
        | 0x40 | 0x73 | 0x74 | 0x4F
        | 0x6F | 0x56 | 0x57 | 0x5B | 0x62
        | 0x63 | 0x69 | 0x70 | 0x42 => seq![Step::Results(1), Step::Operands(1)],
        0x04 | 0x6E | 0x4D | 0x51 | 0x52
        | 0x54 | 0x59 | 0x6C => seq![Step::Results(1), Step::Operands(2)],
        0x5F => seq![Step::Results(1), Step::Operands(3)],
        0x72 => seq![Step::Results(1), Step::Operands(5)],
        0x17 => if v13_3 {
            seq![Step::Results(1), Step::IntOr(AttrName::RoundingMode, 5), Step::Operands(1)]
        } else {
            seq![Step::Results(1), Step::Operands(1)]
        },
        0x49 => if v13_3 {
            seq![
                Step::Results(1),
                Step::Flags,
                Step::FlagBool(1, AttrName::FastAcc),
                Step::Operands(3),
            ]
        } else {
            seq![Step::Results(1), Step::Operands(3)]
        },
        0x71 => seq![
            Step::Results(1),
            Step::Flags,
            Step::Int(AttrName::NumElem),
            Step::Int(AttrName::Alignment),
            Step::FlagBool(1, AttrName::Global),
        ],
        0x50 => seq![Step::Results(1), Step::IntOr(AttrName::Overflow, 0), Step::Operands(1)],
        0x6A => seq![Step::Results(1), Step::IntOr(AttrName::RoundingMode, 5), Step::Operands(1)],
        0x3A | 0x44 => seq![Step::Results(1)],
        0x2E | 0x30 => seq![Step::Results(3)],
        0x03 | 0x4E | 0x68 | 0x60 => seq![Step::Results(1), Step::Int(AttrName::Overflow), Step::Operands(2)],
        0x6B => seq![Step::Results(1), Step::Int(AttrName::Overflow), Step::Operands(1)],
        0x61 | 0x46 | 0x48 | 0x5A => seq![Step::Results(1), Step::Int(AttrName::Signedness), Step::Operands(2)],
        0x25 => seq![Step::Results(1), Step::Int(AttrName::Signedness), Step::Operands(1)],
        0x0C => seq![Step::Results(1), Step::Int(AttrName::Dim), Step::Operands(2)],
        0x53 => seq![Step::Results(1), Step::I32s(AttrName::Permutation), Step::Operands(1)],
        0x05 => seq![Step::Results(0), Step::Str(AttrName::Message), Step::Operands(1)],
        0x06 => seq![Step::Results(1), Step::Tagged(AttrName::Predicate), Step::Operands(1)],
        0x0E => seq![
            Step::Results(1),
            Step::Int(AttrName::ComparisonPredicate),
            Step::Int(AttrName::ComparisonOrdering),
            Step::Operands(2),
        ],
        0x0F => seq![
            Step::Results(1),
            Step::Int(AttrName::ComparisonPredicate),
            Step::Int(AttrName::Signedness),
            Step::Operands(2),
        ],
        0x10 => seq![Step::Results(1), Step::Constant],
        0x15 => seq![
            Step::Results(1),
            Step::Int(AttrName::Signedness),
            Step::Int(AttrName::Rounding),
            Step::Operands(2),
        ],
        0x2A => seq![Step::Results(1), Step::Int(AttrName::RoundingMode), Step::Operands(1)],
        0x2B | 0x3B => seq![
            Step::Results(1),
            Step::Int(AttrName::Signedness),
            Step::Int(AttrName::RoundingMode),
            Step::Operands(1),
        ],
        0x4A => seq![
            Step::Results(1),
            Step::Int(AttrName::SignednessLhs),
            Step::Int(AttrName::SignednessRhs),
            Step::Operands(3),
        ],
        0x2C => seq![Step::Results(1), Step::Str(AttrName::Name)],
        0x3C | 0x0A | 0x11 | 0x5C | 0x6D
        | 0x26 => seq![Step::ResultsCounted, Step::OperandsCounted],
        0x29 => seq![
            Step::ResultsCounted,
            Step::Flags,
            Step::FlagInt(1, AttrName::UnsignedCmp),
            Step::OperandsCounted,
            Step::Regions,
        ],
        0x41 => seq![Step::ResultsCounted, Step::OperandsCounted, Step::Regions],
        0x58 => seq![
            Step::ResultsCounted,
            Step::Int(AttrName::Dim),
            Step::Array(AttrName::Identities),
            Step::OperandsCounted,
            Step::Regions,
        ],
        0x5E => seq![
            Step::ResultsCounted,
            Step::Int(AttrName::Dim),
            Step::BoolByte(AttrName::Reverse),
            Step::Array(AttrName::Identities),
            Step::OperandsCounted,
            Step::Regions,
        ],
        0x43 => seq![
            Step::ResultsCounted,
            Step::Group,
            Step::GroupCounted,
            Step::GroupCounted,
            Step::Segments,
        ],
        0x02 | 0x14 | 0x4C | 0x67 => seq![
            Step::Results(1),
            Step::Flags,
            Step::Int(AttrName::RoundingMode),
            Step::Operands(2),
            Step::FlagBool(1, AttrName::FlushToZero),
        ],
        0x28 => seq![
            Step::Results(1),
            Step::Flags,
            Step::Int(AttrName::RoundingMode),
            Step::Operands(3),
            Step::FlagBool(1, AttrName::FlushToZero),
        ],
        0x64 => seq![
            Step::Results(1),
            Step::Flags,
            Step::Int(AttrName::RoundingMode),
            Step::Operands(1),
            Step::FlagBool(1, AttrName::FlushToZero),
        ],
        0x18 | 0x5D => seq![
            Step::Results(1),
            Step::Flags,
            Step::Operands(1),
            Step::FlagBool(1, AttrName::FlushToZero),
        ],
        0x45 | 0x47 => seq![
            Step::Results(1),
            Step::Flags,
            Step::Operands(2),
            Step::FlagBool(1, AttrName::PropagateNan),
            Step::FlagBool(2, AttrName::FlushToZero),
        ],
        0x2D | 0x2F => seq![Step::ResultsCounted, Step::Operands(1)],
        0x32 => seq![Step::ResultsCounted, Step::Operands(1), Step::Regions],
        0x31 => if v13_3 {
            seq![
                Step::Results(0),
                Step::Flags,
                Step::FlagBool(1, AttrName::Constant),
                Step::Str(AttrName::SymName),
                Step::GlobalValue,
                Step::Int(AttrName::Alignment),
                Step::IntOr(AttrName::SymbolVisibility, 0),
            ]
        } else {
            seq![
                Step::Results(0),
                Step::Str(AttrName::SymName),
                Step::GlobalValue,
                Step::Int(AttrName::Alignment),
            ]
        },
        0x4B => if v13_3 {
            seq![
                Step::Results(0),
                Step::Flags,
                Step::Str(AttrName::SymName),
                Step::StrIf(1, AttrName::Producer),
                Step::Regions,
            ]
        } else {
            seq![Step::Results(0), Step::Str(AttrName::SymName), Step::Regions]
        },
        0x55 => seq![
            Step::ResultsCounted,
            Step::Flags,
            Step::Str(AttrName::Str),
            Step::GroupCounted,
            Step::GroupIf(1),
            Step::Segments,
        ],
        0x07 => seq![
            Step::Results(2),
            Step::Flags,
            Step::Int(AttrName::MemoryOrderingSemantics),
            Step::Int(AttrName::MemoryScope),
            Step::Group,
            Step::Group,
            Step::Group,
            Step::GroupIf(1),
            Step::GroupIf(2),
            Step::Segments,
        ],
        0x08 => seq![
            Step::Results(2),
            Step::Flags,
            Step::Int(AttrName::MemoryOrderingSemantics),
            Step::Int(AttrName::MemoryScope),
            Step::Int(AttrName::Mode),
            Step::Group,
            Step::Group,
            Step::GroupIf(1),
            Step::GroupIf(2),
            Step::Segments,
        ],
        0x75 => seq![
            Step::ResultsCounted,
            Step::Flags,
            Step::Int(AttrName::MemoryOrderingSemantics),
            Step::Int(AttrName::MemoryScope),
            Step::Int(AttrName::Mode),
            Step::Group,
            Step::GroupCounted,
            Step::Group,
            Step::GroupIf(1),
            Step::Segments,
        ],
        0x3D => seq![
            Step::Results(2),
            Step::Flags,
            Step::Int(AttrName::MemoryOrderingSemantics),
            Step::IntIf(1, AttrName::MemoryScope),
            Step::HintsIf(2),
            Step::Group,
            Step::GroupIf(4),
            Step::GroupIf(8),
            Step::GroupIf(16),
            Step::Segments,
        ],
        0x3E => seq![
            Step::ResultsCounted,
            Step::Flags,
            Step::Int(AttrName::MemoryOrderingSemantics),
            Step::IntIf(1, AttrName::MemoryScope),
            Step::HintsFirstIf(2),
            Step::Group,
            Step::GroupCounted,
            Step::GroupIf(4),
            Step::Segments,
        ],
        0x65 => seq![
            Step::Results(1),
            Step::Flags,
            Step::Int(AttrName::MemoryOrderingSemantics),
            Step::IntIf(1, AttrName::MemoryScope),
            Step::HintsIf(2),
            Step::Group,
            Step::Group,
            Step::GroupIf(4),
            Step::GroupIf(8),
            Step::Segments,
        ],
        0x66 => seq![
            Step::ResultsCounted,
            Step::Flags,
            Step::Int(AttrName::MemoryOrderingSemantics),
            Step::IntIf(1, AttrName::MemoryScope),
            Step::HintsFirstIf(2),
            Step::Group,
            Step::Group,
            Step::GroupCounted,
            Step::GroupIf(4),
            Step::Segments,
        ],
        0x16 => seq![
            Step::Results(0),
            Step::Flags,
            Step::Str(AttrName::SymName),
            Step::TypeRef(AttrName::FunctionType),
            Step::DictIf(1, AttrName::ArgAttrs),
            Step::DictIf(2, AttrName::ResAttrs),
            Step::HintsIf(4),
            Step::Region,
        ],
        _ => seq![],
    }
}

/// The body of an operation has the order that the format fixes for its number.
pub proof fn lemma_bodies(op: Opcode, v13_3: bool)
    ensures
        layout::layout(op, v13_3) == frozen_body(op.spec_value(), v13_3),
{
    reveal(layout::layout);
    reveal(frozen_body);
    reveal(Opcode::spec_value);
}

/// The texts of the names under which bodies hold their attributes.
pub open spec fn frozen_name(n: AttrName, text: Seq<char>) -> bool {
    &&& n == AttrName::RoundingMode ==> text == "rounding_mode"@
    &&& n == AttrName::FastAcc ==> text == "fast_acc"@
    &&& n == AttrName::NumElem ==> text == "num_elem"@
    &&& n == AttrName::Alignment ==> text == "alignment"@
    &&& n == AttrName::Global ==> text == "global"@
    &&& n == AttrName::Overflow ==> text == "overflow"@
    &&& n == AttrName::Signedness ==> text == "signedness"@
    &&& n == AttrName::Dim ==> text == "dim"@
    &&& n == AttrName::Permutation ==> text == "permutation"@
    &&& n == AttrName::Message ==> text == "message"@
    &&& n == AttrName::Predicate ==> text == "predicate"@
    &&& n == AttrName::ComparisonPredicate ==> text == "comparison_predicate"@
    &&& n == AttrName::ComparisonOrdering ==> text == "comparison_ordering"@
    &&& n == AttrName::Value ==> text == "value"@
    &&& n == AttrName::Rounding ==> text == "rounding"@
    &&& n == AttrName::SignednessLhs ==> text == "signedness_lhs"@
    &&& n == AttrName::SignednessRhs ==> text == "signedness_rhs"@
    &&& n == AttrName::Name ==> text == "name"@
    &&& n == AttrName::UnsignedCmp ==> text == "unsigned_cmp"@
    &&& n == AttrName::Identities ==> text == "identities"@
    &&& n == AttrName::Reverse ==> text == "reverse"@
    &&& n == AttrName::OperandSegmentSizes ==> text == "operandSegmentSizes"@
    &&& n == AttrName::FlushToZero ==> text == "flush_to_zero"@
    &&& n == AttrName::PropagateNan ==> text == "propagate_nan"@
    &&& n == AttrName::Constant ==> text == "constant"@
    &&& n == AttrName::SymName ==> text == "sym_name"@
    &&& n == AttrName::SymbolVisibility ==> text == "symbol_visibility"@
    &&& n == AttrName::Producer ==> text == "producer"@
    &&& n == AttrName::Str ==> text == "str"@
    &&& n == AttrName::MemoryOrderingSemantics ==> text == "memory_ordering_semantics"@
    &&& n == AttrName::MemoryScope ==> text == "memory_scope"@
    &&& n == AttrName::Mode ==> text == "mode"@
    &&& n == AttrName::OptimizationHints ==> text == "optimization_hints"@
    &&& n == AttrName::FunctionType ==> text == "function_type"@
    &&& n == AttrName::ArgAttrs ==> text == "arg_attrs"@
    &&& n == AttrName::ResAttrs ==> text == "res_attrs"@
    &&& n == AttrName::DiName ==> text == "di_name"@
}

/// An attribute is held under its own name.
pub proof fn lemma_names(n: AttrName)
    ensures
        frozen_name(n, layout::name_text(n)),
{
}

} // verus!
