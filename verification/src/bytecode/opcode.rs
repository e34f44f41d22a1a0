//! Frozen opcode assignments of all tile operations. The values must never be
//! renumbered.
use vstd::prelude::*;
use crate::bytecode::frozen;

verus! {

/// Opcode of one tile operation.
#[derive(Clone, Copy, Debug, PartialEq, Eq, Hash, Structural)]
pub enum Opcode {
    AbsF,
    AbsI,
    AddF,
    AddI,
    AndI,
    Assert,
    Assume,
    AtomicCAS,
    AtomicRMW,
    Bitcast,
    Break,
    Broadcast,
    Cat,
    Ceil,
    CmpF,
    CmpI,
    Constant,
    Continue,
    Cos,
    CosH,
    DivF,
    DivI,
    Entry,
    Exp,
    Exp2,
    ExtI,
    Extract,
    Floor,
    Fma,
    For,
    FToF,
    FToI,
    GetGlobal,
    GetIndexSpaceShape,
    GetNumTileBlocks,
    GetTensorShape,
    GetTileBlockId,
    Global,
    If,
    IntToPtr,
    Iota,
    IToF,
    JoinTokens,
    LoadPtrTko,
    LoadViewTko,
    Log,
    Log2,
    Loop,
    MakePartitionView,
    MakeTensorView,
    MakeToken,
    MaxF,
    MaxI,
    MinF,
    MinI,
    MmaF,
    MmaI,
    Module,
    MulF,
    MulhiI,
    MulI,
    NegF,
    NegI,
    Offset,
    OrI,
    Permute,
    Pow,
    Print,
    PtrToInt,
    PtrToPtr,
    Reduce,
    RemF,
    RemI,
    Reshape,
    Return,
    Rsqrt,
    Scan,
    Select,
    ShLI,
    ShRI,
    Sin,
    SinH,
    Sqrt,
    StorePtrTko,
    StoreViewTko,
    SubF,
    SubI,
    Tan,
    TanH,
    TruncI,
    XOrI,
    Yield,
    Atan2,
    Pack,
    Unpack,
    Alloca,
    MmaFScaled,
    MakeGatherScatterView,
    MakeStridedView,
    AtomicRedViewTko,
}

impl Opcode {
    /// The number that stands for this operation in bytecode.
    #[verifier::opaque]
    pub open spec fn spec_value(self) -> u16 {
        match self {
            Opcode::AbsF => 0x00,
            Opcode::AbsI => 0x01,
            Opcode::AddF => 0x02,
            Opcode::AddI => 0x03,
            Opcode::AndI => 0x04,
            Opcode::Assert => 0x05,
            Opcode::Assume => 0x06,
            Opcode::AtomicCAS => 0x07,
            Opcode::AtomicRMW => 0x08,
            Opcode::Bitcast => 0x09,
            Opcode::Break => 0x0A,
            Opcode::Broadcast => 0x0B,
            Opcode::Cat => 0x0C,
            Opcode::Ceil => 0x0D,
            Opcode::CmpF => 0x0E,
            Opcode::CmpI => 0x0F,
            Opcode::Constant => 0x10,
            Opcode::Continue => 0x11,
            Opcode::Cos => 0x12,
            Opcode::CosH => 0x13,
            Opcode::DivF => 0x14,
            Opcode::DivI => 0x15,
            Opcode::Entry => 0x16,
            Opcode::Exp => 0x17,
            Opcode::Exp2 => 0x18,
            Opcode::ExtI => 0x25,
            Opcode::Extract => 0x26,
            Opcode::Floor => 0x27,
            Opcode::Fma => 0x28,
            Opcode::For => 0x29,
            Opcode::FToF => 0x2A,
            Opcode::FToI => 0x2B,
            Opcode::GetGlobal => 0x2C,
            Opcode::GetIndexSpaceShape => 0x2D,
            Opcode::GetNumTileBlocks => 0x2E,
            Opcode::GetTensorShape => 0x2F,
            Opcode::GetTileBlockId => 0x30,
            Opcode::Global => 0x31,
            Opcode::If => 0x32,
            Opcode::IntToPtr => 0x33,
            Opcode::Iota => 0x3A,
            Opcode::IToF => 0x3B,
            Opcode::JoinTokens => 0x3C,
            Opcode::LoadPtrTko => 0x3D,
            Opcode::LoadViewTko => 0x3E,
            Opcode::Log => 0x3F,
            Opcode::Log2 => 0x40,
            Opcode::Loop => 0x41,
            Opcode::MakePartitionView => 0x42,
            Opcode::MakeTensorView => 0x43,
            Opcode::MakeToken => 0x44,
            Opcode::MaxF => 0x45,
            Opcode::MaxI => 0x46,
            Opcode::MinF => 0x47,
            Opcode::MinI => 0x48,
            Opcode::MmaF => 0x49,
            Opcode::MmaI => 0x4A,
            Opcode::Module => 0x4B,
            Opcode::MulF => 0x4C,
            Opcode::MulhiI => 0x4D,
            Opcode::MulI => 0x4E,
            Opcode::NegF => 0x4F,
            Opcode::NegI => 0x50,
            Opcode::Offset => 0x51,
            Opcode::OrI => 0x52,
            Opcode::Permute => 0x53,
            Opcode::Pow => 0x54,
            Opcode::Print => 0x55,
            Opcode::PtrToInt => 0x56,
            Opcode::PtrToPtr => 0x57,
            Opcode::Reduce => 0x58,
            Opcode::RemF => 0x59,
            Opcode::RemI => 0x5A,
            Opcode::Reshape => 0x5B,
            Opcode::Return => 0x5C,
            Opcode::Rsqrt => 0x5D,
            Opcode::Scan => 0x5E,
            Opcode::Select => 0x5F,
            Opcode::ShLI => 0x60,
            Opcode::ShRI => 0x61,
            Opcode::Sin => 0x62,
            Opcode::SinH => 0x63,
            Opcode::Sqrt => 0x64,
            Opcode::StorePtrTko => 0x65,
            Opcode::StoreViewTko => 0x66,
            Opcode::SubF => 0x67,
            Opcode::SubI => 0x68,
            Opcode::Tan => 0x69,
            Opcode::TanH => 0x6A,
            Opcode::TruncI => 0x6B,
            Opcode::XOrI => 0x6C,
            Opcode::Yield => 0x6D,
            Opcode::Atan2 => 0x6E,
            Opcode::Pack => 0x6F,
            Opcode::Unpack => 0x70,
            Opcode::Alloca => 0x71,
            Opcode::MmaFScaled => 0x72,
            Opcode::MakeGatherScatterView => 0x73,
            Opcode::MakeStridedView => 0x74,
            Opcode::AtomicRedViewTko => 0x75,
        }
    }

    /// The number that stands for this operation in bytecode.
    pub fn as_u16(self) -> (r: u16)
        ensures
            r == self.spec_value(),
            frozen::assigned(r) == Some(self),
    {
        reveal(Opcode::spec_value);
        reveal(frozen::assigned);
        match self {
            Opcode::AbsF => 0x00,
            Opcode::AbsI => 0x01,
            Opcode::AddF => 0x02,
            Opcode::AddI => 0x03,
            Opcode::AndI => 0x04,
            Opcode::Assert => 0x05,
            Opcode::Assume => 0x06,
            Opcode::AtomicCAS => 0x07,
            Opcode::AtomicRMW => 0x08,
            Opcode::Bitcast => 0x09,
            Opcode::Break => 0x0A,
            Opcode::Broadcast => 0x0B,
            Opcode::Cat => 0x0C,
            Opcode::Ceil => 0x0D,
            Opcode::CmpF => 0x0E,
            Opcode::CmpI => 0x0F,
            Opcode::Constant => 0x10,
            Opcode::Continue => 0x11,
            Opcode::Cos => 0x12,
            Opcode::CosH => 0x13,
            Opcode::DivF => 0x14,
            Opcode::DivI => 0x15,
            Opcode::Entry => 0x16,
            Opcode::Exp => 0x17,
            Opcode::Exp2 => 0x18,
            Opcode::ExtI => 0x25,
            Opcode::Extract => 0x26,
            Opcode::Floor => 0x27,
            Opcode::Fma => 0x28,
            Opcode::For => 0x29,
            Opcode::FToF => 0x2A,
            Opcode::FToI => 0x2B,
            Opcode::GetGlobal => 0x2C,
            Opcode::GetIndexSpaceShape => 0x2D,
            Opcode::GetNumTileBlocks => 0x2E,
            Opcode::GetTensorShape => 0x2F,
            Opcode::GetTileBlockId => 0x30,
            Opcode::Global => 0x31,
            Opcode::If => 0x32,
            Opcode::IntToPtr => 0x33,
            Opcode::Iota => 0x3A,
            Opcode::IToF => 0x3B,
            Opcode::JoinTokens => 0x3C,
            Opcode::LoadPtrTko => 0x3D,
            Opcode::LoadViewTko => 0x3E,
            Opcode::Log => 0x3F,
            Opcode::Log2 => 0x40,
            Opcode::Loop => 0x41,
            Opcode::MakePartitionView => 0x42,
            Opcode::MakeTensorView => 0x43,
            Opcode::MakeToken => 0x44,
            Opcode::MaxF => 0x45,
            Opcode::MaxI => 0x46,
            Opcode::MinF => 0x47,
            Opcode::MinI => 0x48,
            Opcode::MmaF => 0x49,
            Opcode::MmaI => 0x4A,
            Opcode::Module => 0x4B,
            Opcode::MulF => 0x4C,
            Opcode::MulhiI => 0x4D,
            Opcode::MulI => 0x4E,
            Opcode::NegF => 0x4F,
            Opcode::NegI => 0x50,
            Opcode::Offset => 0x51,
            Opcode::OrI => 0x52,
            Opcode::Permute => 0x53,
            Opcode::Pow => 0x54,
            Opcode::Print => 0x55,
            Opcode::PtrToInt => 0x56,
            Opcode::PtrToPtr => 0x57,
            Opcode::Reduce => 0x58,
            Opcode::RemF => 0x59,
            Opcode::RemI => 0x5A,
            Opcode::Reshape => 0x5B,
            Opcode::Return => 0x5C,
            Opcode::Rsqrt => 0x5D,
            Opcode::Scan => 0x5E,
            Opcode::Select => 0x5F,
            Opcode::ShLI => 0x60,
            Opcode::ShRI => 0x61,
            Opcode::Sin => 0x62,
            Opcode::SinH => 0x63,
            Opcode::Sqrt => 0x64,
            Opcode::StorePtrTko => 0x65,
            Opcode::StoreViewTko => 0x66,
            Opcode::SubF => 0x67,
            Opcode::SubI => 0x68,
            Opcode::Tan => 0x69,
            Opcode::TanH => 0x6A,
            Opcode::TruncI => 0x6B,
            Opcode::XOrI => 0x6C,
            Opcode::Yield => 0x6D,
            Opcode::Atan2 => 0x6E,
            Opcode::Pack => 0x6F,
            Opcode::Unpack => 0x70,
            Opcode::Alloca => 0x71,
            Opcode::MmaFScaled => 0x72,
            Opcode::MakeGatherScatterView => 0x73,
            Opcode::MakeStridedView => 0x74,
            Opcode::AtomicRedViewTko => 0x75,
        }
    }

    /// The operation with the given number, if the number is assigned.
    pub fn from_u16(value: u16) -> (r: Option<Opcode>)
        ensures
            match r {
                Some(op) => op.spec_value() == value,
                None => forall|op: Opcode| op.spec_value() != value,
            },
            r == frozen::assigned(value),
    {
        reveal(Opcode::spec_value);
        reveal(frozen::assigned);
        let op = match value {
            0x00 => Opcode::AbsF,
            0x01 => Opcode::AbsI,
            0x02 => Opcode::AddF,
            0x03 => Opcode::AddI,
            0x04 => Opcode::AndI,
            0x05 => Opcode::Assert,
            0x06 => Opcode::Assume,
            0x07 => Opcode::AtomicCAS,
            0x08 => Opcode::AtomicRMW,
            0x09 => Opcode::Bitcast,
            0x0A => Opcode::Break,
            0x0B => Opcode::Broadcast,
            0x0C => Opcode::Cat,
            0x0D => Opcode::Ceil,
            0x0E => Opcode::CmpF,
            0x0F => Opcode::CmpI,
            0x10 => Opcode::Constant,
            0x11 => Opcode::Continue,
            0x12 => Opcode::Cos,
            0x13 => Opcode::CosH,
            0x14 => Opcode::DivF,
            0x15 => Opcode::DivI,
            0x16 => Opcode::Entry,
            0x17 => Opcode::Exp,
            0x18 => Opcode::Exp2,
            0x25 => Opcode::ExtI,
            0x26 => Opcode::Extract,
            0x27 => Opcode::Floor,
            0x28 => Opcode::Fma,
            0x29 => Opcode::For,
            0x2A => Opcode::FToF,
            0x2B => Opcode::FToI,
            0x2C => Opcode::GetGlobal,
            0x2D => Opcode::GetIndexSpaceShape,
            0x2E => Opcode::GetNumTileBlocks,
            0x2F => Opcode::GetTensorShape,
            0x30 => Opcode::GetTileBlockId,
            0x31 => Opcode::Global,
            0x32 => Opcode::If,
            0x33 => Opcode::IntToPtr,
            0x3A => Opcode::Iota,
            0x3B => Opcode::IToF,
            0x3C => Opcode::JoinTokens,
            0x3D => Opcode::LoadPtrTko,
            0x3E => Opcode::LoadViewTko,
            0x3F => Opcode::Log,
            0x40 => Opcode::Log2,
            0x41 => Opcode::Loop,
            0x42 => Opcode::MakePartitionView,
            0x43 => Opcode::MakeTensorView,
            0x44 => Opcode::MakeToken,
            0x45 => Opcode::MaxF,
            0x46 => Opcode::MaxI,
            0x47 => Opcode::MinF,
            0x48 => Opcode::MinI,
            0x49 => Opcode::MmaF,
            0x4A => Opcode::MmaI,
            0x4B => Opcode::Module,
            0x4C => Opcode::MulF,
            0x4D => Opcode::MulhiI,
            0x4E => Opcode::MulI,
            0x4F => Opcode::NegF,
            0x50 => Opcode::NegI,
            0x51 => Opcode::Offset,
            0x52 => Opcode::OrI,
            0x53 => Opcode::Permute,
            0x54 => Opcode::Pow,
            0x55 => Opcode::Print,
            0x56 => Opcode::PtrToInt,
            0x57 => Opcode::PtrToPtr,
            0x58 => Opcode::Reduce,
            0x59 => Opcode::RemF,
            0x5A => Opcode::RemI,
            0x5B => Opcode::Reshape,
            0x5C => Opcode::Return,
            0x5D => Opcode::Rsqrt,
            0x5E => Opcode::Scan,
            0x5F => Opcode::Select,
            0x60 => Opcode::ShLI,
            0x61 => Opcode::ShRI,
            0x62 => Opcode::Sin,
            0x63 => Opcode::SinH,
            0x64 => Opcode::Sqrt,
            0x65 => Opcode::StorePtrTko,
            0x66 => Opcode::StoreViewTko,
            0x67 => Opcode::SubF,
            0x68 => Opcode::SubI,
            0x69 => Opcode::Tan,
            0x6A => Opcode::TanH,
            0x6B => Opcode::TruncI,
            0x6C => Opcode::XOrI,
            0x6D => Opcode::Yield,
            0x6E => Opcode::Atan2,
            0x6F => Opcode::Pack,
            0x70 => Opcode::Unpack,
            0x71 => Opcode::Alloca,
            0x72 => Opcode::MmaFScaled,
            0x73 => Opcode::MakeGatherScatterView,
            0x74 => Opcode::MakeStridedView,
            0x75 => Opcode::AtomicRedViewTko,
            _ => return None,
        };
        Some(op)
    }

    /// The number of results where the encoding fixes it, nothing where the
    /// encoding holds a count.
    pub open spec fn spec_fixed_result_count(self) -> Option<int> {
        match self {
            Opcode::Break
            | Opcode::Continue
            | Opcode::Extract
            | Opcode::For
            | Opcode::GetIndexSpaceShape
            | Opcode::GetTensorShape
            | Opcode::If
            | Opcode::JoinTokens
            | Opcode::LoadViewTko
            | Opcode::Loop
            | Opcode::MakeTensorView
            | Opcode::Print
            | Opcode::Reduce
            | Opcode::Return
            | Opcode::Scan
            | Opcode::StoreViewTko
            | Opcode::Yield => None,
            Opcode::Assert
            | Opcode::Global
            | Opcode::Module => Some(0int),
            Opcode::AbsF
            | Opcode::AbsI
            | Opcode::AddF
            | Opcode::AddI
            | Opcode::AndI
            | Opcode::Assume
            | Opcode::Atan2
            | Opcode::Bitcast
            | Opcode::Broadcast
            | Opcode::Cat
            | Opcode::Ceil
            | Opcode::CmpF
            | Opcode::CmpI
            | Opcode::Constant
            | Opcode::Cos
            | Opcode::CosH
            | Opcode::DivF
            | Opcode::DivI
            | Opcode::Exp
            | Opcode::Exp2
            | Opcode::ExtI
            | Opcode::Floor
            | Opcode::Fma
            | Opcode::FToF
            | Opcode::FToI
            | Opcode::GetGlobal
            | Opcode::IntToPtr
            | Opcode::Iota
            | Opcode::IToF
            | Opcode::Log
            | Opcode::Log2
            | Opcode::MakeGatherScatterView
            | Opcode::MakePartitionView
            | Opcode::MakeStridedView
            | Opcode::MakeToken
            | Opcode::MaxF
            | Opcode::MaxI
            | Opcode::MinF
            | Opcode::MinI
            | Opcode::MmaF
            | Opcode::MmaFScaled
            | Opcode::MmaI
            | Opcode::MulF
            | Opcode::MulhiI
            | Opcode::MulI
            | Opcode::NegF
            | Opcode::NegI
            | Opcode::Offset
            | Opcode::OrI
            | Opcode::Pack
            | Opcode::Permute
            | Opcode::Pow
            | Opcode::PtrToInt
            | Opcode::PtrToPtr
            | Opcode::Reshape
            | Opcode::RemF
            | Opcode::RemI
            | Opcode::Rsqrt
            | Opcode::Select
            | Opcode::ShLI
            | Opcode::ShRI
            | Opcode::Sin
            | Opcode::SinH
            | Opcode::Sqrt
            | Opcode::SubF
            | Opcode::SubI
            | Opcode::Tan
            | Opcode::TanH
            | Opcode::TruncI
            | Opcode::Unpack
            | Opcode::XOrI => Some(1int),
            Opcode::AtomicCAS
            | Opcode::AtomicRMW
            | Opcode::LoadPtrTko => Some(2int),
            Opcode::AtomicRedViewTko
            | Opcode::StorePtrTko => Some(1int),
            Opcode::GetTileBlockId
            | Opcode::GetNumTileBlocks => Some(3int),
            Opcode::Alloca => Some(1int),
            Opcode::Entry => Some(0int),
        }
    }

    /// The number of results where the encoding fixes it, nothing where the
    /// encoding holds a count.
    pub fn fixed_result_count(&self) -> (r: Option<usize>)
        ensures
            match self.spec_fixed_result_count() {
                Some(n) => r is Some && r->Some_0 == n,
                None => r is None,
            },
    {
        match self {
            Opcode::Break
            | Opcode::Continue
            | Opcode::Extract
            | Opcode::For
            | Opcode::GetIndexSpaceShape
            | Opcode::GetTensorShape
            | Opcode::If
            | Opcode::JoinTokens
            | Opcode::LoadViewTko
            | Opcode::Loop
            | Opcode::MakeTensorView
            | Opcode::Print
            | Opcode::Reduce
            | Opcode::Return
            | Opcode::Scan
            | Opcode::StoreViewTko
            | Opcode::Yield => None,
            Opcode::Assert
            | Opcode::Global
            | Opcode::Module => Some(0),
            Opcode::AbsF
            | Opcode::AbsI
            | Opcode::AddF
            | Opcode::AddI
            | Opcode::AndI
            | Opcode::Assume
            | Opcode::Atan2
            | Opcode::Bitcast
            | Opcode::Broadcast
            | Opcode::Cat
            | Opcode::Ceil
            | Opcode::CmpF
            | Opcode::CmpI
            | Opcode::Constant
            | Opcode::Cos
            | Opcode::CosH
            | Opcode::DivF
            | Opcode::DivI
            | Opcode::Exp
            | Opcode::Exp2
            | Opcode::ExtI
            | Opcode::Floor
            | Opcode::Fma
            | Opcode::FToF
            | Opcode::FToI
            | Opcode::GetGlobal
            | Opcode::IntToPtr
            | Opcode::Iota
            | Opcode::IToF
            | Opcode::Log
            | Opcode::Log2
            | Opcode::MakeGatherScatterView
            | Opcode::MakePartitionView
            | Opcode::MakeStridedView
            | Opcode::MakeToken
            | Opcode::MaxF
            | Opcode::MaxI
            | Opcode::MinF
            | Opcode::MinI
            | Opcode::MmaF
            | Opcode::MmaFScaled
            | Opcode::MmaI
            | Opcode::MulF
            | Opcode::MulhiI
            | Opcode::MulI
            | Opcode::NegF
            | Opcode::NegI
            | Opcode::Offset
            | Opcode::OrI
            | Opcode::Pack
            | Opcode::Permute
            | Opcode::Pow
            | Opcode::PtrToInt
            | Opcode::PtrToPtr
            | Opcode::Reshape
            | Opcode::RemF
            | Opcode::RemI
            | Opcode::Rsqrt
            | Opcode::Select
            | Opcode::ShLI
            | Opcode::ShRI
            | Opcode::Sin
            | Opcode::SinH
            | Opcode::Sqrt
            | Opcode::SubF
            | Opcode::SubI
            | Opcode::Tan
            | Opcode::TanH
            | Opcode::TruncI
            | Opcode::Unpack
            | Opcode::XOrI => Some(1),
            Opcode::AtomicCAS
            | Opcode::AtomicRMW
            | Opcode::LoadPtrTko => Some(2),
            Opcode::AtomicRedViewTko
            | Opcode::StorePtrTko => Some(1),
            Opcode::GetTileBlockId
            | Opcode::GetNumTileBlocks => Some(3),
            Opcode::Alloca => Some(1),
            Opcode::Entry => Some(0),
        }
    }
}

/// No two operations share a number.
pub proof fn lemma_opcode_injective(a: Opcode, b: Opcode)
    requires
        a.spec_value() == b.spec_value(),
    ensures
        a == b,
{
    reveal(Opcode::spec_value);
}

/// The operation with the given number, if the number is assigned.
pub open spec fn opcode_of(value: u16) -> Option<Opcode> {
    if exists|op: Opcode| #[trigger] op.spec_value() == value {
        Some(choose|op: Opcode| #[trigger] op.spec_value() == value)
    } else {
        None
    }
}

/// An operation is the one with its number.
pub proof fn lemma_opcode_of(op: Opcode)
    ensures
        opcode_of(op.spec_value()) == Some(op),
{
    let other = choose|x: Opcode| #[trigger] x.spec_value() == op.spec_value();
    lemma_opcode_injective(op, other);
}

} // verus!
