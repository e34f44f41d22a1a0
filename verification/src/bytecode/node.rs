//! Operations as trees. Values are known by the number that they have in the
//! body of their function: arguments and results are numbered in the order in
//! which they appear, and the numbers of a block are free again behind it.
use vstd::prelude::*;
use crate::bytecode::opcode::Opcode;
use crate::ir::attr::{AttrV, Attribute};
use crate::ir::attr;
use crate::ir::location::{Location, LocationV};
use crate::ir::types::{Type, TypeV};
use crate::ir::types;

verus! {

/// An operation with everything in it.
pub struct OpNode {
    pub opcode: Opcode,
    pub operands: Vec<u64>,
    pub result_types: Vec<Type>,
    pub attributes: Vec<(String, Attribute)>,
    pub regions: Vec<RegionNode>,
    pub location: Location,
}

/// A region.
pub struct RegionNode {
    pub blocks: Vec<BlockNode>,
}

/// A block.
pub struct BlockNode {
    pub arg_types: Vec<Type>,
    pub ops: Vec<OpNode>,
}

/// The contents of an operation.
#[verifier::ext_equal]
pub struct OpN {
    pub opcode: Opcode,
    pub operands: Seq<u64>,
    pub result_types: Seq<TypeV>,
    pub attributes: Seq<(Seq<char>, AttrV)>,
    pub regions: Seq<Seq<BlockN>>,
    pub location: LocationV,
}

/// The contents of a block.
#[verifier::ext_equal]
pub struct BlockN {
    pub arg_types: Seq<TypeV>,
    pub ops: Seq<OpN>,
}

/// The contents of an operation.
pub open spec fn op_view(op: OpNode) -> OpN
    decreases op,
{
    OpN {
        opcode: op.opcode,
        operands: op.operands@,
        result_types: types::types_view(op.result_types@),
        attributes: attr::dict_view(op.attributes@),
        regions: regions_view(op.regions@),
        location: op.location@,
    }
}

/// The contents of regions.
pub open spec fn regions_view(s: Seq<RegionNode>) -> Seq<Seq<BlockN>>
    decreases s,
{
    Seq::new(
        s.len(),
        |i: int|
            if 0 <= i < s.len() {
                blocks_view(s[i].blocks@)
            } else {
                Seq::empty()
            },
    )
}

/// The contents of blocks.
pub open spec fn blocks_view(s: Seq<BlockNode>) -> Seq<BlockN>
    decreases s,
{
    Seq::new(
        s.len(),
        |i: int|
            if 0 <= i < s.len() {
                BlockN {
                    arg_types: types::types_view(s[i].arg_types@),
                    ops: ops_view(s[i].ops@),
                }
            } else {
                BlockN { arg_types: Seq::empty(), ops: Seq::empty() }
            },
    )
}

/// The contents of operations.
pub open spec fn ops_view(s: Seq<OpNode>) -> Seq<OpN>
    decreases s,
{
    Seq::new(
        s.len(),
        |i: int|
            if 0 <= i < s.len() {
                op_view(s[i])
            } else {
                OpN {
                    opcode: Opcode::Return,
                    operands: Seq::empty(),
                    result_types: Seq::empty(),
                    attributes: Seq::empty(),
                    regions: Seq::empty(),
                    location: LocationV::Unknown,
                }
            },
    )
}

impl View for OpNode {
    type V = OpN;

    open spec fn view(&self) -> OpN {
        op_view(*self)
    }
}

impl View for RegionNode {
    type V = Seq<BlockN>;

    open spec fn view(&self) -> Seq<BlockN> {
        blocks_view(self.blocks@)
    }
}

impl View for BlockNode {
    type V = BlockN;

    open spec fn view(&self) -> BlockN {
        BlockN { arg_types: types::types_view(self.arg_types@), ops: ops_view(self.ops@) }
    }
}

/// Appending an operation appends to the contents.
pub proof fn lemma_ops_view_push(s: Seq<OpNode>, x: OpNode)
    ensures
        ops_view(s.push(x)) == ops_view(s).push(x@),
{
    assert(ops_view(s.push(x)) =~= ops_view(s).push(x@));
}

/// Appending a block appends to the contents.
pub proof fn lemma_blocks_view_push(s: Seq<BlockNode>, x: BlockNode)
    ensures
        blocks_view(s.push(x)) == blocks_view(s).push(x@),
{
    assert(blocks_view(s.push(x)) =~= blocks_view(s).push(x@));
}

/// Appending a region appends to the contents.
pub proof fn lemma_regions_view_push(s: Seq<RegionNode>, x: RegionNode)
    ensures
        regions_view(s.push(x)) == regions_view(s).push(x@),
{
    assert(regions_view(s.push(x)) =~= regions_view(s).push(x@));
}

} // verus!
