//! What building an operation or a region adds to a module, and what it leaves alone.
use vstd::prelude::*;
use crate::bytecode::assemble;
use crate::ir::builder;
use crate::ir::module::{
    BlockId,
    ModuleV,
    OpId,
    OperationV,
    RegionId,
    Value,
    ValueProducer,
};
use crate::ir::types::TypeV;

verus! {

/// Everything of a module but its operations, blocks and values is as before.
pub open spec fn same_surroundings(a: ModuleV, b: ModuleV) -> bool {
    &&& a.name == b.name
    &&& a.globals == b.globals
    &&& a.functions == b.functions
    &&& a.regions == b.regions
}

/// A built operation is the last of the module, each of its results is a new value of the
/// result's type that names the operation and the result's place, and nothing else
/// changes.
pub proof fn lemma_built(m: ModuleV, op: OperationV, i: int)
    requires
        0 <= i < op.result_types.len(),
        m.values.len() + op.result_types.len() <= u32::MAX,
    ensures
        ({
            let r = builder::with_op(m, op);
            let v = assemble::fresh(m, op.result_types.len());
            &&& same_surroundings(r, m)
            &&& r.blocks == m.blocks
            &&& r.ops.len() == m.ops.len() + 1
            &&& r.ops.drop_last() == m.ops
            &&& r.ops.last() == op
            &&& r.values.len() == m.values.len() + op.result_types.len()
            &&& r.values.take(m.values.len() as int) == m.values
            &&& v.len() == op.result_types.len()
            &&& v[i].0 == m.values.len() + i
            &&& r.values[v[i].0 as int].ty == op.result_types[i]
            &&& r.values[v[i].0 as int].producer == (ValueProducer::OpResult {
                op: OpId(m.ops.len() as u32),
                result_index: i as u32,
            })
        }),
{
    let r = builder::with_op(m, op);
    assert(r.ops.drop_last() =~= m.ops);
    assert(r.values.take(m.values.len() as int) =~= m.values);
}

/// An operation without results adds no values.
pub proof fn lemma_built_without_results(m: ModuleV, op: OperationV)
    requires
        op.result_types.len() == 0,
    ensures
        ({
            let r = builder::with_op(m, op);
            &&& same_surroundings(r, m)
            &&& r.blocks == m.blocks
            &&& r.ops == m.ops.push(op)
            &&& r.values == m.values
        }),
{
    assert(builder::with_op(m, op).values =~= m.values);
}

/// An appended operation is the last of its block; other blocks, and everything else, are
/// as before.
pub proof fn lemma_appended(m: ModuleV, block: BlockId, op: OpId, other: int)
    requires
        block.0 < m.blocks.len(),
        0 <= other < m.blocks.len(),
    ensures
        ({
            let r = builder::with_appended(m, block, op);
            &&& same_surroundings(r, m)
            &&& r.ops == m.ops
            &&& r.values == m.values
            &&& r.blocks.len() == m.blocks.len()
            &&& r.blocks[block.0 as int].args == m.blocks[block.0 as int].args
            &&& r.blocks[block.0 as int].ops.len() == m.blocks[block.0 as int].ops.len() + 1
            &&& r.blocks[block.0 as int].ops.drop_last() == m.blocks[block.0 as int].ops
            &&& r.blocks[block.0 as int].ops.last() == op
            &&& other != block.0 ==> r.blocks[other] == m.blocks[other]
        }),
{
    let r = builder::with_appended(m, block, op);
    assert(r.blocks[block.0 as int].ops.drop_last() =~= m.blocks[block.0 as int].ops);
}

/// A built region has one new block without operations, whose arguments are new values of
/// the given types that name the block and the argument's place.
pub proof fn lemma_region(m: ModuleV, tys: Seq<TypeV>, i: int)
    requires
        0 <= i < tys.len(),
        m.values.len() + tys.len() <= u32::MAX,
    ensures
        ({
            let r = builder::with_region(m, tys);
            let id = BlockId(m.blocks.len() as u32);
            let v = assemble::fresh(m, tys.len());
            &&& r.name == m.name
            &&& r.globals == m.globals
            &&& r.functions == m.functions
            &&& r.ops == m.ops
            &&& r.blocks.len() == m.blocks.len() + 1
            &&& r.blocks.drop_last() == m.blocks
            &&& r.blocks.last().ops.len() == 0
            &&& r.blocks.last().args.len() == tys.len()
            &&& r.blocks.last().args[i] == (v[i], tys[i])
            &&& r.regions.len() == m.regions.len() + 1
            &&& r.regions.drop_last() == m.regions
            &&& r.regions.last() == seq![id]
            &&& r.values.len() == m.values.len() + tys.len()
            &&& r.values.take(m.values.len() as int) == m.values
            &&& r.values[v[i].0 as int].ty == tys[i]
            &&& r.values[v[i].0 as int].producer == (ValueProducer::BlockArg {
                block: id,
                arg_index: i as u32,
            })
        }),
{
    let r = builder::with_region(m, tys);
    assert(r.blocks.drop_last() =~= m.blocks);
    assert(r.regions.drop_last() =~= m.regions);
    assert(r.values.take(m.values.len() as int) =~= m.values);
}

} // verus!
