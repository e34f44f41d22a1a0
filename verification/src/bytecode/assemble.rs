//! Building modules from operation trees.
use vstd::prelude::*;
use crate::bytecode::node::{BlockN, BlockNode, OpN, OpNode, RegionNode};
use crate::bytecode::node;
use crate::ir::attr::duplicate_dict;
use crate::ir::module::{
    Block,
    BlockId,
    BlockV,
    Module,
    ModuleV,
    OpId,
    Operation,
    OperationV,
    Region,
    RegionId,
    Value,
    ValueProducer,
    ValueV,
};
use crate::ir::module;
use crate::ir::types::{duplicate_types, Type, TypeV};
use crate::ir::types;

verus! {

/// The values that are added for a list of types.
pub open spec fn fresh(m: ModuleV, n: nat) -> Seq<Value> {
    Seq::new(n, |i: int| Value((m.values.len() + i) as u32))
}

/// The module with the results of an operation.
pub open spec fn with_results(m: ModuleV, id: OpId, tys: Seq<TypeV>) -> ModuleV {
    ModuleV {
        values: m.values + Seq::new(
            tys.len(),
            |i: int|
                ValueV {
                    ty: tys[i],
                    producer: ValueProducer::OpResult { op: id, result_index: i as u32 },
                },
        ),
        ..m
    }
}

/// The module with the arguments of a block.
pub open spec fn with_args(m: ModuleV, id: BlockId, tys: Seq<TypeV>) -> ModuleV {
    ModuleV {
        values: m.values + Seq::new(
            tys.len(),
            |i: int|
                ValueV {
                    ty: tys[i],
                    producer: ValueProducer::BlockArg { block: id, arg_index: i as u32 },
                },
        ),
        ..m
    }
}

/// The values that numbers stand for.
pub open spec fn values_of(env: Seq<Value>, s: Seq<u64>) -> Seq<Value> {
    Seq::new(
        s.len(),
        |i: int|
            if s[i] < env.len() {
                env[s[i] as int]
            } else {
                Value(0)
            },
    )
}

/// An operation, added to a module: the module, the values known behind it and
/// the operation's id.
pub open spec fn build_op(m: ModuleV, env: Seq<Value>, op: OpN) -> (ModuleV, Seq<Value>, OpId)
    decreases op, 0int,
{
    let (m1, regions) = build_regions(m, env, op.regions, op.regions.len() as int);
    let id = OpId(m1.ops.len() as u32);
    let m2 = ModuleV {
        ops: m1.ops.push(
            OperationV {
                opcode: op.opcode,
                operands: values_of(env, op.operands),
                result_types: op.result_types,
                attributes: op.attributes,
                regions,
                location: op.location,
            },
        ),
        ..m1
    };
    (
        with_results(m2, id, op.result_types),
        env + fresh(m2, op.result_types.len()),
        id,
    )
}

/// The first `n` of some operations, added to a module.
pub open spec fn build_ops(m: ModuleV, env: Seq<Value>, ops: Seq<OpN>, n: int) -> (
    ModuleV,
    Seq<Value>,
    Seq<OpId>,
)
    decreases ops, n,
{
    if n <= 0 || n > ops.len() {
        (m, env, seq![])
    } else {
        let (m1, env1, ids) = build_ops(m, env, ops, n - 1);
        let (m2, env2, id) = build_op(m1, env1, ops[n - 1]);
        (m2, env2, ids.push(id))
    }
}

/// A block with its arguments, added to a module: its position and id, the
/// module, and the values known inside it.
pub open spec fn open_block(m: ModuleV, env: Seq<Value>, tys: Seq<TypeV>) -> (
    ModuleV,
    Seq<Value>,
    BlockId,
) {
    let id = BlockId(m.blocks.len() as u32);
    let m1 = ModuleV { blocks: m.blocks.push(BlockV { args: seq![], ops: seq![] }), ..m };
    (with_args(m1, id, tys), env + fresh(m1, tys.len()), id)
}

/// The arguments of a block whose values start at `start`.
pub open spec fn block_args(m: ModuleV, tys: Seq<TypeV>) -> Seq<(Value, TypeV)> {
    Seq::new(tys.len(), |i: int| (Value((m.values.len() + i) as u32), tys[i]))
}

/// A block, added to a module.
pub open spec fn build_block(m: ModuleV, env: Seq<Value>, b: BlockN) -> (ModuleV, BlockId)
    decreases b, 0int,
{
    let (m1, env1, id) = open_block(m, env, b.arg_types);
    let (m2, _, ids) = build_ops(m1, env1, b.ops, b.ops.len() as int);
    (
        ModuleV {
            blocks: m2.blocks.update(
                m.blocks.len() as int,
                BlockV { args: block_args(m, b.arg_types), ops: ids },
            ),
            ..m2
        },
        id,
    )
}

/// The first `n` of some blocks, added to a module.
pub open spec fn build_blocks(m: ModuleV, env: Seq<Value>, bs: Seq<BlockN>, n: int) -> (
    ModuleV,
    Seq<BlockId>,
)
    decreases bs, n,
{
    if n <= 0 || n > bs.len() {
        (m, seq![])
    } else {
        let (m1, ids) = build_blocks(m, env, bs, n - 1);
        let (m2, id) = build_block(m1, env, bs[n - 1]);
        (m2, ids.push(id))
    }
}

/// The first `n` of some regions, added to a module.
pub open spec fn build_regions(m: ModuleV, env: Seq<Value>, rs: Seq<Seq<BlockN>>, n: int) -> (
    ModuleV,
    Seq<RegionId>,
)
    decreases rs, n,
{
    if n <= 0 || n > rs.len() {
        (m, seq![])
    } else {
        let (m1, ids) = build_regions(m, env, rs, n - 1);
        let (m2, blocks) = build_blocks(m1, env, rs[n - 1], rs[n - 1].len() as int);
        let id = RegionId(m2.regions.len() as u32);
        (ModuleV { regions: m2.regions.push(blocks), ..m2 }, ids.push(id))
    }
}

/// Building leaves the blocks that are there in their places.
pub proof fn lemma_build_op_keeps(m: ModuleV, env: Seq<Value>, op: OpN)
    ensures
        build_op(m, env, op).0.blocks.len() >= m.blocks.len(),
    decreases op, 0int,
{
    lemma_build_regions_keeps(m, env, op.regions, op.regions.len() as int);
}

/// Building leaves the blocks that are there in their places.
pub proof fn lemma_build_ops_keeps(m: ModuleV, env: Seq<Value>, ops: Seq<OpN>, n: int)
    ensures
        build_ops(m, env, ops, n).0.blocks.len() >= m.blocks.len(),
    decreases ops, n,
{
    if 0 < n <= ops.len() {
        lemma_build_ops_keeps(m, env, ops, n - 1);
        let (m1, env1, ids) = build_ops(m, env, ops, n - 1);
        lemma_build_op_keeps(m1, env1, ops[n - 1]);
    }
}

proof fn lemma_build_block_keeps(m: ModuleV, env: Seq<Value>, b: BlockN)
    ensures
        build_block(m, env, b).0.blocks.len() >= m.blocks.len(),
    decreases b, 0int,
{
    let (m1, env1, id) = open_block(m, env, b.arg_types);
    lemma_build_ops_keeps(m1, env1, b.ops, b.ops.len() as int);
}

proof fn lemma_build_blocks_keeps(m: ModuleV, env: Seq<Value>, bs: Seq<BlockN>, n: int)
    ensures
        build_blocks(m, env, bs, n).0.blocks.len() >= m.blocks.len(),
    decreases bs, n,
{
    if 0 < n <= bs.len() {
        lemma_build_blocks_keeps(m, env, bs, n - 1);
        let (m1, ids) = build_blocks(m, env, bs, n - 1);
        lemma_build_block_keeps(m1, env, bs[n - 1]);
    }
}

proof fn lemma_build_regions_keeps(m: ModuleV, env: Seq<Value>, rs: Seq<Seq<BlockN>>, n: int)
    ensures
        build_regions(m, env, rs, n).0.blocks.len() >= m.blocks.len(),
    decreases rs, n,
{
    if 0 < n <= rs.len() {
        lemma_build_regions_keeps(m, env, rs, n - 1);
        let (m1, ids) = build_regions(m, env, rs, n - 1);
        lemma_build_blocks_keeps(m1, env, rs[n - 1], rs[n - 1].len() as int);
    }
}

// ---------------------------------------------------------------------------
// Building
// ---------------------------------------------------------------------------

fn add_results(m: &mut Module, id: OpId, tys: &Vec<Type>, env: &mut Vec<Value>)
    ensures
        final(m)@ == with_results(old(m)@, id, types::types_view(tys@)),
        final(env)@ == old(env)@ + fresh(old(m)@, tys@.len()),
{
    let ghost m0 = m@;
    let ghost env0 = env@;
    let ghost tv = types::types_view(tys@);
    let mut i: usize = 0;
    assert(m@ =~= with_results(m0, id, tv.take(0)));
    assert(env@ =~= env0 + fresh(m0, 0));
    while i < tys.len()
        invariant
            i <= tys@.len(),
            tv == types::types_view(tys@),
            m@ == with_results(m0, id, tv.take(i as int)),
            env@ == env0 + fresh(m0, i as nat),
        decreases tys@.len() - i,
    {
        let v = m.alloc_value(
            tys[i].duplicate(),
            ValueProducer::OpResult { op: id, result_index: i as u32 },
        );
        env.push(v);
        i = i + 1;
        assert(m@ =~= with_results(m0, id, tv.take(i as int)));
        assert(env@ =~= env0 + fresh(m0, i as nat));
    }
    assert(tv.take(i as int) =~= tv);
}

fn add_args(m: &mut Module, id: BlockId, tys: &Vec<Type>, env: &mut Vec<Value>) -> (args: Vec<
    (Value, Type),
>)
    ensures
        final(m)@ == with_args(old(m)@, id, types::types_view(tys@)),
        final(env)@ == old(env)@ + fresh(old(m)@, tys@.len()),
        module::args_view(args@) == block_args(old(m)@, types::types_view(tys@)),
{
    let ghost m0 = m@;
    let ghost env0 = env@;
    let ghost tv = types::types_view(tys@);
    let mut args: Vec<(Value, Type)> = Vec::new();
    let mut i: usize = 0;
    assert(m@ =~= with_args(m0, id, tv.take(0)));
    assert(env@ =~= env0 + fresh(m0, 0));
    while i < tys.len()
        invariant
            i <= tys@.len(),
            args@.len() == i,
            tv == types::types_view(tys@),
            m@ == with_args(m0, id, tv.take(i as int)),
            env@ == env0 + fresh(m0, i as nat),
            module::args_view(args@) =~= block_args(m0, tv.take(i as int)),
        decreases tys@.len() - i,
    {
        let v = m.alloc_value(
            tys[i].duplicate(),
            ValueProducer::BlockArg { block: id, arg_index: i as u32 },
        );
        env.push(v);
        let ghost before = args@;
        args.push((v, tys[i].duplicate()));
        i = i + 1;
        assert(m@ =~= with_args(m0, id, tv.take(i as int)));
        assert(env@ =~= env0 + fresh(m0, i as nat));
        assert(module::args_view(args@) =~= module::args_view(before).push((v, tv[i - 1])));
    }
    assert(tv.take(i as int) =~= tv);
    args
}

/// The values that numbers stand for.
fn lookup_values(env: &Vec<Value>, s: &Vec<u64>) -> (r: Vec<Value>)
    ensures
        r@ == values_of(env@, s@),
{
    let mut out: Vec<Value> = Vec::new();
    let mut i: usize = 0;
    while i < s.len()
        invariant
            i <= s@.len(),
            out@ =~= values_of(env@, s@).take(i as int),
        decreases s@.len() - i,
    {
        let k: u64 = s[i];
        let v = if k < env.len() as u64 {
            env[k as usize]
        } else {
            Value(0)
        };
        out.push(v);
        i = i + 1;
    }
    assert(values_of(env@, s@).take(i as int) =~= values_of(env@, s@));
    out
}

/// Add an operation to a module.
pub fn add_op(m: &mut Module, env: &mut Vec<Value>, op: &OpNode) -> (id: OpId)
    ensures
        (final(m)@, final(env)@, id) == build_op(old(m)@, old(env)@, op@),
    decreases *op, 0int,
{
    let regions = add_regions(m, env, &op.regions);
    let operands = lookup_values(env, &op.operands);
    let ghost m1 = m@;
    let o = Operation {
        opcode: op.opcode,
        operands,
        result_types: duplicate_types(&op.result_types),
        attributes: duplicate_dict(&op.attributes),
        regions,
        location: op.location.duplicate(),
    };
    let id = m.alloc_op(o);
    add_results(m, id, &op.result_types, env);
    id
}

/// Add operations to a module.
pub fn add_ops(m: &mut Module, env: &mut Vec<Value>, ops: &Vec<OpNode>) -> (ids: Vec<OpId>)
    ensures
        (final(m)@, final(env)@, ids@) == build_ops(
            old(m)@,
            old(env)@,
            node::ops_view(ops@),
            ops@.len() as int,
        ),
    decreases ops@, 0int,
{
    let ghost m0 = m@;
    let ghost env0 = env@;
    let ghost ov = node::ops_view(ops@);
    let mut ids: Vec<OpId> = Vec::new();
    let mut i: usize = 0;
    while i < ops.len()
        invariant
            i <= ops@.len(),
            ov == node::ops_view(ops@),
            (m@, env@, ids@) == build_ops(m0, env0, ov, i as int),
        decreases ops@.len() - i,
    {
        assert(ov[i as int] == ops@[i as int]@);
        let id = add_op(m, env, &ops[i]);
        ids.push(id);
        i = i + 1;
    }
    ids
}

/// Add a block with its arguments: its position in the module, its id and its
/// arguments.
pub fn start_block(m: &mut Module, tys: &Vec<Type>, env: &mut Vec<Value>) -> (r: (
    usize,
    BlockId,
    Vec<(Value, Type)>,
))
    ensures
        (final(m)@, final(env)@, r.1) == open_block(
            old(m)@,
            old(env)@,
            types::types_view(tys@),
        ),
        r.0 == old(m)@.blocks.len(),
        module::args_view(r.2@) == block_args(old(m)@, types::types_view(tys@)),
{
    let at: usize = m.blocks.len();
    let empty = Block { args: Vec::new(), ops: Vec::new() };
    proof {
        assert(empty@ =~= BlockV { args: seq![], ops: seq![] });
    }
    let id = m.alloc_block(empty);
    let args = add_args(m, id, tys, env);
    (at, id, args)
}

fn add_block(m: &mut Module, env: &mut Vec<Value>, b: &BlockNode) -> (id: BlockId)
    ensures
        (final(m)@, id) == build_block(old(m)@, old(env)@, b@),
        final(env)@ == old(env)@,
    decreases *b, 0int,
{
    let ghost m0 = m@;
    let ghost env0 = env@;
    let known: usize = env.len();
    let (at, id, args) = start_block(m, &b.arg_types, env);
    let ghost m1 = m@;
    let ghost env1 = env@;
    proof {
        assert((m1, env1, id) == open_block(m0, env0, b@.arg_types));
        lemma_build_ops_keeps(m1, env1, b@.ops, b@.ops.len() as int);
    }
    let ops = add_ops(m, env, &b.ops);
    proof {
        lemma_env_grows(m1, env1, b@.ops, b@.ops.len() as int);
    }
    m.fill_block(at, Block { args, ops });
    env.truncate(known);
    assert(env@ =~= env0);
    id
}

/// Operations add values behind those that are known.
proof fn lemma_env_grows(m: ModuleV, env: Seq<Value>, ops: Seq<OpN>, n: int)
    ensures
        build_ops(m, env, ops, n).1.len() >= env.len(),
        build_ops(m, env, ops, n).1.take(env.len() as int) == env,
    decreases n,
{
    if 0 < n <= ops.len() {
        lemma_env_grows(m, env, ops, n - 1);
        let (m1, env1, ids) = build_ops(m, env, ops, n - 1);
        let env2 = build_op(m1, env1, ops[n - 1]).1;
        assert(env2.take(env.len() as int) =~= env1.take(env.len() as int));
    } else {
        assert(env.take(env.len() as int) =~= env);
    }
}

fn add_blocks(m: &mut Module, env: &mut Vec<Value>, bs: &Vec<BlockNode>) -> (ids: Vec<BlockId>)
    ensures
        (final(m)@, ids@) == build_blocks(
            old(m)@,
            old(env)@,
            node::blocks_view(bs@),
            bs@.len() as int,
        ),
        final(env)@ == old(env)@,
    decreases bs@, 0int,
{
    let ghost m0 = m@;
    let ghost env0 = env@;
    let ghost bv = node::blocks_view(bs@);
    let mut ids: Vec<BlockId> = Vec::new();
    let mut i: usize = 0;
    while i < bs.len()
        invariant
            i <= bs@.len(),
            bv == node::blocks_view(bs@),
            env@ == env0,
            (m@, ids@) == build_blocks(m0, env0, bv, i as int),
        decreases bs@.len() - i,
    {
        assert(bv[i as int] == bs@[i as int]@);
        let id = add_block(m, env, &bs[i]);
        ids.push(id);
        i = i + 1;
    }
    ids
}

fn add_regions(m: &mut Module, env: &mut Vec<Value>, rs: &Vec<RegionNode>) -> (ids: Vec<RegionId>)
    ensures
        (final(m)@, ids@) == build_regions(
            old(m)@,
            old(env)@,
            node::regions_view(rs@),
            rs@.len() as int,
        ),
        final(env)@ == old(env)@,
    decreases rs@, 0int,
{
    let ghost m0 = m@;
    let ghost env0 = env@;
    let ghost rv = node::regions_view(rs@);
    let mut ids: Vec<RegionId> = Vec::new();
    let mut i: usize = 0;
    while i < rs.len()
        invariant
            i <= rs@.len(),
            rv == node::regions_view(rs@),
            env@ == env0,
            (m@, ids@) == build_regions(m0, env0, rv, i as int),
        decreases rs@.len() - i,
    {
        assert(rv[i as int] == rs@[i as int]@);
        let blocks = add_blocks(m, env, &rs[i].blocks);
        let id = m.alloc_region(Region { blocks });
        ids.push(id);
        i = i + 1;
    }
    ids
}

} // verus!
