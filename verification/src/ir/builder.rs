//! Building operations into modules.
use vstd::prelude::*;
use crate::bytecode::assemble;
use crate::bytecode::opcode::Opcode;
use crate::ir::attr::Attribute;
use crate::ir::attr;
use crate::ir::location::Location;
use crate::ir::module::{
    Block,
    BlockId,
    BlockV,
    Module,
    ModuleV,
    OpId,
    Operation,
    OperationV,
    Region,
    RegionId,
    Value,
    ValueProducer,
};
use crate::ir::module as arena;
use crate::ir::types::{duplicate_types, Type, TypeV};
use crate::ir::types;

verus! {

/// The module with an operation and its results.
pub open spec fn with_op(m: ModuleV, op: OperationV) -> ModuleV {
    assemble::with_results(
        ModuleV { ops: m.ops.push(op), ..m },
        OpId(m.ops.len() as u32),
        op.result_types,
    )
}

/// The module with an operation at the end of a block.
pub open spec fn with_appended(m: ModuleV, block: BlockId, op: OpId) -> ModuleV {
    let b = m.blocks[block.0 as int];
    ModuleV {
        blocks: m.blocks.update(
            block.0 as int,
            BlockV { args: b.args, ops: b.ops.push(op) },
        ),
        ..m
    }
}

/// An operation in the making.
pub struct OpBuilder {
    pub op: Operation,
}

impl View for OpBuilder {
    type V = OperationV;

    open spec fn view(&self) -> OperationV {
        self.op@
    }
}

impl OpBuilder {
    /// An operation without operands, results, attributes or regions.
    pub fn new(opcode: Opcode, location: Location) -> (b: OpBuilder)
        ensures
            b@ == (OperationV {
                opcode,
                operands: seq![],
                result_types: seq![],
                attributes: seq![],
                regions: seq![],
                location: location@,
            }),
    {
        let b = OpBuilder {
            op: Operation {
                opcode,
                operands: Vec::new(),
                result_types: Vec::new(),
                attributes: Vec::new(),
                regions: Vec::new(),
                location,
            },
        };
        assert(types::types_view(b.op.result_types@) =~= seq![]);
        assert(attr::dict_view(b.op.attributes@) =~= seq![]);
        b
    }

    /// One more result.
    pub fn result(self, ty: Type) -> (b: OpBuilder)
        ensures
            b@ == (OperationV { result_types: self@.result_types.push(ty@), ..self@ }),
    {
        let mut op = self.op;
        proof {
            attr::lemma_types_view_push(op.result_types@, ty);
        }
        op.result_types.push(ty);
        OpBuilder { op }
    }

    /// One more operand.
    pub fn operand(self, v: Value) -> (b: OpBuilder)
        ensures
            b@ == (OperationV { operands: self@.operands.push(v), ..self@ }),
    {
        let mut op = self.op;
        op.operands.push(v);
        OpBuilder { op }
    }

    /// One more attribute.
    pub fn attr(self, name: &str, value: Attribute) -> (b: OpBuilder)
        ensures
            b@ == (OperationV { attributes: self@.attributes.push((name@, value@)), ..self@ }),
    {
        let mut op = self.op;
        let entry: (String, Attribute) = (name.to_owned(), value);
        proof {
            attr::lemma_dict_view_push(op.attributes@, entry);
        }
        op.attributes.push(entry);
        OpBuilder { op }
    }

    /// One more region.
    pub fn region(self, id: RegionId) -> (b: OpBuilder)
        ensures
            b@ == (OperationV { regions: self@.regions.push(id), ..self@ }),
    {
        let mut op = self.op;
        op.regions.push(id);
        OpBuilder { op }
    }

    /// Add the operation and its results to a module.
    pub fn build(self, module: &mut Module) -> (r: (OpId, Vec<Value>))
        ensures
            r.0 == OpId(old(module)@.ops.len() as u32),
            r.1@ == assemble::fresh(old(module)@, self@.result_types.len()),
            final(module)@ == with_op(old(module)@, self@),
    {
        let ghost m0 = module@;
        let tys = duplicate_types(&self.op.result_types);
        let id = module.alloc_op(self.op);
        let ghost m1 = module@;
        let ghost tv = types::types_view(tys@);
        let mut out: Vec<Value> = Vec::new();
        let mut i: usize = 0;
        proof {
            assert(tv.take(0) =~= seq![]);
            assert(assemble::with_results(m1, id, tv.take(0)).values =~= m1.values);
            assert(out@ =~= assemble::fresh(m1, 0));
        }
        while i < tys.len()
            invariant
                i <= tys@.len(),
                tv == types::types_view(tys@),
                module@ == assemble::with_results(m1, id, tv.take(i as int)),
                out@ == assemble::fresh(m1, i as nat),
            decreases tys@.len() - i,
        {
            let ghost before = module@;
            let v = module.alloc_value(
                tys[i].duplicate(),
                ValueProducer::OpResult { op: id, result_index: i as u32 },
            );
            out.push(v);
            proof {
                let t = tv.take(i + 1);
                assert(assemble::with_results(m1, id, t).values =~= before.values.push(
                    module@.values.last(),
                ));
                assert(module@ =~= assemble::with_results(m1, id, t));
                assert(out@ =~= assemble::fresh(m1, (i + 1) as nat));
            }
            i = i + 1;
        }
        proof {
            assert(tv.take(i as int) =~= tv);
            assert(assemble::fresh(m1, tv.len()) =~= assemble::fresh(m0, tv.len()));
        }
        (id, out)
    }
}

/// Put an operation at the end of a block.
pub fn append_op(module: &mut Module, block: BlockId, op: OpId)
    requires
        block.0 < old(module)@.blocks.len(),
    ensures
        final(module)@ == with_appended(old(module)@, block, op),
{
    let ghost m0 = module@;
    let i: usize = block.0 as usize;
    let mut b = Block { args: Vec::new(), ops: Vec::new() };
    let ghost b0 = module.blocks@[i as int];
    std::mem::swap(&mut b, &mut module.blocks[i]);
    b.ops.push(op);
    module.blocks.set(i, b);
    assert(module@ =~= with_appended(m0, block, op));
}

/// The module with a region of one block that has these arguments and no
/// operations yet.
pub open spec fn with_region(m: ModuleV, tys: Seq<TypeV>) -> ModuleV {
    let id = BlockId(m.blocks.len() as u32);
    let m1 = assemble::with_args(m, id, tys);
    ModuleV {
        blocks: m1.blocks.push(
            BlockV { args: assemble::block_args(m, tys), ops: seq![] },
        ),
        regions: m1.regions.push(seq![id]),
        ..m1
    }
}

/// Add a region of one block with the given arguments.
pub fn build_single_block_region(module: &mut Module, arg_types: &Vec<Type>) -> (r: (
    RegionId,
    BlockId,
    Vec<Value>,
))
    ensures
        r.0 == RegionId(old(module)@.regions.len() as u32),
        r.1 == BlockId(old(module)@.blocks.len() as u32),
        r.2@ == assemble::fresh(old(module)@, arg_types@.len()),
        final(module)@ == with_region(old(module)@, types::types_view(arg_types@)),
{
    let ghost m0 = module@;
    let ghost tv = types::types_view(arg_types@);
    let id = BlockId(module.blocks.len() as u32);
    let mut values: Vec<Value> = Vec::new();
    let mut args: Vec<(Value, Type)> = Vec::new();
    let mut i: usize = 0;
    proof {
        assert(assemble::with_args(m0, id, tv.take(0)).values =~= m0.values);
        assert(values@ =~= assemble::fresh(m0, 0));
        assert(arena::args_view(args@) =~= assemble::block_args(m0, tv.take(0)));
    }
    while i < arg_types.len()
        invariant
            i <= arg_types@.len(),
            tv == types::types_view(arg_types@),
            module@ == assemble::with_args(m0, id, tv.take(i as int)),
            values@ == assemble::fresh(m0, i as nat),
            arena::args_view(args@) == assemble::block_args(m0, tv.take(i as int)),
        decreases arg_types@.len() - i,
    {
        let ghost before = module@;
        let v = module.alloc_value(
            arg_types[i].duplicate(),
            ValueProducer::BlockArg { block: id, arg_index: i as u32 },
        );
        let ghost known = args@;
        values.push(v);
        args.push((v, arg_types[i].duplicate()));
        proof {
            let t = tv.take(i + 1);
            assert(assemble::with_args(m0, id, t).values =~= before.values.push(
                module@.values.last(),
            ));
            assert(module@ =~= assemble::with_args(m0, id, t));
            assert(values@ =~= assemble::fresh(m0, (i + 1) as nat));
            let av = arena::args_view(args@);
            let bv = assemble::block_args(m0, t);
            assert(arena::args_view(known).len() == i);
            assert(before.values.len() == m0.values.len() + i);
            assert(t[i as int] == tv[i as int]);
            assert(tv[i as int] == arg_types@[i as int]@);
            assert(bv[i as int] == (v, t[i as int]));
            assert forall|j: int| 0 <= j < t.len() implies av[j] == bv[j] by {
                if j < i {
                    assert(arena::args_view(known)[j] == assemble::block_args(
                        m0,
                        tv.take(i as int),
                    )[j]);
                }
            }
            assert(av =~= bv);
        }
        i = i + 1;
    }
    assert(tv.take(i as int) =~= tv);
    let block = module.alloc_block(Block { args, ops: Vec::new() });
    let mut blocks: Vec<BlockId> = Vec::new();
    blocks.push(block);
    let region = module.alloc_region(Region { blocks });
    assert(module@ =~= with_region(m0, tv));
    (region, block, values)
}

} // verus!
