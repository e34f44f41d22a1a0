//! From modules to operation trees: values get their numbers.
use vstd::prelude::*;
use crate::bytecode::node::{BlockN, BlockNode, OpN, OpNode, RegionNode};
use crate::bytecode::node;
use crate::error::WriteError;
use crate::ir::attr::duplicate_dict;
use crate::ir::attr;
use crate::ir::module::{BlockId, Module, ModuleV, OpId, RegionId, Value, ValueProducer, ValueV};
use crate::ir::module;
use crate::ir::types::{duplicate_types, Type, TypeV};
use crate::ir::types;

verus! {

/// The number of a value: where it was last defined among the first `n` values.
pub open spec fn number_of(env: Seq<Value>, v: Value, n: int) -> Option<u64>
    decreases n,
{
    if n <= 0 {
        None
    } else if env[n - 1] == v {
        Some((n - 1) as u64)
    } else {
        number_of(env, v, n - 1)
    }
}

/// The numbers of the first `n` of some values; a value that is not defined is
/// an error.
pub open spec fn numbers_of(env: Seq<Value>, s: Seq<Value>, n: int) -> Result<Seq<u64>, WriteError>
    decreases n,
{
    if n <= 0 {
        Ok(seq![])
    } else {
        match numbers_of(env, s, n - 1) {
            Ok(t) => match number_of(env, s[n - 1], env.len() as int) {
                Some(k) => Ok(t.push(k)),
                None => Err(WriteError::UndefinedOperand(s[n - 1].0)),
            },
            Err(e) => Err(e),
        }
    }
}

/// Whether a value is a result of an operation.
pub open spec fn is_result(v: ValueV, op: OpId, i: u32) -> bool {
    v.producer == (ValueProducer::OpResult { op, result_index: i })
}

/// The first of the values from position `from` on that is a result of an
/// operation.
pub open spec fn find_result(vs: Seq<ValueV>, op: OpId, i: u32, from: int) -> Option<Value>
    decreases vs.len() - from,
{
    if from < 0 || from >= vs.len() {
        None
    } else if is_result(vs[from], op, i) {
        Some(Value(from as u32))
    } else {
        find_result(vs, op, i, from + 1)
    }
}

/// The values known behind the first `n` results of an operation.
pub open spec fn with_found(vs: Seq<ValueV>, env: Seq<Value>, op: OpId, n: int) -> Seq<Value>
    decreases n,
{
    if n <= 0 {
        env
    } else {
        let e = with_found(vs, env, op, n - 1);
        match find_result(vs, op, (n - 1) as u32, 0) {
            Some(v) => e.push(v),
            None => e,
        }
    }
}

/// The values of block arguments.
pub open spec fn arg_values(args: Seq<(Value, TypeV)>) -> Seq<Value> {
    Seq::new(args.len(), |i: int| args[i].0)
}

/// The types of block arguments.
pub open spec fn arg_types(args: Seq<(Value, TypeV)>) -> Seq<TypeV> {
    Seq::new(args.len(), |i: int| args[i].1)
}

/// An operation of a module as a tree, and the values known behind it. Without
/// a cycle operations nest at most as deep as there are operations.
pub open spec fn number_op(m: ModuleV, env: Seq<Value>, id: OpId, depth: nat) -> Result<
    (OpN, Seq<Value>),
    WriteError,
>
    decreases depth, 1int, 0int,
{
    if id.0 >= m.ops.len() {
        Err(WriteError::DanglingId(id.0))
    } else {
        let op = m.ops[id.0 as int];
        match numbers_of(env, op.operands, op.operands.len() as int) {
            Ok(operands) => match number_regions(m, env, op.regions, depth, op.regions.len() as int) {
                Ok(regions) => Ok(
                    (
                        OpN {
                            opcode: op.opcode,
                            operands,
                            result_types: op.result_types,
                            attributes: op.attributes,
                            regions,
                            location: op.location,
                        },
                        with_found(m.values, env, id, op.result_types.len() as int),
                    ),
                ),
                Err(e) => Err(e),
            },
            Err(e) => Err(e),
        }
    }
}

/// The first `n` of some operations as trees.
pub open spec fn number_ops(
    m: ModuleV,
    env: Seq<Value>,
    ids: Seq<OpId>,
    depth: nat,
    n: int,
) -> Result<(Seq<OpN>, Seq<Value>), WriteError>
    decreases depth, 2int, n,
{
    if n <= 0 {
        Ok((seq![], env))
    } else {
        match number_ops(m, env, ids, depth, n - 1) {
            Ok((s, env1)) => match number_op(m, env1, ids[n - 1], depth) {
                Ok((op, env2)) => Ok((s.push(op), env2)),
                Err(e) => Err(e),
            },
            Err(e) => Err(e),
        }
    }
}

/// A block as a tree.
pub open spec fn number_block(m: ModuleV, env: Seq<Value>, id: BlockId, depth: nat) -> Result<
    BlockN,
    WriteError,
>
    decreases depth, 3int, 0int,
{
    if id.0 >= m.blocks.len() {
        Err(WriteError::DanglingId(id.0))
    } else {
        let b = m.blocks[id.0 as int];
        match number_ops(m, env + arg_values(b.args), b.ops, depth, b.ops.len() as int) {
            Ok((ops, _)) => Ok(BlockN { arg_types: arg_types(b.args), ops }),
            Err(e) => Err(e),
        }
    }
}

/// The first `n` of some blocks as trees.
pub open spec fn number_blocks(
    m: ModuleV,
    env: Seq<Value>,
    ids: Seq<BlockId>,
    depth: nat,
    n: int,
) -> Result<Seq<BlockN>, WriteError>
    decreases depth, 4int, n,
{
    if n <= 0 {
        Ok(seq![])
    } else {
        match number_blocks(m, env, ids, depth, n - 1) {
            Ok(s) => match number_block(m, env, ids[n - 1], depth) {
                Ok(b) => Ok(s.push(b)),
                Err(e) => Err(e),
            },
            Err(e) => Err(e),
        }
    }
}

/// The first `n` of some regions as trees.
pub open spec fn number_regions(
    m: ModuleV,
    env: Seq<Value>,
    ids: Seq<RegionId>,
    depth: nat,
    n: int,
) -> Result<Seq<Seq<BlockN>>, WriteError>
    decreases depth, 0int, n,
{
    if n <= 0 {
        Ok(seq![])
    } else {
        match number_regions(m, env, ids, depth, n - 1) {
            Ok(s) => if depth == 0 {
                Err(WriteError::NestedInItself)
            } else if ids[n - 1].0 >= m.regions.len() {
                Err(WriteError::DanglingId(ids[n - 1].0))
            } else {
                let blocks = m.regions[ids[n - 1].0 as int];
                match number_blocks(
                    m,
                    env,
                    blocks,
                    (depth - 1) as nat,
                    blocks.len() as int,
                ) {
                    Ok(g) => Ok(s.push(g)),
                    Err(e) => Err(e),
                }
            },
            Err(e) => Err(e),
        }
    }
}

// ---------------------------------------------------------------------------
// Facts
// ---------------------------------------------------------------------------

proof fn lemma_numbers_error(env: Seq<Value>, s: Seq<Value>, k: int, n: int)
    requires
        0 <= k <= n,
        numbers_of(env, s, k) is Err,
    ensures
        numbers_of(env, s, n) == numbers_of(env, s, k),
    decreases n,
{
    if k < n {
        lemma_numbers_error(env, s, k, n - 1);
    }
}

proof fn lemma_number_ops_error(
    m: ModuleV,
    env: Seq<Value>,
    ids: Seq<OpId>,
    depth: nat,
    k: int,
    n: int,
)
    requires
        0 <= k <= n,
        number_ops(m, env, ids, depth, k) is Err,
    ensures
        number_ops(m, env, ids, depth, n) == number_ops(m, env, ids, depth, k),
    decreases n,
{
    if k < n {
        lemma_number_ops_error(m, env, ids, depth, k, n - 1);
    }
}

proof fn lemma_number_blocks_error(
    m: ModuleV,
    env: Seq<Value>,
    ids: Seq<BlockId>,
    depth: nat,
    k: int,
    n: int,
)
    requires
        0 <= k <= n,
        number_blocks(m, env, ids, depth, k) is Err,
    ensures
        number_blocks(m, env, ids, depth, n) == number_blocks(m, env, ids, depth, k),
    decreases n,
{
    if k < n {
        lemma_number_blocks_error(m, env, ids, depth, k, n - 1);
    }
}

proof fn lemma_number_regions_error(
    m: ModuleV,
    env: Seq<Value>,
    ids: Seq<RegionId>,
    depth: nat,
    k: int,
    n: int,
)
    requires
        0 <= k <= n,
        number_regions(m, env, ids, depth, k) is Err,
    ensures
        number_regions(m, env, ids, depth, n) == number_regions(m, env, ids, depth, k),
    decreases n,
{
    if k < n {
        lemma_number_regions_error(m, env, ids, depth, k, n - 1);
    }
}

// ---------------------------------------------------------------------------
// Numbering
// ---------------------------------------------------------------------------

fn find_number(env: &Vec<Value>, v: Value) -> (r: Option<u64>)
    ensures
        r == number_of(env@, v, env@.len() as int),
{
    let mut i: usize = env.len();
    while i > 0
        invariant
            i <= env@.len(),
            number_of(env@, v, env@.len() as int) == number_of(env@, v, i as int),
        decreases i,
    {
        if env[i - 1] == v {
            return Some((i - 1) as u64);
        }
        i = i - 1;
    }
    None
}

fn find_numbers(env: &Vec<Value>, s: &Vec<Value>) -> (res: Result<Vec<u64>, WriteError>)
    ensures
        match numbers_of(env@, s@, s@.len() as int) {
            Ok(t) => res is Ok && res->Ok_0@ == t,
            Err(e) => res == Err::<Vec<u64>, WriteError>(e),
        },
{
    let mut out: Vec<u64> = Vec::new();
    let mut i: usize = 0;
    while i < s.len()
        invariant
            i <= s@.len(),
            numbers_of(env@, s@, i as int) == Ok::<Seq<u64>, WriteError>(out@),
        decreases s@.len() - i,
    {
        proof {
            if numbers_of(env@, s@, i + 1) is Err {
                lemma_numbers_error(env@, s@, i + 1, s@.len() as int);
            }
        }
        match find_number(env, s[i]) {
            Some(k) => out.push(k),
            None => {
                return Err(WriteError::UndefinedOperand(s[i].0));
            },
        }
        i = i + 1;
    }
    Ok(out)
}

/// The value that is a result of an operation.
pub fn find_result_value(m: &Module, op: OpId, i: u32) -> (r: Option<Value>)
    ensures
        r == find_result(m@.values, op, i, 0),
{
    let mut k: usize = 0;
    while k < m.values.len()
        invariant
            k <= m.values@.len(),
            find_result(m@.values, op, i, 0) == find_result(m@.values, op, i, k as int),
        decreases m.values@.len() - k,
    {
        assert(m@.values[k as int] == m.values@[k as int]@);
        match m.values[k].producer {
            ValueProducer::OpResult { op: o, result_index } => {
                if o == op && result_index == i {
                    return Some(Value(k as u32));
                }
            },
            _ => {},
        }
        k = k + 1;
    }
    None
}

fn add_found(m: &Module, env: &mut Vec<Value>, op: OpId, n: usize)
    ensures
        final(env)@ == with_found(m@.values, old(env)@, op, n as int),
{
    let ghost env0 = env@;
    let mut i: usize = 0;
    while i < n
        invariant
            i <= n,
            env@ == with_found(m@.values, env0, op, i as int),
        decreases n - i,
    {
        match find_result_value(m, op, i as u32) {
            Some(v) => env.push(v),
            None => {},
        }
        i = i + 1;
    }
}

/// Behind the results of an operation the values known before are still there.
proof fn lemma_found_grows(vs: Seq<ValueV>, env: Seq<Value>, op: OpId, n: int)
    ensures
        with_found(vs, env, op, n).len() >= env.len(),
        with_found(vs, env, op, n).take(env.len() as int) == env,
    decreases n,
{
    if n > 0 {
        lemma_found_grows(vs, env, op, n - 1);
        let e = with_found(vs, env, op, n - 1);
        assert(with_found(vs, env, op, n).take(env.len() as int) =~= e.take(env.len() as int));
    } else {
        assert(env.take(env.len() as int) =~= env);
    }
}

proof fn lemma_ops_env(m: ModuleV, env: Seq<Value>, ids: Seq<OpId>, depth: nat, n: int)
    ensures
        number_ops(m, env, ids, depth, n) matches Ok((_, e)) ==> e.len() >= env.len() && e.take(
            env.len() as int,
        ) == env,
    decreases n,
{
    if n > 0 {
        lemma_ops_env(m, env, ids, depth, n - 1);
        match number_ops(m, env, ids, depth, n - 1) {
            Ok((s, e1)) => match number_op(m, e1, ids[n - 1], depth) {
                Ok((op, e2)) => {
                    let id = ids[n - 1];
                    let k = m.ops[id.0 as int].result_types.len() as int;
                    lemma_found_grows(m.values, e1, id, k);
                    assert(e2.take(env.len() as int) =~= e1.take(env.len() as int));
                },
                Err(_) => {},
            },
            Err(_) => {},
        }
    } else {
        assert(env.take(env.len() as int) =~= env);
    }
}

/// An operation of a module as a tree.
pub fn number_operation(m: &Module, env: &mut Vec<Value>, id: OpId, depth: usize) -> (res: Result<
    OpNode,
    WriteError,
>)
    ensures
        match number_op(m@, old(env)@, id, depth as nat) {
            Ok((op, env2)) => res is Ok && res->Ok_0@ == op && final(env)@ == env2,
            Err(e) => res == Err::<OpNode, WriteError>(e),
        },
    decreases depth, 1int,
{
    let op = match m.op(id) {
        Some(op) => op,
        None => {
            return Err(WriteError::DanglingId(id.0));
        },
    };
    let operands = find_numbers(env, &op.operands)?;
    let regions = number_region_list(m, env, &op.regions, depth)?;
    add_found(m, env, id, op.result_types.len());
    Ok(
        OpNode {
            opcode: op.opcode,
            operands,
            result_types: duplicate_types(&op.result_types),
            attributes: duplicate_dict(&op.attributes),
            regions,
            location: op.location.duplicate(),
        },
    )
}

/// Operations of a module as trees.
pub fn number_operations(m: &Module, env: &mut Vec<Value>, ids: &Vec<OpId>, depth: usize) -> (res:
    Result<Vec<OpNode>, WriteError>)
    ensures
        match number_ops(m@, old(env)@, ids@, depth as nat, ids@.len() as int) {
            Ok((ops, env2)) => {
                &&& res is Ok
                &&& node::ops_view(res->Ok_0@) == ops
                &&& final(env)@ == env2
            },
            Err(e) => res == Err::<Vec<OpNode>, WriteError>(e),
        },
    decreases depth, 2int,
{
    let ghost mv = m@;
    let ghost env0 = env@;
    let ghost dep = depth as nat;
    let mut out: Vec<OpNode> = Vec::new();
    let mut i: usize = 0;
    assert(node::ops_view(out@) =~= seq![]);
    while i < ids.len()
        invariant
            i <= ids@.len(),
            mv == m@,
            dep == depth as nat,
            env0 == old(env)@,
            number_ops(mv, env0, ids@, dep, i as int) == Ok::<
                (Seq<OpN>, Seq<Value>),
                WriteError,
            >((node::ops_view(out@), env@)),
        decreases ids@.len() - i,
    {
        proof {
            if number_ops(mv, env0, ids@, dep, i + 1) is Err {
                lemma_number_ops_error(mv, env0, ids@, dep, i + 1, ids@.len() as int);
            }
        }
        let op = number_operation(m, env, ids[i], depth)?;
        proof {
            node::lemma_ops_view_push(out@, op);
        }
        out.push(op);
        i = i + 1;
    }
    Ok(out)
}

fn number_one_block(m: &Module, env: &mut Vec<Value>, id: BlockId, depth: usize) -> (res: Result<
    BlockNode,
    WriteError,
>)
    ensures
        match number_block(m@, old(env)@, id, depth as nat) {
            Ok(b) => res is Ok && res->Ok_0@ == b && final(env)@ == old(env)@,
            Err(e) => res == Err::<BlockNode, WriteError>(e),
        },
    decreases depth, 3int,
{
    let b = match m.block(id) {
        Some(b) => b,
        None => {
            return Err(WriteError::DanglingId(id.0));
        },
    };
    let ghost env0 = env@;
    let known: usize = env.len();
    let arg_types = start_args(env, &b.args);
    let ghost env1 = env@;
    proof {
        lemma_ops_env(m@, env1, b@.ops, depth as nat, b@.ops.len() as int);
    }
    let ops = number_operations(m, env, &b.ops, depth)?;
    proof {
        let e = env@;
        assert(e.take(known as int) =~= e.take(env1.len() as int).take(known as int));
        assert(env1.take(known as int) =~= env0);
    }
    env.truncate(known);
    assert(env@ =~= env0);
    Ok(BlockNode { arg_types, ops })
}

/// Make the arguments of a block known; their types come out.
pub fn start_args(env: &mut Vec<Value>, args: &Vec<(Value, Type)>) -> (r: Vec<Type>)
    ensures
        final(env)@ == old(env)@ + arg_values(module::args_view(args@)),
        types::types_view(r@) == arg_types(module::args_view(args@)),
{
    let ghost env0 = env@;
    let ghost av = module::args_view(args@);
    let mut out: Vec<Type> = Vec::new();
    let mut i: usize = 0;
    assert(types::types_view(out@) =~= arg_types(av).take(0));
    assert(env@ =~= env0 + arg_values(av).take(0));
    while i < args.len()
        invariant
            i <= args@.len(),
            av == module::args_view(args@),
            env@ == env0 + arg_values(av).take(i as int),
            types::types_view(out@) == arg_types(av).take(i as int),
        decreases args@.len() - i,
    {
        env.push(args[i].0);
        let t = args[i].1.duplicate();
        proof {
            attr::lemma_types_view_push(out@, t);
        }
        out.push(t);
        assert(env@ =~= env0 + arg_values(av).take(i + 1));
        assert(types::types_view(out@) =~= arg_types(av).take(i + 1));
        i = i + 1;
    }
    assert(arg_values(av).take(i as int) =~= arg_values(av));
    assert(arg_types(av).take(i as int) =~= arg_types(av));
    out
}

fn number_block_list(m: &Module, env: &mut Vec<Value>, ids: &Vec<BlockId>, depth: usize) -> (res:
    Result<Vec<BlockNode>, WriteError>)
    ensures
        match number_blocks(m@, old(env)@, ids@, depth as nat, ids@.len() as int) {
            Ok(bs) => {
                &&& res is Ok
                &&& node::blocks_view(res->Ok_0@) == bs
                &&& final(env)@ == old(env)@
            },
            Err(e) => res == Err::<Vec<BlockNode>, WriteError>(e),
        },
    decreases depth, 4int,
{
    let ghost mv = m@;
    let ghost env0 = env@;
    let ghost dep = depth as nat;
    let mut out: Vec<BlockNode> = Vec::new();
    let mut i: usize = 0;
    assert(node::blocks_view(out@) =~= seq![]);
    while i < ids.len()
        invariant
            i <= ids@.len(),
            mv == m@,
            dep == depth as nat,
            env0 == old(env)@,
            env@ == env0,
            number_blocks(mv, env0, ids@, dep, i as int) == Ok::<Seq<BlockN>, WriteError>(
                node::blocks_view(out@),
            ),
        decreases ids@.len() - i,
    {
        proof {
            if number_blocks(mv, env0, ids@, dep, i + 1) is Err {
                lemma_number_blocks_error(mv, env0, ids@, dep, i + 1, ids@.len() as int);
            }
        }
        let b = number_one_block(m, env, ids[i], depth)?;
        proof {
            node::lemma_blocks_view_push(out@, b);
        }
        out.push(b);
        i = i + 1;
    }
    Ok(out)
}

fn number_region_list(m: &Module, env: &mut Vec<Value>, ids: &Vec<RegionId>, depth: usize) -> (res:
    Result<Vec<RegionNode>, WriteError>)
    ensures
        match number_regions(m@, old(env)@, ids@, depth as nat, ids@.len() as int) {
            Ok(rs) => {
                &&& res is Ok
                &&& node::regions_view(res->Ok_0@) == rs
                &&& final(env)@ == old(env)@
            },
            Err(e) => res == Err::<Vec<RegionNode>, WriteError>(e),
        },
    decreases depth, 0int,
{
    let ghost mv = m@;
    let ghost env0 = env@;
    let ghost dep = depth as nat;
    let mut out: Vec<RegionNode> = Vec::new();
    let mut i: usize = 0;
    assert(node::regions_view(out@) =~= seq![]);
    while i < ids.len()
        invariant
            i <= ids@.len(),
            mv == m@,
            dep == depth as nat,
            env0 == old(env)@,
            env@ == env0,
            number_regions(mv, env0, ids@, dep, i as int) == Ok::<Seq<Seq<BlockN>>, WriteError>(
                node::regions_view(out@),
            ),
        decreases ids@.len() - i,
    {
        proof {
            if number_regions(mv, env0, ids@, dep, i + 1) is Err {
                lemma_number_regions_error(mv, env0, ids@, dep, i + 1, ids@.len() as int);
            }
        }
        if depth == 0 {
            return Err(WriteError::NestedInItself);
        }
        let g = match m.region(ids[i]) {
            Some(g) => g,
            None => {
                return Err(WriteError::DanglingId(ids[i].0));
            },
        };
        let blocks = number_block_list(m, env, &g.blocks, depth - 1)?;
        let r = RegionNode { blocks };
        proof {
            node::lemma_regions_view_push(out@, r);
        }
        out.push(r);
        i = i + 1;
    }
    Ok(out)
}

} // verus!
