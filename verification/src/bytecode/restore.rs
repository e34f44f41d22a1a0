//! Operation trees that were built into a module are found in it again.
use vstd::prelude::*;
use crate::bytecode::assemble;
use crate::bytecode::body_roundtrip;
use crate::bytecode::node::{BlockN, OpN};
use crate::bytecode::number;
use crate::bytecode::opcode::Opcode;
use crate::bytecode::prescan;
use crate::bytecode::reader::{FileN, FuncN};
use crate::bytecode::reader;
use crate::error::WriteError;
use crate::ir::module::{
    BlockId,
    BlockV,
    ModuleV,
    OpId,
    OperationV,
    RegionId,
    Value,
    ValueProducer,
    ValueV,
};
use crate::ir::module;
use crate::ir::types::TypeV;

verus! {

// ---------------------------------------------------------------------------
// Growth
// ---------------------------------------------------------------------------

/// `s` is how `u` starts.
pub open spec fn starts<T>(s: Seq<T>, u: Seq<T>) -> bool {
    s.len() <= u.len() && u.take(s.len() as int) == s
}

proof fn lemma_starts<T>(a: Seq<T>, b: Seq<T>, c: Seq<T>)
    ensures
        starts(a, a),
        starts(a, b) && starts(b, c) ==> starts(a, c),
{
    assert(a.take(a.len() as int) =~= a);
    if starts(a, b) && starts(b, c) {
        assert(c.take(a.len() as int) =~= b.take(a.len() as int));
    }
}

proof fn lemma_starts_add<T>(a: Seq<T>, b: Seq<T>)
    ensures
        starts(a, a + b),
{
    assert((a + b).take(a.len() as int) =~= a);
}

proof fn lemma_starts_push<T>(a: Seq<T>, x: T)
    ensures
        starts(a, a.push(x)),
{
    assert(a.push(x).take(a.len() as int) =~= a);
}

proof fn lemma_starts_at<T>(a: Seq<T>, b: Seq<T>, i: int)
    requires
        starts(a, b),
        0 <= i < a.len(),
    ensures
        b[i] == a[i],
{
    assert(b.take(a.len() as int)[i] == b[i]);
}

/// A module has grown: what is there stays in its place.
#[verifier::opaque]
pub open spec fn grown(a: ModuleV, b: ModuleV) -> bool {
    &&& starts(a.ops, b.ops)
    &&& starts(a.blocks, b.blocks)
    &&& starts(a.regions, b.regions)
    &&& starts(a.values, b.values)
}

proof fn lemma_grown(a: ModuleV, b: ModuleV, c: ModuleV)
    ensures
        grown(a, a),
        grown(a, b) && grown(b, c) ==> grown(a, c),
{
    reveal(grown);
    lemma_starts(a.ops, b.ops, c.ops);
    lemma_starts(a.blocks, b.blocks, c.blocks);
    lemma_starts(a.regions, b.regions, c.regions);
    lemma_starts(a.values, b.values, c.values);
}

/// An operation and its results only add to what its regions left.
proof fn lemma_results_grown(m: ModuleV, env: Seq<Value>, op: OpN)
    ensures
        grown(
            assemble::build_regions(m, env, op.regions, op.regions.len() as int).0,
            assemble::build_op(m, env, op).0,
        ),
{
    let (m1, regions) = assemble::build_regions(m, env, op.regions, op.regions.len() as int);
    let (m3, env2, id) = assemble::build_op(m, env, op);
    reveal(grown);
    lemma_starts(m1.blocks, m1.blocks, m1.blocks);
    lemma_starts(m1.regions, m1.regions, m1.regions);
    lemma_starts_push(m1.ops, m3.ops.last());
    assert(m3.ops =~= m1.ops.push(m3.ops.last()));
    let new = Seq::new(
        op.result_types.len(),
        |i: int|
            ValueV {
                ty: op.result_types[i],
                producer: ValueProducer::OpResult { op: id, result_index: i as u32 },
            },
    );
    lemma_starts_add(m1.values, new);
    assert(m3.values =~= m1.values + new);
}

/// Building an operation only adds to a module; its results are new values.
pub proof fn lemma_op_grown(m: ModuleV, env: Seq<Value>, op: OpN)
    ensures
        grown(m, assemble::build_op(m, env, op).0),
        assemble::build_op(m, env, op).0.ops.len() > m.ops.len(),
        starts(env, assemble::build_op(m, env, op).1),
        assemble::build_op(m, env, op).1.len() == env.len() + op.result_types.len(),
    decreases op, 0int,
{
    lemma_regions_grown(m, env, op.regions, op.regions.len() as int);
    let (m1, regions) = assemble::build_regions(m, env, op.regions, op.regions.len() as int);
    let (m3, env2, id) = assemble::build_op(m, env, op);
    lemma_results_grown(m, env, op);
    assert(m1.ops.len() >= m.ops.len()) by {
        reveal(grown);
    }
    lemma_grown(m, m1, m3);
    lemma_starts_add(env, assemble::fresh(m1, op.result_types.len()));
    assert(env2 =~= env + assemble::fresh(m1, op.result_types.len()));
}

pub proof fn lemma_ops_grown(m: ModuleV, env: Seq<Value>, ops: Seq<OpN>, n: int)
    ensures
        grown(m, assemble::build_ops(m, env, ops, n).0),
        starts(env, assemble::build_ops(m, env, ops, n).1),
    decreases ops, n,
{
    lemma_grown(m, m, m);
    lemma_starts(env, env, env);
    if 0 < n <= ops.len() {
        lemma_ops_grown(m, env, ops, n - 1);
        let (m1, env1, ids) = assemble::build_ops(m, env, ops, n - 1);
        lemma_op_grown(m1, env1, ops[n - 1]);
        let (m2, env2, id) = assemble::build_op(m1, env1, ops[n - 1]);
        lemma_grown(m, m1, m2);
        lemma_starts(env, env1, env2);
    }
}

proof fn lemma_open_grown(m: ModuleV, env: Seq<Value>, tys: Seq<TypeV>)
    ensures
        grown(m, assemble::open_block(m, env, tys).0),
        starts(env, assemble::open_block(m, env, tys).1),
        assemble::open_block(m, env, tys).1.len() == env.len() + tys.len(),
        assemble::open_block(m, env, tys).0.blocks.len() == m.blocks.len() + 1,
        assemble::open_block(m, env, tys).0.ops == m.ops,
{
    reveal(grown);
    let (m1, env1, id) = assemble::open_block(m, env, tys);
    lemma_starts(m.ops, m.ops, m.ops);
    lemma_starts(m.regions, m.regions, m.regions);
    lemma_starts_push(m.blocks, BlockV { args: seq![], ops: seq![] });
    let new = Seq::new(
        tys.len(),
        |i: int|
            ValueV {
                ty: tys[i],
                producer: ValueProducer::BlockArg { block: id, arg_index: i as u32 },
            },
    );
    lemma_starts_add(m.values, new);
    assert(m1.values =~= m.values + new);
    lemma_starts_add(env, assemble::fresh(m, tys.len()));
    assert(env1 =~= env + assemble::fresh(m, tys.len()));
}

/// Filling in a block that was added leaves what was there before it.
proof fn lemma_filled(m: ModuleV, m1: ModuleV, m2: ModuleV, b: BlockV)
    requires
        grown(m, m1),
        grown(m1, m2),
        m1.blocks.len() > m.blocks.len(),
    ensures
        grown(m, (ModuleV { blocks: m2.blocks.update(m.blocks.len() as int, b), ..m2 })),
{
    lemma_grown(m, m1, m2);
    reveal(grown);
    let u = m2.blocks.update(m.blocks.len() as int, b);
    assert(u.take(m.blocks.len() as int) =~= m2.blocks.take(m.blocks.len() as int));
}

pub proof fn lemma_block_grown(m: ModuleV, env: Seq<Value>, b: BlockN)
    ensures
        grown(m, assemble::build_block(m, env, b).0),
        assemble::build_block(m, env, b).0.blocks.len() > m.blocks.len(),
    decreases b, 0int,
{
    let (m1, env1, id) = assemble::open_block(m, env, b.arg_types);
    lemma_open_grown(m, env, b.arg_types);
    lemma_ops_grown(m1, env1, b.ops, b.ops.len() as int);
    let (m2, _, ids) = assemble::build_ops(m1, env1, b.ops, b.ops.len() as int);
    lemma_filled(
        m,
        m1,
        m2,
        BlockV { args: assemble::block_args(m, b.arg_types), ops: ids },
    );
    assert(m2.blocks.len() >= m1.blocks.len()) by {
        reveal(grown);
    }
}

proof fn lemma_blocks_grown(m: ModuleV, env: Seq<Value>, bs: Seq<BlockN>, n: int)
    ensures
        grown(m, assemble::build_blocks(m, env, bs, n).0),
    decreases bs, n,
{
    lemma_grown(m, m, m);
    if 0 < n <= bs.len() {
        lemma_blocks_grown(m, env, bs, n - 1);
        let (m1, ids) = assemble::build_blocks(m, env, bs, n - 1);
        lemma_block_grown(m1, env, bs[n - 1]);
        lemma_grown(m, m1, assemble::build_block(m1, env, bs[n - 1]).0);
    }
}

proof fn lemma_regions_grown(m: ModuleV, env: Seq<Value>, rs: Seq<Seq<BlockN>>, n: int)
    ensures
        grown(m, assemble::build_regions(m, env, rs, n).0),
    decreases rs, n,
{
    lemma_grown(m, m, m);
    if 0 < n <= rs.len() {
        lemma_regions_grown(m, env, rs, n - 1);
        let (m1, ids) = assemble::build_regions(m, env, rs, n - 1);
        lemma_blocks_grown(m1, env, rs[n - 1], rs[n - 1].len() as int);
        let (m2, blocks) = assemble::build_blocks(m1, env, rs[n - 1], rs[n - 1].len() as int);
        lemma_grown(m, m1, m2);
        let m3 = ModuleV { regions: m2.regions.push(blocks), ..m2 };
        assert(grown(m2, m3)) by {
            reveal(grown);
            lemma_starts(m2.ops, m2.ops, m2.ops);
            lemma_starts(m2.blocks, m2.blocks, m2.blocks);
            lemma_starts(m2.values, m2.values, m2.values);
            lemma_starts_push(m2.regions, blocks);
        }
        lemma_grown(m, m2, m3);
    }
}

// ---------------------------------------------------------------------------
// Ids
// ---------------------------------------------------------------------------

/// Every id fits in 32 bits.
pub open spec fn small(m: ModuleV) -> bool {
    &&& m.ops.len() <= u32::MAX
    &&& m.blocks.len() <= u32::MAX
    &&& m.regions.len() <= u32::MAX
    &&& m.values.len() <= u32::MAX
}

proof fn lemma_small(a: ModuleV, b: ModuleV)
    requires
        grown(a, b),
        small(b),
    ensures
        small(a),
{
    reveal(grown);
}

/// Results belong to operations that are there.
#[verifier::opaque]
pub open spec fn sound(m: ModuleV) -> bool {
    forall|i: int|
        0 <= i < m.values.len() ==> ((#[trigger] m.values[i]).producer matches ValueProducer::OpResult {
            op,
            ..
        } ==> op.0 < m.ops.len())
}

/// Values that are there, none twice.
#[verifier::opaque]
pub open spec fn known(env: Seq<Value>, m: ModuleV) -> bool {
    &&& env.len() <= m.values.len()
    &&& forall|i: int| 0 <= i < env.len() ==> (#[trigger] env[i]).0 < m.values.len()
    &&& forall|i: int, j: int| 0 <= i < j < env.len() ==> #[trigger] env[i] != #[trigger] env[j]
}

proof fn lemma_known_grown(env: Seq<Value>, a: ModuleV, b: ModuleV)
    requires
        known(env, a),
        grown(a, b),
    ensures
        known(env, b),
{
    reveal(known);
    reveal(grown);
    assert forall|i: int| 0 <= i < env.len() implies (#[trigger] env[i]).0 < b.values.len() by {
        assert(env[i].0 < a.values.len());
    }
}

/// New values are known.
proof fn lemma_known_fresh(env: Seq<Value>, m: ModuleV, n: nat, b: ModuleV)
    requires
        known(env, m),
        b.values.len() == m.values.len() + n,
        b.values.len() <= u32::MAX,
    ensures
        known(env + assemble::fresh(m, n), b),
{
    reveal(known);
    let e = env + assemble::fresh(m, n);
    assert forall|i: int| 0 <= i < e.len() implies (#[trigger] e[i]).0 < b.values.len() by {
        if i < env.len() {
            assert(env[i].0 < m.values.len());
        }
    }
    assert forall|i: int, j: int| 0 <= i < j < e.len() implies #[trigger] e[i] != #[trigger] e[j] by {
        if j < env.len() {
            assert(env[i] != env[j]);
        } else if i < env.len() {
            assert(env[i].0 < m.values.len());
            assert(e[i] == env[i]);
            assert(e[j] == Value((m.values.len() + (j - env.len())) as u32));
        }
    }
}

proof fn lemma_sound_results(m: ModuleV, op: OperationV, id: OpId)
    requires
        sound(m),
        id.0 == m.ops.len(),
    ensures
        sound(
            assemble::with_results(
                ModuleV { ops: m.ops.push(op), ..m },
                id,
                op.result_types,
            ),
        ),
{
    reveal(sound);
    let b = assemble::with_results(
        ModuleV { ops: m.ops.push(op), ..m },
        id,
        op.result_types,
    );
    assert forall|i: int| 0 <= i < b.values.len() implies ((
    #[trigger] b.values[i]).producer matches ValueProducer::OpResult { op, .. } ==> op.0
        < b.ops.len()) by {
        if i < m.values.len() {
            assert(b.values[i] == m.values[i]);
        }
    }
}

proof fn lemma_sound_args(m: ModuleV, env: Seq<Value>, tys: Seq<TypeV>)
    requires
        sound(m),
    ensures
        sound(assemble::open_block(m, env, tys).0),
{
    reveal(sound);
    let b = assemble::open_block(m, env, tys).0;
    assert forall|i: int| 0 <= i < b.values.len() implies ((
    #[trigger] b.values[i]).producer matches ValueProducer::OpResult { op, .. } ==> op.0
        < b.ops.len()) by {
        if i < m.values.len() {
            assert(b.values[i] == m.values[i]);
        }
    }
}

proof fn lemma_sound_same(a: ModuleV, b: ModuleV)
    requires
        sound(a),
        a.values == b.values,
        a.ops == b.ops,
    ensures
        sound(b),
{
    reveal(sound);
}

/// Building an operation keeps ids sound.
pub proof fn lemma_op_sound(m: ModuleV, env: Seq<Value>, op: OpN)
    requires
        sound(m),
        known(env, m),
        small(assemble::build_op(m, env, op).0),
    ensures
        sound(assemble::build_op(m, env, op).0),
        known(assemble::build_op(m, env, op).1, assemble::build_op(m, env, op).0),
    decreases op, 0int,
{
    let (m1, regions) = assemble::build_regions(m, env, op.regions, op.regions.len() as int);
    let (m3, env2, id) = assemble::build_op(m, env, op);
    lemma_regions_grown(m, env, op.regions, op.regions.len() as int);
    assert(small(m1)) by {
        assert(m3.ops.len() == m1.ops.len() + 1);
        assert(m3.values.len() == m1.values.len() + op.result_types.len());
        assert(m3.blocks == m1.blocks && m3.regions == m1.regions);
    }
    lemma_regions_sound(m, env, op.regions, op.regions.len() as int);
    lemma_known_grown(env, m, m1);
    lemma_known_fresh(env, m1, op.result_types.len(), m3);
    lemma_sound_results(m1, m3.ops.last(), id);
    assert(m3.ops =~= m1.ops.push(m3.ops.last()));
    assert(env2 =~= env + assemble::fresh(m1, op.result_types.len()));
}

pub proof fn lemma_ops_sound(m: ModuleV, env: Seq<Value>, ops: Seq<OpN>, n: int)
    requires
        sound(m),
        known(env, m),
        small(assemble::build_ops(m, env, ops, n).0),
    ensures
        sound(assemble::build_ops(m, env, ops, n).0),
        known(assemble::build_ops(m, env, ops, n).1, assemble::build_ops(m, env, ops, n).0),
    decreases ops, n,
{
    if 0 < n <= ops.len() {
        let (m1, env1, ids) = assemble::build_ops(m, env, ops, n - 1);
        lemma_op_grown(m1, env1, ops[n - 1]);
        lemma_small(m1, assemble::build_op(m1, env1, ops[n - 1]).0);
        lemma_ops_sound(m, env, ops, n - 1);
        lemma_op_sound(m1, env1, ops[n - 1]);
    }
}

/// The values known inside a block are known.
proof fn lemma_open_known(m: ModuleV, env: Seq<Value>, tys: Seq<TypeV>)
    requires
        known(env, m),
        small(assemble::open_block(m, env, tys).0),
    ensures
        known(assemble::open_block(m, env, tys).1, assemble::open_block(m, env, tys).0),
{
    let (m1, env1, id) = assemble::open_block(m, env, tys);
    lemma_known_fresh(env, m, tys.len(), m1);
    assert(env1 =~= env + assemble::fresh(m, tys.len()));
}

pub proof fn lemma_block_sound(m: ModuleV, env: Seq<Value>, b: BlockN)
    requires
        sound(m),
        known(env, m),
        small(assemble::build_block(m, env, b).0),
    ensures
        sound(assemble::build_block(m, env, b).0),
    decreases b, 0int,
{
    let (m1, env1, id) = assemble::open_block(m, env, b.arg_types);
    let (m2, env2, ids) = assemble::build_ops(m1, env1, b.ops, b.ops.len() as int);
    lemma_open_grown(m, env, b.arg_types);
    lemma_ops_grown(m1, env1, b.ops, b.ops.len() as int);
    assert(small(m2)) by {
        reveal(grown);
        let m3 = assemble::build_block(m, env, b).0;
        assert(m3.blocks.len() == m2.blocks.len());
    }
    lemma_small(m1, m2);
    lemma_sound_args(m, env, b.arg_types);
    lemma_open_known(m, env, b.arg_types);
    lemma_ops_sound(m1, env1, b.ops, b.ops.len() as int);
    lemma_sound_same(m2, assemble::build_block(m, env, b).0);
}

proof fn lemma_blocks_sound(m: ModuleV, env: Seq<Value>, bs: Seq<BlockN>, n: int)
    requires
        sound(m),
        known(env, m),
        small(assemble::build_blocks(m, env, bs, n).0),
    ensures
        sound(assemble::build_blocks(m, env, bs, n).0),
    decreases bs, n,
{
    if 0 < n <= bs.len() {
        let (m1, ids) = assemble::build_blocks(m, env, bs, n - 1);
        lemma_block_grown(m1, env, bs[n - 1]);
        lemma_small(m1, assemble::build_block(m1, env, bs[n - 1]).0);
        lemma_blocks_sound(m, env, bs, n - 1);
        lemma_blocks_grown(m, env, bs, n - 1);
        lemma_known_grown(env, m, m1);
        lemma_block_sound(m1, env, bs[n - 1]);
    }
}

proof fn lemma_regions_sound(m: ModuleV, env: Seq<Value>, rs: Seq<Seq<BlockN>>, n: int)
    requires
        sound(m),
        known(env, m),
        small(assemble::build_regions(m, env, rs, n).0),
    ensures
        sound(assemble::build_regions(m, env, rs, n).0),
    decreases rs, n,
{
    if 0 < n <= rs.len() {
        let (m1, ids) = assemble::build_regions(m, env, rs, n - 1);
        let (m2, blocks) = assemble::build_blocks(m1, env, rs[n - 1], rs[n - 1].len() as int);
        lemma_blocks_grown(m1, env, rs[n - 1], rs[n - 1].len() as int);
        lemma_small(m1, m2);
        lemma_regions_sound(m, env, rs, n - 1);
        lemma_regions_grown(m, env, rs, n - 1);
        lemma_known_grown(env, m, m1);
        lemma_blocks_sound(m1, env, rs[n - 1], rs[n - 1].len() as int);
        lemma_sound_same(m2, assemble::build_regions(m, env, rs, n).0);
    }
}

// ---------------------------------------------------------------------------
// Numbers
// ---------------------------------------------------------------------------

proof fn lemma_number_of(env: Seq<Value>, m: ModuleV, k: int, n: int)
    requires
        known(env, m),
        0 <= k < n <= env.len(),
        env.len() <= u64::MAX,
    ensures
        number::number_of(env, env[k], n) == Some(k as u64),
    decreases n,
{
    reveal(known);
    if k < n - 1 {
        assert(env[k] != env[n - 1]);
        lemma_number_of(env, m, k, n - 1);
    }
}

/// Operands get the numbers that they stand for.
proof fn lemma_numbers(env: Seq<Value>, m: ModuleV, s: Seq<u64>, n: int)
    requires
        known(env, m),
        env.len() <= u64::MAX,
        0 <= n <= s.len(),
        forall|i: int| 0 <= i < s.len() ==> #[trigger] s[i] < env.len(),
    ensures
        number::numbers_of(env, assemble::values_of(env, s), n) == Ok::<Seq<u64>, WriteError>(
            s.take(n),
        ),
    decreases n,
{
    if n > 0 {
        lemma_numbers(env, m, s, n - 1);
        assert(s[n - 1] < env.len());
        lemma_number_of(env, m, s[n - 1] as int, env.len() as int);
        assert(s.take(n - 1).push(s[n - 1]) =~= s.take(n));
    } else {
        assert(s.take(0) =~= seq![]);
    }
}

proof fn lemma_find(vs: Seq<ValueV>, op: OpId, i: u32, from: int, at: int)
    requires
        0 <= from <= at < vs.len(),
        number::is_result(vs[at], op, i),
        forall|j: int| from <= j < at ==> !number::is_result(#[trigger] vs[j], op, i),
    ensures
        number::find_result(vs, op, i, from) == Some(Value(at as u32)),
    decreases at - from,
{
    if from < at {
        assert(!number::is_result(vs[from], op, i));
        lemma_find(vs, op, i, from + 1, at);
    }
}

/// The results of an operation are found again.
proof fn lemma_results_found(
    m: ModuleV,
    op: OperationV,
    env: Seq<Value>,
    vs: Seq<ValueV>,
    n: int,
)
    requires
        sound(m),
        small(m),
        m.values.len() + op.result_types.len() <= u32::MAX,
        starts(
            assemble::with_results(
                ModuleV { ops: m.ops.push(op), ..m },
                OpId(m.ops.len() as u32),
                op.result_types,
            ).values,
            vs,
        ),
        0 <= n <= op.result_types.len(),
    ensures
        number::with_found(vs, env, OpId(m.ops.len() as u32), n) == env + assemble::fresh(
            m,
            n as nat,
        ),
    decreases n,
{
    let id = OpId(m.ops.len() as u32);
    let b = assemble::with_results(
        ModuleV { ops: m.ops.push(op), ..m },
        id,
        op.result_types,
    );
    if n > 0 {
        lemma_results_found(m, op, env, vs, n - 1);
        let at = m.values.len() + n - 1;
        lemma_starts_at(b.values, vs, at);
        assert forall|j: int| 0 <= j < at implies !number::is_result(
            #[trigger] vs[j],
            id,
            (n - 1) as u32,
        ) by {
            lemma_starts_at(b.values, vs, j);
            if j < m.values.len() {
                assert(b.values[j] == m.values[j]);
                reveal(sound);
            } else {
                assert(b.values[j].producer == (ValueProducer::OpResult {
                    op: id,
                    result_index: (j - m.values.len()) as u32,
                }));
            }
        }
        lemma_find(vs, id, (n - 1) as u32, 0, at);
        assert(env + assemble::fresh(m, n as nat) =~= (env + assemble::fresh(
            m,
            (n - 1) as nat,
        )).push(Value(at as u32)));
    } else {
        assert(env + assemble::fresh(m, 0) =~= env);
    }
}

// ---------------------------------------------------------------------------
// Trees
// ---------------------------------------------------------------------------

/// A larger module holds what was added between `a` and `b`.
#[verifier::opaque]
pub open spec fn holds(a: ModuleV, b: ModuleV, whole: ModuleV) -> bool {
    &&& starts(b.ops, whole.ops)
    &&& starts(b.regions, whole.regions)
    &&& starts(b.values, whole.values)
    &&& b.blocks.len() <= whole.blocks.len()
    &&& forall|j: int|
        a.blocks.len() <= j < b.blocks.len() ==> #[trigger] whole.blocks[j] == b.blocks[j]
}

/// What holds an addition holds the parts of it.
proof fn lemma_holds_part(a: ModuleV, b: ModuleV, c: ModuleV, d: ModuleV, whole: ModuleV)
    requires
        grown(a, b),
        grown(b, c),
        grown(c, d),
        holds(a, d, whole),
    ensures
        holds(b, c, whole),
{
    reveal(grown);
    reveal(holds);
    lemma_starts(c.ops, d.ops, whole.ops);
    lemma_starts(c.regions, d.regions, whole.regions);
    lemma_starts(c.values, d.values, whole.values);
    assert forall|j: int| b.blocks.len() <= j < c.blocks.len() implies #[trigger] whole.blocks[j]
        == c.blocks[j] by {
        lemma_starts_at(c.blocks, d.blocks, j);
    }
}

/// A grown module holds what was added.
pub proof fn lemma_grown_holds(a: ModuleV, b: ModuleV, whole: ModuleV)
    requires
        grown(a, b),
        grown(b, whole),
    ensures
        holds(a, b, whole),
{
    reveal(grown);
    reveal(holds);
    assert forall|j: int| a.blocks.len() <= j < b.blocks.len() implies #[trigger] whole.blocks[j]
        == b.blocks[j] by {
        lemma_starts_at(b.blocks, whole.blocks, j);
    }
}

proof fn lemma_ids_ops(m: ModuleV, env: Seq<Value>, a: Seq<OpId>, b: Seq<OpId>, depth: nat, n: int)
    requires
        n <= a.len(),
        starts(a, b),
    ensures
        number::number_ops(m, env, b, depth, n) == number::number_ops(m, env, a, depth, n),
    decreases n,
{
    if n > 0 {
        lemma_ids_ops(m, env, a, b, depth, n - 1);
        lemma_starts_at(a, b, n - 1);
    }
}

proof fn lemma_ids_blocks(
    m: ModuleV,
    env: Seq<Value>,
    a: Seq<BlockId>,
    b: Seq<BlockId>,
    depth: nat,
    n: int,
)
    requires
        n <= a.len(),
        starts(a, b),
    ensures
        number::number_blocks(m, env, b, depth, n) == number::number_blocks(m, env, a, depth, n),
    decreases n,
{
    if n > 0 {
        lemma_ids_blocks(m, env, a, b, depth, n - 1);
        lemma_starts_at(a, b, n - 1);
    }
}

proof fn lemma_ids_regions(
    m: ModuleV,
    env: Seq<Value>,
    a: Seq<RegionId>,
    b: Seq<RegionId>,
    depth: nat,
    n: int,
)
    requires
        n <= a.len(),
        starts(a, b),
    ensures
        number::number_regions(m, env, b, depth, n) == number::number_regions(m, env, a, depth, n),
    decreases n,
{
    if n > 0 {
        lemma_ids_regions(m, env, a, b, depth, n - 1);
        lemma_starts_at(a, b, n - 1);
    }
}

/// An operation is found as the tree that it was built from.
#[verifier::opaque]
pub open spec fn op_found(
    whole: ModuleV,
    env: Seq<Value>,
    id: OpId,
    depth: nat,
    op: OpN,
    env2: Seq<Value>,
) -> bool {
    number::number_op(whole, env, id, depth) == Ok::<(OpN, Seq<Value>), WriteError>((op, env2))
}

/// Operations are found.
#[verifier::opaque]
pub open spec fn ops_found(
    whole: ModuleV,
    env: Seq<Value>,
    ids: Seq<OpId>,
    depth: nat,
    ops: Seq<OpN>,
    env2: Seq<Value>,
    n: int,
) -> bool {
    &&& ids.len() == n
    &&& number::number_ops(whole, env, ids, depth, n) == Ok::<(Seq<OpN>, Seq<Value>), WriteError>(
        (ops.take(n), env2),
    )
}

/// A block is found.
#[verifier::opaque]
pub open spec fn block_found(
    whole: ModuleV,
    env: Seq<Value>,
    id: BlockId,
    depth: nat,
    b: BlockN,
) -> bool {
    number::number_block(whole, env, id, depth) == Ok::<BlockN, WriteError>(b)
}

/// Blocks are found.
#[verifier::opaque]
pub open spec fn blocks_found(
    whole: ModuleV,
    env: Seq<Value>,
    ids: Seq<BlockId>,
    depth: nat,
    bs: Seq<BlockN>,
    n: int,
) -> bool {
    &&& ids.len() == n
    &&& number::number_blocks(whole, env, ids, depth, n) == Ok::<Seq<BlockN>, WriteError>(
        bs.take(n),
    )
}

/// Regions are found.
#[verifier::opaque]
pub open spec fn regions_found(
    whole: ModuleV,
    env: Seq<Value>,
    ids: Seq<RegionId>,
    depth: nat,
    rs: Seq<Seq<BlockN>>,
    n: int,
) -> bool {
    &&& ids.len() == n
    &&& number::number_regions(whole, env, ids, depth, n) == Ok::<Seq<Seq<BlockN>>, WriteError>(
        rs.take(n),
    )
}

proof fn lemma_next_ops(
    whole: ModuleV,
    env: Seq<Value>,
    ids: Seq<OpId>,
    depth: nat,
    ops: Seq<OpN>,
    env1: Seq<Value>,
    env2: Seq<Value>,
    id: OpId,
    n: int,
)
    requires
        0 < n <= ops.len(),
        ops_found(whole, env, ids, depth, ops, env1, n - 1),
        op_found(whole, env1, id, depth, ops[n - 1], env2),
    ensures
        ops_found(whole, env, ids.push(id), depth, ops, env2, n),
{
    reveal(ops_found);
    reveal(op_found);
    lemma_starts_push(ids, id);
    lemma_ids_ops(whole, env, ids, ids.push(id), depth, n - 1);
    assert(ops.take(n - 1).push(ops[n - 1]) =~= ops.take(n));
}

proof fn lemma_next_blocks(
    whole: ModuleV,
    env: Seq<Value>,
    ids: Seq<BlockId>,
    depth: nat,
    bs: Seq<BlockN>,
    id: BlockId,
    n: int,
)
    requires
        0 < n <= bs.len(),
        blocks_found(whole, env, ids, depth, bs, n - 1),
        block_found(whole, env, id, depth, bs[n - 1]),
    ensures
        blocks_found(whole, env, ids.push(id), depth, bs, n),
{
    reveal(blocks_found);
    reveal(block_found);
    lemma_starts_push(ids, id);
    lemma_ids_blocks(whole, env, ids, ids.push(id), depth, n - 1);
    assert(bs.take(n - 1).push(bs[n - 1]) =~= bs.take(n));
}

proof fn lemma_next_regions(
    whole: ModuleV,
    env: Seq<Value>,
    ids: Seq<RegionId>,
    depth: nat,
    rs: Seq<Seq<BlockN>>,
    blocks: Seq<BlockId>,
    id: RegionId,
    n: int,
)
    requires
        0 < n <= rs.len(),
        depth > 0,
        id.0 < whole.regions.len(),
        whole.regions[id.0 as int] == blocks,
        regions_found(whole, env, ids, depth, rs, n - 1),
        blocks_found(
            whole,
            env,
            blocks,
            (depth - 1) as nat,
            rs[n - 1],
            rs[n - 1].len() as int,
        ),
    ensures
        regions_found(whole, env, ids.push(id), depth, rs, n),
{
    reveal(regions_found);
    reveal(blocks_found);
    lemma_starts_push(ids, id);
    lemma_ids_regions(whole, env, ids, ids.push(id), depth, n - 1);
    assert(rs[n - 1].take(rs[n - 1].len() as int) =~= rs[n - 1]);
    assert(rs.take(n - 1).push(rs[n - 1]) =~= rs.take(n));
}

/// A block whose operations are found is found.
proof fn lemma_block_of_ops(
    m: ModuleV,
    env: Seq<Value>,
    b: BlockN,
    whole: ModuleV,
    id: BlockId,
    ids: Seq<OpId>,
    depth: nat,
    env1: Seq<Value>,
    env2: Seq<Value>,
)
    requires
        id.0 < whole.blocks.len(),
        whole.blocks[id.0 as int] == (BlockV {
            args: assemble::block_args(m, b.arg_types),
            ops: ids,
        }),
        env1 == env + assemble::fresh(m, b.arg_types.len()),
        ops_found(whole, env1, ids, depth, b.ops, env2, b.ops.len() as int),
    ensures
        block_found(whole, env, id, depth, b),
{
    reveal(ops_found);
    reveal(block_found);
    let args = assemble::block_args(m, b.arg_types);
    assert(env + number::arg_values(args) =~= env1);
    assert(number::arg_types(args) =~= b.arg_types);
    assert(b.ops.take(b.ops.len() as int) =~= b.ops);
    assert(BlockN { arg_types: b.arg_types, ops: b.ops } == b);
}

/// An operation whose regions and results are found is found.
proof fn lemma_op_of_regions(
    m1: ModuleV,
    env: Seq<Value>,
    op: OpN,
    regions: Seq<RegionId>,
    m: ModuleV,
    whole: ModuleV,
    depth: nat,
)
    requires
        small(m1),
        m1.ops.len() < u32::MAX,
        m1.values.len() + op.result_types.len() <= u32::MAX,
        sound(m1),
        known(env, m),
        env.len() <= u64::MAX,
        forall|i: int| 0 <= i < op.operands.len() ==> #[trigger] op.operands[i] < env.len(),
        regions_found(whole, env, regions, depth, op.regions, op.regions.len() as int),
        ({
            let o = OperationV {
                opcode: op.opcode,
                operands: assemble::values_of(env, op.operands),
                result_types: op.result_types,
                attributes: op.attributes,
                regions,
                location: op.location,
            };
            let b = assemble::with_results(
                ModuleV { ops: m1.ops.push(o), ..m1 },
                OpId(m1.ops.len() as u32),
                op.result_types,
            );
            starts(b.ops, whole.ops) && starts(b.values, whole.values)
        }),
    ensures
        op_found(
            whole,
            env,
            OpId(m1.ops.len() as u32),
            depth,
            op,
            env + assemble::fresh(m1, op.result_types.len()),
        ),
{
    reveal(op_found);
    reveal(regions_found);
    let id = OpId(m1.ops.len() as u32);
    let o = OperationV {
        opcode: op.opcode,
        operands: assemble::values_of(env, op.operands),
        result_types: op.result_types,
        attributes: op.attributes,
        regions,
        location: op.location,
    };
    let b = assemble::with_results(ModuleV { ops: m1.ops.push(o), ..m1 }, id, op.result_types);
    lemma_starts_at(b.ops, whole.ops, m1.ops.len() as int);
    assert(whole.ops[id.0 as int] == o);
    lemma_numbers(env, m, op.operands, op.operands.len() as int);
    assert(op.operands.take(op.operands.len() as int) =~= op.operands);
    assert(o.operands.len() == op.operands.len());
    lemma_results_found(m1, o, env, whole.values, op.result_types.len() as int);
    assert(op.regions.take(op.regions.len() as int) =~= op.regions);
    assert(regions.len() == op.regions.len());
}

proof fn lemma_holds_small(a: ModuleV, b: ModuleV, whole: ModuleV)
    requires
        holds(a, b, whole),
        small(whole),
    ensures
        small(b),
{
    reveal(holds);
}

proof fn lemma_known_len(env: Seq<Value>, m: ModuleV)
    requires
        known(env, m),
        small(m),
    ensures
        env.len() <= u32::MAX,
{
    reveal(known);
}

/// An operation that was built into a module is found in it.
pub proof fn lemma_op_restored(m: ModuleV, env: Seq<Value>, op: OpN, whole: ModuleV, depth: nat)
    requires
        sound(m),
        known(env, m),
        body_roundtrip::scoped_op(op, env.len() as int),
        holds(m, assemble::build_op(m, env, op).0, whole),
        small(whole),
        depth >= assemble::build_op(m, env, op).0.ops.len() - m.ops.len(),
    ensures
        op_found(
            whole,
            env,
            assemble::build_op(m, env, op).2,
            depth,
            op,
            assemble::build_op(m, env, op).1,
        ),
    decreases op, 0int,
{
    let k = op.regions.len() as int;
    let (m1, regions) = assemble::build_regions(m, env, op.regions, k);
    let (m3, env2, id) = assemble::build_op(m, env, op);
    lemma_holds_small(m, m3, whole);
    lemma_regions_grown(m, env, op.regions, k);
    lemma_op_grown(m, env, op);
    assert(small(m1) && m1.ops.len() < u32::MAX && m3.ops.len() == m1.ops.len() + 1 && m1.values.len()
        + op.result_types.len() <= u32::MAX) by {
        assert(m3.values.len() == m1.values.len() + op.result_types.len());
        assert(m3.blocks == m1.blocks && m3.regions == m1.regions);
    }
    assert(holds(m, m1, whole)) by {
        assert(grown(m1, m3)) by {
            lemma_results_grown(m, env, op);
        }
        lemma_grown(m, m, m);
        lemma_holds_part(m, m, m1, m3, whole);
    }
    lemma_regions_restored(m, env, op.regions, k, whole, depth);
    lemma_regions_sound(m, env, op.regions, k);
    lemma_small(m, m1);
    lemma_known_len(env, m);
    assert(starts(m3.ops, whole.ops) && starts(m3.values, whole.values)) by {
        reveal(holds);
    }
    lemma_op_of_regions(m1, env, op, regions, m, whole, depth);
    assert(env2 =~= env + assemble::fresh(m1, op.result_types.len()));
}

/// Operations that were built into a module are found in it.
pub proof fn lemma_ops_restored(
    m: ModuleV,
    env: Seq<Value>,
    ops: Seq<OpN>,
    n: int,
    whole: ModuleV,
    depth: nat,
)
    requires
        0 <= n <= ops.len(),
        sound(m),
        known(env, m),
        body_roundtrip::scoped_ops(ops, env.len() as int, n),
        holds(m, assemble::build_ops(m, env, ops, n).0, whole),
        small(whole),
        depth >= assemble::build_ops(m, env, ops, n).0.ops.len() - m.ops.len(),
    ensures
        ops_found(
            whole,
            env,
            assemble::build_ops(m, env, ops, n).2,
            depth,
            ops,
            assemble::build_ops(m, env, ops, n).1,
            n,
        ),
        assemble::build_ops(m, env, ops, n).1.len() == body_roundtrip::next_after(
            ops,
            env.len() as int,
            n,
        ),
    decreases ops, n,
{
    if n > 0 {
        let (m1, env1, ids) = assemble::build_ops(m, env, ops, n - 1);
        let (m2, env2, id) = assemble::build_op(m1, env1, ops[n - 1]);
        lemma_ops_grown(m, env, ops, n - 1);
        lemma_op_grown(m1, env1, ops[n - 1]);
        lemma_grown(m, m, m);
        lemma_grown(m2, m2, m2);
        lemma_holds_part(m, m, m1, m2, whole);
        lemma_holds_part(m, m1, m2, m2, whole);
        lemma_holds_small(m, m1, whole);
        assert(m1.ops.len() >= m.ops.len()) by {
            reveal(grown);
        }
        lemma_ops_restored(m, env, ops, n - 1, whole, depth);
        lemma_ops_sound(m, env, ops, n - 1);
        lemma_op_restored(m1, env1, ops[n - 1], whole, depth);
        lemma_next_ops(whole, env, ids, depth, ops, env1, env2, id, n);
    } else {
        reveal(ops_found);
        assert(ops.take(0) =~= seq![]);
    }
}

/// A block that was built into a module is found in it.
pub proof fn lemma_block_restored(
    m: ModuleV,
    env: Seq<Value>,
    b: BlockN,
    whole: ModuleV,
    depth: nat,
)
    requires
        sound(m),
        known(env, m),
        body_roundtrip::scoped_ops(
            b.ops,
            env.len() as int + b.arg_types.len(),
            b.ops.len() as int,
        ),
        holds(m, assemble::build_block(m, env, b).0, whole),
        small(whole),
        depth >= assemble::build_block(m, env, b).0.ops.len() - m.ops.len(),
    ensures
        block_found(whole, env, assemble::build_block(m, env, b).1, depth, b),
    decreases b, 0int,
{
    let (m1, env1, id) = assemble::open_block(m, env, b.arg_types);
    let n = b.ops.len() as int;
    let (m2, env2, ids) = assemble::build_ops(m1, env1, b.ops, n);
    let m3 = assemble::build_block(m, env, b).0;
    lemma_open_grown(m, env, b.arg_types);
    lemma_ops_grown(m1, env1, b.ops, n);
    lemma_holds_small(m, m3, whole);
    assert(m2.blocks.len() >= m1.blocks.len()) by {
        reveal(grown);
    }
    assert(small(m2) && m3.blocks.len() == m2.blocks.len());
    lemma_small(m1, m2);
    assert(holds(m1, m2, whole)) by {
        reveal(holds);
        assert forall|j: int| m1.blocks.len() <= j < m2.blocks.len() implies #[trigger]
            whole.blocks[j] == m2.blocks[j] by {
            assert(m3.blocks[j] == m2.blocks[j]);
        }
    }
    lemma_sound_args(m, env, b.arg_types);
    lemma_open_known(m, env, b.arg_types);
    lemma_ops_restored(m1, env1, b.ops, n, whole, depth);
    assert(id.0 < whole.blocks.len() && whole.blocks[id.0 as int] == (BlockV {
        args: assemble::block_args(m, b.arg_types),
        ops: ids,
    })) by {
        reveal(holds);
        let j = m.blocks.len() as int;
        assert(id.0 == j);
        assert(whole.blocks[j] == m3.blocks[j]);
    }
    assert(env1 =~= env + assemble::fresh(m, b.arg_types.len()));
    lemma_block_of_ops(m, env, b, whole, id, ids, depth, env1, env2);
}

proof fn lemma_blocks_restored(
    m: ModuleV,
    env: Seq<Value>,
    bs: Seq<BlockN>,
    n: int,
    whole: ModuleV,
    depth: nat,
)
    requires
        0 <= n <= bs.len(),
        sound(m),
        known(env, m),
        body_roundtrip::scoped_blocks(bs, env.len() as int, n),
        holds(m, assemble::build_blocks(m, env, bs, n).0, whole),
        small(whole),
        depth >= assemble::build_blocks(m, env, bs, n).0.ops.len() - m.ops.len(),
    ensures
        blocks_found(whole, env, assemble::build_blocks(m, env, bs, n).1, depth, bs, n),
    decreases bs, n,
{
    if n > 0 {
        let (m1, ids) = assemble::build_blocks(m, env, bs, n - 1);
        let (m2, id) = assemble::build_block(m1, env, bs[n - 1]);
        lemma_blocks_grown(m, env, bs, n - 1);
        lemma_block_grown(m1, env, bs[n - 1]);
        lemma_grown(m, m, m);
        lemma_grown(m2, m2, m2);
        lemma_holds_part(m, m, m1, m2, whole);
        lemma_holds_part(m, m1, m2, m2, whole);
        lemma_holds_small(m, m1, whole);
        assert(m1.ops.len() >= m.ops.len() && m2.ops.len() >= m1.ops.len()) by {
            reveal(grown);
        }
        lemma_blocks_restored(m, env, bs, n - 1, whole, depth);
        lemma_blocks_sound(m, env, bs, n - 1);
        lemma_known_grown(env, m, m1);
        lemma_block_restored(m1, env, bs[n - 1], whole, depth);
        lemma_next_blocks(whole, env, ids, depth, bs, id, n);
    } else {
        reveal(blocks_found);
        assert(bs.take(0) =~= seq![]);
    }
}

proof fn lemma_regions_restored(
    m: ModuleV,
    env: Seq<Value>,
    rs: Seq<Seq<BlockN>>,
    n: int,
    whole: ModuleV,
    depth: nat,
)
    requires
        0 <= n <= rs.len(),
        sound(m),
        known(env, m),
        body_roundtrip::scoped_regions(rs, env.len() as int, n),
        holds(m, assemble::build_regions(m, env, rs, n).0, whole),
        small(whole),
        depth > assemble::build_regions(m, env, rs, n).0.ops.len() - m.ops.len(),
    ensures
        regions_found(whole, env, assemble::build_regions(m, env, rs, n).1, depth, rs, n),
    decreases rs, n,
{
    if n > 0 {
        let g = rs[n - 1];
        let (m1, ids) = assemble::build_regions(m, env, rs, n - 1);
        let (m2, blocks) = assemble::build_blocks(m1, env, g, g.len() as int);
        let (m3, ids3) = assemble::build_regions(m, env, rs, n);
        let id = RegionId(m2.regions.len() as u32);
        lemma_regions_grown(m, env, rs, n - 1);
        lemma_blocks_grown(m1, env, g, g.len() as int);
        assert(grown(m2, m3)) by {
            reveal(grown);
            lemma_starts(m2.ops, m2.ops, m2.ops);
            lemma_starts(m2.blocks, m2.blocks, m2.blocks);
            lemma_starts(m2.values, m2.values, m2.values);
            lemma_starts_push(m2.regions, blocks);
        }
        lemma_grown(m, m, m);
        lemma_grown(m1, m2, m3);
        lemma_holds_part(m, m, m1, m3, whole);
        lemma_holds_part(m, m1, m2, m3, whole);
        lemma_holds_small(m, m1, whole);
        lemma_holds_small(m, m3, whole);
        assert(m1.ops.len() >= m.ops.len() && m2.ops.len() >= m1.ops.len()) by {
            reveal(grown);
        }
        lemma_regions_restored(m, env, rs, n - 1, whole, depth);
        lemma_regions_sound(m, env, rs, n - 1);
        lemma_known_grown(env, m, m1);
        lemma_blocks_restored(m1, env, g, g.len() as int, whole, (depth - 1) as nat);
        assert(id.0 < whole.regions.len() && whole.regions[id.0 as int] == blocks) by {
            reveal(holds);
            assert(m3.regions =~= m2.regions.push(blocks));
            lemma_starts_at(m3.regions, whole.regions, m2.regions.len() as int);
        }
        lemma_next_regions(whole, env, ids, depth, rs, blocks, id, n);
    } else {
        reveal(regions_found);
        assert(rs.take(0) =~= seq![]);
    }
}

// ---------------------------------------------------------------------------
// Functions
// ---------------------------------------------------------------------------

/// The tree of a function.
pub open spec fn entry_tree(f: FuncN) -> OpN {
    OpN {
        opcode: Opcode::Entry,
        operands: seq![],
        result_types: seq![],
        attributes: reader::entry_attrs(f),
        regions: seq![seq![BlockN { arg_types: f.inputs, ops: f.ops }]],
        location: f.location,
    }
}

/// The operations of a function refer to values that are defined.
pub open spec fn scoped_function(f: FuncN) -> bool {
    body_roundtrip::scoped_ops(f.ops, f.inputs.len() as int, f.ops.len() as int)
}

proof fn lemma_entry_scoped(f: FuncN)
    requires
        scoped_function(f),
    ensures
        body_roundtrip::scoped_op(entry_tree(f), 0),
{
    let b = BlockN { arg_types: f.inputs, ops: f.ops };
    let bs = seq![b];
    let rs = seq![bs];
    reveal_with_fuel(body_roundtrip::scoped_blocks, 2);
    reveal_with_fuel(body_roundtrip::scoped_regions, 2);
    assert(bs[0] == b && rs[0] == bs);
    assert(body_roundtrip::scoped_blocks(bs, 0, 1));
    assert(body_roundtrip::scoped_regions(rs, 0, 1));
}

/// To add a function is to build its tree.
proof fn lemma_build_function(m: ModuleV, f: FuncN)
    ensures
        ({
            let (u, env, id) = assemble::build_op(m, seq![], entry_tree(f));
            &&& reader::build_function(m, f) == (ModuleV { functions: u.functions.push(id), ..u })
            &&& env == Seq::<Value>::empty()
            &&& u.functions == m.functions
            &&& u.globals == m.globals
        }),
{
    let op = entry_tree(f);
    let b = BlockN { arg_types: f.inputs, ops: f.ops };
    let bs = seq![b];
    let none = Seq::<Value>::empty();
    assert(op.regions.len() == 1 && op.regions[0] == bs && bs[0] == b);
    let (u, env, id) = assemble::build_op(m, seq![], op);
    let (m1, block) = assemble::build_block(m, none, b);
    reveal_with_fuel(assemble::build_blocks, 2);
    reveal_with_fuel(assemble::build_regions, 2);
    let (mb, bids) = assemble::build_blocks(m, none, bs, 1);
    assert(bids =~= seq![block]);
    let (mr, rids) = assemble::build_regions(m, none, op.regions, 1);
    assert(rids =~= seq![RegionId(m1.regions.len() as u32)]);
    let w = reader::build_function(m, f);
    assert(assemble::fresh(mr, 0) =~= none);
    assert(assemble::values_of(none, op.operands) =~= seq![]);
    assert(env =~= none);
    assert(u.values =~= mr.values);
    assert(w.ops =~= u.ops);
    assert(w.values =~= u.values);
    assert(w.blocks =~= u.blocks);
    assert(w.regions =~= u.regions);
    lemma_ops_lists(
        assemble::open_block(m, none, f.inputs).0,
        assemble::open_block(m, none, f.inputs).1,
        f.ops,
        f.ops.len() as int,
    );
    assert(w.functions =~= u.functions.push(id));
    assert(w =~= ModuleV { functions: u.functions.push(id), ..u });
}

/// Building operations leaves functions and global variables alone.
proof fn lemma_op_lists(m: ModuleV, env: Seq<Value>, op: OpN)
    ensures
        assemble::build_op(m, env, op).0.functions == m.functions,
        assemble::build_op(m, env, op).0.globals == m.globals,
        assemble::build_op(m, env, op).0.name == m.name,
    decreases op, 0int,
{
    lemma_regions_lists(m, env, op.regions, op.regions.len() as int);
}

proof fn lemma_ops_lists(m: ModuleV, env: Seq<Value>, ops: Seq<OpN>, n: int)
    ensures
        assemble::build_ops(m, env, ops, n).0.functions == m.functions,
        assemble::build_ops(m, env, ops, n).0.globals == m.globals,
        assemble::build_ops(m, env, ops, n).0.name == m.name,
    decreases ops, n,
{
    if 0 < n <= ops.len() {
        lemma_ops_lists(m, env, ops, n - 1);
        let (m1, env1, ids) = assemble::build_ops(m, env, ops, n - 1);
        lemma_op_lists(m1, env1, ops[n - 1]);
    }
}

proof fn lemma_block_lists(m: ModuleV, env: Seq<Value>, b: BlockN)
    ensures
        assemble::build_block(m, env, b).0.functions == m.functions,
        assemble::build_block(m, env, b).0.globals == m.globals,
        assemble::build_block(m, env, b).0.name == m.name,
    decreases b, 0int,
{
    let (m1, env1, id) = assemble::open_block(m, env, b.arg_types);
    lemma_ops_lists(m1, env1, b.ops, b.ops.len() as int);
}

proof fn lemma_blocks_lists(m: ModuleV, env: Seq<Value>, bs: Seq<BlockN>, n: int)
    ensures
        assemble::build_blocks(m, env, bs, n).0.functions == m.functions,
        assemble::build_blocks(m, env, bs, n).0.globals == m.globals,
        assemble::build_blocks(m, env, bs, n).0.name == m.name,
    decreases bs, n,
{
    if 0 < n <= bs.len() {
        lemma_blocks_lists(m, env, bs, n - 1);
        lemma_block_lists(assemble::build_blocks(m, env, bs, n - 1).0, env, bs[n - 1]);
    }
}

proof fn lemma_regions_lists(m: ModuleV, env: Seq<Value>, rs: Seq<Seq<BlockN>>, n: int)
    ensures
        assemble::build_regions(m, env, rs, n).0.functions == m.functions,
        assemble::build_regions(m, env, rs, n).0.globals == m.globals,
        assemble::build_regions(m, env, rs, n).0.name == m.name,
    decreases rs, n,
{
    if 0 < n <= rs.len() {
        lemma_regions_lists(m, env, rs, n - 1);
        lemma_blocks_lists(
            assemble::build_regions(m, env, rs, n - 1).0,
            env,
            rs[n - 1],
            rs[n - 1].len() as int,
        );
    }
}

proof fn lemma_same_arenas(a: ModuleV, b: ModuleV)
    requires
        a.ops == b.ops,
        a.blocks == b.blocks,
        a.regions == b.regions,
        a.values == b.values,
    ensures
        grown(a, b),
{
    reveal(grown);
    lemma_starts(a.ops, a.ops, a.ops);
    lemma_starts(a.blocks, a.blocks, a.blocks);
    lemma_starts(a.regions, a.regions, a.regions);
    lemma_starts(a.values, a.values, a.values);
}

/// Adding a function only adds to a module.
proof fn lemma_function_grown(m: ModuleV, f: FuncN)
    ensures
        grown(m, reader::build_function(m, f)),
        grown(
            assemble::build_op(m, seq![], entry_tree(f)).0,
            reader::build_function(m, f),
        ),
{
    let u = assemble::build_op(m, seq![], entry_tree(f)).0;
    let w = reader::build_function(m, f);
    lemma_build_function(m, f);
    lemma_op_grown(m, seq![], entry_tree(f));
    lemma_same_arenas(u, w);
    lemma_grown(m, u, w);
}

proof fn lemma_functions_grown(m: ModuleV, fs: Seq<FuncN>, k: int, n: int)
    requires
        0 <= k <= n,
    ensures
        grown(reader::build_functions(m, fs, k), reader::build_functions(m, fs, n)),
    decreases n,
{
    let a = reader::build_functions(m, fs, k);
    lemma_grown(a, a, a);
    if k < n {
        lemma_functions_grown(m, fs, k, n - 1);
        let b = reader::build_functions(m, fs, n - 1);
        lemma_function_grown(b, fs[n - 1]);
        lemma_grown(a, b, reader::build_functions(m, fs, n));
    }
}

/// Functions are listed in order, and global variables stay.
proof fn lemma_functions_listed(m: ModuleV, fs: Seq<FuncN>, n: int)
    requires
        0 <= n,
    ensures
        reader::build_functions(m, fs, n).functions.len() == m.functions.len() + n,
        reader::build_functions(m, fs, n).globals == m.globals,
        forall|i: int|
            0 <= i < n ==> #[trigger] reader::build_functions(m, fs, n).functions[m.functions.len()
                + i] == assemble::build_op(
                reader::build_functions(m, fs, i),
                seq![],
                entry_tree(fs[i]),
            ).2,
    decreases n,
{
    if n > 0 {
        lemma_functions_listed(m, fs, n - 1);
        lemma_build_function(reader::build_functions(m, fs, n - 1), fs[n - 1]);
        let a = reader::build_functions(m, fs, n - 1);
        let b = reader::build_functions(m, fs, n);
        assert forall|i: int| 0 <= i < n implies #[trigger] b.functions[m.functions.len() + i]
            == assemble::build_op(
            reader::build_functions(m, fs, i),
            seq![],
            entry_tree(fs[i]),
        ).2 by {
            if i < n - 1 {
                assert(b.functions[m.functions.len() + i] == a.functions[m.functions.len() + i]);
            }
        }
    }
}

proof fn lemma_functions_sound(m: ModuleV, fs: Seq<FuncN>, n: int)
    requires
        0 <= n,
        sound(m),
        small(reader::build_functions(m, fs, n)),
    ensures
        sound(reader::build_functions(m, fs, n)),
    decreases n,
{
    if n > 0 {
        let a = reader::build_functions(m, fs, n - 1);
        let b = reader::build_functions(m, fs, n);
        let u = assemble::build_op(a, seq![], entry_tree(fs[n - 1])).0;
        lemma_function_grown(a, fs[n - 1]);
        lemma_small(a, b);
        lemma_functions_sound(m, fs, n - 1);
        lemma_build_function(a, fs[n - 1]);
        assert(known(seq![], a)) by {
            reveal(known);
        }
        lemma_op_sound(a, seq![], entry_tree(fs[n - 1]));
        lemma_sound_same(u, b);
    }
}

/// Every function of a file is found in the module that the file holds.
pub proof fn lemma_function_found(f: FileN, i: int)
    requires
        small(reader::module_of(f)),
        0 <= i < f.functions.len(),
        scoped_function(f.functions[i]),
    ensures
        reader::module_of(f).functions.len() == f.functions.len(),
        reader::module_of(f).globals == f.globals,
        number::number_op(
            reader::module_of(f),
            seq![],
            reader::module_of(f).functions[i],
            prescan::nesting(reader::module_of(f)),
        ) == Ok::<(OpN, Seq<Value>), WriteError>((entry_tree(f.functions[i]), seq![])),
{
    let m = ModuleV { globals: f.globals, ..module::empty_module("module"@) };
    let fs = f.functions;
    let n = fs.len() as int;
    let whole = reader::module_of(f);
    let a = reader::build_functions(m, fs, i);
    let b = reader::build_functions(m, fs, i + 1);
    let (u, env, id) = assemble::build_op(a, seq![], entry_tree(fs[i]));
    lemma_functions_listed(m, fs, n);
    assert(whole.functions[m.functions.len() + i] == id);
    lemma_functions_grown(m, fs, i, n);
    lemma_functions_grown(m, fs, i + 1, n);
    lemma_function_grown(a, fs[i]);
    lemma_build_function(a, fs[i]);
    lemma_grown(u, b, whole);
    lemma_small(a, whole);
    assert(sound(m)) by {
        reveal(sound);
    }
    assert(known(seq![], a)) by {
        reveal(known);
    }
    lemma_functions_sound(m, fs, i);
    lemma_op_grown(a, seq![], entry_tree(fs[i]));
    lemma_grown_holds(a, u, whole);
    lemma_entry_scoped(fs[i]);
    assert(whole.ops.len() >= u.ops.len()) by {
        reveal(grown);
    }
    lemma_op_restored(a, seq![], entry_tree(fs[i]), whole, prescan::nesting(whole));
    reveal(op_found);
}

/// The module that a file holds has the file's global variables, and as many
/// functions.
pub proof fn lemma_functions_held(f: FileN)
    ensures
        reader::module_of(f).functions.len() == f.functions.len(),
        reader::module_of(f).globals == f.globals,
{
    lemma_functions_listed(
        ModuleV { globals: f.globals, ..module::empty_module("module"@) },
        f.functions,
        f.functions.len() as int,
    );
}

} // verus!
