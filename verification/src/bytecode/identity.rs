//! Writing a module that was read gives the same bytes again: what is written
//! depends on global variables and on the trees of the functions alone.
use vstd::prelude::*;
use crate::bytecode::again;
use crate::bytecode::attr_writer;
use crate::bytecode::attrs::TablesV;
use crate::bytecode::body_writer;
use crate::bytecode::collect::CollectV;
use crate::bytecode::collect;
use crate::bytecode::debug;
use crate::bytecode::debug_roundtrip;
use crate::bytecode::debug_writer;
use crate::bytecode::enums::BytecodeVersion;
use crate::bytecode::enums;
use crate::bytecode::file_roundtrip;
use crate::bytecode::func_roundtrip;
use crate::bytecode::layout::AttrName;
use crate::bytecode::layout;
use crate::bytecode::layout_facts;
use crate::bytecode::node::{BlockN, OpN};
use crate::bytecode::number;
use crate::bytecode::opcode::Opcode;
use crate::bytecode::ops_again;
use crate::bytecode::prescan;
use crate::bytecode::reader::{FileN, FuncN};
use crate::bytecode::reader;
use crate::bytecode::records::RecordV;
use crate::bytecode::records;
use crate::bytecode::restore;
use crate::bytecode::writer;
use crate::error::{ReadError, WriteError};
use crate::ir::attr::AttrV;
use crate::ir::module::{BlockId, GlobalV, ModuleV, OpId, RegionId, Value};
use crate::ir::types::TypeV;

verus! {

// ---------------------------------------------------------------------------
// Writing from trees
// ---------------------------------------------------------------------------

/// The tables after an operation has been scanned.
pub open spec fn scan_op_tree(t: TablesV, op: OpN) -> TablesV
    decreases op, 1int,
{
    scan_region_trees(
        prescan::scan_dict(
            collect::with_types(t, op.result_types),
            op.attributes,
            op.attributes.len() as int,
        ),
        op.regions,
        op.regions.len() as int,
    )
}

/// The tables after the first `n` operations have been scanned.
pub open spec fn scan_op_trees(t: TablesV, ops: Seq<OpN>, n: int) -> TablesV
    decreases ops, n,
{
    if n <= 0 || n > ops.len() {
        t
    } else {
        scan_op_tree(scan_op_trees(t, ops, n - 1), ops[n - 1])
    }
}

/// The tables after the first `n` blocks have been scanned.
pub open spec fn scan_block_trees(t: TablesV, bs: Seq<BlockN>, n: int) -> TablesV
    decreases bs, n,
{
    if n <= 0 || n > bs.len() {
        t
    } else {
        scan_op_trees(
            collect::with_types(scan_block_trees(t, bs, n - 1), bs[n - 1].arg_types),
            bs[n - 1].ops,
            bs[n - 1].ops.len() as int,
        )
    }
}

/// The tables after the first `n` regions have been scanned.
pub open spec fn scan_region_trees(t: TablesV, rs: Seq<Seq<BlockN>>, n: int) -> TablesV
    decreases rs, n,
{
    if n <= 0 || n > rs.len() {
        t
    } else {
        scan_block_trees(scan_region_trees(t, rs, n - 1), rs[n - 1], rs[n - 1].len() as int)
    }
}

/// The tables after the first `n` functions have been scanned.
pub open spec fn scan_trees(t: TablesV, fs: Seq<OpN>, n: int) -> TablesV
    decreases n,
{
    if n <= 0 {
        t
    } else {
        let op = fs[n - 1];
        scan_region_trees(
            prescan::scan_dict(
                scan_trees(t, fs, n - 1),
                op.attributes,
                op.attributes.len() as int,
            ),
            op.regions,
            op.regions.len() as int,
        )
    }
}

/// The operations of a function.
pub open spec fn tree_body(op: OpN) -> Seq<OpN> {
    if op.regions.len() == 0 || op.regions[0].len() == 0 {
        seq![]
    } else {
        op.regions[0][0].ops
    }
}

/// The hints that are written for a function.
pub open spec fn tree_hints(op: OpN) -> Option<AttrV> {
    if op.opcode == Opcode::Entry {
        body_writer::find_attr(op.attributes, layout::name_text(AttrName::OptimizationHints))
    } else {
        None
    }
}

/// The record of a function.
pub open spec fn tree_record(op: OpN, version: BytecodeVersion) -> Result<RecordV, WriteError> {
    match records::string_attr(op.attributes, layout::name_text(AttrName::SymName)) {
        None => Err(WriteError::MissingSymName),
        Some(name) => match records::type_attr(
            op.attributes,
            layout::name_text(AttrName::FunctionType),
        ) {
            None => Err(WriteError::MissingFunctionType),
            Some(signature) => if records::too_new(tree_hints(op), version) {
                Err(
                    WriteError::HintNeedsNewerVersion(
                        version.major,
                        version.minor,
                        version.tag,
                    ),
                )
            } else {
                let ops = tree_body(op);
                match body_writer::check_ops(ops, version.spec_v13_3(), ops.len() as int) {
                    None => Ok(
                        RecordV {
                            name,
                            signature,
                            kernel: op.opcode == Opcode::Entry,
                            hints: tree_hints(op),
                            di_name: records::string_attr(
                                op.attributes,
                                layout::name_text(AttrName::DiName),
                            ),
                            location: op.location,
                            ops,
                        },
                    ),
                    Some(e) => Err(e),
                }
            },
        },
    }
}

/// The records of the first `n` functions.
pub open spec fn tree_records(fs: Seq<OpN>, version: BytecodeVersion, n: int) -> Result<
    Seq<RecordV>,
    WriteError,
>
    decreases n,
{
    if n <= 0 {
        Ok(seq![])
    } else {
        match tree_records(fs, version, n - 1) {
            Ok(s) => match tree_record(fs[n - 1], version) {
                Ok(r) => Ok(s.push(r)),
                Err(e) => Err(e),
            },
            Err(e) => Err(e),
        }
    }
}

/// The records of some functions, and everything collected for the file.
pub open spec fn collected_trees(
    gs: Seq<GlobalV>,
    fs: Seq<OpN>,
    version: BytecodeVersion,
) -> Result<(Seq<RecordV>, CollectV), WriteError> {
    let t0 = prescan::scan_globals(attr_writer::empty_tables(), gs, gs.len() as int);
    let t1 = scan_trees(t0, fs, fs.len() as int);
    match tree_records(fs, version, fs.len() as int) {
        Ok(rs) => {
            let s = CollectV {
                t: writer::with_global_data(t1, gs, gs.len() as int),
                ..collect::nothing_collected()
            };
            Ok((rs, records::collect_records(s, rs, version.spec_v13_3(), rs.len() as int)))
        },
        Err(e) => Err(e),
    }
}

/// The bytes of a file with global variables and functions.
pub open spec fn written_trees(gs: Seq<GlobalV>, fs: Seq<OpN>, version: BytecodeVersion) -> Result<
    Seq<u8>,
    WriteError,
> {
    if enums::version_rank(version) < enums::version_rank(BytecodeVersion::spec_min_supported()) {
        Err(WriteError::UnsupportedVersion(version.major, version.minor, version.tag))
    } else {
        match collected_trees(gs, fs, version) {
            Ok((rs, c)) => if writer::file_fits(c, version) {
                Ok(writer::file_bytes(gs, rs, c, version))
            } else {
                Err(WriteError::SectionTooLarge)
            },
            Err(e) => Err(e),
        }
    }
}

/// A module's functions are the trees `fs`.
pub open spec fn has_trees(m: ModuleV, fs: Seq<OpN>) -> bool {
    &&& m.functions.len() == fs.len()
    &&& forall|i: int|
        0 <= i < fs.len() ==> #[trigger] function_tree(m, i) == Ok::<OpN, WriteError>(fs[i])
}

/// The tree of a function of a module.
pub open spec fn function_tree(m: ModuleV, i: int) -> Result<OpN, WriteError> {
    match number::number_op(m, seq![], m.functions[i], prescan::nesting(m)) {
        Ok((op, _)) => Ok(op),
        Err(e) => Err(e),
    }
}

// ---------------------------------------------------------------------------
// Deeper walks find the same
// ---------------------------------------------------------------------------

proof fn lemma_op_deeper(m: ModuleV, env: Seq<Value>, id: OpId, depth: nat)
    ensures
        number::number_op(m, env, id, depth) is Ok ==> number::number_op(m, env, id, depth + 1)
            == number::number_op(m, env, id, depth),
    decreases depth, 1int, 0int,
{
    if id.0 < m.ops.len() {
        let op = m.ops[id.0 as int];
        lemma_regions_deeper(m, env, op.regions, depth, op.regions.len() as int);
    }
}

proof fn lemma_ops_deeper(m: ModuleV, env: Seq<Value>, ids: Seq<OpId>, depth: nat, n: int)
    ensures
        number::number_ops(m, env, ids, depth, n) is Ok ==> number::number_ops(
            m,
            env,
            ids,
            depth + 1,
            n,
        ) == number::number_ops(m, env, ids, depth, n),
    decreases depth, 2int, n,
{
    if n > 0 {
        lemma_ops_deeper(m, env, ids, depth, n - 1);
        match number::number_ops(m, env, ids, depth, n - 1) {
            Ok((s, env1)) => lemma_op_deeper(m, env1, ids[n - 1], depth),
            Err(_) => {},
        }
    }
}

proof fn lemma_block_deeper(m: ModuleV, env: Seq<Value>, id: BlockId, depth: nat)
    ensures
        number::number_block(m, env, id, depth) is Ok ==> number::number_block(
            m,
            env,
            id,
            depth + 1,
        ) == number::number_block(m, env, id, depth),
    decreases depth, 3int, 0int,
{
    if id.0 < m.blocks.len() {
        let b = m.blocks[id.0 as int];
        lemma_ops_deeper(m, env + number::arg_values(b.args), b.ops, depth, b.ops.len() as int);
    }
}

proof fn lemma_blocks_deeper(m: ModuleV, env: Seq<Value>, ids: Seq<BlockId>, depth: nat, n: int)
    ensures
        number::number_blocks(m, env, ids, depth, n) is Ok ==> number::number_blocks(
            m,
            env,
            ids,
            depth + 1,
            n,
        ) == number::number_blocks(m, env, ids, depth, n),
    decreases depth, 4int, n,
{
    if n > 0 {
        lemma_blocks_deeper(m, env, ids, depth, n - 1);
        lemma_block_deeper(m, env, ids[n - 1], depth);
    }
}

proof fn lemma_regions_deeper(m: ModuleV, env: Seq<Value>, ids: Seq<RegionId>, depth: nat, n: int)
    ensures
        number::number_regions(m, env, ids, depth, n) is Ok ==> number::number_regions(
            m,
            env,
            ids,
            depth + 1,
            n,
        ) == number::number_regions(m, env, ids, depth, n),
    decreases depth, 0int, n,
{
    if n > 0 {
        lemma_regions_deeper(m, env, ids, depth, n - 1);
        if depth > 0 && ids[n - 1].0 < m.regions.len() {
            let blocks = m.regions[ids[n - 1].0 as int];
            lemma_blocks_deeper(m, env, blocks, (depth - 1) as nat, blocks.len() as int);
        }
    }
}

// ---------------------------------------------------------------------------
// Scanning
// ---------------------------------------------------------------------------

/// Scanning lists looks at their first items alone.
proof fn lemma_op_trees_prefix(t: TablesV, ops: Seq<OpN>, x: OpN, n: int)
    requires
        n <= ops.len(),
    ensures
        scan_op_trees(t, ops.push(x), n) == scan_op_trees(t, ops, n),
    decreases n,
{
    if n > 0 {
        lemma_op_trees_prefix(t, ops, x, n - 1);
    }
}

proof fn lemma_block_trees_prefix(t: TablesV, bs: Seq<BlockN>, x: BlockN, n: int)
    requires
        n <= bs.len(),
    ensures
        scan_block_trees(t, bs.push(x), n) == scan_block_trees(t, bs, n),
    decreases n,
{
    if n > 0 {
        lemma_block_trees_prefix(t, bs, x, n - 1);
    }
}

proof fn lemma_region_trees_prefix(t: TablesV, rs: Seq<Seq<BlockN>>, x: Seq<BlockN>, n: int)
    requires
        n <= rs.len(),
    ensures
        scan_region_trees(t, rs.push(x), n) == scan_region_trees(t, rs, n),
    decreases n,
{
    if n > 0 {
        lemma_region_trees_prefix(t, rs, x, n - 1);
    }
}

proof fn lemma_ops_scanned(
    t: TablesV,
    m: ModuleV,
    env: Seq<Value>,
    ids: Seq<OpId>,
    depth: nat,
    n: int,
)
    requires
        n >= 0,
    ensures
        number::number_ops(m, env, ids, depth, n) matches Ok((ops, _)) ==> ops.len() == n
            && prescan::scan_ops(t, m, ids, depth, n) == Ok::<TablesV, WriteError>(
            scan_op_trees(t, ops, n),
        ),
    decreases depth, 2int, n,
{
    if n > 0 {
        lemma_ops_scanned(t, m, env, ids, depth, n - 1);
        match number::number_ops(m, env, ids, depth, n - 1) {
            Ok((ops, env1)) => match number::number_op(m, env1, ids[n - 1], depth) {
                Ok((op, _)) => {
                    let t1 = scan_op_trees(t, ops, n - 1);
                    let o = m.ops[ids[n - 1].0 as int];
                    let t2 = prescan::scan_dict(
                        collect::with_types(t1, o.result_types),
                        o.attributes,
                        o.attributes.len() as int,
                    );
                    lemma_regions_scanned(t2, m, env1, o.regions, depth, o.regions.len() as int);
                    lemma_op_trees_prefix(t, ops, op, n - 1);
                    assert(ops.push(op)[n - 1] == op);
                    assert(scan_op_tree(t1, op) == scan_region_trees(
                        t2,
                        op.regions,
                        op.regions.len() as int,
                    ));
                    assert(scan_op_trees(t, ops.push(op), n) == scan_op_tree(t1, op));
                },
                Err(_) => {},
            },
            Err(_) => {},
        }
    }
}

proof fn lemma_blocks_scanned(
    t: TablesV,
    m: ModuleV,
    env: Seq<Value>,
    ids: Seq<BlockId>,
    depth: nat,
    n: int,
)
    requires
        n >= 0,
    ensures
        number::number_blocks(m, env, ids, depth, n) matches Ok(bs) ==> bs.len() == n
            && prescan::scan_blocks(t, m, ids, depth, n) == Ok::<TablesV, WriteError>(
            scan_block_trees(t, bs, n),
        ),
    decreases depth, 4int, n,
{
    if n > 0 {
        lemma_blocks_scanned(t, m, env, ids, depth, n - 1);
        match number::number_blocks(m, env, ids, depth, n - 1) {
            Ok(bs) => match number::number_block(m, env, ids[n - 1], depth) {
                Ok(b) => {
                    let t1 = scan_block_trees(t, bs, n - 1);
                    let v = m.blocks[ids[n - 1].0 as int];
                    lemma_ops_scanned(
                        collect::with_types(t1, number::arg_types(v.args)),
                        m,
                        env + number::arg_values(v.args),
                        v.ops,
                        depth,
                        v.ops.len() as int,
                    );
                    lemma_block_trees_prefix(t, bs, b, n - 1);
                    assert(bs.push(b)[n - 1] == b);
                },
                Err(_) => {},
            },
            Err(_) => {},
        }
    }
}

proof fn lemma_regions_scanned(
    t: TablesV,
    m: ModuleV,
    env: Seq<Value>,
    ids: Seq<RegionId>,
    depth: nat,
    n: int,
)
    requires
        n >= 0,
    ensures
        number::number_regions(m, env, ids, depth, n) matches Ok(rs) ==> rs.len() == n
            && prescan::scan_regions(t, m, ids, depth, n) == Ok::<TablesV, WriteError>(
            scan_region_trees(t, rs, n),
        ),
    decreases depth, 0int, n,
{
    if n > 0 {
        lemma_regions_scanned(t, m, env, ids, depth, n - 1);
        match number::number_regions(m, env, ids, depth, n - 1) {
            Ok(rs) => if depth > 0 && ids[n - 1].0 < m.regions.len() {
                let t1 = scan_region_trees(t, rs, n - 1);
                let blocks = m.regions[ids[n - 1].0 as int];
                let k = blocks.len() as int;
                lemma_blocks_scanned(t1, m, env, blocks, (depth - 1) as nat, k);
                match number::number_blocks(m, env, blocks, (depth - 1) as nat, k) {
                    Ok(g) => {
                        lemma_region_trees_prefix(t, rs, g, n - 1);
                        assert(rs.push(g)[n - 1] == g);
                    },
                    Err(_) => {},
                }
            },
            Err(_) => {},
        }
    }
}

// ---------------------------------------------------------------------------
// Records
// ---------------------------------------------------------------------------

/// The first of some blocks.
proof fn lemma_first_block(m: ModuleV, env: Seq<Value>, ids: Seq<BlockId>, depth: nat, n: int)
    requires
        n >= 1,
    ensures
        number::number_blocks(m, env, ids, depth, n) matches Ok(bs) ==> bs.len() == n
            && number::number_block(m, env, ids[0], depth) == Ok::<BlockN, WriteError>(bs[0]),
    decreases n,
{
    if n > 1 {
        lemma_first_block(m, env, ids, depth, n - 1);
    } else {
        assert(number::number_blocks(m, env, ids, depth, 0) == Ok::<Seq<BlockN>, WriteError>(
            seq![],
        ));
    }
}

/// The first of some regions.
proof fn lemma_first_region(m: ModuleV, env: Seq<Value>, ids: Seq<RegionId>, depth: nat, n: int)
    requires
        n >= 1,
    ensures
        number::number_regions(m, env, ids, depth, n) matches Ok(rs) ==> rs.len() == n && depth > 0
            && ids[0].0 < m.regions.len() && number::number_blocks(
            m,
            env,
            m.regions[ids[0].0 as int],
            (depth - 1) as nat,
            m.regions[ids[0].0 as int].len() as int,
        ) == Ok::<Seq<BlockN>, WriteError>(rs[0]),
    decreases n,
{
    if n > 1 {
        lemma_first_region(m, env, ids, depth, n - 1);
    } else {
        assert(number::number_regions(m, env, ids, depth, 0) == Ok::<
            Seq<Seq<BlockN>>,
            WriteError,
        >(seq![]));
    }
}

/// The operations of a function are those of its tree.
proof fn lemma_body(m: ModuleV, id: OpId, tree: OpN, env: Seq<Value>)
    requires
        number::number_op(m, seq![], id, prescan::nesting(m)) == Ok::<
            (OpN, Seq<Value>),
            WriteError,
        >((tree, env)),
    ensures
        records::function_body(m, m.ops[id.0 as int]) == Ok::<Seq<OpN>, WriteError>(
            tree_body(tree),
        ),
{
    let op = m.ops[id.0 as int];
    let d = prescan::nesting(m);
    let none = Seq::<Value>::empty();
    lemma_regions_scanned(attr_writer::empty_tables(), m, none, op.regions, d, op.regions.len() as int);
    if op.regions.len() > 0 {
        lemma_first_region(m, none, op.regions, d, op.regions.len() as int);
        let blocks = m.regions[op.regions[0].0 as int];
        let n = blocks.len() as int;
        lemma_blocks_scanned(attr_writer::empty_tables(), m, none, blocks, (d - 1) as nat, n);
        if n > 0 {
            lemma_first_block(m, none, blocks, (d - 1) as nat, n);
            let b = m.blocks[blocks[0].0 as int];
            let values = number::arg_values(b.args);
            assert(none + values =~= values);
            lemma_ops_deeper(m, values, b.ops, (d - 1) as nat, b.ops.len() as int);
        }
    }
}

proof fn lemma_record(m: ModuleV, i: int, tree: OpN, version: BytecodeVersion)
    requires
        function_tree(m, i) == Ok::<OpN, WriteError>(tree),
    ensures
        records::record_of(m, m.functions[i], version) == tree_record(tree, version),
{
    let id = m.functions[i];
    match number::number_op(m, seq![], id, prescan::nesting(m)) {
        Ok((op, env)) => lemma_body(m, id, op, env),
        Err(_) => {},
    }
}

proof fn lemma_records(m: ModuleV, fs: Seq<OpN>, version: BytecodeVersion, n: int)
    requires
        has_trees(m, fs),
        0 <= n <= fs.len(),
    ensures
        records::records_of(m, version, n) == tree_records(fs, version, n),
    decreases n,
{
    if n > 0 {
        lemma_records(m, fs, version, n - 1);
        assert(function_tree(m, n - 1) == Ok::<OpN, WriteError>(fs[n - 1]));
        lemma_record(m, n - 1, fs[n - 1], version);
    }
}

/// The first `n` functions are scanned as their trees are.
pub proof fn lemma_scan_trees(t: TablesV, m: ModuleV, fs: Seq<OpN>, n: int)
    requires
        has_trees(m, fs),
        0 <= n <= fs.len(),
    ensures
        prescan::scan_functions(t, m, n) == Ok::<TablesV, WriteError>(scan_trees(t, fs, n)),
    decreases n,
{
    if n > 0 {
        lemma_scan_trees(t, m, fs, n - 1);
        assert(function_tree(m, n - 1) == Ok::<OpN, WriteError>(fs[n - 1]));
        let op = m.ops[m.functions[n - 1].0 as int];
        lemma_regions_scanned(
            prescan::scan_dict(
                scan_trees(t, fs, n - 1),
                op.attributes,
                op.attributes.len() as int,
            ),
            m,
            seq![],
            op.regions,
            prescan::nesting(m),
            op.regions.len() as int,
        );
    }
}

// ---------------------------------------------------------------------------
// Files
// ---------------------------------------------------------------------------

/// What a module is written to depends on its global variables and on the
/// trees of its functions alone: not on how its arenas are laid out, nor on
/// its name.
pub proof fn lemma_written_from_trees(m: ModuleV, fs: Seq<OpN>, version: BytecodeVersion)
    requires
        has_trees(m, fs),
    ensures
        writer::collected_module(m, version) == collected_trees(m.globals, fs, version),
        writer::written(m, version) == written_trees(m.globals, fs, version),
{
    let t0 = prescan::scan_globals(
        attr_writer::empty_tables(),
        m.globals,
        m.globals.len() as int,
    );
    lemma_scan_trees(t0, m, fs, fs.len() as int);
    lemma_records(m, fs, version, fs.len() as int);
}

/// The trees of a file's functions.
pub open spec fn entry_trees(f: FileN) -> Seq<OpN> {
    Seq::new(f.functions.len(), |i: int| restore::entry_tree(f.functions[i]))
}

/// Every operand in a file is defined.
pub open spec fn scoped_file(f: FileN) -> bool {
    forall|i: int| 0 <= i < f.functions.len() ==> restore::scoped_function(#[trigger] f.functions[i])
}

/// The module that a file holds has the file's global variables and functions.
pub proof fn lemma_module_of_file(f: FileN)
    requires
        scoped_file(f),
        restore::small(reader::module_of(f)),
    ensures
        reader::module_of(f).globals == f.globals,
        has_trees(reader::module_of(f), entry_trees(f)),
{
    let m = reader::module_of(f);
    restore::lemma_functions_held(f);
    assert forall|i: int| 0 <= i < f.functions.len() implies #[trigger] function_tree(m, i) == Ok::<
        OpN,
        WriteError,
    >(entry_trees(f)[i]) by {
        assert(restore::scoped_function(f.functions[i]));
        restore::lemma_function_found(f, i);
    }
}

// ---------------------------------------------------------------------------
// Functions that were read
// ---------------------------------------------------------------------------

/// The record of a function that was read.
pub open spec fn record_again(r: RecordV, t: TablesV, v13_3: bool) -> RecordV {
    let f = func_roundtrip::read_function(r, t, v13_3);
    RecordV {
        name: f.name,
        signature: TypeV::Func(f.inputs, f.results),
        kernel: true,
        hints: f.hints,
        di_name: f.di_name,
        location: f.location,
        ops: f.ops,
    }
}

/// What the attributes of a function that was read hold.
proof fn lemma_entry_attrs(f: FuncN)
    ensures
        ({
            let s = reader::entry_attrs(f);
            &&& records::string_attr(s, layout::name_text(AttrName::SymName)) == Some(f.name)
            &&& records::string_attr(s, layout::name_text(AttrName::DiName)) == f.di_name
            &&& records::type_attr(s, layout::name_text(AttrName::FunctionType)) == Some(
                TypeV::Func(f.inputs, f.results),
            )
            &&& body_writer::find_attr(s, layout::name_text(AttrName::OptimizationHints)) == f.hints
        }),
{
    let s = reader::entry_attrs(f);
    layout_facts::lemma_names_differ(AttrName::SymName, AttrName::DiName);
    layout_facts::lemma_names_differ(AttrName::SymName, AttrName::FunctionType);
    layout_facts::lemma_names_differ(AttrName::SymName, AttrName::OptimizationHints);
    layout_facts::lemma_names_differ(AttrName::DiName, AttrName::FunctionType);
    layout_facts::lemma_names_differ(AttrName::DiName, AttrName::OptimizationHints);
    layout_facts::lemma_names_differ(AttrName::FunctionType, AttrName::OptimizationHints);
    reveal_with_fuel(records::string_attr_in, 5);
    reveal_with_fuel(records::type_attr_in, 5);
    reveal_with_fuel(body_writer::find_attr_in, 5);
}

/// Hints that were read need no newer version.
proof fn lemma_hints_as_old(h: AttrV, version: BytecodeVersion)
    requires
        !records::too_new(Some(h), version),
    ensures
        !records::too_new(Some(attr_writer::normal_attr(h)), version),
{
    match h {
        AttrV::Hints(s) => {
            let q = attr_writer::normal_hints(s, s.len() as int);
            again::lemma_normal_hints(s, s.len() as int);
            if records::has_new_hint(q) {
                let (i, j) = choose|i: int, j: int|
                    0 <= i < q.len() && 0 <= j < q[i].1.len() && #[trigger] q[i].1[j].0
                        == "num_worker_warps_per_cta"@;
                again::lemma_normal_dict(s[i].1, s[i].1.len() as int);
                assert(s[i].1[j].0 == q[i].1[j].0);
            }
        },
        _ => {},
    }
}

/// The record of a function that was read, from its tree.
proof fn lemma_record_of_entry(
    r: RecordV,
    t: TablesV,
    version: BytecodeVersion,
)
    requires
        !records::too_new(r.hints, version),
        body_writer::check_ops(
            func_roundtrip::read_function(r, t, version.spec_v13_3()).ops,
            version.spec_v13_3(),
            func_roundtrip::read_function(r, t, version.spec_v13_3()).ops.len() as int,
        ) is None,
    ensures
        tree_record(
            restore::entry_tree(func_roundtrip::read_function(r, t, version.spec_v13_3())),
            version,
        ) == Ok::<RecordV, WriteError>(record_again(r, t, version.spec_v13_3())),
{
    let f = func_roundtrip::read_function(r, t, version.spec_v13_3());
    let tree = restore::entry_tree(f);
    lemma_entry_attrs(f);
    match r.hints {
        Some(h) => lemma_hints_as_old(h, version),
        None => {},
    }
    assert(tree_body(tree) == f.ops);
    assert(tree_hints(tree) == f.hints);
}

/// Two functions ask for the same and have the same bytes.
pub open spec fn same_record(
    r: RecordV,
    q: RecordV,
    v13_3: bool,
    s: CollectV,
    t: TablesV,
    index: int,
    c: int,
) -> bool {
    &&& records::record_checked(q, v13_3)
    &&& records::collect_record(s, q, v13_3) == records::collect_record(s, r, v13_3)
    &&& records::record_consts(q, v13_3) == records::record_consts(r, v13_3)
    &&& records::record_bytes(q, t, v13_3, index, c) == records::record_bytes(r, t, v13_3, index, c)
}

/// The debug information of a function that was read is the same.
proof fn lemma_scope_again(s: CollectV, r: RecordV, t0: TablesV, v13_3: bool)
    requires
        collect::collect_wf(s),
        records::collect_scope(s, r).entries.len() <= u32::MAX,
    ensures
        records::collect_scope(s, record_again(r, t0, v13_3)) == records::collect_scope(s, r),
        ops_again::ready(records::collect_scope(s, r), func_roundtrip::record_scope(r)),
{
    let q = record_again(r, t0, v13_3);
    let p = collect::pool(s);
    let display = records::display_of(r);
    let (p1, id) = debug_writer::function_scope(p, r.name, display, r.location);
    let (p2, loc) = debug_writer::location_attr(p1, id, r.location);
    let u = records::collect_scope(s, r);
    debug_writer::lemma_function_scope(p, r.name, display, r.location);
    debug_writer::lemma_location_attr(p1, id, r.location);
    assert(collect::pool(u) =~= p2);
    again::lemma_function_again(p, r.name, display, r.location);
    let (m, shown) = debug::located(
        debug_roundtrip::read_location(func_roundtrip::record_scope(r), r.location),
        r.name,
    );
    assert(records::display_of(q) == (match shown {
        Some(x) => x,
        None => r.name,
    }));
    again::lemma_scope_held(p1, func_roundtrip::record_scope(r), id, p2);
    records::lemma_collect_scope(s, r);
}

/// A function that was read asks for the same and has the same bytes.
proof fn lemma_record_again(
    r: RecordV,
    t0: TablesV,
    v13_3: bool,
    s: CollectV,
    t: TablesV,
    index: int,
    c: int,
)
    requires
        collect::collect_wf(s),
        records::record_checked(r, v13_3),
        r.kernel,
        r.signature is Func,
        records::collect_record(s, r, v13_3).entries.len() <= u32::MAX,
    ensures
        same_record(r, record_again(r, t0, v13_3), v13_3, s, t, index, c),
{
    let q = record_again(r, t0, v13_3);
    let scope = func_roundtrip::record_scope(r);
    let s1 = records::collect_head(s, r);
    let s2 = records::collect_scope(s1, r);
    let s3 = records::collect_record_hints(s2, r);
    let n = r.ops.len() as int;
    records::lemma_collect_head(s, r);
    records::lemma_collect_scope(s1, r);
    records::lemma_collect_record_hints(s2, r);
    collect::lemma_collect_ops(s3, r.ops, v13_3, n);
    assert(records::collect_head(s, q) == s1);
    lemma_scope_again(s1, r, t0, v13_3);
    match r.hints {
        Some(h) => again::lemma_attr_again(h, s2.t, t, c),
        None => {},
    }
    assert(records::collect_record_hints(s2, q) == s3);
    assert(ops_again::ready(s3, scope)) by {
        again::lemma_scope_held(collect::pool(s2), scope, s2.scope, collect::pool(s3));
    }
    ops_again::lemma_ops_again(
        r.ops,
        t0,
        v13_3,
        scope,
        s3,
        t,
        c + records::hint_consts(r).len(),
        n,
    );
    reveal(ops_again::same_ops);
}

/// The records of functions that were read.
pub open spec fn records_again(rs: Seq<RecordV>, t: TablesV, v13_3: bool) -> Seq<RecordV> {
    Seq::new(rs.len(), |i: int| record_again(rs[i], t, v13_3))
}

/// The first `n` functions that were read ask for the same and have the same
/// bytes.
pub proof fn lemma_records_again(
    s: CollectV,
    rs: Seq<RecordV>,
    t0: TablesV,
    v13_3: bool,
    t: TablesV,
    c: int,
    n: int,
)
    requires
        0 <= n <= rs.len(),
        collect::collect_wf(s),
        forall|i: int|
            0 <= i < rs.len() ==> {
                &&& records::record_checked(#[trigger] rs[i], v13_3)
                &&& rs[i].kernel
                &&& rs[i].signature is Func
            },
        records::collect_records(s, rs, v13_3, rs.len() as int).entries.len() <= u32::MAX,
    ensures
        ({
            let q = records_again(rs, t0, v13_3);
            &&& records::collect_records(s, q, v13_3, n) == records::collect_records(
                s,
                rs,
                v13_3,
                n,
            )
            &&& records::records_consts(q, v13_3, n) == records::records_consts(rs, v13_3, n)
            &&& records::records_bytes(q, t, v13_3, c, n) == records::records_bytes(
                rs,
                t,
                v13_3,
                c,
                n,
            )
            &&& forall|i: int| 0 <= i < n ==> records::record_checked(#[trigger] q[i], v13_3)
        }),
    decreases n,
{
    if n > 0 {
        let q = records_again(rs, t0, v13_3);
        let u = records::collect_records(s, rs, v13_3, n - 1);
        lemma_records_again(s, rs, t0, v13_3, t, c, n - 1);
        records::lemma_collect_records(s, rs, v13_3, n - 1);
        file_roundtrip::lemma_records_grow(s, rs, v13_3, n, rs.len() as int);
        assert(q[n - 1] == record_again(rs[n - 1], t0, v13_3));
        assert(records::record_checked(rs[n - 1], v13_3));
        lemma_record_again(
            rs[n - 1],
            t0,
            v13_3,
            u,
            t,
            n,
            c + records::records_consts(rs, v13_3, n - 1).len(),
        );
    }
}

// ---------------------------------------------------------------------------
// Global variables that were read
// ---------------------------------------------------------------------------

/// The first `n` global variables that were read ask for the same and have the same
/// bytes.
pub proof fn lemma_globals_again(gs: Seq<GlobalV>, t: TablesV, u: TablesV, v13_3: bool, n: int)
    requires
        0 <= n <= gs.len(),
    ensures
        ({
            let q = file_roundtrip::read_globals(gs, v13_3);
            &&& q.len() == gs.len()
            &&& prescan::scan_globals(u, q, n) == prescan::scan_globals(u, gs, n)
            &&& writer::with_global_data(u, q, n) == writer::with_global_data(u, gs, n)
            &&& writer::globals_bytes(q, t, v13_3, n) == writer::globals_bytes(gs, t, v13_3, n)
        }),
    decreases n,
{
    if n > 0 {
        lemma_globals_again(gs, t, u, v13_3, n - 1);
        assert(file_roundtrip::read_globals(gs, v13_3)[n - 1] == file_roundtrip::read_global(
            gs[n - 1],
            v13_3,
        ));
    }
}

// ---------------------------------------------------------------------------
// Files that were read
// ---------------------------------------------------------------------------

/// The strings and types that a module mentions, in the order in which it
/// mentions them first.
pub open spec fn mentions(m: ModuleV) -> Result<TablesV, WriteError> {
    prescan::scan_functions(
        prescan::scan_globals(attr_writer::empty_tables(), m.globals, m.globals.len() as int),
        m,
        m.functions.len() as int,
    )
}

/// Every function of a module is a kernel.
pub open spec fn kernels_only(rs: Seq<RecordV>) -> bool {
    forall|i: int| 0 <= i < rs.len() ==> (#[trigger] rs[i]).kernel
}

/// Records are made of hints that the version has.
pub proof fn lemma_hints_known(m: ModuleV, version: BytecodeVersion, n: int)
    ensures
        records::records_of(m, version, n) matches Ok(rs) ==> forall|i: int|
            0 <= i < rs.len() ==> !records::too_new((#[trigger] rs[i]).hints, version),
    decreases n,
{
    if n > 0 {
        lemma_hints_known(m, version, n - 1);
    }
}

/// The trees of functions that were read give their records.
pub proof fn lemma_tree_records(
    rs: Seq<RecordV>,
    t: TablesV,
    gs: Seq<GlobalV>,
    version: BytecodeVersion,
    n: int,
)
    requires
        0 <= n <= rs.len(),
        forall|i: int| 0 <= i < rs.len() ==> !records::too_new((#[trigger] rs[i]).hints, version),
        forall|i: int|
            0 <= i < rs.len() ==> records::record_checked(
                #[trigger] records_again(rs, t, version.spec_v13_3())[i],
                version.spec_v13_3(),
            ),
    ensures
        tree_records(entry_trees(file_roundtrip::read_file(gs, rs, t, version)), version, n) == Ok::<
            Seq<RecordV>,
            WriteError,
        >(records_again(rs, t, version.spec_v13_3()).take(n)),
    decreases n,
{
    let v = version.spec_v13_3();
    let q = records_again(rs, t, v);
    if n > 0 {
        lemma_tree_records(rs, t, gs, version, n - 1);
        assert(records::record_checked(q[n - 1], v));
        lemma_record_of_entry(rs[n - 1], t, version);
        assert(q.take(n - 1).push(q[n - 1]) =~= q.take(n));
    } else {
        assert(q.take(0) =~= seq![]);
    }
}

/// Reading what a module was written to and writing it again gives the same
/// bytes, where the module's functions are kernels and the strings and types
/// are mentioned in the order in which the file mentions them.
pub proof fn lemma_written_again(
    m: ModuleV,
    version: BytecodeVersion,
    rs: Seq<RecordV>,
    c: CollectV,
)
    requires
        writer::collected_module(m, version) == Ok::<(Seq<RecordV>, CollectV), WriteError>((rs, c)),
        file_roundtrip::readable_file(m.globals, rs, c, version),
        writer::file_fits(c, version),
        kernels_only(rs),
        restore::small(
            reader::module_of(file_roundtrip::read_file(m.globals, rs, c.t, version)),
        ),
        mentions(m) == mentions(
            reader::module_of(file_roundtrip::read_file(m.globals, rs, c.t, version)),
        ),
    ensures
        ({
            let f = file_roundtrip::read_file(m.globals, rs, c.t, version);
            &&& writer::written(m, version) matches Ok(bytes) ==> reader::file_at(bytes) == Ok::<
                FileN,
                ReadError,
            >(f)
            &&& writer::written(reader::module_of(f), version) == writer::written(m, version)
        }),
{
    let v = version.spec_v13_3();
    let gs = m.globals;
    let n = rs.len() as int;
    let f = file_roundtrip::read_file(gs, rs, c.t, version);
    let q = records_again(rs, c.t, v);
    let s = file_roundtrip::before_functions(m);
    file_roundtrip::lemma_file_round_trip(m, version);
    writer::lemma_collected_module(m, version);
    writer::lemma_before_functions(m);
    lemma_hints_known(m, version, m.functions.len() as int);
    assert forall|i: int| 0 <= i < rs.len() implies (#[trigger] rs[i]).signature is Func by {
        assert(func_roundtrip::readable_record(rs[i], v));
    }
    lemma_records_again(s, rs, c.t, v, c.t, gs.len() as int, n);
    lemma_tree_records(rs, c.t, gs, version, n);
    assert(q.take(n) =~= q);
    lemma_file_scoped(gs, rs, c.t, version);
    lemma_module_of_file(f);
    lemma_written_from_trees(reader::module_of(f), entry_trees(f), version);
    let t1 = mentions(m)->Ok_0;
    lemma_globals_again(gs, c.t, attr_writer::empty_tables(), v, gs.len() as int);
    lemma_globals_again(gs, c.t, t1, v, gs.len() as int);
    lemma_scan_trees(
        prescan::scan_globals(attr_writer::empty_tables(), gs, gs.len() as int),
        reader::module_of(f),
        entry_trees(f),
        n,
    );
    assert(collected_trees(f.globals, entry_trees(f), version) == Ok::<
        (Seq<RecordV>, CollectV),
        WriteError,
    >((q, c)));
    assert(writer::file_bytes(f.globals, q, c, version) == writer::file_bytes(gs, rs, c, version));
}

/// A module of kernels whose functions have the form in which files carry them, with the
/// attributes that the reader gives, in its order, is written to the same bytes after it
/// was read.
pub proof fn lemma_plain_written_again(
    m: ModuleV,
    version: BytecodeVersion,
    rs: Seq<RecordV>,
    c: CollectV,
)
    requires
        writer::collected_module(m, version) == Ok::<(Seq<RecordV>, CollectV), WriteError>((rs, c)),
        file_roundtrip::readable_file(m.globals, rs, c, version),
        writer::file_fits(c, version),
        kernels_only(rs),
        restore::small(
            reader::module_of(file_roundtrip::read_file(m.globals, rs, c.t, version)),
        ),
        has_trees(m, entry_trees(file_roundtrip::read_file(m.globals, rs, c.t, version))),
    ensures
        ({
            let f = file_roundtrip::read_file(m.globals, rs, c.t, version);
            &&& writer::written(m, version) matches Ok(bytes) ==> reader::file_at(bytes) == Ok::<
                FileN,
                ReadError,
            >(f)
            &&& writer::written(reader::module_of(f), version) == writer::written(m, version)
        }),
{
    let gs = m.globals;
    let k = gs.len() as int;
    let f = file_roundtrip::read_file(gs, rs, c.t, version);
    let m2 = reader::module_of(f);
    let e = attr_writer::empty_tables();
    let n = rs.len() as int;
    writer::lemma_collected_module(m, version);
    lemma_file_scoped(gs, rs, c.t, version);
    lemma_module_of_file(f);
    lemma_globals_again(gs, c.t, e, version.spec_v13_3(), k);
    lemma_scan_trees(prescan::scan_globals(e, gs, k), m, entry_trees(f), n);
    lemma_scan_trees(prescan::scan_globals(e, gs, k), m2, entry_trees(f), n);
    lemma_written_again(m, version, rs, c);
}

/// Every operand in what is read back is defined.
pub proof fn lemma_file_scoped(
    gs: Seq<GlobalV>,
    rs: Seq<RecordV>,
    t: TablesV,
    version: BytecodeVersion,
)
    requires
        forall|i: int|
            0 <= i < rs.len() ==> {
                &&& records::record_checked(#[trigger] rs[i], version.spec_v13_3())
                &&& func_roundtrip::readable_record(rs[i], version.spec_v13_3())
            },
    ensures
        scoped_file(file_roundtrip::read_file(gs, rs, t, version)),
{
    let v = version.spec_v13_3();
    let f = file_roundtrip::read_file(gs, rs, t, version);
    assert forall|i: int| 0 <= i < f.functions.len() implies restore::scoped_function(
        #[trigger] f.functions[i],
    ) by {
        let r = rs[i];
        assert(records::record_checked(r, v));
        ops_again::lemma_ops_scoped(
            r.ops,
            t,
            v,
            func_roundtrip::record_scope(r),
            f.functions[i].inputs.len() as int,
            r.ops.len() as int,
        );
    }
}

} // verus!
