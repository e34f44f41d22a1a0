//! Function records: what the function section holds of a function, how the
//! tables are filled for it, and its bytes.
use vstd::prelude::*;
use crate::bytecode::attr_writer::Pools;
use crate::bytecode::attr_writer;
use crate::bytecode::attrs::TablesV;
use crate::bytecode::body_writer::{check_operations, find_attribute, write_operations};
use crate::bytecode::body_writer;
use crate::bytecode::collect::{CollectV, Collector};
use crate::bytecode::collect;
use crate::bytecode::debug_writer;
use crate::bytecode::encoding::EncodingWriter;
use crate::bytecode::enums::{BytecodeVersion, FLAG_HINTS, FLAG_KERNEL};
use crate::bytecode::layout::AttrName;
use crate::bytecode::layout;
use crate::bytecode::node::{OpN, OpNode};
use crate::bytecode::node;
use crate::bytecode::number::{number_operations, start_args};
use crate::bytecode::number;
use crate::bytecode::opcode::Opcode;
use crate::bytecode::prescan;
use crate::bytecode::type_writer::write_ref;
use crate::bytecode::wire;
use crate::error::WriteError;
use crate::ir::attr::{AttrV, Attribute};
use crate::ir::attr;
use crate::ir::location::{Location, LocationV};
use crate::ir::module::{Module, ModuleV, OpId, Operation, OperationV, Value};
use crate::ir::types::{Type, TypeV};
use crate::text::same_text;

verus! {

// ---------------------------------------------------------------------------
// What a record holds
// ---------------------------------------------------------------------------

/// A function as it is written.
pub struct FuncRecord {
    pub name: String,
    pub signature: Type,
    pub kernel: bool,
    pub hints: Option<Attribute>,
    pub di_name: Option<String>,
    pub location: Location,
    pub ops: Vec<OpNode>,
}

/// The contents of a function record.
#[verifier::ext_equal]
pub struct RecordV {
    pub name: Seq<char>,
    pub signature: TypeV,
    pub kernel: bool,
    pub hints: Option<AttrV>,
    pub di_name: Option<Seq<char>>,
    pub location: LocationV,
    pub ops: Seq<OpN>,
}

impl View for FuncRecord {
    type V = RecordV;

    open spec fn view(&self) -> RecordV {
        RecordV {
            name: self.name@,
            signature: self.signature@,
            kernel: self.kernel,
            hints: match self.hints {
                Some(h) => Some(h@),
                None => None,
            },
            di_name: match self.di_name {
                Some(s) => Some(s@),
                None => None,
            },
            location: self.location@,
            ops: node::ops_view(self.ops@),
        }
    }
}

/// The first text among the first `n` attributes that has a name.
pub open spec fn string_attr_in(s: Seq<(Seq<char>, AttrV)>, name: Seq<char>, n: int) -> Option<
    Seq<char>,
>
    decreases n,
{
    if n <= 0 {
        None
    } else {
        match string_attr_in(s, name, n - 1) {
            Some(t) => Some(t),
            None => match s[n - 1].1 {
                AttrV::Str(t) => if s[n - 1].0 == name {
                    Some(t)
                } else {
                    None
                },
                _ => None,
            },
        }
    }
}

/// The first text that has a name.
pub open spec fn string_attr(s: Seq<(Seq<char>, AttrV)>, name: Seq<char>) -> Option<Seq<char>> {
    string_attr_in(s, name, s.len() as int)
}

/// The first type among the first `n` attributes that has a name.
pub open spec fn type_attr_in(s: Seq<(Seq<char>, AttrV)>, name: Seq<char>, n: int) -> Option<TypeV>
    decreases n,
{
    if n <= 0 {
        None
    } else {
        match type_attr_in(s, name, n - 1) {
            Some(t) => Some(t),
            None => match s[n - 1].1 {
                AttrV::Type(t) => if s[n - 1].0 == name {
                    Some(t)
                } else {
                    None
                },
                _ => None,
            },
        }
    }
}

/// The first type that has a name.
pub open spec fn type_attr(s: Seq<(Seq<char>, AttrV)>, name: Seq<char>) -> Option<TypeV> {
    type_attr_in(s, name, s.len() as int)
}

/// Whether hints hold, for some architecture, a hint that came with 13.3.
pub open spec fn has_new_hint(h: Seq<(Seq<char>, Seq<(Seq<char>, AttrV)>)>) -> bool {
    exists|i: int, j: int|
        0 <= i < h.len() && 0 <= j < h[i].1.len() && #[trigger] h[i].1[j].0
            == "num_worker_warps_per_cta"@
}

/// The hints that are written for a function: kernels alone have them.
pub open spec fn written_hints(op: OperationV) -> Option<AttrV> {
    if op.opcode == Opcode::Entry {
        body_writer::find_attr(op.attributes, layout::name_text(AttrName::OptimizationHints))
    } else {
        None
    }
}

/// Whether hints need a newer version than the one asked for.
pub open spec fn too_new(hints: Option<AttrV>, version: BytecodeVersion) -> bool {
    !version.spec_v13_3() && (match hints {
        Some(AttrV::Hints(h)) => has_new_hint(h),
        _ => false,
    })
}

/// The operations of a function: those of the first block of its first region.
pub open spec fn function_body(m: ModuleV, op: OperationV) -> Result<Seq<OpN>, WriteError> {
    if op.regions.len() == 0 {
        Ok(seq![])
    } else if op.regions[0].0 >= m.regions.len() {
        Err(WriteError::DanglingId(op.regions[0].0))
    } else {
        let blocks = m.regions[op.regions[0].0 as int];
        if blocks.len() == 0 {
            Ok(seq![])
        } else if blocks[0].0 >= m.blocks.len() {
            Err(WriteError::DanglingId(blocks[0].0))
        } else {
            let b = m.blocks[blocks[0].0 as int];
            match number::number_ops(
                m,
                number::arg_values(b.args),
                b.ops,
                prescan::nesting(m),
                b.ops.len() as int,
            ) {
                Ok((ops, _)) => Ok(ops),
                Err(e) => Err(e),
            }
        }
    }
}

/// The record of a function.
pub open spec fn record_of(m: ModuleV, id: OpId, version: BytecodeVersion) -> Result<
    RecordV,
    WriteError,
> {
    if id.0 >= m.ops.len() {
        Err(WriteError::DanglingId(id.0))
    } else {
        let op = m.ops[id.0 as int];
        match string_attr(op.attributes, layout::name_text(AttrName::SymName)) {
            None => Err(WriteError::MissingSymName),
            Some(name) => match type_attr(
                op.attributes,
                layout::name_text(AttrName::FunctionType),
            ) {
                None => Err(WriteError::MissingFunctionType),
                Some(signature) => if too_new(written_hints(op), version) {
                    Err(
                        WriteError::HintNeedsNewerVersion(
                            version.major,
                            version.minor,
                            version.tag,
                        ),
                    )
                } else {
                    match function_body(m, op) {
                        Ok(ops) => match body_writer::check_ops(
                            ops,
                            version.spec_v13_3(),
                            ops.len() as int,
                        ) {
                            None => Ok(
                                RecordV {
                                    name,
                                    signature,
                                    kernel: op.opcode == Opcode::Entry,
                                    hints: written_hints(op),
                                    di_name: string_attr(
                                        op.attributes,
                                        layout::name_text(AttrName::DiName),
                                    ),
                                    location: op.location,
                                    ops,
                                },
                            ),
                            Some(e) => Err(e),
                        },
                        Err(e) => Err(e),
                    }
                },
            },
        }
    }
}

/// The records of the first `n` functions.
pub open spec fn records_of(m: ModuleV, version: BytecodeVersion, n: int) -> Result<
    Seq<RecordV>,
    WriteError,
>
    decreases n,
{
    if n <= 0 {
        Ok(seq![])
    } else {
        match records_of(m, version, n - 1) {
            Ok(s) => match record_of(m, m.functions[n - 1], version) {
                Ok(r) => Ok(s.push(r)),
                Err(e) => Err(e),
            },
            Err(e) => Err(e),
        }
    }
}

/// The contents of records.
pub open spec fn records_view(s: Seq<FuncRecord>) -> Seq<RecordV> {
    Seq::new(s.len(), |i: int| s[i]@)
}

proof fn lemma_records_error(m: ModuleV, version: BytecodeVersion, k: int, n: int)
    requires
        0 <= k <= n,
        records_of(m, version, k) is Err,
    ensures
        records_of(m, version, n) == records_of(m, version, k),
    decreases n,
{
    if k < n {
        lemma_records_error(m, version, k, n - 1);
    }
}

proof fn lemma_string_attr_found(s: Seq<(Seq<char>, AttrV)>, name: Seq<char>, k: int, n: int)
    requires
        0 <= k <= n,
        string_attr_in(s, name, k) is Some,
    ensures
        string_attr_in(s, name, n) == string_attr_in(s, name, k),
    decreases n,
{
    if k < n {
        lemma_string_attr_found(s, name, k, n - 1);
    }
}

proof fn lemma_type_attr_found(s: Seq<(Seq<char>, AttrV)>, name: Seq<char>, k: int, n: int)
    requires
        0 <= k <= n,
        type_attr_in(s, name, k) is Some,
    ensures
        type_attr_in(s, name, n) == type_attr_in(s, name, k),
    decreases n,
{
    if k < n {
        lemma_type_attr_found(s, name, k, n - 1);
    }
}

fn find_string_attr(attrs: &Vec<(String, Attribute)>, name: &str) -> (r: Option<String>)
    ensures
        match r {
            Some(s) => string_attr(attr::dict_view(attrs@), name@) == Some(s@),
            None => string_attr(attr::dict_view(attrs@), name@) is None,
        },
{
    let ghost s = attr::dict_view(attrs@);
    let mut i: usize = 0;
    while i < attrs.len()
        invariant
            i <= attrs@.len(),
            s == attr::dict_view(attrs@),
            string_attr_in(s, name@, i as int) is None,
        decreases attrs@.len() - i,
    {
        assert(s[i as int] == (attrs@[i as int].0@, attrs@[i as int].1@));
        match &attrs[i].1 {
            Attribute::String(t) => {
                if same_text(attrs[i].0.as_str(), name) {
                    proof {
                        lemma_string_attr_found(s, name@, i + 1, s.len() as int);
                    }
                    return Some(t.clone());
                }
            },
            _ => {},
        }
        i = i + 1;
    }
    None
}

fn find_type_attr(attrs: &Vec<(String, Attribute)>, name: &str) -> (r: Option<Type>)
    ensures
        match r {
            Some(t) => type_attr(attr::dict_view(attrs@), name@) == Some(t@),
            None => type_attr(attr::dict_view(attrs@), name@) is None,
        },
{
    let ghost s = attr::dict_view(attrs@);
    let mut i: usize = 0;
    while i < attrs.len()
        invariant
            i <= attrs@.len(),
            s == attr::dict_view(attrs@),
            type_attr_in(s, name@, i as int) is None,
        decreases attrs@.len() - i,
    {
        assert(s[i as int] == (attrs@[i as int].0@, attrs@[i as int].1@));
        match &attrs[i].1 {
            Attribute::Type(t) => {
                if same_text(attrs[i].0.as_str(), name) {
                    proof {
                        lemma_type_attr_found(s, name@, i + 1, s.len() as int);
                    }
                    return Some(t.duplicate());
                }
            },
            _ => {},
        }
        i = i + 1;
    }
    None
}

fn names_new_hint(hints: &Vec<(String, Attribute)>) -> (r: bool)
    ensures
        r == (exists|j: int|
            0 <= j < hints@.len() && #[trigger] attr::dict_view(hints@)[j].0
                == "num_worker_warps_per_cta"@),
{
    let ghost s = attr::dict_view(hints@);
    let mut j: usize = 0;
    while j < hints.len()
        invariant
            j <= hints@.len(),
            s == attr::dict_view(hints@),
            forall|k: int| 0 <= k < j ==> #[trigger] s[k].0 != "num_worker_warps_per_cta"@,
        decreases hints@.len() - j,
    {
        assert(s[j as int].0 == hints@[j as int].0@);
        if same_text(hints[j].0.as_str(), "num_worker_warps_per_cta") {
            return true;
        }
        j = j + 1;
    }
    false
}

fn any_new_hint(v: &Vec<(String, Vec<(String, Attribute)>)>) -> (r: bool)
    ensures
        r == has_new_hint(attr::hints_view(v@)),
{
    let ghost h = attr::hints_view(v@);
    let mut i: usize = 0;
    while i < v.len()
        invariant
            i <= v@.len(),
            h == attr::hints_view(v@),
            forall|k: int, j: int|
                0 <= k < i && 0 <= j < h[k].1.len() ==> #[trigger] h[k].1[j].0
                    != "num_worker_warps_per_cta"@,
        decreases v@.len() - i,
    {
        assert(h[i as int].1 == attr::dict_view(v@[i as int].1@));
        if names_new_hint(&v[i].1) {
            proof {
                let j = choose|j: int|
                    0 <= j < v@[i as int].1@.len() && #[trigger] attr::dict_view(
                        v@[i as int].1@,
                    )[j].0 == "num_worker_warps_per_cta"@;
                assert(h[i as int].1[j].0 == "num_worker_warps_per_cta"@);
            }
            return true;
        }
        i = i + 1;
    }
    false
}

fn function_operations(m: &Module, op: &Operation) -> (res: Result<Vec<OpNode>, WriteError>)
    ensures
        match function_body(m@, op@) {
            Ok(ops) => res is Ok && node::ops_view(res->Ok_0@) == ops,
            Err(e) => res == Err::<Vec<OpNode>, WriteError>(e),
        },
{
    let none: Vec<OpNode> = Vec::new();
    assert(node::ops_view(none@) =~= seq![]);
    if op.regions.len() == 0 {
        return Ok(none);
    }
    let region = match m.region(op.regions[0]) {
        Some(g) => g,
        None => {
            return Err(WriteError::DanglingId(op.regions[0].0));
        },
    };
    if region.blocks.len() == 0 {
        return Ok(none);
    }
    let b = match m.block(region.blocks[0]) {
        Some(b) => b,
        None => {
            return Err(WriteError::DanglingId(region.blocks[0].0));
        },
    };
    let mut env: Vec<Value> = Vec::new();
    let _arg_types = start_args(&mut env, &b.args);
    assert(env@ =~= number::arg_values(b@.args));
    number_operations(m, &mut env, &b.ops, m.ops.len())
}

/// The record of a function.
pub fn function_record(m: &Module, id: OpId, version: BytecodeVersion) -> (res: Result<
    FuncRecord,
    WriteError,
>)
    ensures
        match record_of(m@, id, version) {
            Ok(r) => res is Ok && res->Ok_0@ == r,
            Err(e) => res == Err::<FuncRecord, WriteError>(e),
        },
{
    let op = match m.op(id) {
        Some(op) => op,
        None => {
            return Err(WriteError::DanglingId(id.0));
        },
    };
    let name = match find_string_attr(&op.attributes, AttrName::SymName.text()) {
        Some(s) => s,
        None => {
            return Err(WriteError::MissingSymName);
        },
    };
    let signature = match find_type_attr(&op.attributes, AttrName::FunctionType.text()) {
        Some(t) => t,
        None => {
            return Err(WriteError::MissingFunctionType);
        },
    };
    let kernel: bool = op.opcode == Opcode::Entry;
    let found: Option<&Attribute> = if kernel {
        find_attribute(&op.attributes, AttrName::OptimizationHints.text())
    } else {
        None
    };
    if !version.is_v13_3() {
        if let Some(Attribute::OptimizationHints(h)) = found {
            if any_new_hint(&h.entries) {
                return Err(
                    WriteError::HintNeedsNewerVersion(version.major, version.minor, version.tag),
                );
            }
        }
    }
    let hints: Option<Attribute> = match found {
        Some(h) => Some(h.duplicate()),
        None => None,
    };
    let di_name = find_string_attr(&op.attributes, AttrName::DiName.text());
    let ops = function_operations(m, op)?;
    match check_operations(&ops, version.is_v13_3()) {
        Some(e) => Err(e),
        None => Ok(
            FuncRecord {
                name,
                signature,
                kernel,
                hints,
                di_name,
                location: op.location.duplicate(),
                ops,
            },
        ),
    }
}

/// The records of a module's functions.
pub fn function_records(m: &Module, version: BytecodeVersion) -> (res: Result<
    Vec<FuncRecord>,
    WriteError,
>)
    ensures
        match records_of(m@, version, m@.functions.len() as int) {
            Ok(s) => res is Ok && records_view(res->Ok_0@) == s,
            Err(e) => res == Err::<Vec<FuncRecord>, WriteError>(e),
        },
{
    let ghost mv = m@;
    let mut out: Vec<FuncRecord> = Vec::new();
    assert(records_view(out@) =~= seq![]);
    let mut i: usize = 0;
    while i < m.functions.len()
        invariant
            i <= m.functions@.len(),
            mv == m@,
            records_of(mv, version, i as int) == Ok::<Seq<RecordV>, WriteError>(
                records_view(out@),
            ),
        decreases m.functions@.len() - i,
    {
        proof {
            if records_of(mv, version, i + 1) is Err {
                lemma_records_error(mv, version, i + 1, mv.functions.len() as int);
            }
        }
        let r = function_record(m, m.functions[i], version)?;
        let ghost before = out@;
        out.push(r);
        assert(records_view(out@) =~= records_view(before).push(r@));
        i = i + 1;
    }
    Ok(out)
}

// ---------------------------------------------------------------------------
// Filling the tables
// ---------------------------------------------------------------------------

/// The name of a function in the debug information.
pub open spec fn display_of(r: RecordV) -> Seq<char> {
    match r.di_name {
        Some(s) => s,
        None => r.name,
    }
}

/// The tables behind name and signature.
pub open spec fn collect_head(s: CollectV, r: RecordV) -> CollectV {
    CollectV {
        t: attr_writer::with_type(attr_writer::with_string(s.t, r.name), r.signature),
        ..s
    }
}

/// The function's own debug information, which opens its list of debug ids.
pub open spec fn collect_scope(s: CollectV, r: RecordV) -> CollectV {
    let (p1, scope) = debug_writer::function_scope(
        collect::pool(s),
        r.name,
        display_of(r),
        r.location,
    );
    let (p2, id) = debug_writer::location_attr(p1, scope, r.location);
    CollectV { scope, lists: s.lists.push(seq![id]), ..collect::with_pool(s, p2) }
}

/// The tables behind the hints.
pub open spec fn collect_record_hints(s: CollectV, r: RecordV) -> CollectV {
    match r.hints {
        Some(h) => CollectV { t: attr_writer::intern_attr(s.t, h), ..s },
        None => s,
    }
}

/// A function, collected.
pub open spec fn collect_record(s: CollectV, r: RecordV, v13_3: bool) -> CollectV {
    collect::collect_ops(
        collect_record_hints(collect_scope(collect_head(s, r), r), r),
        r.ops,
        v13_3,
        r.ops.len() as int,
    )
}

/// The first `n` functions, collected.
pub open spec fn collect_records(s: CollectV, rs: Seq<RecordV>, v13_3: bool, n: int) -> CollectV
    decreases n,
{
    if n <= 0 {
        s
    } else {
        collect_record(collect_records(s, rs, v13_3, n - 1), rs[n - 1], v13_3)
    }
}

/// The constants of hints.
pub open spec fn hint_consts(r: RecordV) -> Seq<Seq<u8>> {
    match r.hints {
        Some(h) => attr_writer::attr_consts(h),
        None => seq![],
    }
}

/// The constants of a function.
pub open spec fn record_consts(r: RecordV, v13_3: bool) -> Seq<Seq<u8>> {
    hint_consts(r) + body_writer::ops_consts(r.ops, v13_3, r.ops.len() as int)
}

/// The constants of the first `n` functions.
pub open spec fn records_consts(rs: Seq<RecordV>, v13_3: bool, n: int) -> Seq<Seq<u8>>
    decreases n,
{
    if n <= 0 {
        seq![]
    } else {
        records_consts(rs, v13_3, n - 1) + record_consts(rs[n - 1], v13_3)
    }
}

/// Whether tables hold what a record refers to.
pub open spec fn record_covered(t: TablesV, r: RecordV, v13_3: bool) -> bool {
    &&& t.strings.contains(r.name)
    &&& t.types.contains(r.signature)
    &&& r.hints matches Some(h) ==> attr_writer::covers(t, h)
    &&& body_writer::ops_covered(t, r.ops, v13_3, r.ops.len() as int)
}

/// Whether a record can be written.
pub open spec fn record_checked(r: RecordV, v13_3: bool) -> bool {
    body_writer::check_ops(r.ops, v13_3, r.ops.len() as int) is None
}

/// `u` continues `s`, with the constants `c`; scopes aside.
pub open spec fn continued(s: CollectV, u: CollectV, c: Seq<Seq<u8>>) -> bool {
    &&& collect::collect_wf(u)
    &&& attr_writer::grown_by(s.t, u.t, c)
    &&& debug_writer::pool_grows(collect::pool(s), collect::pool(u))
}

/// Continuations compose.
pub proof fn lemma_continued(s: CollectV, u: CollectV, v: CollectV, c: Seq<Seq<u8>>, e: Seq<Seq<u8>>)
    requires
        continued(s, u, c),
        continued(u, v, e),
    ensures
        continued(s, v, c + e),
{
    attr_writer::lemma_grows(s.t, u.t, v.t);
    debug_writer::lemma_pool_grows(collect::pool(s), collect::pool(u), collect::pool(v));
    assert(s.t.constants + c + e =~= s.t.constants + (c + e));
}

/// Nothing added is a continuation.
pub proof fn lemma_continued_nothing(s: CollectV)
    requires
        collect::collect_wf(s),
    ensures
        continued(s, s, seq![]),
{
    attr_writer::lemma_grows(s.t, s.t, s.t);
    debug_writer::lemma_pool_grows(collect::pool(s), collect::pool(s), collect::pool(s));
    assert(s.t.constants + seq![] =~= s.t.constants);
}

/// Collecting name and signature.
pub proof fn lemma_collect_head(s: CollectV, r: RecordV)
    requires
        collect::collect_wf(s),
    ensures
        continued(s, collect_head(s, r), seq![]),
        collect_head(s, r).t.strings.contains(r.name),
        collect_head(s, r).t.types.contains(r.signature),
{
    let t1 = attr_writer::with_string(s.t, r.name);
    let t2 = attr_writer::with_type(t1, r.signature);
    attr_writer::lemma_with_string(s.t, r.name);
    attr_writer::lemma_with_type(t1, r.signature);
    attr_writer::lemma_grows(s.t, t1, t2);
    debug_writer::lemma_pool_grows(collect::pool(s), collect::pool(s), collect::pool(s));
    assert(s.t.constants + seq![] =~= s.t.constants);
}

/// Collecting a function's own debug information.
pub proof fn lemma_collect_scope(s: CollectV, r: RecordV)
    requires
        collect::collect_wf(s),
    ensures
        continued(s, collect_scope(s, r), seq![]),
{
    let p0 = collect::pool(s);
    debug_writer::lemma_function_scope(p0, r.name, display_of(r), r.location);
    let (p1, scope) = debug_writer::function_scope(p0, r.name, display_of(r), r.location);
    debug_writer::lemma_location_attr(p1, scope, r.location);
    let (p2, id) = debug_writer::location_attr(p1, scope, r.location);
    debug_writer::lemma_pool_grows(p0, p1, p2);
    assert(collect::pool(collect_scope(s, r)) =~= p2);
    attr_writer::lemma_grows(s.t, s.t, s.t);
    assert(s.t.constants + seq![] =~= s.t.constants);
}

/// Collecting hints.
pub proof fn lemma_collect_record_hints(s: CollectV, r: RecordV)
    requires
        collect::collect_wf(s),
    ensures
        continued(s, collect_record_hints(s, r), hint_consts(r)),
        r.hints matches Some(h) ==> attr_writer::covers(collect_record_hints(s, r).t, h),
{
    lemma_continued_nothing(s);
    match r.hints {
        Some(h) => {
            attr_writer::lemma_intern_attr(s.t, h);
            debug_writer::lemma_pool_grows(collect::pool(s), collect::pool(s), collect::pool(s));
        },
        None => {},
    }
}

/// What a record refers to stays in tables that grow.
pub proof fn lemma_record_covered_grows(t: TablesV, u: TablesV, r: RecordV, v13_3: bool)
    requires
        attr_writer::grows(t, u),
        record_covered(t, r, v13_3),
    ensures
        record_covered(u, r, v13_3),
{
    attr_writer::lemma_grown(t, u);
    match r.hints {
        Some(h) => attr_writer::lemma_covers_grows(t, u, h),
        None => {},
    }
    collect::lemma_ops_covered_grows(t, u, r.ops, v13_3, r.ops.len() as int);
}

/// Collecting a function puts everything that its record refers to into the
/// tables.
pub proof fn lemma_collect_record(s: CollectV, r: RecordV, v13_3: bool)
    requires
        collect::collect_wf(s),
        record_checked(r, v13_3),
    ensures
        continued(s, collect_record(s, r, v13_3), record_consts(r, v13_3)),
        record_covered(collect_record(s, r, v13_3).t, r, v13_3),
{
    let s1 = collect_head(s, r);
    let s2 = collect_scope(s1, r);
    let s3 = collect_record_hints(s2, r);
    let s4 = collect_record(s, r, v13_3);
    let e = body_writer::ops_consts(r.ops, v13_3, r.ops.len() as int);
    lemma_collect_head(s, r);
    lemma_collect_scope(s1, r);
    lemma_collect_record_hints(s2, r);
    collect::lemma_collect_ops(s3, r.ops, v13_3, r.ops.len() as int);
    assert(continued(s3, s4, e));
    lemma_continued(s, s1, s2, seq![], seq![]);
    lemma_continued(s, s2, s3, seq![] + seq![], hint_consts(r));
    assert(Seq::<Seq<u8>>::empty() + Seq::<Seq<u8>>::empty() + hint_consts(r) =~= hint_consts(r));
    lemma_continued(s, s3, s4, hint_consts(r), e);
    attr_writer::lemma_grows(s1.t, s2.t, s3.t);
    attr_writer::lemma_grows(s1.t, s3.t, s4.t);
    attr_writer::lemma_grown(s1.t, s4.t);
    match r.hints {
        Some(h) => attr_writer::lemma_covers_grows(s3.t, s4.t, h),
        None => {},
    }
}

/// Collecting functions puts everything that their records refer to into the
/// tables.
pub proof fn lemma_collect_records(s: CollectV, rs: Seq<RecordV>, v13_3: bool, n: int)
    requires
        collect::collect_wf(s),
        0 <= n <= rs.len(),
        forall|i: int| 0 <= i < n ==> record_checked(#[trigger] rs[i], v13_3),
    ensures
        continued(s, collect_records(s, rs, v13_3, n), records_consts(rs, v13_3, n)),
        forall|i: int|
            0 <= i < n ==> record_covered(
                collect_records(s, rs, v13_3, n).t,
                #[trigger] rs[i],
                v13_3,
            ),
    decreases n,
{
    if n > 0 {
        let u = collect_records(s, rs, v13_3, n - 1);
        let v = collect_records(s, rs, v13_3, n);
        lemma_collect_records(s, rs, v13_3, n - 1);
        lemma_collect_record(u, rs[n - 1], v13_3);
        lemma_continued(
            s,
            u,
            v,
            records_consts(rs, v13_3, n - 1),
            record_consts(rs[n - 1], v13_3),
        );
        assert forall|i: int| 0 <= i < n implies record_covered(
            v.t,
            #[trigger] rs[i],
            v13_3,
        ) by {
            if i < n - 1 {
                lemma_record_covered_grows(u.t, v.t, rs[i], v13_3);
            }
        }
    } else {
        lemma_continued_nothing(s);
    }
}

/// Records can be written.
pub proof fn lemma_records_checked(m: ModuleV, version: BytecodeVersion, n: int)
    requires
        n >= 0,
    ensures
        records_of(m, version, n) matches Ok(s) ==> s.len() == n && forall|i: int|
            0 <= i < n ==> record_checked(#[trigger] s[i], version.spec_v13_3()),
    decreases n,
{
    if n > 0 {
        lemma_records_checked(m, version, n - 1);
    }
}

impl Collector {
    /// Collect a function.
    pub fn add_record(&mut self, r: &FuncRecord, v13_3: bool)
        requires
            old(self).wf(),
            record_checked(r@, v13_3),
        ensures
            final(self).wf(),
            final(self)@ == collect_record(old(self)@, r@, v13_3),
    {
        let ghost s0 = self@;
        self.pools.add_string(r.name.as_str());
        self.pools.add_type(&r.signature);
        assert(self@ =~= collect_head(s0, r@));
        let ghost s1 = self@;
        let di_name: Option<&str> = match &r.di_name {
            Some(s) => Some(s.as_str()),
            None => None,
        };
        let _index: u64 = self.debug.begin_function(
            &mut self.pools.strings,
            r.name.as_str(),
            di_name,
            &r.location,
        );
        assert(self@ =~= collect_scope(s1, r@));
        let ghost s2 = self@;
        match &r.hints {
            Some(h) => {
                self.pools.add_attr(h);
            },
            None => {},
        }
        assert(self@ =~= collect_record_hints(s2, r@));
        self.add_ops(&r.ops, v13_3);
    }

    /// Collect functions.
    pub fn add_records(&mut self, rs: &Vec<FuncRecord>, v13_3: bool)
        requires
            old(self).wf(),
            forall|i: int| 0 <= i < rs@.len() ==> record_checked(#[trigger] rs@[i]@, v13_3),
        ensures
            final(self).wf(),
            final(self)@ == collect_records(
                old(self)@,
                records_view(rs@),
                v13_3,
                rs@.len() as int,
            ),
    {
        let ghost s0 = self@;
        let ghost rv = records_view(rs@);
        let mut i: usize = 0;
        while i < rs.len()
            invariant
                i <= rs@.len(),
                rv == records_view(rs@),
                forall|i: int| 0 <= i < rs@.len() ==> record_checked(#[trigger] rs@[i]@, v13_3),
                self.wf(),
                self@ == collect_records(s0, rv, v13_3, i as int),
            decreases rs@.len() - i,
        {
            self.add_record(&rs[i], v13_3);
            assert(rv[i as int] == rs@[i as int]@);
            i = i + 1;
        }
    }
}

// ---------------------------------------------------------------------------
// Bytes
// ---------------------------------------------------------------------------

/// The flags of a record.
pub open spec fn record_flags(r: RecordV) -> u8 {
    if r.kernel {
        if r.hints is Some {
            (FLAG_KERNEL + FLAG_HINTS) as u8
        } else {
            FLAG_KERNEL
        }
    } else {
        0
    }
}

/// The bytes of optional hints.
pub open spec fn opt_hints_bytes(r: RecordV, t: TablesV, c: int) -> Seq<u8> {
    match r.hints {
        Some(h) => attr_writer::attr_bytes(h, t, c),
        None => seq![],
    }
}

/// The bytes of a function's body. Constants are numbered from `c`.
pub open spec fn record_body(r: RecordV, t: TablesV, v13_3: bool, c: int) -> Seq<u8> {
    body_writer::ops_bytes(
        r.ops,
        t,
        v13_3,
        c + hint_consts(r).len(),
        r.ops.len() as int,
    )
}

/// The bytes of a record: name, signature, flags, debug index, hints and body.
pub open spec fn record_bytes(r: RecordV, t: TablesV, v13_3: bool, index: int, c: int) -> Seq<u8> {
    let body = record_body(r, t, v13_3, c);
    attr_writer::string_bytes(t, r.name) + attr_writer::type_bytes(t, r.signature)
        + seq![record_flags(r)] + wire::varint_bytes(index as u64) + opt_hints_bytes(r, t, c)
        + wire::varint_bytes(body.len() as u64) + body
}

/// The bytes of the first `n` records. Debug indices are one-based.
pub open spec fn records_bytes(rs: Seq<RecordV>, t: TablesV, v13_3: bool, c: int, n: int) -> Seq<u8>
    decreases n,
{
    if n <= 0 {
        seq![]
    } else {
        records_bytes(rs, t, v13_3, c, n - 1) + record_bytes(
            rs[n - 1],
            t,
            v13_3,
            n,
            c + records_consts(rs, v13_3, n - 1).len(),
        )
    }
}

fn write_record(
    w: &mut EncodingWriter,
    pools: &Pools,
    r: &FuncRecord,
    v13_3: bool,
    index: u64,
    next: &mut u64,
)
    requires
        pools.wf(),
        record_checked(r@, v13_3),
        record_covered(pools@, r@, v13_3),
        r@.hints is Some ==> r@.kernel,
        *old(next) + record_consts(r@, v13_3).len() <= u64::MAX,
    ensures
        final(w)@ == old(w)@ + record_bytes(
            r@,
            pools@,
            v13_3,
            index as int,
            *old(next) as int,
        ),
        *final(next) == *old(next) + record_consts(r@, v13_3).len(),
{
    let ghost w0 = w@;
    let ghost c0 = *next as int;
    pools.write_string(w, r.name.as_str());
    write_ref(w, &pools.types, &r.signature);
    let flags: u8 = if r.kernel {
        if r.hints.is_some() {
            FLAG_KERNEL + FLAG_HINTS
        } else {
            FLAG_KERNEL
        }
    } else {
        0
    };
    w.write_byte(flags);
    w.write_varint(index);
    let ghost w1 = w@;
    match &r.hints {
        Some(h) => {
            pools.write_self_contained_attribute(w, h, next);
        },
        None => {},
    }
    assert(w@ =~= w1 + opt_hints_bytes(r@, pools@, c0));
    let mut body = EncodingWriter::new();
    write_operations(&mut body, pools, &r.ops, v13_3, next);
    assert(body@ =~= record_body(r@, pools@, v13_3, c0));
    w.write_varint(body.tell() as u64);
    w.write_bytes(body.as_bytes());
    assert(w@ =~= w0 + record_bytes(r@, pools@, v13_3, index as int, c0));
}

/// Write function records.
pub fn write_records(
    w: &mut EncodingWriter,
    pools: &Pools,
    rs: &Vec<FuncRecord>,
    v13_3: bool,
    next: &mut u64,
)
    requires
        pools.wf(),
        forall|i: int|
            0 <= i < rs@.len() ==> {
                &&& record_checked(#[trigger] rs@[i]@, v13_3)
                &&& record_covered(pools@, rs@[i]@, v13_3)
                &&& rs@[i]@.hints is Some ==> rs@[i]@.kernel
            },
        *old(next) + records_consts(records_view(rs@), v13_3, rs@.len() as int).len() <= u64::MAX,
    ensures
        final(w)@ == old(w)@ + records_bytes(
            records_view(rs@),
            pools@,
            v13_3,
            *old(next) as int,
            rs@.len() as int,
        ),
{
    let ghost w0 = w@;
    let ghost c0 = *next as int;
    let ghost rv = records_view(rs@);
    let mut i: usize = 0;
    assert(w@ =~= w0 + records_bytes(rv, pools@, v13_3, c0, 0));
    while i < rs.len()
        invariant
            i <= rs@.len(),
            rv == records_view(rs@),
            pools.wf(),
            forall|i: int|
                0 <= i < rs@.len() ==> {
                    &&& record_checked(#[trigger] rs@[i]@, v13_3)
                    &&& record_covered(pools@, rs@[i]@, v13_3)
                    &&& rs@[i]@.hints is Some ==> rs@[i]@.kernel
                },
            c0 + records_consts(rv, v13_3, rs@.len() as int).len() <= u64::MAX,
            *next == c0 + records_consts(rv, v13_3, i as int).len(),
            w@ == w0 + records_bytes(rv, pools@, v13_3, c0, i as int),
        decreases rs@.len() - i,
    {
        proof {
            assert(rv[i as int] == rs@[i as int]@);
            lemma_records_part(rv, v13_3, i + 1, rs@.len() as int);
        }
        write_record(w, pools, &rs[i], v13_3, i as u64 + 1, next);
        i = i + 1;
        assert(w@ =~= w0 + records_bytes(rv, pools@, v13_3, c0, i as int));
    }
}

proof fn lemma_records_part(rs: Seq<RecordV>, v13_3: bool, k: int, n: int)
    requires
        0 <= k <= n,
    ensures
        records_consts(rs, v13_3, k).len() <= records_consts(rs, v13_3, n).len(),
    decreases n,
{
    if k < n {
        lemma_records_part(rs, v13_3, k, n - 1);
    }
}

} // verus!
