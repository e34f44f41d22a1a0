//! Files are read back as they were written.
use vstd::prelude::*;
use crate::bytecode::attr_writer;
use crate::bytecode::attrs::TablesV;
use crate::bytecode::attrs;
use crate::bytecode::body::CtxV;
use crate::bytecode::collect::CollectV;
use crate::bytecode::collect;
use crate::bytecode::debug::DebugV;
use crate::bytecode::debug_roundtrip;
use crate::bytecode::debug_writer;
use crate::bytecode::enums::BytecodeVersion;
use crate::bytecode::framing::Payloads;
use crate::bytecode::framing;
use crate::bytecode::func_roundtrip;
use crate::bytecode::ops_roundtrip::Reading;
use crate::bytecode::ops_roundtrip;
use crate::bytecode::prescan;
use crate::bytecode::reader::{FileN, FuncN};
use crate::bytecode::reader;
use crate::bytecode::records::RecordV;
use crate::bytecode::records;
use crate::bytecode::strings;
use crate::bytecode::table;
use crate::bytecode::type_writer;
use crate::bytecode::types as wire_types;
use crate::bytecode::wire;
use crate::bytecode::writer;
use crate::error::{ReadError, Subject, WriteError};
use crate::ir::module::{GlobalV, ModuleV, SymbolVisibility};
use crate::ir::types::TypeV;

verus! {

// ---------------------------------------------------------------------------
// Global variables
// ---------------------------------------------------------------------------

/// What is read back of a global variable: before 13.3 neither visibility nor
/// constancy is written.
pub open spec fn read_global(g: GlobalV, v13_3: bool) -> GlobalV {
    GlobalV {
        sym_name: g.sym_name,
        value: attrs::dense_of(g.value.element_type, g.value.data),
        alignment: g.alignment,
        constant: v13_3 && g.constant,
        symbol_visibility: if v13_3 {
            g.symbol_visibility
        } else {
            SymbolVisibility::Public
        },
    }
}

/// What is read back of global variables.
pub open spec fn read_globals(gs: Seq<GlobalV>, v13_3: bool) -> Seq<GlobalV> {
    Seq::new(gs.len(), |i: int| read_global(gs[i], v13_3))
}

proof fn lemma_linkage_holds(d: Seq<u8>, p: int, g: GlobalV, v13_3: bool)
    requires
        wire::holds_at(d, p, writer::linkage_bytes(g, v13_3)),
    ensures
        reader::linkage_at(d, p, v13_3) == Ok::<((SymbolVisibility, bool), int), ReadError>(
            (
                (read_global(g, v13_3).symbol_visibility, read_global(g, v13_3).constant),
                p + writer::linkage_bytes(g, v13_3).len(),
            ),
        ),
{
    if v13_3 {
        let b = if g.symbol_visibility is Public {
            0u8
        } else {
            1u8
        };
        let c: u64 = if g.constant {
            1
        } else {
            0
        };
        wire::lemma_holds_split(d, p, seq![b], wire::varint_bytes(c));
        wire::lemma_byte_holds(d, p, b);
        wire::lemma_varint_holds(d, p + 1, c);
    }
}

/// A global variable is read back.
proof fn lemma_global_holds(d: Seq<u8>, p: int, t: TablesV, g: GlobalV, v13_3: bool, c: int)
    requires
        attr_writer::small_tables(t),
        t.strings.contains(g.sym_name),
        t.types.contains(g.value.element_type),
        g.value.data.len() <= u32::MAX,
        0 <= c < t.constants.len(),
        t.constants[c] == attr_writer::constant_entry(g.value.data),
        wire::holds_at(d, p, writer::global_bytes(g, t, v13_3, c)),
    ensures
        reader::global_at(d, p, t, v13_3) == Ok::<(GlobalV, int), ReadError>(
            (read_global(g, v13_3), p + writer::global_bytes(g, t, v13_3, c).len()),
        ),
{
    let b1 = attr_writer::string_bytes(t, g.sym_name);
    let b2 = attr_writer::type_bytes(t, g.value.element_type);
    let b3 = wire::varint_bytes(c as u64);
    let b4 = wire::varint_bytes(g.alignment);
    let b5 = writer::linkage_bytes(g, v13_3);
    wire::lemma_holds_split(d, p, b1 + b2 + b3 + b4, b5);
    wire::lemma_holds_split(d, p, b1 + b2 + b3, b4);
    wire::lemma_holds_split(d, p, b1 + b2, b3);
    wire::lemma_holds_split(d, p, b1, b2);
    let q1 = p + b1.len();
    let q2 = q1 + b2.len();
    let q3 = q2 + b3.len();
    let q4 = q3 + b4.len();
    attr_writer::lemma_string_holds(d, p, t, g.sym_name, Subject::Str);
    attr_writer::lemma_type_holds(d, q1, t, g.value.element_type, Subject::Type);
    wire::lemma_count_holds(d, q2, c, Subject::GlobalConstant);
    wire::lemma_varint_holds(d, q3, g.alignment);
    lemma_linkage_holds(d, q4, g, v13_3);
    attr_writer::lemma_constant_data(g.value.data, Subject::ConstantLength);
}

proof fn lemma_globals_hold(d: Seq<u8>, p: int, t: TablesV, gs: Seq<GlobalV>, v13_3: bool, n: int)
    requires
        attr_writer::small_tables(t),
        writer::globals_covered(t, gs),
        0 <= n <= gs.len() <= t.constants.len(),
        t.constants.take(gs.len() as int) == writer::global_consts(gs, gs.len() as int),
        forall|i: int| 0 <= i < gs.len() ==> (#[trigger] gs[i]).value.data.len() <= u32::MAX,
        wire::holds_at(d, p, writer::globals_bytes(gs, t, v13_3, n)),
    ensures
        reader::globals_at(d, p, t, v13_3, n) == Ok::<(Seq<GlobalV>, int), ReadError>(
            (
                read_globals(gs, v13_3).take(n),
                p + writer::globals_bytes(gs, t, v13_3, n).len(),
            ),
        ),
    decreases n,
{
    let all = read_globals(gs, v13_3);
    if n > 0 {
        let g = gs[n - 1];
        let x = writer::globals_bytes(gs, t, v13_3, n - 1);
        wire::lemma_holds_split(d, p, x, writer::global_bytes(g, t, v13_3, n - 1));
        lemma_globals_hold(d, p, t, gs, v13_3, n - 1);
        assert(t.constants.take(gs.len() as int)[n - 1] == t.constants[n - 1]);
        lemma_global_holds(d, p + x.len(), t, g, v13_3, n - 1);
        assert(all.take(n) =~= all.take(n - 1).push(all[n - 1]));
    } else {
        assert(all.take(0) =~= seq![]);
    }
}

// ---------------------------------------------------------------------------
// Functions
// ---------------------------------------------------------------------------

/// What is read back of functions.
pub open spec fn read_functions(rs: Seq<RecordV>, t: TablesV, v13_3: bool) -> Seq<FuncN> {
    Seq::new(rs.len(), |i: int| func_roundtrip::read_function(rs[i], t, v13_3))
}

/// What is read back of the debug section.
pub open spec fn read_debug(c: CollectV) -> DebugV {
    debug_roundtrip::section_of(c.lists, debug_writer::non_empty(c.entries))
}

/// What the operations of function `i` are read with.
pub open spec fn reading_of(rs: Seq<RecordV>, c: CollectV, v13_3: bool, i: int) -> Reading {
    Reading {
        c: CtxV { tables: c.t, v13_3, debug: read_debug(c), func: (i + 1) as u64 },
        ids: c.lists[i],
        scope: func_roundtrip::record_scope(rs[i]),
        q: collect::pool(c),
    }
}

/// Every function has one list of debug ids, which stays when others follow.
pub proof fn lemma_lists(s: CollectV, rs: Seq<RecordV>, v13_3: bool, n: int)
    requires
        collect::collect_wf(s),
        s.lists.len() == 0,
        0 <= n <= rs.len(),
        forall|i: int| 0 <= i < n ==> records::record_checked(#[trigger] rs[i], v13_3),
    ensures
        records::collect_records(s, rs, v13_3, n).lists.len() == n,
        n > 0 ==> records::collect_records(s, rs, v13_3, n).lists.drop_last()
            == records::collect_records(s, rs, v13_3, n - 1).lists,
    decreases n,
{
    if n > 0 {
        lemma_lists(s, rs, v13_3, n - 1);
        records::lemma_collect_records(s, rs, v13_3, n - 1);
        let u = records::collect_records(s, rs, v13_3, n - 1);
        lemma_record_lists(u, rs[n - 1], v13_3);
    }
}

proof fn lemma_record_lists(u: CollectV, rec: RecordV, v13_3: bool)
    requires
        collect::collect_wf(u),
        records::record_checked(rec, v13_3),
    ensures
        records::collect_record(u, rec, v13_3).lists.len() == u.lists.len() + 1,
        records::collect_record(u, rec, v13_3).lists.drop_last() == u.lists,
{
    let s1 = records::collect_head(u, rec);
    let s2 = records::collect_scope(s1, rec);
    let s3 = func_roundtrip::before_ops(u, rec);
    records::lemma_collect_head(u, rec);
    records::lemma_collect_scope(s1, rec);
    records::lemma_collect_record_hints(s2, rec);
    collect::lemma_collect_ops(s3, rec.ops, v13_3, rec.ops.len() as int);
    assert(s3.lists == s2.lists);
    assert(s2.lists.drop_last() =~= u.lists);
}

proof fn lemma_list_stays(s: CollectV, rs: Seq<RecordV>, v13_3: bool, i: int, n: int)
    requires
        collect::collect_wf(s),
        s.lists.len() == 0,
        0 <= i < n <= rs.len(),
        forall|i: int| 0 <= i < n ==> records::record_checked(#[trigger] rs[i], v13_3),
    ensures
        records::collect_records(s, rs, v13_3, n).lists[i] == records::collect_records(
            s,
            rs,
            v13_3,
            i + 1,
        ).lists.last(),
    decreases n,
{
    lemma_lists(s, rs, v13_3, n);
    if i < n - 1 {
        lemma_list_stays(s, rs, v13_3, i, n - 1);
        let a = records::collect_records(s, rs, v13_3, n);
        let b = records::collect_records(s, rs, v13_3, n - 1);
        assert(a.lists.drop_last()[i] == a.lists[i]);
        assert(b.lists[i] == a.lists[i]);
    }
}

/// Collecting further functions continues what has been collected.
pub proof fn lemma_records_grow(s: CollectV, rs: Seq<RecordV>, v13_3: bool, k: int, n: int)
    requires
        collect::collect_wf(s),
        0 <= k <= n <= rs.len(),
        forall|i: int| 0 <= i < n ==> records::record_checked(#[trigger] rs[i], v13_3),
    ensures
        debug_writer::pool_grows(
            collect::pool(records::collect_records(s, rs, v13_3, k)),
            collect::pool(records::collect_records(s, rs, v13_3, n)),
        ),
    decreases n,
{
    let a = records::collect_records(s, rs, v13_3, k);
    if k < n {
        let b = records::collect_records(s, rs, v13_3, n - 1);
        let c = records::collect_records(s, rs, v13_3, n);
        lemma_records_grow(s, rs, v13_3, k, n - 1);
        records::lemma_collect_records(s, rs, v13_3, n - 1);
        records::lemma_collect_record(b, rs[n - 1], v13_3);
        debug_writer::lemma_pool_grows(collect::pool(a), collect::pool(b), collect::pool(c));
    } else {
        debug_writer::lemma_pool_grows(collect::pool(a), collect::pool(a), collect::pool(a));
    }
}

/// The limits of the file as a whole.
pub open spec fn small_file(rs: Seq<RecordV>, c: CollectV) -> bool {
    &&& attr_writer::small_tables(c.t)
    &&& debug_writer::pool_wf(collect::pool(c))
    &&& c.entries.len() <= u32::MAX
    &&& rs.len() <= u32::MAX
}

/// The functions of a file, collected behind `s`, with everything that the
/// reader asks for.
#[verifier::opaque]
pub open spec fn functions_collected(
    s: CollectV,
    rs: Seq<RecordV>,
    c: CollectV,
    v13_3: bool,
) -> bool {
    &&& collect::collect_wf(s)
    &&& s.lists.len() == 0
    &&& c == records::collect_records(s, rs, v13_3, rs.len() as int)
    &&& small_file(rs, c)
    &&& forall|i: int|
        0 <= i < rs.len() ==> {
            &&& records::record_checked(#[trigger] rs[i], v13_3)
            &&& records::record_covered(c.t, rs[i], v13_3)
            &&& func_roundtrip::readable_record(rs[i], v13_3)
        }
}

/// What the operations of function `i` are read with is as the reader has it.
pub proof fn lemma_reading_ok(s: CollectV, rs: Seq<RecordV>, c: CollectV, v13_3: bool, i: int)
    requires
        functions_collected(s, rs, c, v13_3),
        0 <= i < rs.len(),
    ensures
        ops_roundtrip::reading_ok(reading_of(rs, c, v13_3, i)),
        ops_roundtrip::within(
            reading_of(rs, c, v13_3, i),
            records::collect_record(
                records::collect_records(s, rs, v13_3, i),
                rs[i],
                v13_3,
            ),
        ),
        c.lists.len() == rs.len(),
        c.lists[i].len() == ops_roundtrip::used(
            records::collect_record(records::collect_records(s, rs, v13_3, i), rs[i], v13_3),
        ),
        collect::collect_wf(records::collect_records(s, rs, v13_3, i)),
{
    reveal(functions_collected);
    let r = reading_of(rs, c, v13_3, i);
    let n = rs.len() as int;
    let u = records::collect_records(s, rs, v13_3, i + 1);
    lemma_lists(s, rs, v13_3, n);
    lemma_lists(s, rs, v13_3, i + 1);
    lemma_list_stays(s, rs, v13_3, i, n);
    lemma_records_grow(s, rs, v13_3, i + 1, n);
    records::lemma_collect_records(s, rs, v13_3, i);
    assert(u == records::collect_record(records::collect_records(s, rs, v13_3, i), rs[i], v13_3));
    reveal(ops_roundtrip::reading_ok);
    reveal(ops_roundtrip::within);
    debug_roundtrip::lemma_func_ids(
        c.lists,
        debug_writer::non_empty(c.entries),
        (i + 1) as u64,
    );
    debug_roundtrip::lemma_resolves(c.lists, c.entries);
    assert(r.ids.take(u.lists.last().len() as int) =~= u.lists.last());
}

/// The record of function `i` stands where the function section has it.
proof fn lemma_record_ready(
    s: CollectV,
    rs: Seq<RecordV>,
    c: CollectV,
    v13_3: bool,
    d: Seq<u8>,
    p: int,
    cc: int,
    i: int,
)
    requires
        functions_collected(s, rs, c, v13_3),
        0 <= i < rs.len(),
        d.len() <= u64::MAX,
        attr_writer::placed(c.t, cc, records::record_consts(rs[i], v13_3)),
        wire::holds_at(d, p, records::record_bytes(rs[i], c.t, v13_3, i + 1, cc)),
    ensures
        func_roundtrip::record_written(
            reading_of(rs, c, v13_3, i),
            d,
            p,
            records::collect_records(s, rs, v13_3, i),
            rs[i],
            cc,
        ),
        reading_of(rs, c, v13_3, i).c.func == i + 1,
{
    lemma_reading_ok(s, rs, c, v13_3, i);
    reveal(func_roundtrip::record_written);
    reveal(functions_collected);
    let y = records::record_bytes(rs[i], c.t, v13_3, i + 1, cc);
    assert(records::record_body(rs[i], c.t, v13_3, cc).len() <= y.len());
}

/// The first `n` functions are read.
#[verifier::opaque]
pub open spec fn functions_are_read(
    d: Seq<u8>,
    p: int,
    t: TablesV,
    v13_3: bool,
    dbg: DebugV,
    n: int,
    fs: Seq<FuncN>,
    q: int,
) -> bool {
    reader::functions_at(d, p, t, v13_3, dbg, n) == Ok::<(Seq<FuncN>, int), ReadError>((fs, q))
}

proof fn lemma_no_functions(d: Seq<u8>, p: int, t: TablesV, v13_3: bool, dbg: DebugV)
    ensures
        functions_are_read(d, p, t, v13_3, dbg, 0, seq![], p),
{
    reveal(functions_are_read);
}

/// Function `n - 1` is read behind those before it.
proof fn lemma_next_function(
    s: CollectV,
    rs: Seq<RecordV>,
    c: CollectV,
    v13_3: bool,
    d: Seq<u8>,
    p: int,
    cc: int,
    n: int,
    fs: Seq<FuncN>,
    q: int,
)
    requires
        0 < n <= rs.len(),
        functions_are_read(d, p, c.t, v13_3, read_debug(c), n - 1, fs, q),
        functions_collected(s, rs, c, v13_3),
        d.len() <= u64::MAX,
        attr_writer::placed(c.t, cc, records::record_consts(rs[n - 1], v13_3)),
        wire::holds_at(d, q, records::record_bytes(rs[n - 1], c.t, v13_3, n, cc)),
    ensures
        functions_are_read(
            d,
            p,
            c.t,
            v13_3,
            read_debug(c),
            n,
            fs.push(func_roundtrip::read_function(rs[n - 1], c.t, v13_3)),
            q + records::record_bytes(rs[n - 1], c.t, v13_3, n, cc).len(),
        ),
{
    let r = reading_of(rs, c, v13_3, n - 1);
    lemma_record_ready(s, rs, c, v13_3, d, q, cc, n - 1);
    func_roundtrip::lemma_function_round_trip(
        r,
        d,
        q,
        records::collect_records(s, rs, v13_3, n - 1),
        rs[n - 1],
        cc,
    );
    reveal(functions_are_read);
}

proof fn lemma_functions_hold(
    s: CollectV,
    rs: Seq<RecordV>,
    c: CollectV,
    v13_3: bool,
    d: Seq<u8>,
    p: int,
    cc: int,
    n: int,
)
    requires
        functions_collected(s, rs, c, v13_3),
        0 <= n <= rs.len(),
        attr_writer::placed(c.t, cc, records::records_consts(rs, v13_3, n)),
        d.len() <= u64::MAX,
        wire::holds_at(d, p, records::records_bytes(rs, c.t, v13_3, cc, n)),
    ensures
        functions_are_read(
            d,
            p,
            c.t,
            v13_3,
            read_debug(c),
            n,
            read_functions(rs, c.t, v13_3).take(n),
            p + records::records_bytes(rs, c.t, v13_3, cc, n).len(),
        ),
    decreases n,
{
    let all = read_functions(rs, c.t, v13_3);
    if n > 0 {
        let e = records::records_consts(rs, v13_3, n - 1);
        let at = cc + e.len();
        let x = records::records_bytes(rs, c.t, v13_3, cc, n - 1);
        let y = records::record_bytes(rs[n - 1], c.t, v13_3, n, at);
        attr_writer::lemma_placed_split(c.t, cc, e, records::record_consts(rs[n - 1], v13_3));
        wire::lemma_holds_split(d, p, x, y);
        lemma_functions_hold(s, rs, c, v13_3, d, p, cc, n - 1);
        lemma_next_function(
            s,
            rs,
            c,
            v13_3,
            d,
            p,
            at,
            n,
            all.take(n - 1),
            p + x.len(),
        );
        assert(all.take(n) =~= all.take(n - 1).push(all[n - 1]));
    } else {
        lemma_no_functions(d, p, c.t, v13_3, read_debug(c));
        assert(all.take(0) =~= seq![]);
    }
}

// ---------------------------------------------------------------------------
// Files
// ---------------------------------------------------------------------------

/// What is read back of a file.
pub open spec fn read_file(
    gs: Seq<GlobalV>,
    rs: Seq<RecordV>,
    t: TablesV,
    version: BytecodeVersion,
) -> FileN {
    FileN {
        version,
        globals: read_globals(gs, version.spec_v13_3()),
        functions: read_functions(rs, t, version.spec_v13_3()),
    }
}

/// The reader's limits, for a file: counts fit in 32 bits, function signatures
/// are function types, and operands are defined.
pub open spec fn readable_file(
    gs: Seq<GlobalV>,
    rs: Seq<RecordV>,
    c: CollectV,
    version: BytecodeVersion,
) -> bool {
    &&& reader::readable(version)
    &&& writer::file_bytes(gs, rs, c, version).len() <= u64::MAX
    &&& c.t.strings.len() <= u32::MAX
    &&& c.t.types.len() <= u32::MAX
    &&& c.t.constants.len() <= u32::MAX
    &&& c.entries.len() < u32::MAX
    &&& gs.len() <= u32::MAX
    &&& rs.len() <= u32::MAX
    &&& forall|i: int|
        0 <= i < c.t.types.len() ==> type_writer::short_arrays(#[trigger] c.t.types[i])
    &&& forall|i: int| 0 <= i < gs.len() ==> (#[trigger] gs[i]).value.data.len() <= u32::MAX
    &&& forall|i: int|
        0 <= i < rs.len() ==> func_roundtrip::readable_record(
            #[trigger] rs[i],
            version.spec_v13_3(),
        )
}

/// The tables of a file are read.
#[verifier::opaque]
pub open spec fn tables_are_read(
    s: Seq<Option<Seq<u8>>>,
    version: BytecodeVersion,
    t: TablesV,
    dbg: DebugV,
) -> bool {
    reader::tables_of(s, version) == Ok::<(TablesV, DebugV), ReadError>((t, dbg))
}

/// The global section is read.
#[verifier::opaque]
pub open spec fn globals_are_read(
    payload: Option<Seq<u8>>,
    t: TablesV,
    v13_3: bool,
    gs: Seq<GlobalV>,
) -> bool {
    reader::global_section(payload, t, v13_3) == Ok::<Seq<GlobalV>, ReadError>(gs)
}

/// The function section is read.
#[verifier::opaque]
pub open spec fn func_section_is_read(
    payload: Option<Seq<u8>>,
    t: TablesV,
    v13_3: bool,
    dbg: DebugV,
    fs: Seq<FuncN>,
) -> bool {
    reader::func_section(payload, t, v13_3, dbg) == Ok::<Seq<FuncN>, ReadError>(fs)
}

/// The contents of a file are read from its sections.
#[verifier::opaque]
pub open spec fn contents_are_read(
    s: Seq<Option<Seq<u8>>>,
    version: BytecodeVersion,
    f: FileN,
) -> bool {
    reader::contents_of(s, version) == Ok::<FileN, ReadError>(f)
}

/// The payloads of the sections of a file.
pub open spec fn payloads_of(
    gs: Seq<GlobalV>,
    rs: Seq<RecordV>,
    c: CollectV,
    version: BytecodeVersion,
) -> Payloads {
    let v = version.spec_v13_3();
    Payloads {
        global: present(gs.len() > 0, writer::global_payload(gs, c.t, v)),
        func: present(rs.len() > 0, writer::func_payload(rs, c.t, v, gs.len() as int)),
        constant: present(c.t.constants.len() > 0, table::table_bytes(c.t.constants, 8)),
        debug: writer::debug_bytes(c.lists, debug_writer::non_empty(c.entries)),
        types: present(
            c.t.types.len() > 0,
            table::table_bytes(
                type_writer::type_entries(c.t.types, version, c.t.types.len() as int),
                4,
            ),
        ),
        strings: present(
            c.t.strings.len() > 0,
            table::table_bytes(strings::string_entries(c.t.strings), 4),
        ),
    }
}

/// A payload that may be absent.
pub open spec fn present(yes: bool, payload: Seq<u8>) -> Option<Seq<u8>> {
    if yes {
        Some(payload)
    } else {
        None
    }
}

/// A file is its header and its sections.
proof fn lemma_file_is_sections(
    gs: Seq<GlobalV>,
    rs: Seq<RecordV>,
    c: CollectV,
    version: BytecodeVersion,
)
    ensures
        writer::file_bytes(gs, rs, c, version) == framing::all_sections(
            writer::header_bytes(version),
            payloads_of(gs, rs, c, version),
        ),
{
    reveal(framing::framed);
}

/// The tables of a file are read back.
proof fn lemma_tables(c: CollectV, x: Payloads, version: BytecodeVersion)
    requires
        small_tables_file(c, version),
        writer::file_fits(c, version),
        x.strings == present(
            c.t.strings.len() > 0,
            table::table_bytes(strings::string_entries(c.t.strings), 4),
        ),
        x.types == present(
            c.t.types.len() > 0,
            table::table_bytes(
                type_writer::type_entries(c.t.types, version, c.t.types.len() as int),
                4,
            ),
        ),
        x.constant == present(
            c.t.constants.len() > 0,
            table::table_bytes(c.t.constants, 8),
        ),
        x.debug == writer::debug_bytes(c.lists, debug_writer::non_empty(c.entries)),
    ensures
        tables_are_read(framing::by_id(x), version, c.t, read_debug(c)),
{
    reveal(tables_are_read);
    lemma_string_table(c, version);
    lemma_type_table(c, version);
    lemma_constant_table(c, version);
    debug_roundtrip::lemma_debug_section_round_trip(
        c.lists,
        debug_writer::non_empty(c.entries),
    );
    assert(c.t == TablesV {
        strings: c.t.strings,
        types: c.t.types,
        constants: c.t.constants,
    });
}

/// The limits on the tables of a file.
pub open spec fn small_tables_file(c: CollectV, version: BytecodeVersion) -> bool {
    &&& attr_writer::small_tables(c.t)
    &&& c.entries.len() < u32::MAX
    &&& c.lists.len() <= u32::MAX
    &&& forall|i: int|
        0 <= i < c.t.types.len() ==> type_writer::short_arrays(#[trigger] c.t.types[i])
}

proof fn lemma_string_table(c: CollectV, version: BytecodeVersion)
    requires
        small_tables_file(c, version),
        writer::file_fits(c, version),
    ensures
        strings::string_section(
            present(
                c.t.strings.len() > 0,
                table::table_bytes(strings::string_entries(c.t.strings), 4),
            ),
        ) == Ok::<Seq<Seq<char>>, ReadError>(c.t.strings),
{
    if c.t.strings.len() > 0 {
        strings::lemma_string_section_round_trip(c.t.strings);
    } else {
        assert(c.t.strings =~= seq![]);
    }
}

proof fn lemma_type_table(c: CollectV, version: BytecodeVersion)
    requires
        small_tables_file(c, version),
        writer::file_fits(c, version),
    ensures
        wire_types::type_section(
            present(
                c.t.types.len() > 0,
                table::table_bytes(
                    type_writer::type_entries(c.t.types, version, c.t.types.len() as int),
                    4,
                ),
            ),
            version,
        ) == Ok::<Seq<TypeV>, ReadError>(c.t.types),
{
    if c.t.types.len() > 0 {
        type_writer::lemma_type_section_round_trip(c.t.types, version);
    } else {
        assert(c.t.types =~= seq![]);
    }
}

proof fn lemma_constant_table(c: CollectV, version: BytecodeVersion)
    requires
        small_tables_file(c, version),
        writer::file_fits(c, version),
    ensures
        attrs::constant_section(
            present(c.t.constants.len() > 0, table::table_bytes(c.t.constants, 8)),
        ) == Ok::<Seq<Seq<u8>>, ReadError>(c.t.constants),
{
    if c.t.constants.len() > 0 {
        table::lemma_table_round_trip(c.t.constants, Subject::Constant, 8);
    } else {
        assert(c.t.constants =~= seq![]);
    }
}

/// The functions of a file are read back.
proof fn lemma_func_section(
    s: CollectV,
    gs: Seq<GlobalV>,
    rs: Seq<RecordV>,
    c: CollectV,
    v13_3: bool,
)
    requires
        functions_collected(s, rs, c, v13_3),
        attr_writer::placed(
            c.t,
            gs.len() as int,
            records::records_consts(rs, v13_3, rs.len() as int),
        ),
        writer::func_payload(rs, c.t, v13_3, gs.len() as int).len() <= u64::MAX,
    ensures
        reader::func_section(
            Some(writer::func_payload(rs, c.t, v13_3, gs.len() as int)),
            c.t,
            v13_3,
            read_debug(c),
        ) == Ok::<Seq<FuncN>, ReadError>(read_functions(rs, c.t, v13_3)),
{
    reveal(functions_collected);
    let d = writer::func_payload(rs, c.t, v13_3, gs.len() as int);
    let n = rs.len() as int;
    let h = wire::varint_bytes(rs.len() as u64);
    let y = records::records_bytes(rs, c.t, v13_3, gs.len() as int, n);
    let pad = wire::padding_bytes(wire::padding_len((h + y).len() as int, 8));
    wire::lemma_holds_whole(d);
    wire::lemma_holds_split(d, 0, h + y, pad);
    wire::lemma_holds_split(d, 0, h, y);
    wire::lemma_count_holds(d, 0, n, Subject::Function);
    lemma_functions_hold(s, rs, c, v13_3, d, h.len() as int, gs.len() as int, n);
    reveal(functions_are_read);
    let all = read_functions(rs, c.t, v13_3);
    assert(all.take(n) =~= all);
}

/// The global variables of a file are read back.
proof fn lemma_global_section(gs: Seq<GlobalV>, t: TablesV, v13_3: bool)
    requires
        attr_writer::small_tables(t),
        writer::globals_covered(t, gs),
        gs.len() <= t.constants.len(),
        gs.len() <= u32::MAX,
        t.constants.take(gs.len() as int) == writer::global_consts(gs, gs.len() as int),
        forall|i: int| 0 <= i < gs.len() ==> (#[trigger] gs[i]).value.data.len() <= u32::MAX,
    ensures
        reader::global_section(Some(writer::global_payload(gs, t, v13_3)), t, v13_3) == Ok::<
            Seq<GlobalV>,
            ReadError,
        >(read_globals(gs, v13_3)),
{
    let d = writer::global_payload(gs, t, v13_3);
    let n = gs.len() as int;
    let h = wire::varint_bytes(gs.len() as u64);
    let y = writer::globals_bytes(gs, t, v13_3, n);
    wire::lemma_holds_whole(d);
    wire::lemma_holds_split(d, 0, h, y);
    wire::lemma_count_holds(d, 0, n, Subject::Global);
    lemma_globals_hold(d, h.len() as int, t, gs, v13_3, n);
    let all = read_globals(gs, v13_3);
    assert(all.take(n) =~= all);
}

/// The state of collecting when the first function starts.
pub open spec fn before_functions(m: ModuleV) -> CollectV {
    let t0 = prescan::scan_globals(
        attr_writer::empty_tables(),
        m.globals,
        m.globals.len() as int,
    );
    CollectV {
        t: writer::with_global_data(
            prescan::scan_functions(t0, m, m.functions.len() as int)->Ok_0,
            m.globals,
            m.globals.len() as int,
        ),
        ..collect::nothing_collected()
    }
}

/// Reading what a module was written to gives the module's contents back:
/// version, global variables, and functions with their operations, attributes,
/// locations and hints, in the form in which files carry them.
pub proof fn lemma_file_round_trip(m: ModuleV, version: BytecodeVersion)
    ensures
        writer::collected_module(m, version) matches Ok((rs, c)) ==> (readable_file(
            m.globals,
            rs,
            c,
            version,
        ) && writer::file_fits(c, version) ==> reader::file_at(
            writer::file_bytes(m.globals, rs, c, version),
        ) == Ok::<FileN, ReadError>(read_file(m.globals, rs, c.t, version))),
{
    match writer::collected_module(m, version) {
        Ok((rs, c)) => {
            if readable_file(m.globals, rs, c, version) && writer::file_fits(c, version) {
                lemma_limits(m, version, rs, c);
                lemma_bytes_round_trip(before_functions(m), m.globals, rs, c, version);
            }
        },
        Err(_) => {},
    }
}

/// What the sections of a file hold.
proof fn lemma_contents(
    s: Seq<Option<Seq<u8>>>,
    version: BytecodeVersion,
    t: TablesV,
    dbg: DebugV,
    globals: Seq<GlobalV>,
    functions: Seq<FuncN>,
)
    requires
        tables_are_read(s, version, t, dbg),
        globals_are_read(s[6], t, version.spec_v13_3(), globals),
        func_section_is_read(s[2], t, version.spec_v13_3(), dbg, functions),
    ensures
        contents_are_read(s, version, (FileN { version, globals, functions })),
{
    reveal(contents_are_read);
    reveal(tables_are_read);
    reveal(globals_are_read);
    reveal(func_section_is_read);
}

/// What has been collected for a readable file meets the reader's limits.
pub proof fn lemma_limits(m: ModuleV, version: BytecodeVersion, rs: Seq<RecordV>, c: CollectV)
    requires
        writer::collected_module(m, version) == Ok::<(Seq<RecordV>, CollectV), WriteError>((rs, c)),
        readable_file(m.globals, rs, c, version),
    ensures
        functions_collected(before_functions(m), rs, c, version.spec_v13_3()),
        small_tables_file(c, version),
        writer::globals_covered(c.t, m.globals),
        m.globals.len() <= c.t.constants.len(),
        c.t.constants.take(m.globals.len() as int) == writer::global_consts(
            m.globals,
            m.globals.len() as int,
        ),
        attr_writer::placed(
            c.t,
            m.globals.len() as int,
            records::records_consts(rs, version.spec_v13_3(), rs.len() as int),
        ),
{
    reveal(functions_collected);
    let v = version.spec_v13_3();
    let s = before_functions(m);
    let n = m.globals.len() as int;
    writer::lemma_collected_module(m, version);
    writer::lemma_before_functions(m);
    lemma_lists(s, rs, v, rs.len() as int);
    let gc = writer::global_consts(m.globals, n);
    let rc = records::records_consts(rs, v, rs.len() as int);
    assert(c.t.constants.take(n) =~= gc);
    assert(c.t.constants.subrange(n, n + rc.len()) =~= rc);
}

/// A file is read where its parts are.
proof fn lemma_file_parts(
    d: Seq<u8>,
    version: BytecodeVersion,
    p: int,
    s: Seq<Option<Seq<u8>>>,
    f: FileN,
)
    requires
        reader::header_at(d) == Ok::<(BytecodeVersion, int), ReadError>((version, p)),
        reader::readable(version),
        reader::sections_at(d, p, reader::no_sections()) == Ok::<
            Seq<Option<Seq<u8>>>,
            ReadError,
        >(s),
        contents_are_read(s, version, f),
    ensures
        reader::file_at(d) == Ok::<FileN, ReadError>(f),
{
    reveal(contents_are_read);
}

/// The sections of a file give its contents back.
proof fn lemma_sections_hold(
    s: CollectV,
    gs: Seq<GlobalV>,
    rs: Seq<RecordV>,
    c: CollectV,
    version: BytecodeVersion,
)
    requires
        functions_collected(s, rs, c, version.spec_v13_3()),
        small_tables_file(c, version),
        writer::globals_covered(c.t, gs),
        gs.len() <= c.t.constants.len(),
        c.t.constants.take(gs.len() as int) == writer::global_consts(gs, gs.len() as int),
        attr_writer::placed(
            c.t,
            gs.len() as int,
            records::records_consts(rs, version.spec_v13_3(), rs.len() as int),
        ),
        readable_file(gs, rs, c, version),
        writer::file_fits(c, version),
    ensures
        contents_are_read(
            framing::by_id(payloads_of(gs, rs, c, version)),
            version,
            read_file(gs, rs, c.t, version),
        ),
{
    let v = version.spec_v13_3();
    let x = payloads_of(gs, rs, c, version);
    let found = framing::by_id(x);
    lemma_tables(c, x, version);
    lemma_globals_part(gs, c.t, v);
    lemma_functions_part(s, gs, rs, c, version);
    assert(found[6] == x.global && found[2] == x.func);
    lemma_contents(
        found,
        version,
        c.t,
        read_debug(c),
        read_globals(gs, v),
        read_functions(rs, c.t, v),
    );
}

/// The bytes of a file give its contents back.
pub proof fn lemma_bytes_round_trip(
    s: CollectV,
    gs: Seq<GlobalV>,
    rs: Seq<RecordV>,
    c: CollectV,
    version: BytecodeVersion,
)
    requires
        functions_collected(s, rs, c, version.spec_v13_3()),
        small_tables_file(c, version),
        writer::globals_covered(c.t, gs),
        gs.len() <= c.t.constants.len(),
        c.t.constants.take(gs.len() as int) == writer::global_consts(gs, gs.len() as int),
        attr_writer::placed(
            c.t,
            gs.len() as int,
            records::records_consts(rs, version.spec_v13_3(), rs.len() as int),
        ),
        readable_file(gs, rs, c, version),
        writer::file_fits(c, version),
    ensures
        reader::file_at(writer::file_bytes(gs, rs, c, version)) == Ok::<FileN, ReadError>(
            read_file(gs, rs, c.t, version),
        ),
{
    let x = payloads_of(gs, rs, c, version);
    let head = writer::header_bytes(version);
    let d = framing::all_sections(head, x);
    lemma_sections_hold(s, gs, rs, c, version);
    lemma_file_is_sections(gs, rs, c, version);
    framing::lemma_all_sections(head, x);
    framing::lemma_header(d, version);
    lemma_file_parts(
        d,
        version,
        head.len() as int,
        framing::by_id(x),
        read_file(gs, rs, c.t, version),
    );
}

proof fn lemma_globals_part(gs: Seq<GlobalV>, t: TablesV, v13_3: bool)
    requires
        attr_writer::small_tables(t),
        writer::globals_covered(t, gs),
        gs.len() <= t.constants.len(),
        gs.len() <= u32::MAX,
        t.constants.take(gs.len() as int) == writer::global_consts(gs, gs.len() as int),
        forall|i: int| 0 <= i < gs.len() ==> (#[trigger] gs[i]).value.data.len() <= u32::MAX,
    ensures
        globals_are_read(
            present(gs.len() > 0, writer::global_payload(gs, t, v13_3)),
            t,
            v13_3,
            read_globals(gs, v13_3),
        ),
{
    reveal(globals_are_read);
    if gs.len() > 0 {
        lemma_global_section(gs, t, v13_3);
    } else {
        assert(read_globals(gs, v13_3) =~= seq![]);
    }
}

proof fn lemma_functions_part(
    s: CollectV,
    gs: Seq<GlobalV>,
    rs: Seq<RecordV>,
    c: CollectV,
    version: BytecodeVersion,
)
    requires
        functions_collected(s, rs, c, version.spec_v13_3()),
        attr_writer::placed(
            c.t,
            gs.len() as int,
            records::records_consts(rs, version.spec_v13_3(), rs.len() as int),
        ),
        writer::file_bytes(gs, rs, c, version).len() <= u64::MAX,
    ensures
        func_section_is_read(
            present(
                rs.len() > 0,
                writer::func_payload(rs, c.t, version.spec_v13_3(), gs.len() as int),
            ),
            c.t,
            version.spec_v13_3(),
            read_debug(c),
            read_functions(rs, c.t, version.spec_v13_3()),
        ),
{
    reveal(func_section_is_read);
    let v = version.spec_v13_3();
    if rs.len() > 0 {
        lemma_func_payload_small(gs, rs, c, version);
        lemma_func_section(s, gs, rs, c, v);
    } else {
        assert(read_functions(rs, c.t, v) =~= seq![]);
    }
}

/// A section is no longer than the file.
proof fn lemma_func_payload_small(
    gs: Seq<GlobalV>,
    rs: Seq<RecordV>,
    c: CollectV,
    version: BytecodeVersion,
)
    requires
        rs.len() > 0,
        writer::file_bytes(gs, rs, c, version).len() <= u64::MAX,
    ensures
        writer::func_payload(rs, c.t, version.spec_v13_3(), gs.len() as int).len() <= u64::MAX,
{
    let p = writer::func_payload(rs, c.t, version.spec_v13_3(), gs.len() as int);
    let head = writer::file_head(gs, rs, c.t, version);
    assert(head.len() >= p.len());
    assert(writer::file_bytes(gs, rs, c, version).len() >= head.len());
}

// ---------------------------------------------------------------------------
// Tables and debug information
// ---------------------------------------------------------------------------

/// The tables and the debug information that the bytes of a file hold.
pub open spec fn parsed(d: Seq<u8>) -> Result<(TablesV, DebugV), ReadError> {
    match reader::header_at(d) {
        Ok((version, p)) => match reader::sections_at(d, p, reader::no_sections()) {
            Ok(s) => reader::tables_of(s, version),
            Err(e) => Err(e),
        },
        Err(e) => Err(e),
    }
}

/// The tables and the debug information of a file that was written are those that were
/// collected for it.
pub proof fn lemma_parsed(m: ModuleV, version: BytecodeVersion, rs: Seq<RecordV>, c: CollectV)
    requires
        writer::collected_module(m, version) == Ok::<(Seq<RecordV>, CollectV), WriteError>((rs, c)),
        readable_file(m.globals, rs, c, version),
        writer::file_fits(c, version),
    ensures
        parsed(writer::file_bytes(m.globals, rs, c, version)) == Ok::<(TablesV, DebugV), ReadError>(
            (c.t, read_debug(c)),
        ),
{
    let gs = m.globals;
    let x = payloads_of(gs, rs, c, version);
    let head = writer::header_bytes(version);
    let d = framing::all_sections(head, x);
    lemma_limits(m, version, rs, c);
    lemma_tables(c, x, version);
    lemma_file_is_sections(gs, rs, c, version);
    framing::lemma_all_sections(head, x);
    framing::lemma_header(d, version);
    reveal(tables_are_read);
}

} // verus!
