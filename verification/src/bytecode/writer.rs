//! Writing bytecode files.
use vstd::prelude::*;
use crate::bytecode::attr_writer::Pools;
use crate::bytecode::attr_writer;
use crate::bytecode::attrs::TablesV;
use crate::bytecode::collect::{CollectV, Collector};
use crate::bytecode::collect;
use crate::bytecode::debug_writer::DebugInfoCollector;
use crate::bytecode::debug_writer;
use crate::bytecode::encoding::EncodingWriter;
use crate::bytecode::enums::{BytecodeVersion, Section};
use crate::bytecode::enums;
use crate::bytecode::prescan;
use crate::bytecode::records::{function_records, write_records, FuncRecord, RecordV};
use crate::bytecode::records;
use crate::bytecode::strings::string_section_bytes;
use crate::bytecode::strings;
use crate::bytecode::table::{write_offset_table, write_table_body};
use crate::bytecode::table;
use crate::bytecode::type_writer::{type_section_bytes, write_ref};
use crate::bytecode::type_writer;
use crate::bytecode::wire;
use crate::error::WriteError;
use crate::ir::module::{Global, GlobalV, Module, ModuleV, SymbolVisibility};
use crate::ir::module;

verus! {

// ---------------------------------------------------------------------------
// Framing
// ---------------------------------------------------------------------------

/// Bytes, padded to a multiple of an alignment.
pub open spec fn padded(b: Seq<u8>, alignment: int) -> Seq<u8> {
    b + wire::padding_bytes(wire::padding_len(b.len() as int, alignment))
}

/// The file header.
pub open spec fn header_bytes(v: BytecodeVersion) -> Seq<u8> {
    enums::magic() + seq![v.major, v.minor] + wire::le_bytes(v.tag as int, 2)
}

/// A section behind what has been written: an id, with the high bit set where
/// the section is aligned, the length, and for aligned sections the alignment
/// and padding.
pub open spec fn with_section(out: Seq<u8>, section: Section, alignment: u64, payload: Seq<u8>) -> Seq<
    u8,
> {
    let length = wire::varint_bytes(payload.len() as u64);
    if alignment > 1 {
        padded(
            out + seq![(section.spec_id() + 128) as u8] + length + wire::varint_bytes(alignment),
            alignment as int,
        ) + payload
    } else {
        out + seq![section.spec_id()] + length + payload
    }
}

/// A section that is left out where there is nothing to say.
pub open spec fn with_optional(
    out: Seq<u8>,
    section: Section,
    alignment: u64,
    present: bool,
    payload: Seq<u8>,
) -> Seq<u8> {
    if present {
        with_section(out, section, alignment, payload)
    } else {
        out
    }
}

fn write_header(w: &mut EncodingWriter, version: BytecodeVersion)
    ensures
        final(w)@ == old(w)@ + header_bytes(version),
{
    let ghost w0 = w@;
    w.write_byte(0x7F);
    w.write_byte(0x54);
    w.write_byte(0x69);
    w.write_byte(0x6C);
    w.write_byte(0x65);
    w.write_byte(0x49);
    w.write_byte(0x52);
    w.write_byte(0x00);
    assert(w@ =~= w0 + enums::magic());
    w.write_byte(version.major);
    w.write_byte(version.minor);
    w.write_le_u16(version.tag);
    assert(w@ =~= w0 + header_bytes(version));
}

fn write_section(w: &mut EncodingWriter, section: Section, alignment: u64, payload: &[u8])
    ensures
        final(w)@ == with_section(old(w)@, section, alignment, payload@),
{
    let id: u8 = section.id();
    let aligned: bool = alignment > 1;
    if aligned {
        w.write_byte(id + 128);
    } else {
        w.write_byte(id);
    }
    w.write_varint(payload.len() as u64);
    if aligned {
        w.write_varint(alignment);
        assert(w@ =~= old(w)@ + seq![(section.spec_id() + 128) as u8] + wire::varint_bytes(
            payload@.len() as u64,
        ) + wire::varint_bytes(alignment));
        w.align_to(alignment);
    } else {
        assert(w@ =~= old(w)@ + seq![section.spec_id()] + wire::varint_bytes(
            payload@.len() as u64,
        ));
    }
    w.write_bytes(payload);
}

fn write_optional(
    w: &mut EncodingWriter,
    section: Section,
    alignment: u64,
    present: bool,
    payload: &[u8],
)
    ensures
        final(w)@ == with_optional(old(w)@, section, alignment, present, payload@),
{
    if present {
        write_section(w, section, alignment, payload);
    }
}

// ---------------------------------------------------------------------------
// Global variables
// ---------------------------------------------------------------------------

/// What 13.3 adds to a global variable: visibility and whether it is constant.
pub open spec fn linkage_bytes(g: GlobalV, v13_3: bool) -> Seq<u8> {
    if v13_3 {
        seq![
            if g.symbol_visibility is Public {
                0u8
            } else {
                1u8
            },
        ] + wire::varint_bytes(
            if g.constant {
                1
            } else {
                0
            },
        )
    } else {
        seq![]
    }
}

/// A global variable whose data is constant `c`.
pub open spec fn global_bytes(g: GlobalV, t: TablesV, v13_3: bool, c: int) -> Seq<u8> {
    attr_writer::string_bytes(t, g.sym_name) + attr_writer::type_bytes(t, g.value.element_type)
        + wire::varint_bytes(c as u64) + wire::varint_bytes(g.alignment) + linkage_bytes(g, v13_3)
}

/// The first `n` global variables; their data are the first constants.
pub open spec fn globals_bytes(gs: Seq<GlobalV>, t: TablesV, v13_3: bool, n: int) -> Seq<u8>
    decreases n,
{
    if n <= 0 {
        seq![]
    } else {
        globals_bytes(gs, t, v13_3, n - 1) + global_bytes(gs[n - 1], t, v13_3, n - 1)
    }
}

/// The tables with the data of the first `n` global variables.
pub open spec fn with_global_data(t: TablesV, gs: Seq<GlobalV>, n: int) -> TablesV
    decreases n,
{
    if n <= 0 {
        t
    } else {
        attr_writer::with_constant(with_global_data(t, gs, n - 1), gs[n - 1].value.data)
    }
}

/// The data of the first `n` global variables, as constants.
pub open spec fn global_consts(gs: Seq<GlobalV>, n: int) -> Seq<Seq<u8>> {
    Seq::new(n as nat, |i: int| attr_writer::constant_entry(gs[i].value.data))
}

/// Whether tables hold what global variables refer to.
pub open spec fn globals_covered(t: TablesV, gs: Seq<GlobalV>) -> bool {
    forall|i: int|
        0 <= i < gs.len() ==> {
            &&& t.strings.contains((#[trigger] gs[i]).sym_name)
            &&& t.types.contains(gs[i].value.element_type)
        }
}

fn write_globals(w: &mut EncodingWriter, pools: &Pools, gs: &Vec<Global>, v13_3: bool)
    requires
        pools.wf(),
        globals_covered(pools@, module::views(gs@)),
    ensures
        final(w)@ == old(w)@ + globals_bytes(
            module::views(gs@),
            pools@,
            v13_3,
            gs@.len() as int,
        ),
{
    let ghost w0 = w@;
    let ghost gv = module::views(gs@);
    let mut i: usize = 0;
    assert(w@ =~= w0 + globals_bytes(gv, pools@, v13_3, 0));
    while i < gs.len()
        invariant
            i <= gs@.len(),
            gv == module::views(gs@),
            pools.wf(),
            globals_covered(pools@, gv),
            w@ == w0 + globals_bytes(gv, pools@, v13_3, i as int),
        decreases gs@.len() - i,
    {
        let ghost w1 = w@;
        let g = &gs[i];
        assert(gv[i as int] == g@);
        pools.write_string(w, g.sym_name.as_str());
        write_ref(w, &pools.types, &g.value.element_type);
        w.write_varint(i as u64);
        w.write_varint(g.alignment);
        if v13_3 {
            w.write_byte(
                match g.symbol_visibility {
                    SymbolVisibility::Public => 0,
                    SymbolVisibility::Private => 1,
                },
            );
            w.write_varint(
                if g.constant {
                    1
                } else {
                    0
                },
            );
        }
        assert(w@ =~= w1 + global_bytes(gv[i as int], pools@, v13_3, i as int));
        i = i + 1;
        assert(w@ =~= w0 + globals_bytes(gv, pools@, v13_3, i as int));
    }
}

// ---------------------------------------------------------------------------
// Debug information
// ---------------------------------------------------------------------------

/// The number of debug ids in the first `n` lists.
pub open spec fn ids_before(lists: Seq<Seq<u64>>, n: int) -> int
    decreases n,
{
    if n <= 0 {
        0
    } else {
        ids_before(lists, n - 1) + lists[n - 1].len()
    }
}

/// Where each of the first `n` lists starts.
pub open spec fn starts_bytes(lists: Seq<Seq<u64>>, n: int) -> Seq<u8>
    decreases n,
{
    if n <= 0 {
        seq![]
    } else {
        starts_bytes(lists, n - 1) + wire::le_bytes(ids_before(lists, n - 1), 4)
    }
}

/// The first `n` ids of a list.
pub open spec fn ids_bytes(l: Seq<u64>, n: int) -> Seq<u8>
    decreases n,
{
    if n <= 0 {
        seq![]
    } else {
        ids_bytes(l, n - 1) + wire::le_bytes(l[n - 1] as int, 8)
    }
}

/// The ids of the first `n` lists.
pub open spec fn lists_bytes(lists: Seq<Seq<u64>>, n: int) -> Seq<u8>
    decreases n,
{
    if n <= 0 {
        seq![]
    } else {
        lists_bytes(lists, n - 1) + ids_bytes(lists[n - 1], lists[n - 1].len() as int)
    }
}

/// The contents of the debug section up to the lists' starts.
pub open spec fn debug_starts(lists: Seq<Seq<u64>>) -> Seq<u8> {
    padded(wire::varint_bytes(lists.len() as u64), 4) + starts_bytes(lists, lists.len() as int)
}

/// The contents of the debug section up to the ids.
pub open spec fn debug_ids(lists: Seq<Seq<u64>>) -> Seq<u8> {
    padded(
        debug_starts(lists) + wire::varint_bytes(ids_before(lists, lists.len() as int) as u64),
        8,
    ) + lists_bytes(lists, lists.len() as int)
}

/// The contents of the debug section.
pub open spec fn debug_bytes(lists: Seq<Seq<u64>>, entries: Seq<Seq<u8>>) -> Seq<u8> {
    padded(debug_ids(lists) + wire::varint_bytes(entries.len() as u64), 4) + table::offsets_bytes(
        entries,
        4,
        entries.len() as int,
    ) + table::concat(entries)
}

/// Whether the offsets of the debug section fit in 32 bits.
pub open spec fn debug_fits(lists: Seq<Seq<u64>>, entries: Seq<Seq<u8>>) -> bool {
    ids_before(lists, lists.len() as int) < wire::pow256(4) && table::concat(entries).len()
        < wire::pow256(4)
}

proof fn lemma_ids_before(lists: Seq<Seq<u64>>, k: int, n: int)
    requires
        0 <= k <= n,
    ensures
        0 <= ids_before(lists, k) <= ids_before(lists, n),
    decreases n,
{
    if k < n {
        lemma_ids_before(lists, k, n - 1);
    } else if k > 0 {
        lemma_ids_before(lists, k - 1, n - 1);
    }
}

fn write_starts(w: &mut EncodingWriter, lists: &Vec<Vec<u64>>) -> (res: Result<u32, WriteError>)
    ensures
        ({
            let l = debug_writer::id_views(lists@);
            let n = lists@.len() as int;
            match res {
                Ok(total) => {
                    &&& total == ids_before(l, n)
                    &&& final(w)@ == old(w)@ + starts_bytes(l, n)
                },
                Err(e) => e == WriteError::SectionTooLarge && ids_before(l, n) >= wire::pow256(4),
            }
        }),
{
    let ghost l = debug_writer::id_views(lists@);
    let ghost w0 = w@;
    let mut total: u32 = 0;
    let mut i: usize = 0;
    proof {
        wire::lemma_pow256_values();
        assert(w@ =~= w0 + starts_bytes(l, 0));
    }
    while i < lists.len()
        invariant
            i <= lists@.len(),
            l == debug_writer::id_views(lists@),
            wire::pow256(4) == 0x1_0000_0000,
            total == ids_before(l, i as int),
            w@ == w0 + starts_bytes(l, i as int),
        decreases lists@.len() - i,
    {
        w.write_le_u32(total);
        let n: u64 = lists[i].len() as u64;
        assert(l[i as int] == lists@[i as int]@);
        assert(w@ =~= w0 + starts_bytes(l, i + 1));
        if n > (u32::MAX - total) as u64 {
            proof {
                lemma_ids_before(l, i + 1, lists@.len() as int);
            }
            return Err(WriteError::SectionTooLarge);
        }
        total = total + n as u32;
        i = i + 1;
    }
    Ok(total)
}

fn write_ids(w: &mut EncodingWriter, l: &Vec<u64>)
    ensures
        final(w)@ == old(w)@ + ids_bytes(l@, l@.len() as int),
{
    let ghost w0 = w@;
    let mut i: usize = 0;
    assert(w@ =~= w0 + ids_bytes(l@, 0));
    while i < l.len()
        invariant
            i <= l@.len(),
            w@ == w0 + ids_bytes(l@, i as int),
        decreases l@.len() - i,
    {
        w.write_le_u64(l[i]);
        i = i + 1;
        assert(w@ =~= w0 + ids_bytes(l@, i as int));
    }
}

fn write_lists(w: &mut EncodingWriter, lists: &Vec<Vec<u64>>)
    ensures
        final(w)@ == old(w)@ + lists_bytes(
            debug_writer::id_views(lists@),
            lists@.len() as int,
        ),
{
    let ghost w0 = w@;
    let ghost l = debug_writer::id_views(lists@);
    let mut i: usize = 0;
    assert(w@ =~= w0 + lists_bytes(l, 0));
    while i < lists.len()
        invariant
            i <= lists@.len(),
            l == debug_writer::id_views(lists@),
            w@ == w0 + lists_bytes(l, i as int),
        decreases lists@.len() - i,
    {
        assert(l[i as int] == lists@[i as int]@);
        write_ids(w, &lists[i]);
        i = i + 1;
        assert(w@ =~= w0 + lists_bytes(l, i as int));
    }
}

fn debug_section_bytes(debug: &mut DebugInfoCollector) -> (res: Result<EncodingWriter, WriteError>)
    requires
        old(debug).attrs.wf(),
    ensures
        ({
            let lists = old(debug).lists();
            let entries = debug_writer::non_empty(old(debug).attrs@);
            match res {
                Ok(w) => w@ == debug_bytes(lists, entries) && debug_fits(lists, entries),
                Err(e) => e == WriteError::SectionTooLarge && !debug_fits(lists, entries),
            }
        }),
{
    let ghost lists = debug.lists();
    let ghost entries = debug_writer::non_empty(debug.attrs@);
    let mut w = EncodingWriter::new();
    let per_function = debug.per_function();
    w.write_varint(per_function.len() as u64);
    assert(w@ =~= wire::varint_bytes(lists.len() as u64));
    w.align_to(4);
    proof {
        wire::lemma_pow256_values();
    }
    let total: u32 = write_starts(&mut w, per_function)?;
    assert(w@ =~= debug_starts(lists));
    w.write_varint(total as u64);
    w.align_to(8);
    write_lists(&mut w, per_function);
    assert(w@ =~= debug_ids(lists));
    debug.attrs.ensure_non_empty();
    let es = debug.attrs.entries();
    w.write_varint(es.len() as u64);
    w.align_to(4);
    write_table_body(&mut w, es, 4)?;
    assert(w@ =~= debug_bytes(lists, entries));
    Ok(w)
}

// ---------------------------------------------------------------------------
// Files
// ---------------------------------------------------------------------------

/// The records of a module's functions, and everything collected for the file.
pub open spec fn collected_module(m: ModuleV, version: BytecodeVersion) -> Result<
    (Seq<RecordV>, CollectV),
    WriteError,
> {
    let t0 = prescan::scan_globals(
        attr_writer::empty_tables(),
        m.globals,
        m.globals.len() as int,
    );
    match prescan::scan_functions(t0, m, m.functions.len() as int) {
        Ok(t1) => match records::records_of(m, version, m.functions.len() as int) {
            Ok(rs) => {
                let s = CollectV {
                    t: with_global_data(t1, m.globals, m.globals.len() as int),
                    ..collect::nothing_collected()
                };
                Ok(
                    (
                        rs,
                        records::collect_records(s, rs, version.spec_v13_3(), rs.len() as int),
                    ),
                )
            },
            Err(e) => Err(e),
        },
        Err(e) => Err(e),
    }
}

/// Whether every offset of a file fits its width.
pub open spec fn file_fits(c: CollectV, version: BytecodeVersion) -> bool {
    &&& table::concat(c.t.constants).len() < wire::pow256(8)
    &&& debug_fits(c.lists, debug_writer::non_empty(c.entries))
    &&& table::concat(type_writer::type_entries(c.t.types, version, c.t.types.len() as int)).len()
        < wire::pow256(4)
    &&& table::concat(strings::string_entries(c.t.strings)).len() < wire::pow256(4)
}

/// The contents of the global section.
pub open spec fn global_payload(gs: Seq<GlobalV>, t: TablesV, v13_3: bool) -> Seq<u8> {
    wire::varint_bytes(gs.len() as u64) + globals_bytes(gs, t, v13_3, gs.len() as int)
}

/// The contents of the function section. The constants of functions come
/// behind `c` others.
pub open spec fn func_payload(rs: Seq<RecordV>, t: TablesV, v13_3: bool, c: int) -> Seq<u8> {
    padded(
        wire::varint_bytes(rs.len() as u64) + records::records_bytes(
            rs,
            t,
            v13_3,
            c,
            rs.len() as int,
        ),
        8,
    )
}

/// A file up to its function section.
pub open spec fn file_head(
    gs: Seq<GlobalV>,
    rs: Seq<RecordV>,
    t: TablesV,
    version: BytecodeVersion,
) -> Seq<u8> {
    let v = version.spec_v13_3();
    let b1 = with_optional(
        header_bytes(version),
        Section::Global,
        1,
        gs.len() > 0,
        global_payload(gs, t, v),
    );
    with_optional(
        b1,
        Section::Func,
        8,
        rs.len() > 0,
        func_payload(rs, t, v, gs.len() as int),
    )
}

/// A file.
pub open spec fn file_bytes(
    gs: Seq<GlobalV>,
    rs: Seq<RecordV>,
    c: CollectV,
    version: BytecodeVersion,
) -> Seq<u8> {
    let b2 = file_head(gs, rs, c.t, version);
    let b3 = with_optional(
        b2,
        Section::Constant,
        8,
        c.t.constants.len() > 0,
        table::table_bytes(c.t.constants, 8),
    );
    let b4 = with_section(
        b3,
        Section::Debug,
        8,
        debug_bytes(c.lists, debug_writer::non_empty(c.entries)),
    );
    let b5 = with_optional(
        b4,
        Section::Type,
        4,
        c.t.types.len() > 0,
        table::table_bytes(
            type_writer::type_entries(c.t.types, version, c.t.types.len() as int),
            4,
        ),
    );
    let b6 = with_optional(
        b5,
        Section::Str,
        4,
        c.t.strings.len() > 0,
        table::table_bytes(strings::string_entries(c.t.strings), 4),
    );
    b6.push(Section::EndOfBytecode.spec_id())
}

/// The file that a module is written to.
pub open spec fn written(m: ModuleV, version: BytecodeVersion) -> Result<Seq<u8>, WriteError> {
    if enums::version_rank(version) < enums::version_rank(BytecodeVersion::spec_min_supported()) {
        Err(WriteError::UnsupportedVersion(version.major, version.minor, version.tag))
    } else {
        match collected_module(m, version) {
            Ok((rs, c)) => if file_fits(c, version) {
                Ok(file_bytes(m.globals, rs, c, version))
            } else {
                Err(WriteError::SectionTooLarge)
            },
            Err(e) => Err(e),
        }
    }
}

/// Scanning global variables puts what they refer to into the tables.
proof fn lemma_globals_scanned(t: TablesV, gs: Seq<GlobalV>, n: int)
    requires
        attr_writer::tables_wf(t),
        0 <= n <= gs.len(),
    ensures
        globals_covered(prescan::scan_globals(t, gs, n), gs.take(n)),
    decreases n,
{
    if n > 0 {
        lemma_globals_scanned(t, gs, n - 1);
        prescan::lemma_scan_globals(t, gs, n - 1);
        let u = prescan::scan_globals(t, gs, n - 1);
        let g = gs[n - 1];
        let u2 = attr_writer::with_string(u, g.sym_name);
        let v = prescan::scan_globals(t, gs, n);
        attr_writer::lemma_with_string(u, g.sym_name);
        attr_writer::lemma_with_type(u2, g.value.element_type);
        attr_writer::lemma_grows(u, u2, v);
        attr_writer::lemma_grown(u, v);
        attr_writer::lemma_grown(u2, v);
        assert forall|i: int| 0 <= i < n implies {
            &&& v.strings.contains((#[trigger] gs.take(n)[i]).sym_name)
            &&& v.types.contains(gs.take(n)[i].value.element_type)
        } by {
            if i < n - 1 {
                assert(gs.take(n)[i] == gs.take(n - 1)[i]);
            }
        }
    }
}

proof fn lemma_covered_grows(t: TablesV, u: TablesV, gs: Seq<GlobalV>)
    requires
        attr_writer::grows(t, u),
        globals_covered(t, gs),
    ensures
        globals_covered(u, gs),
{
    attr_writer::lemma_grown(t, u);
}

/// The data of global variables comes first among the constants.
pub proof fn lemma_global_data(t: TablesV, gs: Seq<GlobalV>, n: int)
    requires
        attr_writer::tables_wf(t),
        t.constants.len() == 0,
        0 <= n <= gs.len(),
    ensures
        attr_writer::grown_by(t, with_global_data(t, gs, n), global_consts(gs, n)),
    decreases n,
{
    if n > 0 {
        lemma_global_data(t, gs, n - 1);
        let u = with_global_data(t, gs, n - 1);
        attr_writer::lemma_with_constant(u, gs[n - 1].value.data);
        let v = with_global_data(t, gs, n);
        attr_writer::lemma_grows(t, u, v);
        assert(v.constants =~= t.constants + global_consts(gs, n));
    } else {
        attr_writer::lemma_grows(t, t, t);
        assert(t.constants + global_consts(gs, n) =~= t.constants);
    }
}

/// What has been collected for a file holds everything that the file refers
/// to; its constants are the data of global variables, then those of functions.
pub proof fn lemma_collected_module(m: ModuleV, version: BytecodeVersion)
    ensures
        collected_module(m, version) matches Ok((rs, c)) ==> {
            &&& rs.len() == m.functions.len()
            &&& collect::collect_wf(c)
            &&& globals_covered(c.t, m.globals)
            &&& forall|i: int|
                0 <= i < rs.len() ==> {
                    &&& records::record_checked(#[trigger] rs[i], version.spec_v13_3())
                    &&& records::record_covered(c.t, rs[i], version.spec_v13_3())
                }
            &&& c.t.constants == global_consts(m.globals, m.globals.len() as int)
                + records::records_consts(rs, version.spec_v13_3(), rs.len() as int)
        },
{
    let gs = m.globals;
    let n = gs.len() as int;
    let e = attr_writer::empty_tables();
    assert(attr_writer::tables_wf(e));
    let t0 = prescan::scan_globals(e, gs, n);
    prescan::lemma_scan_globals(e, gs, n);
    lemma_globals_scanned(e, gs, n);
    assert(gs.take(n) =~= gs);
    prescan::lemma_scan_functions(t0, m, m.functions.len() as int);
    match prescan::scan_functions(t0, m, m.functions.len() as int) {
        Ok(t1) => {
            lemma_covered_grows(t0, t1, gs);
            let t2 = with_global_data(t1, gs, n);
            lemma_global_data(t1, gs, n);
            lemma_covered_grows(t1, t2, gs);
            let v = version.spec_v13_3();
            records::lemma_records_checked(m, version, m.functions.len() as int);
            match records::records_of(m, version, m.functions.len() as int) {
                Ok(rs) => {
                    let s = CollectV { t: t2, ..collect::nothing_collected() };
                    records::lemma_collect_records(s, rs, v, rs.len() as int);
                    let c = records::collect_records(s, rs, v, rs.len() as int);
                    lemma_covered_grows(t2, c.t, gs);
                    assert(t2.constants =~= global_consts(gs, n));
                },
                Err(_) => {},
            }
        },
        Err(_) => {},
    }
}

/// The tables are in order when the first function is collected.
pub proof fn lemma_before_functions(m: ModuleV)
    ensures
        ({
            let t0 = prescan::scan_globals(
                attr_writer::empty_tables(),
                m.globals,
                m.globals.len() as int,
            );
            prescan::scan_functions(t0, m, m.functions.len() as int) matches Ok(t1)
                ==> collect::collect_wf(
                (CollectV {
                    t: with_global_data(t1, m.globals, m.globals.len() as int),
                    ..collect::nothing_collected()
                }),
            )
        }),
{
    let n = m.globals.len() as int;
    let e = attr_writer::empty_tables();
    let t0 = prescan::scan_globals(e, m.globals, n);
    prescan::lemma_scan_globals(e, m.globals, n);
    prescan::lemma_scan_functions(t0, m, m.functions.len() as int);
    match prescan::scan_functions(t0, m, m.functions.len() as int) {
        Ok(t1) => lemma_global_data(t1, m.globals, n),
        Err(_) => {},
    }
}

/// A record that has hints is a kernel's.
proof fn lemma_hints_of_kernels(m: ModuleV, version: BytecodeVersion, n: int)
    ensures
        records::records_of(m, version, n) matches Ok(rs) ==> forall|i: int|
            0 <= i < rs.len() ==> ((#[trigger] rs[i]).hints is Some ==> rs[i].kernel),
    decreases n,
{
    if n > 0 {
        lemma_hints_of_kernels(m, version, n - 1);
    }
}

fn add_global_data(pools: &mut Pools, gs: &Vec<Global>)
    requires
        old(pools).wf(),
    ensures
        final(pools).wf(),
        final(pools)@ == with_global_data(
            old(pools)@,
            module::views(gs@),
            gs@.len() as int,
        ),
{
    let ghost t0 = pools@;
    let ghost gv = module::views(gs@);
    let mut i: usize = 0;
    while i < gs.len()
        invariant
            i <= gs@.len(),
            gv == module::views(gs@),
            pools.wf(),
            pools@ == with_global_data(t0, gv, i as int),
        decreases gs@.len() - i,
    {
        pools.add_constant(&gs[i].value.data);
        assert(gv[i as int] == gs@[i as int]@);
        i = i + 1;
    }
}

fn collect_module(m: &Module, version: BytecodeVersion) -> (res: Result<
    (Vec<FuncRecord>, Collector),
    WriteError,
>)
    ensures
        match collected_module(m@, version) {
            Ok((rs, c)) => {
                &&& res is Ok
                &&& records::records_view(res->Ok_0.0@) == rs
                &&& res->Ok_0.1@ == c
                &&& res->Ok_0.1.wf()
            },
            Err(e) => res == Err::<(Vec<FuncRecord>, Collector), WriteError>(e),
        },
{
    let mut c = Collector::new();
    c.pools.prescan_globals(&m.globals);
    c.pools.prescan_functions(m)?;
    let rs = function_records(m, version)?;
    add_global_data(&mut c.pools, &m.globals);
    proof {
        records::lemma_records_checked(m@, version, m@.functions.len() as int);
        let rv = records::records_view(rs@);
        assert forall|i: int| 0 <= i < rs@.len() implies records::record_checked(
            #[trigger] rs@[i]@,
            version.spec_v13_3(),
        ) by {
            assert(rv[i] == rs@[i]@);
        }
    }
    c.add_records(&rs, version.is_v13_3());
    Ok((rs, c))
}

fn write_head(
    w: &mut EncodingWriter,
    m: &Module,
    rs: &Vec<FuncRecord>,
    pools: &Pools,
    version: BytecodeVersion,
)
    requires
        old(w)@.len() == 0,
        pools.wf(),
        globals_covered(pools@, m@.globals),
        forall|i: int|
            0 <= i < rs@.len() ==> {
                &&& records::record_checked(#[trigger] rs@[i]@, version.spec_v13_3())
                &&& records::record_covered(pools@, rs@[i]@, version.spec_v13_3())
                &&& rs@[i]@.hints is Some ==> rs@[i]@.kernel
            },
        m@.globals.len() + records::records_consts(
            records::records_view(rs@),
            version.spec_v13_3(),
            rs@.len() as int,
        ).len() <= u64::MAX,
    ensures
        final(w)@ == file_head(m@.globals, records::records_view(rs@), pools@, version),
{
    let v13_3: bool = version.is_v13_3();
    write_header(w, version);
    assert(w@ =~= header_bytes(version));
    if m.globals.len() > 0 {
        let mut g = EncodingWriter::new();
        g.write_varint(m.globals.len() as u64);
        write_globals(&mut g, pools, &m.globals, v13_3);
        assert(g@ =~= global_payload(m@.globals, pools@, v13_3));
        write_section(w, Section::Global, 1, g.as_bytes());
    }
    if rs.len() > 0 {
        let mut f = EncodingWriter::new();
        f.write_varint(rs.len() as u64);
        let mut next: u64 = m.globals.len() as u64;
        write_records(&mut f, pools, rs, v13_3, &mut next);
        assert(f@ =~= wire::varint_bytes(rs@.len() as u64) + records::records_bytes(
            records::records_view(rs@),
            pools@,
            v13_3,
            m@.globals.len() as int,
            rs@.len() as int,
        ));
        f.align_to(8);
        write_section(w, Section::Func, 8, f.as_bytes());
    }
}

/// Serialize a module in a bytecode version. Versions before the oldest
/// supported one, ids that are not part of the module, functions without a name
/// or a signature, hints that the version does not have, operations that do not
/// fit their layout and tables whose offsets do not fit are errors.
pub fn write_bytecode_version(m: &Module, version: BytecodeVersion) -> (res: Result<
    Vec<u8>,
    WriteError,
>)
    ensures
        match written(m@, version) {
            Ok(b) => res is Ok && res->Ok_0@ == b,
            Err(e) => res == Err::<Vec<u8>, WriteError>(e),
        },
{
    if version.before(BytecodeVersion::min_supported()) {
        return Err(WriteError::UnsupportedVersion(version.major, version.minor, version.tag));
    }
    let (rs, mut c): (Vec<FuncRecord>, Collector) = collect_module(m, version)?;
    let ghost cv = c@;
    let ghost rv = records::records_view(rs@);
    proof {
        lemma_collected_module(m@, version);
        lemma_hints_of_kernels(m@, version, m@.functions.len() as int);
        assert forall|i: int| 0 <= i < rs@.len() implies {
            &&& records::record_checked(#[trigger] rs@[i]@, version.spec_v13_3())
            &&& records::record_covered(cv.t, rs@[i]@, version.spec_v13_3())
            &&& rs@[i]@.hints is Some ==> rs@[i]@.kernel
        } by {
            assert(rv[i] == rs@[i]@);
        }
        assert(cv.t.constants.len() == c.pools.constants@.len());
    }
    let constants = write_offset_table(&c.pools.constants, 8)?;
    let debug = debug_section_bytes(&mut c.debug)?;
    let types = type_section_bytes(&c.pools.types, version)?;
    let strings = string_section_bytes(&c.pools.strings)?;
    let mut w = EncodingWriter::new();
    write_head(&mut w, m, &rs, &c.pools, version);
    write_optional(
        &mut w,
        Section::Constant,
        8,
        c.pools.constants.len() > 0,
        constants.as_bytes(),
    );
    write_section(&mut w, Section::Debug, 8, debug.as_bytes());
    write_optional(&mut w, Section::Type, 4, c.pools.types.len() > 0, types.as_bytes());
    write_optional(&mut w, Section::Str, 4, c.pools.strings.len() > 0, strings.as_bytes());
    w.write_byte(Section::EndOfBytecode.id());
    assert(w@ =~= file_bytes(m@.globals, rv, cv, version));
    Ok(w.into_bytes())
}

/// Serialize a module in the current bytecode version.
pub fn write_bytecode(m: &Module) -> (res: Result<Vec<u8>, WriteError>)
    ensures
        match written(m@, BytecodeVersion::spec_current()) {
            Ok(b) => res is Ok && res->Ok_0@ == b,
            Err(e) => res == Err::<Vec<u8>, WriteError>(e),
        },
{
    write_bytecode_version(m, BytecodeVersion::current())
}

} // verus!
