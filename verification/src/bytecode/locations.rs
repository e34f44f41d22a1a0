//! The locations of functions are found again.
use vstd::prelude::*;
use crate::bytecode::collect::CollectV;
use crate::bytecode::debug;
use crate::bytecode::enums::BytecodeVersion;
use crate::bytecode::file_roundtrip;
use crate::bytecode::func_roundtrip;
use crate::bytecode::layout::AttrName;
use crate::bytecode::layout;
use crate::bytecode::records::RecordV;
use crate::bytecode::records;
use crate::bytecode::writer;
use crate::error::{ReadError, WriteError};
use crate::ir::location::LocationV;
use crate::ir::module::{ModuleV, OperationV};

verus! {

proof fn lemma_record_of(m: ModuleV, version: BytecodeVersion, n: int, i: int)
    requires
        0 <= i < n,
    ensures
        records::records_of(m, version, n) matches Ok(rs) ==> rs.len() == n && records::record_of(
            m,
            m.functions[i],
            version,
        ) == Ok::<RecordV, WriteError>(rs[i]),
    decreases n,
{
    if i < n - 1 {
        lemma_record_of(m, version, n - 1, i);
    } else if n > 1 {
        lemma_record_of(m, version, n - 1, 0);
    }
}

/// The name under which debug information shows a function: its display name, where it
/// has one, else its own.
pub open spec fn shown_name(op: OperationV, name: Seq<char>) -> Seq<char> {
    match records::string_attr(op.attributes, layout::name_text(AttrName::DiName)) {
        Some(x) => x,
        None => name,
    }
}

/// A function that was written with a bare source location is found at that location
/// again, with its display name: the scope that was derived for it in between is
/// undone.
pub proof fn lemma_function_location_restored(
    m: ModuleV,
    version: BytecodeVersion,
    rs: Seq<RecordV>,
    c: CollectV,
    i: int,
)
    requires
        writer::collected_module(m, version) == Ok::<(Seq<RecordV>, CollectV), WriteError>((rs, c)),
        file_roundtrip::readable_file(m.globals, rs, c, version),
        writer::file_fits(c, version),
        0 <= i < m.functions.len(),
        m.ops[m.functions[i].0 as int].location is FileLineCol,
    ensures
        ({
            let op = m.ops[m.functions[i].0 as int];
            let sym = records::string_attr(op.attributes, layout::name_text(AttrName::SymName));
            &&& file_roundtrip::parsed(
                writer::file_bytes(m.globals, rs, c, version),
            ) matches Ok((t, dbg))
            &&& sym matches Some(name)
            &&& debug::function_location(dbg, t.strings, (i + 1) as u64, name) == Ok::<
                (LocationV, Option<Seq<char>>),
                ReadError,
            >((op.location, Some(shown_name(op, name))))
        }),
{
    let v = version.spec_v13_3();
    let s = file_roundtrip::before_functions(m);
    writer::lemma_collected_module(m, version);
    lemma_record_of(m, version, m.functions.len() as int, i);
    file_roundtrip::lemma_limits(m, version, rs, c);
    file_roundtrip::lemma_parsed(m, version, rs, c);
    file_roundtrip::lemma_reading_ok(s, rs, c, v, i);
    assert(records::record_checked(rs[i], v));
    func_roundtrip::lemma_before_ops(
        file_roundtrip::reading_of(rs, c, v, i),
        records::collect_records(s, rs, v, i),
        rs[i],
    );
}

} // verus!
