//! A dump of a bytecode file as text, section by section.
use vstd::prelude::*;
use crate::bytecode::attrs::{
    parse_constant_section,
    read_self_contained_attribute,
    Tables,
    TablesV,
};
use crate::bytecode::attrs;
use crate::bytecode::debug::{
    field_count_of,
    read_varints,
    DEBUG_CALL_SITE,
    DEBUG_COMPILE_UNIT,
    DEBUG_FILE,
    DEBUG_LEXICAL_BLOCK,
    DEBUG_LOC,
    DEBUG_SUBPROGRAM,
};
use crate::bytecode::debug;
use crate::bytecode::encoding::EncodingReader;
use crate::bytecode::encoding;
use crate::bytecode::enums::{BytecodeVersion, Section, NUM_SECTIONS};
use crate::bytecode::reader::SectionTable;
use crate::bytecode::reader;
use crate::bytecode::strings::parse_string_section;
use crate::bytecode::strings;
use crate::bytecode::table::read_offsets;
use crate::bytecode::table;
use crate::bytecode::types::parse_type_section;
use crate::bytecode::types as wire_types;
use crate::bytecode::wire;
use crate::error::{ReadError, Subject};
use crate::ir::attr::{AttrV, Attribute};
use crate::ir::fmt::{format_attr, format_bool, format_type};
use crate::ir::fmt;
use crate::ir::types::{Type, TypeV};
use crate::ir::types;
use crate::text::{number_text, quoted_text};
use crate::text;

verus! {

// ---------------------------------------------------------------------------
// What a dump holds
// ---------------------------------------------------------------------------

/// A global variable: indices into the tables, the alignment, and what 13.3
/// adds.
#[derive(Clone, Copy, Debug, PartialEq, Eq, Structural)]
pub struct GlobalEntry {
    pub name: u64,
    pub ty: u64,
    pub constant: u64,
    pub alignment: u64,
    pub visibility: u8,
    pub is_constant: bool,
}

/// A function: indices into the tables, flags, hints and the length of its body.
pub struct FuncEntry {
    pub name: u64,
    pub signature: u64,
    pub flags: u8,
    pub hints: Option<Attribute>,
    pub body_len: u64,
}

/// The contents of a function entry.
#[verifier::ext_equal]
pub struct FuncEntryV {
    pub name: u64,
    pub signature: u64,
    pub flags: u8,
    pub hints: Option<AttrV>,
    pub body_len: u64,
}

impl View for FuncEntry {
    type V = FuncEntryV;

    open spec fn view(&self) -> FuncEntryV {
        FuncEntryV {
            name: self.name,
            signature: self.signature,
            flags: self.flags,
            hints: reader::opt_attr(self.hints),
            body_len: self.body_len,
        }
    }
}

/// A debug attribute: a tag and its fields.
pub struct DebugEntry {
    pub tag: u8,
    pub fields: Vec<u64>,
}

/// The contents of a debug attribute.
#[verifier::ext_equal]
pub struct DebugEntryV {
    pub tag: u8,
    pub fields: Seq<u64>,
}

impl View for DebugEntry {
    type V = DebugEntryV;

    open spec fn view(&self) -> DebugEntryV {
        DebugEntryV { tag: self.tag, fields: self.fields@ }
    }
}

/// The debug section: attributes, and the ids of each function.
pub struct DebugDump {
    pub entries: Vec<DebugEntry>,
    pub lists: Vec<Vec<u64>>,
}

/// The contents of a debug section.
#[verifier::ext_equal]
pub struct DebugDumpV {
    pub entries: Seq<DebugEntryV>,
    pub lists: Seq<Seq<u64>>,
}

/// Debug attributes.
pub open spec fn entry_views(s: Seq<DebugEntry>) -> Seq<DebugEntryV> {
    Seq::new(s.len(), |i: int| s[i]@)
}

/// Lists of ids.
pub open spec fn list_views(s: Seq<Vec<u64>>) -> Seq<Seq<u64>> {
    Seq::new(s.len(), |i: int| s[i]@)
}

impl View for DebugDump {
    type V = DebugDumpV;

    open spec fn view(&self) -> DebugDumpV {
        DebugDumpV { entries: entry_views(self.entries@), lists: list_views(self.lists@) }
    }
}

/// What a file holds, section by section.
pub struct Dump {
    pub version: BytecodeVersion,
    pub tables: Tables,
    pub globals: Vec<GlobalEntry>,
    pub functions: Option<Vec<FuncEntry>>,
    pub debug: Option<DebugDump>,
}

/// The contents of a dump.
#[verifier::ext_equal]
pub struct DumpV {
    pub version: BytecodeVersion,
    pub tables: TablesV,
    pub globals: Seq<GlobalEntry>,
    pub functions: Option<Seq<FuncEntryV>>,
    pub debug: Option<DebugDumpV>,
}

/// Function entries.
pub open spec fn func_views(s: Seq<FuncEntry>) -> Seq<FuncEntryV> {
    Seq::new(s.len(), |i: int| s[i]@)
}

impl View for Dump {
    type V = DumpV;

    open spec fn view(&self) -> DumpV {
        DumpV {
            version: self.version,
            tables: self.tables@,
            globals: self.globals@,
            functions: match self.functions {
                Some(s) => Some(func_views(s@)),
                None => None,
            },
            debug: match self.debug {
                Some(s) => Some(s@),
                None => None,
            },
        }
    }
}

// ---------------------------------------------------------------------------
// Sections
// ---------------------------------------------------------------------------

/// The payloads of the sections from position `p` to the end marker, by id; a
/// section whose id is not assigned is passed over.
pub open spec fn known_sections_at(d: Seq<u8>, p: int, acc: Seq<Option<Seq<u8>>>) -> Result<
    Seq<Option<Seq<u8>>>,
    ReadError,
>
    decreases d.len() - p,
{
    match reader::section_header_at(d, p) {
        Ok(((id, len), q)) => if id == 0 {
            Ok(acc)
        } else {
            match wire::bytes_at(d, q, len as int) {
                Ok((payload, q2)) => if q2 <= p || q2 > d.len() {
                    Err(ReadError::UnexpectedEnd)
                } else {
                    known_sections_at(
                        d,
                        q2,
                        if id < NUM_SECTIONS {
                            acc.update(id as int, Some(payload))
                        } else {
                            acc
                        },
                    )
                },
                Err(e) => Err(e),
            }
        },
        Err(e) => Err(e),
    }
}

fn read_known_sections<'a>(r: &mut EncodingReader<'a>) -> (res: Result<
    SectionTable<'a>,
    ReadError,
>)
    requires
        old(r).wf(),
    ensures
        match known_sections_at(old(r).bytes(), old(r).at(), reader::no_sections()) {
            Ok(s) => res is Ok && res->Ok_0.payloads() == s && s.len() == NUM_SECTIONS,
            Err(e) => res == Err::<SectionTable<'a>, ReadError>(e),
        },
{
    let ghost d = r.bytes();
    let mut t = SectionTable::new();
    loop
        invariant
            r.wf(),
            r.bytes() == d,
            known_sections_at(old(r).bytes(), old(r).at(), reader::no_sections())
                == known_sections_at(d, r.at(), t.payloads()),
            t.payloads().len() == NUM_SECTIONS,
        decreases d.len() - r.at(),
    {
        let (id, len): (u8, u64) = r.read_section_header()?;
        if id == 0 {
            return Ok(t);
        }
        if len > r.remaining() as u64 {
            return Err(ReadError::UnexpectedEnd);
        }
        let payload = r.read_bytes(len as usize)?;
        t.insert(id, payload);
    }
}

// ---------------------------------------------------------------------------
// Global variables
// ---------------------------------------------------------------------------

/// What 13.3 adds to a global variable, at position `p`.
pub open spec fn linkage_entry_at(d: Seq<u8>, p: int, v13_3: bool) -> Result<
    ((u8, bool), int),
    ReadError,
> {
    if v13_3 {
        match wire::byte_at(d, p) {
            Ok((visibility, q)) => match wire::varint_at(d, q) {
                Ok((c, q2)) => Ok(((visibility, c != 0), q2)),
                Err(e) => Err(e),
            },
            Err(e) => Err(e),
        }
    } else {
        Ok(((0, false), p))
    }
}

/// A global variable at position `p`.
pub open spec fn global_entry_at(d: Seq<u8>, p: int, v13_3: bool) -> Result<
    (GlobalEntry, int),
    ReadError,
> {
    match debug::varints_at(d, p, 4) {
        Ok((f, q)) => match linkage_entry_at(d, q, v13_3) {
            Ok(((visibility, is_constant), q2)) => Ok(
                (
                    GlobalEntry {
                        name: f[0],
                        ty: f[1],
                        constant: f[2],
                        alignment: f[3],
                        visibility,
                        is_constant,
                    },
                    q2,
                ),
            ),
            Err(e) => Err(e),
        },
        Err(e) => Err(e),
    }
}

/// The first `n` global variables from position `p`.
pub open spec fn global_entries_at(d: Seq<u8>, p: int, v13_3: bool, n: int) -> Result<
    (Seq<GlobalEntry>, int),
    ReadError,
>
    decreases n,
{
    if n <= 0 {
        Ok((seq![], p))
    } else {
        match global_entries_at(d, p, v13_3, n - 1) {
            Ok((s, q)) => match global_entry_at(d, q, v13_3) {
                Ok((g, q2)) => Ok((s.push(g), q2)),
                Err(e) => Err(e),
            },
            Err(e) => Err(e),
        }
    }
}

/// The global variables of a section, none where the section is absent.
pub open spec fn global_entries(payload: Option<Seq<u8>>, v13_3: bool) -> Result<
    Seq<GlobalEntry>,
    ReadError,
> {
    match payload {
        None => Ok(seq![]),
        Some(d) => match wire::varint_at(d, 0) {
            Ok((n, p)) => match global_entries_at(d, p, v13_3, n as int) {
                Ok((s, _)) => Ok(s),
                Err(e) => Err(e),
            },
            Err(e) => Err(e),
        },
    }
}

proof fn lemma_globals_error(d: Seq<u8>, p: int, v13_3: bool, k: int, n: int)
    requires
        0 <= k <= n,
        global_entries_at(d, p, v13_3, k) is Err,
    ensures
        global_entries_at(d, p, v13_3, n) == global_entries_at(d, p, v13_3, k),
    decreases n,
{
    if k < n {
        lemma_globals_error(d, p, v13_3, k, n - 1);
    }
}

fn read_global_entry(r: &mut EncodingReader, v13_3: bool) -> (res: Result<GlobalEntry, ReadError>)
    requires
        old(r).wf(),
    ensures
        encoding::reads(
            res,
            *old(r),
            *final(r),
            global_entry_at(old(r).bytes(), old(r).at(), v13_3),
        ),
{
    let f: Vec<u64> = read_varints(r, 4)?;
    let name: u64 = f[0];
    let ty: u64 = f[1];
    let constant: u64 = f[2];
    let alignment: u64 = f[3];
    if v13_3 {
        let visibility: u8 = r.read_byte()?;
        let c: u64 = r.read_varint()?;
        Ok(GlobalEntry { name, ty, constant, alignment, visibility, is_constant: c != 0 })
    } else {
        Ok(GlobalEntry { name, ty, constant, alignment, visibility: 0, is_constant: false })
    }
}

fn parse_global_section(payload: Option<&[u8]>, v13_3: bool) -> (res: Result<
    Vec<GlobalEntry>,
    ReadError,
>)
    ensures
        match global_entries(wire_types::payload_view(payload), v13_3) {
            Ok(s) => res is Ok && res->Ok_0@ == s,
            Err(e) => res == Err::<Vec<GlobalEntry>, ReadError>(e),
        },
{
    let mut out: Vec<GlobalEntry> = Vec::new();
    let data = match payload {
        None => {
            return Ok(out);
        },
        Some(d) => d,
    };
    let mut r = EncodingReader::new(data);
    let ghost d = r.bytes();
    let n: u64 = r.read_varint()?;
    let ghost p = r.at();
    let mut i: u64 = 0;
    while i < n
        invariant
            i <= n,
            r.wf(),
            r.bytes() == d,
            global_entries(wire_types::payload_view(payload), v13_3) == (match global_entries_at(
                d,
                p,
                v13_3,
                n as int,
            ) {
                Ok((s, _)) => Ok(s),
                Err(e) => Err(e),
            }),
            global_entries_at(d, p, v13_3, i as int) == Ok::<(Seq<GlobalEntry>, int), ReadError>(
                (out@, r.at()),
            ),
        decreases n - i,
    {
        proof {
            if global_entries_at(d, p, v13_3, i + 1) is Err {
                lemma_globals_error(d, p, v13_3, i + 1, n as int);
            }
        }
        let g = read_global_entry(&mut r, v13_3)?;
        out.push(g);
        i = i + 1;
    }
    Ok(out)
}

// ---------------------------------------------------------------------------
// Functions
// ---------------------------------------------------------------------------

/// A function at position `p`. Its body is passed over.
pub open spec fn func_entry_at(d: Seq<u8>, p: int, t: TablesV) -> Result<
    (FuncEntryV, int),
    ReadError,
> {
    match debug::varints_at(d, p, 2) {
        Ok((f, q)) => match wire::byte_at(d, q) {
            Ok((flags, q2)) => match wire::varint_at(d, q2) {
                Ok((_, q3)) => match reader::opt_hints_at(d, q3, t, flags / 4 % 2 == 1) {
                    Ok((hints, q4)) => match wire::varint_at(d, q4) {
                        Ok((body_len, q5)) => match wire::bytes_at(d, q5, body_len as int) {
                            Ok((_, q6)) => Ok(
                                (
                                    FuncEntryV {
                                        name: f[0],
                                        signature: f[1],
                                        flags,
                                        hints,
                                        body_len,
                                    },
                                    q6,
                                ),
                            ),
                            Err(e) => Err(e),
                        },
                        Err(e) => Err(e),
                    },
                    Err(e) => Err(e),
                },
                Err(e) => Err(e),
            },
            Err(e) => Err(e),
        },
        Err(e) => Err(e),
    }
}

/// The first `n` functions from position `p`.
pub open spec fn func_entries_at(d: Seq<u8>, p: int, t: TablesV, n: int) -> Result<
    (Seq<FuncEntryV>, int),
    ReadError,
>
    decreases n,
{
    if n <= 0 {
        Ok((seq![], p))
    } else {
        match func_entries_at(d, p, t, n - 1) {
            Ok((s, q)) => match func_entry_at(d, q, t) {
                Ok((f, q2)) => Ok((s.push(f), q2)),
                Err(e) => Err(e),
            },
            Err(e) => Err(e),
        }
    }
}

/// The functions of a section.
pub open spec fn func_entries(d: Seq<u8>, t: TablesV) -> Result<Seq<FuncEntryV>, ReadError> {
    match wire::varint_at(d, 0) {
        Ok((n, p)) => match func_entries_at(d, p, t, n as int) {
            Ok((s, _)) => Ok(s),
            Err(e) => Err(e),
        },
        Err(e) => Err(e),
    }
}

proof fn lemma_funcs_error(d: Seq<u8>, p: int, t: TablesV, k: int, n: int)
    requires
        0 <= k <= n,
        func_entries_at(d, p, t, k) is Err,
    ensures
        func_entries_at(d, p, t, n) == func_entries_at(d, p, t, k),
    decreases n,
{
    if k < n {
        lemma_funcs_error(d, p, t, k, n - 1);
    }
}

fn read_func_entry(r: &mut EncodingReader, t: &Tables) -> (res: Result<FuncEntry, ReadError>)
    requires
        old(r).wf(),
    ensures
        encoding::reads_view(
            res,
            *old(r),
            *final(r),
            func_entry_at(old(r).bytes(), old(r).at(), t@),
        ),
{
    let f: Vec<u64> = read_varints(r, 2)?;
    let name: u64 = f[0];
    let signature: u64 = f[1];
    let flags: u8 = r.read_byte()?;
    let _loc: u64 = r.read_varint()?;
    let hints: Option<Attribute> = if flags / 4 % 2 == 1 {
        let depth: usize = r.len();
        Some(read_self_contained_attribute(r, t, depth)?)
    } else {
        None
    };
    let body_len: u64 = r.read_varint()?;
    if body_len > r.remaining() as u64 {
        return Err(ReadError::UnexpectedEnd);
    }
    let _body = r.read_bytes(body_len as usize)?;
    Ok(FuncEntry { name, signature, flags, hints, body_len })
}

fn parse_func_section(data: &[u8], t: &Tables) -> (res: Result<Vec<FuncEntry>, ReadError>)
    ensures
        match func_entries(data@, t@) {
            Ok(s) => res is Ok && func_views(res->Ok_0@) == s,
            Err(e) => res == Err::<Vec<FuncEntry>, ReadError>(e),
        },
{
    let mut out: Vec<FuncEntry> = Vec::new();
    assert(func_views(out@) =~= seq![]);
    let mut r = EncodingReader::new(data);
    let ghost d = r.bytes();
    let n: u64 = r.read_varint()?;
    let ghost p = r.at();
    let mut i: u64 = 0;
    while i < n
        invariant
            i <= n,
            r.wf(),
            r.bytes() == d,
            func_entries(data@, t@) == (match func_entries_at(d, p, t@, n as int) {
                Ok((s, _)) => Ok(s),
                Err(e) => Err(e),
            }),
            func_entries_at(d, p, t@, i as int) == Ok::<(Seq<FuncEntryV>, int), ReadError>(
                (func_views(out@), r.at()),
            ),
        decreases n - i,
    {
        proof {
            if func_entries_at(d, p, t@, i + 1) is Err {
                lemma_funcs_error(d, p, t@, i + 1, n as int);
            }
        }
        let f = read_func_entry(&mut r, t)?;
        let ghost before = out@;
        out.push(f);
        assert(func_views(out@) =~= func_views(before).push(f@));
        i = i + 1;
    }
    Ok(out)
}

// ---------------------------------------------------------------------------
// Debug information
// ---------------------------------------------------------------------------

/// A counted, aligned list of `w`-byte integers at position `p`.
pub open spec fn list_at(d: Seq<u8>, p: int, w: nat) -> Result<(Seq<int>, int), ReadError> {
    match wire::varint_at(d, p) {
        Ok((n, q)) => match wire::skip_padding_at(d, q, w as int) {
            Ok(q2) => table::offsets_at(d, q2, w, n as int),
            Err(e) => Err(e),
        },
        Err(e) => Err(e),
    }
}

/// A debug attribute: a tag and as many fields as the tag has.
pub open spec fn entry_at(d: Seq<u8>) -> Result<DebugEntryV, ReadError> {
    match wire::byte_at(d, 0) {
        Ok((tag, q)) => match debug::field_count(tag) {
            Some(n) => match debug::varints_at(d, q, n) {
                Ok((fields, _)) => Ok(DebugEntryV { tag, fields }),
                Err(e) => Err(e),
            },
            None => Err(ReadError::UnknownDebugTag(tag)),
        },
        Err(e) => Err(e),
    }
}

/// The first `n` debug attributes; none is empty.
pub open spec fn entries_at(data: Seq<u8>, offs: Seq<int>, n: int) -> Result<
    Seq<DebugEntryV>,
    ReadError,
>
    decreases n,
{
    if n <= 0 {
        Ok(seq![])
    } else {
        match entries_at(data, offs, n - 1) {
            Ok(s) => {
                let start = offs[n - 1];
                let end = if n < offs.len() {
                    offs[n]
                } else {
                    data.len() as int
                };
                if start >= end || end > data.len() {
                    Err(ReadError::OffsetOutOfRange(Subject::DebugAttribute, n as u64))
                } else {
                    match entry_at(data.subrange(start, end)) {
                        Ok(e) => Ok(s.push(e)),
                        Err(e) => Err(e),
                    }
                }
            },
            Err(e) => Err(e),
        }
    }
}

/// The ids of the first `n` functions.
pub open spec fn lists_of(ids: Seq<u64>, offs: Seq<int>, n: int) -> Result<Seq<Seq<u64>>, ReadError>
    decreases n,
{
    if n <= 0 {
        Ok(seq![])
    } else {
        match lists_of(ids, offs, n - 1) {
            Ok(s) => {
                let start = offs[n - 1];
                let end = if n < offs.len() {
                    offs[n]
                } else {
                    ids.len() as int
                };
                if start > end || end > ids.len() {
                    Err(ReadError::OffsetOutOfRange(Subject::DebugIndex, (n - 1) as u64))
                } else {
                    Ok(s.push(ids.subrange(start, end)))
                }
            },
            Err(e) => Err(e),
        }
    }
}

/// Integers that fit in 64 bits.
pub open spec fn as_words(s: Seq<int>) -> Seq<u64> {
    Seq::new(s.len(), |i: int| s[i] as u64)
}

/// A debug section.
pub open spec fn debug_dump(d: Seq<u8>) -> Result<DebugDumpV, ReadError> {
    match list_at(d, 0, 4) {
        Ok((index_offsets, p)) => match list_at(d, p, 8) {
            Ok((ids, p2)) => match list_at(d, p2, 4) {
                Ok((offs, p3)) => match entries_at(d.skip(p3), offs, offs.len() as int) {
                    Ok(entries) => match lists_of(
                        as_words(ids),
                        index_offsets,
                        index_offsets.len() as int,
                    ) {
                        Ok(lists) => Ok(DebugDumpV { entries, lists }),
                        Err(e) => Err(e),
                    },
                    Err(e) => Err(e),
                },
                Err(e) => Err(e),
            },
            Err(e) => Err(e),
        },
        Err(e) => Err(e),
    }
}

fn read_list(r: &mut EncodingReader, width: u32) -> (res: Result<Vec<u64>, ReadError>)
    requires
        old(r).wf(),
        width == 4 || width == 8,
    ensures
        final(r).wf(),
        final(r).bytes() == old(r).bytes(),
        final(r).at() >= old(r).at(),
        match list_at(old(r).bytes(), old(r).at(), width as nat) {
            Ok((s, q)) => {
                &&& res is Ok
                &&& table::as_ints(res->Ok_0@) == s
                &&& final(r).at() == q
            },
            Err(e) => res == Err::<Vec<u64>, ReadError>(e),
        },
{
    let n: u64 = r.read_varint()?;
    r.skip_padding(width as u64)?;
    read_offsets(r, width, n)
}

fn read_entry(data: &[u8]) -> (res: Result<DebugEntry, ReadError>)
    ensures
        match entry_at(data@) {
            Ok(e) => res is Ok && res->Ok_0@ == e,
            Err(e) => res == Err::<DebugEntry, ReadError>(e),
        },
{
    let mut r = EncodingReader::new(data);
    let tag: u8 = r.read_byte()?;
    match field_count_of(tag) {
        Some(n) => {
            let fields = read_varints(&mut r, n)?;
            Ok(DebugEntry { tag, fields })
        },
        None => Err(ReadError::UnknownDebugTag(tag)),
    }
}

proof fn lemma_entries_error(data: Seq<u8>, offs: Seq<int>, k: int, n: int)
    requires
        0 <= k <= n,
        entries_at(data, offs, k) is Err,
    ensures
        entries_at(data, offs, n) == entries_at(data, offs, k),
    decreases n,
{
    if k < n {
        lemma_entries_error(data, offs, k, n - 1);
    }
}

fn read_entries(data: &[u8], offs: &Vec<u64>) -> (res: Result<Vec<DebugEntry>, ReadError>)
    ensures
        match entries_at(data@, table::as_ints(offs@), offs@.len() as int) {
            Ok(s) => res is Ok && entry_views(res->Ok_0@) == s,
            Err(e) => res == Err::<Vec<DebugEntry>, ReadError>(e),
        },
{
    let ghost o = table::as_ints(offs@);
    let n: usize = offs.len();
    let mut out: Vec<DebugEntry> = Vec::new();
    let mut i: usize = 0;
    assert(entry_views(out@) =~= seq![]);
    while i < n
        invariant
            i <= n,
            n == offs@.len(),
            o == table::as_ints(offs@),
            entries_at(data@, o, i as int) == Ok::<Seq<DebugEntryV>, ReadError>(
                entry_views(out@),
            ),
        decreases n - i,
    {
        let start: u64 = offs[i];
        let end: u64 = if i + 1 < n {
            offs[i + 1]
        } else {
            data.len() as u64
        };
        proof {
            if entries_at(data@, o, i + 1) is Err {
                lemma_entries_error(data@, o, i + 1, n as int);
            }
        }
        if start >= end || end > data.len() as u64 {
            return Err(ReadError::OffsetOutOfRange(Subject::DebugAttribute, i as u64 + 1));
        }
        let piece = vstd::slice::slice_subrange(data, start as usize, end as usize);
        let e = read_entry(piece)?;
        let ghost before = out@;
        out.push(e);
        assert(entry_views(out@) =~= entry_views(before).push(e@));
        i = i + 1;
    }
    Ok(out)
}

proof fn lemma_lists_error(ids: Seq<u64>, offs: Seq<int>, k: int, n: int)
    requires
        0 <= k <= n,
        lists_of(ids, offs, k) is Err,
    ensures
        lists_of(ids, offs, n) == lists_of(ids, offs, k),
    decreases n,
{
    if k < n {
        lemma_lists_error(ids, offs, k, n - 1);
    }
}

fn copy_words(s: &Vec<u64>, start: usize, end: usize) -> (r: Vec<u64>)
    requires
        start <= end <= s@.len(),
    ensures
        r@ == s@.subrange(start as int, end as int),
{
    let mut r: Vec<u64> = Vec::new();
    let mut i: usize = start;
    while i < end
        invariant
            start <= i <= end <= s@.len(),
            r@ == s@.subrange(start as int, i as int),
        decreases end - i,
    {
        r.push(s[i]);
        i = i + 1;
        assert(r@ =~= s@.subrange(start as int, i as int));
    }
    r
}

fn split_lists(ids: &Vec<u64>, offs: &Vec<u64>) -> (res: Result<Vec<Vec<u64>>, ReadError>)
    ensures
        match lists_of(ids@, table::as_ints(offs@), offs@.len() as int) {
            Ok(s) => res is Ok && list_views(res->Ok_0@) == s,
            Err(e) => res == Err::<Vec<Vec<u64>>, ReadError>(e),
        },
{
    let ghost o = table::as_ints(offs@);
    let n: usize = offs.len();
    let mut out: Vec<Vec<u64>> = Vec::new();
    let mut i: usize = 0;
    assert(list_views(out@) =~= seq![]);
    while i < n
        invariant
            i <= n,
            n == offs@.len(),
            o == table::as_ints(offs@),
            lists_of(ids@, o, i as int) == Ok::<Seq<Seq<u64>>, ReadError>(list_views(out@)),
        decreases n - i,
    {
        let start: u64 = offs[i];
        let end: u64 = if i + 1 < n {
            offs[i + 1]
        } else {
            ids.len() as u64
        };
        proof {
            if lists_of(ids@, o, i + 1) is Err {
                lemma_lists_error(ids@, o, i + 1, n as int);
            }
        }
        if start > end || end > ids.len() as u64 {
            return Err(ReadError::OffsetOutOfRange(Subject::DebugIndex, i as u64));
        }
        let l = copy_words(ids, start as usize, end as usize);
        let ghost before = out@;
        out.push(l);
        assert(list_views(out@) =~= list_views(before).push(l@));
        i = i + 1;
    }
    Ok(out)
}

/// Read a debug section for a dump.
pub fn parse_debug_section(data: &[u8]) -> (res: Result<DebugDump, ReadError>)
    ensures
        match debug_dump(data@) {
            Ok(s) => res is Ok && res->Ok_0@ == s,
            Err(e) => res == Err::<DebugDump, ReadError>(e),
        },
{
    let mut r = EncodingReader::new(data);
    let ghost d = r.bytes();
    let index_offsets = read_list(&mut r, 4)?;
    let ids = read_list(&mut r, 8)?;
    let offs = read_list(&mut r, 4)?;
    let ghost p3 = r.at();
    let rest: usize = r.remaining();
    let b = r.read_bytes(rest)?;
    proof {
        assert(b@ =~= d.skip(p3));
        assert(as_words(table::as_ints(ids@)) =~= ids@);
    }
    let entries = read_entries(b, &offs)?;
    let lists = split_lists(&ids, &index_offsets)?;
    Ok(DebugDump { entries, lists })
}

// ---------------------------------------------------------------------------
// Files
// ---------------------------------------------------------------------------

/// What the sections of a file hold.
pub open spec fn dump_of(s: Seq<Option<Seq<u8>>>, version: BytecodeVersion) -> Result<
    DumpV,
    ReadError,
> {
    match dump_tables(s, version) {
        Ok(t) => match global_entries(s[Section::Global.spec_id() as int], version.spec_v13_3()) {
            Ok(globals) => match dump_functions(s[Section::Func.spec_id() as int], t) {
                Ok(functions) => match dump_debug(s[Section::Debug.spec_id() as int]) {
                    Ok(debug) => Ok(DumpV { version, tables: t, globals, functions, debug }),
                    Err(e) => Err(e),
                },
                Err(e) => Err(e),
            },
            Err(e) => Err(e),
        },
        Err(e) => Err(e),
    }
}

/// The tables of a file.
pub open spec fn dump_tables(s: Seq<Option<Seq<u8>>>, version: BytecodeVersion) -> Result<
    TablesV,
    ReadError,
> {
    match strings::string_section(s[Section::Str.spec_id() as int]) {
        Ok(strings) => match wire_types::type_section(s[Section::Type.spec_id() as int], version) {
            Ok(types) => match attrs::constant_section(s[Section::Constant.spec_id() as int]) {
                Ok(constants) => Ok(TablesV { strings, types, constants }),
                Err(e) => Err(e),
            },
            Err(e) => Err(e),
        },
        Err(e) => Err(e),
    }
}

/// The functions of a file that has a function section.
pub open spec fn dump_functions(payload: Option<Seq<u8>>, t: TablesV) -> Result<
    Option<Seq<FuncEntryV>>,
    ReadError,
> {
    match payload {
        None => Ok(None),
        Some(d) => match func_entries(d, t) {
            Ok(s) => Ok(Some(s)),
            Err(e) => Err(e),
        },
    }
}

/// The debug information of a file that has a debug section.
pub open spec fn dump_debug(payload: Option<Seq<u8>>) -> Result<Option<DebugDumpV>, ReadError> {
    match payload {
        None => Ok(None),
        Some(d) => match debug_dump(d) {
            Ok(s) => Ok(Some(s)),
            Err(e) => Err(e),
        },
    }
}

/// What a file holds. Any version is accepted.
pub open spec fn dump_at(d: Seq<u8>) -> Result<DumpV, ReadError> {
    match reader::header_at(d) {
        Ok((version, p)) => match known_sections_at(d, p, reader::no_sections()) {
            Ok(s) => dump_of(s, version),
            Err(e) => Err(e),
        },
        Err(e) => Err(e),
    }
}

/// Read what a file holds, section by section.
pub fn read_dump(data: &[u8]) -> (res: Result<Dump, ReadError>)
    ensures
        match dump_at(data@) {
            Ok(s) => res is Ok && res->Ok_0@ == s,
            Err(e) => res == Err::<Dump, ReadError>(e),
        },
{
    let mut r = EncodingReader::new(data);
    let version = r.read_header()?;
    let sections = read_known_sections(&mut r)?;
    let strings = parse_string_section(sections.get(Section::Str.id()))?;
    let types = parse_type_section(sections.get(Section::Type.id()), version)?;
    let constants = parse_constant_section(sections.get(Section::Constant.id()))?;
    let tables = Tables { strings, types, constants };
    let globals = parse_global_section(sections.get(Section::Global.id()), version.is_v13_3())?;
    let functions: Option<Vec<FuncEntry>> = match sections.get(Section::Func.id()) {
        Some(d) => Some(parse_func_section(d, &tables)?),
        None => None,
    };
    let debug: Option<DebugDump> = match sections.get(Section::Debug.id()) {
        Some(d) => Some(parse_debug_section(d)?),
        None => None,
    };
    Ok(Dump { version, tables, globals, functions, debug })
}

// ---------------------------------------------------------------------------
// Text
// ---------------------------------------------------------------------------

/// The title of a section.
pub open spec fn title_text(name: Seq<char>, n: int, rest: Seq<char>) -> Seq<char> {
    "=== "@ + name + " ("@ + text::decimal_text(n) + rest + ") ===\n"@
}

fn title(name: &str, n: usize, rest: &str) -> (r: String)
    ensures
        r@ == title_text(name@, n as int, rest@),
{
    let mut r: String = "=== ".to_owned();
    r.append(name);
    r.append(" (");
    r.append(number_text(n as u64).as_str());
    r.append(rest);
    r.append(") ===\n");
    r
}

/// The first line of a dump.
pub open spec fn header_text(v: BytecodeVersion) -> Seq<char> {
    "TileIR bytecode v"@ + text::decimal_text(v.major as int) + "."@ + text::decimal_text(
        v.minor as int,
    ) + "\n\n"@
}

/// The first line of a dump.
pub fn format_header(v: BytecodeVersion) -> (r: String)
    ensures
        r@ == header_text(v),
{
    let mut r: String = "TileIR bytecode v".to_owned();
    r.append(number_text(v.major as u64).as_str());
    r.append(".");
    r.append(number_text(v.minor as u64).as_str());
    r.append("\n\n");
    r
}

/// A numbered line.
pub open spec fn numbered_text(i: int, s: Seq<char>) -> Seq<char> {
    "  ["@ + text::decimal_text(i) + "] "@ + s + "\n"@
}

/// A numbered line.
pub fn format_numbered(i: usize, s: &str) -> (r: String)
    ensures
        r@ == numbered_text(i as int, s@),
{
    let mut r: String = "  [".to_owned();
    r.append(number_text(i as u64).as_str());
    r.append("] ");
    r.append(s);
    r.append("\n");
    r
}

/// The first `n` strings.
pub open spec fn strings_text(s: Seq<Seq<char>>, n: int) -> Seq<char>
    decreases n,
{
    if n <= 0 {
        seq![]
    } else {
        strings_text(s, n - 1) + numbered_text(n - 1, text::quoted(s[n - 1]))
    }
}

/// The first `n` types.
pub open spec fn type_lines(s: Seq<TypeV>, n: int) -> Seq<char>
    decreases n,
{
    if n <= 0 {
        seq![]
    } else {
        type_lines(s, n - 1) + numbered_text(n - 1, fmt::type_text(s[n - 1]))
    }
}

/// The first `n` constants.
pub open spec fn constants_text(s: Seq<Seq<u8>>, n: int) -> Seq<char>
    decreases n,
{
    if n <= 0 {
        seq![]
    } else {
        constants_text(s, n - 1) + numbered_text(
            n - 1,
            text::decimal_text(s[n - 1].len() as int) + " bytes"@,
        )
    }
}

/// A section that is shown where it holds something: a title, lines and an
/// empty line.
pub open spec fn section_text(name: Seq<char>, n: int, lines: Seq<char>) -> Seq<char> {
    if n == 0 {
        ""@
    } else {
        title_text(name, n, ""@) + lines + "\n"@
    }
}

fn format_section(name: &str, n: usize, lines: &str) -> (r: String)
    ensures
        r@ == section_text(name@, n as int, lines@),
{
    if n == 0 {
        return "".to_owned();
    }
    let mut r = title(name, n, "");
    r.append(lines);
    r.append("\n");
    r
}

fn format_strings(s: &Vec<String>) -> (r: String)
    ensures
        r@ == strings_text(strings::texts(s@), s@.len() as int),
{
    let ghost l = strings::texts(s@);
    let mut r: String = String::new();
    let mut i: usize = 0;
    while i < s.len()
        invariant
            i <= s@.len(),
            l == strings::texts(s@),
            r@ == strings_text(l, i as int),
        decreases s@.len() - i,
    {
        let q = quoted_text(s[i].as_str());
        assert(l[i as int] == s@[i as int]@);
        r.append(format_numbered(i, q.as_str()).as_str());
        i = i + 1;
    }
    r
}

fn format_type_lines(s: &Vec<Type>) -> (r: String)
    ensures
        r@ == type_lines(types::types_view(s@), s@.len() as int),
{
    let ghost l = types::types_view(s@);
    let mut r: String = String::new();
    let mut i: usize = 0;
    while i < s.len()
        invariant
            i <= s@.len(),
            l == types::types_view(s@),
            r@ == type_lines(l, i as int),
        decreases s@.len() - i,
    {
        let q = format_type(&s[i]);
        assert(l[i as int] == s@[i as int]@);
        r.append(format_numbered(i, q.as_str()).as_str());
        i = i + 1;
    }
    r
}

fn format_constants(s: &Vec<Vec<u8>>) -> (r: String)
    ensures
        r@ == constants_text(table::byte_views(s@), s@.len() as int),
{
    let ghost l = table::byte_views(s@);
    let mut r: String = String::new();
    let mut i: usize = 0;
    while i < s.len()
        invariant
            i <= s@.len(),
            l == table::byte_views(s@),
            r@ == constants_text(l, i as int),
        decreases s@.len() - i,
    {
        let mut q = number_text(s[i].len() as u64);
        q.append(" bytes");
        assert(l[i as int] == s@[i as int]@);
        r.append(format_numbered(i, q.as_str()).as_str());
        i = i + 1;
    }
    r
}

/// The string with an index, a question mark where there is none.
pub open spec fn string_or(s: Seq<Seq<char>>, i: u64) -> Seq<char> {
    if i < s.len() {
        s[i as int]
    } else {
        "?"@
    }
}

/// The type with an index, a question mark where there is none.
pub open spec fn type_or(s: Seq<TypeV>, i: u64) -> Seq<char> {
    if i < s.len() {
        fmt::type_text(s[i as int])
    } else {
        "?"@
    }
}

fn find_string<'a>(s: &'a Vec<String>, i: u64) -> (r: &'a str)
    ensures
        r@ == string_or(strings::texts(s@), i),
{
    if i < s.len() as u64 {
        s[i as usize].as_str()
    } else {
        "?"
    }
}

fn find_type(s: &Vec<Type>, i: u64) -> (r: String)
    ensures
        r@ == type_or(types::types_view(s@), i),
{
    if i < s.len() as u64 {
        assert(types::types_view(s@)[i as int] == s@[i as int]@);
        format_type(&s[i as usize])
    } else {
        "?".to_owned()
    }
}

/// The name of a visibility.
pub open spec fn visibility_text(v: u8) -> Seq<char> {
    if v == 0 {
        "public"@
    } else if v == 1 {
        "private"@
    } else {
        "unknown"@
    }
}

/// What 13.3 adds to a global variable.
pub open spec fn linkage_text(g: GlobalEntry, v13_3: bool) -> Seq<char> {
    if v13_3 {
        ", "@ + visibility_text(g.visibility) + ", constant="@ + fmt::bool_text(g.is_constant)
    } else {
        ""@
    }
}

/// A global variable.
pub open spec fn global_text(g: GlobalEntry, t: TablesV, v13_3: bool) -> Seq<char> {
    "  @"@ + string_or(t.strings, g.name) + " : "@ + type_or(t.types, g.ty) + " = const["@
        + text::decimal_text(g.constant as int) + "], align "@ + text::decimal_text(
        g.alignment as int,
    ) + linkage_text(g, v13_3) + "\n"@
}

/// The first `n` global variables.
pub open spec fn globals_text(s: Seq<GlobalEntry>, t: TablesV, v13_3: bool, n: int) -> Seq<char>
    decreases n,
{
    if n <= 0 {
        seq![]
    } else {
        globals_text(s, t, v13_3, n - 1) + global_text(s[n - 1], t, v13_3)
    }
}

fn format_linkage(g: &GlobalEntry, v13_3: bool) -> (r: String)
    ensures
        r@ == linkage_text(*g, v13_3),
{
    if !v13_3 {
        return "".to_owned();
    }
    let mut r: String = ", ".to_owned();
    if g.visibility == 0 {
        r.append("public");
    } else if g.visibility == 1 {
        r.append("private");
    } else {
        r.append("unknown");
    }
    r.append(", constant=");
    r.append(format_bool(g.is_constant));
    r
}

fn format_globals(s: &Vec<GlobalEntry>, t: &Tables, v13_3: bool) -> (r: String)
    ensures
        r@ == globals_text(s@, t@, v13_3, s@.len() as int),
{
    let mut r: String = String::new();
    let mut i: usize = 0;
    while i < s.len()
        invariant
            i <= s@.len(),
            r@ == globals_text(s@, t@, v13_3, i as int),
        decreases s@.len() - i,
    {
        let g: GlobalEntry = s[i];
        let mut q: String = "  @".to_owned();
        q.append(find_string(&t.strings, g.name));
        q.append(" : ");
        q.append(find_type(&t.types, g.ty).as_str());
        q.append(" = const[");
        q.append(number_text(g.constant).as_str());
        q.append("], align ");
        q.append(number_text(g.alignment).as_str());
        q.append(format_linkage(&g, v13_3).as_str());
        q.append("\n");
        assert(q@ == global_text(g, t@, v13_3));
        r.append(q.as_str());
        i = i + 1;
    }
    r
}

/// The hints of a function, where it has some.
pub open spec fn hints_line(h: Option<AttrV>) -> Seq<char> {
    match h {
        Some(a) => "    optimization_hints = "@ + fmt::attr_text(a) + "\n"@,
        None => ""@,
    }
}

/// A function. Its operations are not counted: the number of its bytes stands
/// for them.
pub open spec fn func_text(f: FuncEntryV, t: TablesV) -> Seq<char> {
    (if f.flags / 2 % 2 == 1 {
        "  entry @"@
    } else {
        "  func @"@
    }) + string_or(t.strings, f.name) + " : "@ + type_or(t.types, f.signature) + "\n    body: "@
        + text::decimal_text(f.body_len as int) + " bytes, ~"@ + text::decimal_text(
        f.body_len as int,
    ) + " ops\n"@ + hints_line(f.hints) + "\n"@
}

/// The first `n` functions.
pub open spec fn funcs_text(s: Seq<FuncEntryV>, t: TablesV, n: int) -> Seq<char>
    decreases n,
{
    if n <= 0 {
        seq![]
    } else {
        funcs_text(s, t, n - 1) + func_text(s[n - 1], t)
    }
}

fn format_hints_line(h: &Option<Attribute>) -> (r: String)
    ensures
        r@ == hints_line(reader::opt_attr(*h)),
{
    match h {
        Some(a) => {
            let mut r: String = "    optimization_hints = ".to_owned();
            r.append(format_attr(a).as_str());
            r.append("\n");
            r
        },
        None => "".to_owned(),
    }
}

fn format_func(f: &FuncEntry, t: &Tables) -> (r: String)
    ensures
        r@ == func_text(f@, t@),
{
    let mut r: String = if f.flags / 2 % 2 == 1 {
        "  entry @".to_owned()
    } else {
        "  func @".to_owned()
    };
    r.append(find_string(&t.strings, f.name));
    r.append(" : ");
    r.append(find_type(&t.types, f.signature).as_str());
    r.append("\n    body: ");
    r.append(number_text(f.body_len).as_str());
    r.append(" bytes, ~");
    r.append(number_text(f.body_len).as_str());
    r.append(" ops\n");
    r.append(format_hints_line(&f.hints).as_str());
    r.append("\n");
    r
}

fn format_funcs(s: &Vec<FuncEntry>, t: &Tables) -> (r: String)
    ensures
        r@ == funcs_text(func_views(s@), t@, s@.len() as int),
{
    let ghost l = func_views(s@);
    let mut r: String = String::new();
    let mut i: usize = 0;
    while i < s.len()
        invariant
            i <= s@.len(),
            l == func_views(s@),
            r@ == funcs_text(l, t@, i as int),
        decreases s@.len() - i,
    {
        assert(l[i as int] == s@[i as int]@);
        r.append(format_func(&s[i], t).as_str());
        i = i + 1;
    }
    r
}

/// The string with an index, in quotation marks.
pub open spec fn debug_string(s: Seq<Seq<char>>, i: u64) -> Seq<char> {
    text::quoted(
        if i < s.len() {
            s[i as int]
        } else {
            "<bad string index>"@
        },
    )
}

fn find_debug_string(s: &Vec<String>, i: u64) -> (r: String)
    ensures
        r@ == debug_string(strings::texts(s@), i),
{
    if i < s.len() as u64 {
        quoted_text(s[i as usize].as_str())
    } else {
        quoted_text("<bad string index>")
    }
}

/// A debug attribute. Other attributes are named by their ids.
pub open spec fn debug_entry_text(e: DebugEntryV, strings: Seq<Seq<char>>) -> Seq<char> {
    let f = e.fields;
    if e.tag == DEBUG_FILE {
        "DIFile(name="@ + debug_string(strings, f[0]) + ", dir="@ + debug_string(strings, f[1])
            + ")\n"@
    } else if e.tag == DEBUG_COMPILE_UNIT {
        "DICompileUnit(file=di["@ + text::decimal_text(f[0] as int) + "])\n"@
    } else if e.tag == DEBUG_LEXICAL_BLOCK {
        "DILexicalBlock(scope=di["@ + text::decimal_text(f[0] as int) + "], file=di["@
            + text::decimal_text(f[1] as int) + "], "@ + text::decimal_text(f[2] as int) + ":"@
            + text::decimal_text(f[3] as int) + ")\n"@
    } else if e.tag == DEBUG_LOC {
        "DILoc(scope=di["@ + text::decimal_text(f[0] as int) + "], "@ + debug_string(
            strings,
            f[1],
        ) + ":"@ + text::decimal_text(f[2] as int) + ":"@ + text::decimal_text(f[3] as int)
            + ")\n"@
    } else if e.tag == DEBUG_SUBPROGRAM {
        "DISubprogram(file=di["@ + text::decimal_text(f[0] as int) + "], line="@
            + text::decimal_text(f[1] as int) + ", name="@ + debug_string(strings, f[2])
            + ", linkage="@ + debug_string(strings, f[3]) + ", cu=di["@ + text::decimal_text(
            f[4] as int,
        ) + "], scope_line="@ + text::decimal_text(f[5] as int) + ")\n"@
    } else if e.tag == DEBUG_CALL_SITE {
        "CallSite(callee=di["@ + text::decimal_text(f[0] as int) + "], caller=di["@
            + text::decimal_text(f[1] as int) + "])\n"@
    } else {
        "Unknown\n"@
    }
}

/// A debug attribute has as many fields as its tag says.
pub open spec fn entry_wf(e: DebugEntryV) -> bool {
    debug::field_count(e.tag) == Some(e.fields.len() as int)
}

/// A debug attribute.
pub fn format_debug_entry(e: &DebugEntry, strings: &Vec<String>) -> (r: String)
    requires
        entry_wf(e@),
    ensures
        r@ == debug_entry_text(e@, strings::texts(strings@)),
{
    let f = &e.fields;
    if e.tag == DEBUG_FILE {
        let mut r: String = "DIFile(name=".to_owned();
        r.append(find_debug_string(strings, f[0]).as_str());
        r.append(", dir=");
        r.append(find_debug_string(strings, f[1]).as_str());
        r.append(")\n");
        r
    } else if e.tag == DEBUG_COMPILE_UNIT {
        let mut r: String = "DICompileUnit(file=di[".to_owned();
        r.append(number_text(f[0]).as_str());
        r.append("])\n");
        r
    } else if e.tag == DEBUG_LEXICAL_BLOCK {
        let mut r: String = "DILexicalBlock(scope=di[".to_owned();
        r.append(number_text(f[0]).as_str());
        r.append("], file=di[");
        r.append(number_text(f[1]).as_str());
        r.append("], ");
        r.append(number_text(f[2]).as_str());
        r.append(":");
        r.append(number_text(f[3]).as_str());
        r.append(")\n");
        r
    } else if e.tag == DEBUG_LOC {
        let mut r: String = "DILoc(scope=di[".to_owned();
        r.append(number_text(f[0]).as_str());
        r.append("], ");
        r.append(find_debug_string(strings, f[1]).as_str());
        r.append(":");
        r.append(number_text(f[2]).as_str());
        r.append(":");
        r.append(number_text(f[3]).as_str());
        r.append(")\n");
        r
    } else if e.tag == DEBUG_SUBPROGRAM {
        let mut r: String = "DISubprogram(file=di[".to_owned();
        r.append(number_text(f[0]).as_str());
        r.append("], line=");
        r.append(number_text(f[1]).as_str());
        r.append(", name=");
        r.append(find_debug_string(strings, f[2]).as_str());
        r.append(", linkage=");
        r.append(find_debug_string(strings, f[3]).as_str());
        r.append(", cu=di[");
        r.append(number_text(f[4]).as_str());
        r.append("], scope_line=");
        r.append(number_text(f[5]).as_str());
        r.append(")\n");
        r
    } else if e.tag == DEBUG_CALL_SITE {
        let mut r: String = "CallSite(callee=di[".to_owned();
        r.append(number_text(f[0]).as_str());
        r.append("], caller=di[");
        r.append(number_text(f[1]).as_str());
        r.append("])\n");
        r
    } else {
        "Unknown\n".to_owned()
    }
}

/// The first `n` debug attributes; ids count from one.
pub open spec fn debug_entries_text(s: Seq<DebugEntryV>, strings: Seq<Seq<char>>, n: int) -> Seq<
    char,
>
    decreases n,
{
    if n <= 0 {
        seq![]
    } else {
        debug_entries_text(s, strings, n - 1) + "  di["@ + text::decimal_text(n) + "] = "@
            + debug_entry_text(s[n - 1], strings)
    }
}

fn format_debug_entries(s: &Vec<DebugEntry>, strings: &Vec<String>) -> (r: String)
    requires
        forall|i: int| 0 <= i < s@.len() ==> entry_wf(#[trigger] s@[i]@),
    ensures
        r@ == debug_entries_text(entry_views(s@), strings::texts(strings@), s@.len() as int),
{
    let ghost l = entry_views(s@);
    let ghost texts = strings::texts(strings@);
    let mut r: String = String::new();
    let n: usize = s.len();
    let mut i: usize = 0;
    while i < n
        invariant
            i <= n,
            n == s@.len(),
            l == entry_views(s@),
            texts == strings::texts(strings@),
            forall|i: int| 0 <= i < s@.len() ==> entry_wf(#[trigger] s@[i]@),
            r@ == debug_entries_text(l, texts, i as int),
        decreases n - i,
    {
        assert(entry_wf(s@[i as int]@));
        assert(l[i as int] == s@[i as int]@);
        let e = format_debug_entry(&s[i], strings);
        i = i + 1;
        r.append("  di[");
        r.append(number_text(i as u64).as_str());
        r.append("] = ");
        r.append(e.as_str());
    }
    r
}

/// The first `n` of some ids, separated by commas.
pub open spec fn ids_text(s: Seq<u64>, n: int) -> Seq<char>
    decreases n,
{
    if n <= 0 {
        seq![]
    } else if n == 1 {
        text::decimal_text(s[0] as int)
    } else {
        ids_text(s, n - 1) + ", "@ + text::decimal_text(s[n - 1] as int)
    }
}

fn format_ids(s: &Vec<u64>) -> (r: String)
    ensures
        r@ == ids_text(s@, s@.len() as int),
{
    let mut r: String = String::new();
    let mut i: usize = 0;
    while i < s.len()
        invariant
            i <= s@.len(),
            r@ == ids_text(s@, i as int),
        decreases s@.len() - i,
    {
        let t = number_text(s[i]);
        if i == 0 {
            r = t;
        } else {
            r.append(", ");
            r.append(t.as_str());
        }
        i = i + 1;
    }
    r
}

/// The ids of the first `n` functions.
pub open spec fn lists_text(s: Seq<Seq<u64>>, n: int) -> Seq<char>
    decreases n,
{
    if n <= 0 {
        seq![]
    } else {
        lists_text(s, n - 1) + "  fn "@ + text::decimal_text(n - 1) + ": ["@ + ids_text(
            s[n - 1],
            s[n - 1].len() as int,
        ) + "]\n"@
    }
}

fn format_lists(s: &Vec<Vec<u64>>) -> (r: String)
    ensures
        r@ == lists_text(list_views(s@), s@.len() as int),
{
    let ghost l = list_views(s@);
    let mut r: String = String::new();
    let mut i: usize = 0;
    while i < s.len()
        invariant
            i <= s@.len(),
            l == list_views(s@),
            r@ == lists_text(l, i as int),
        decreases s@.len() - i,
    {
        assert(l[i as int] == s@[i as int]@);
        r.append("  fn ");
        r.append(number_text(i as u64).as_str());
        r.append(": [");
        r.append(format_ids(&s[i]).as_str());
        r.append("]\n");
        i = i + 1;
    }
    r
}

/// The debug information.
pub open spec fn debug_text(d: DebugDumpV, strings: Seq<Seq<char>>) -> Seq<char> {
    title_text("Debug"@, d.lists.len() as int, " functions"@) + debug_entries_text(
        d.entries,
        strings,
        d.entries.len() as int,
    ) + lists_text(d.lists, d.lists.len() as int)
}

/// Every debug attribute has as many fields as its tag says.
pub open spec fn dump_wf(d: DumpV) -> bool {
    d.debug matches Some(g) ==> forall|i: int|
        0 <= i < g.entries.len() ==> entry_wf(#[trigger] g.entries[i])
}

/// A dump as text.
pub open spec fn dump_text(d: DumpV) -> Seq<char> {
    let t = d.tables;
    header_text(d.version) + section_text(
        "Strings"@,
        t.strings.len() as int,
        strings_text(t.strings, t.strings.len() as int),
    ) + section_text(
        "Types"@,
        t.types.len() as int,
        type_lines(t.types, t.types.len() as int),
    ) + section_text(
        "Constants"@,
        t.constants.len() as int,
        constants_text(t.constants, t.constants.len() as int),
    ) + section_text(
        "Globals"@,
        d.globals.len() as int,
        globals_text(d.globals, t, d.version.spec_v13_3(), d.globals.len() as int),
    ) + (match d.functions {
        Some(s) => title_text("Functions"@, s.len() as int, ""@) + funcs_text(
            s,
            t,
            s.len() as int,
        ),
        None => ""@,
    }) + (match d.debug {
        Some(g) => debug_text(g, t.strings),
        None => ""@,
    })
}

fn format_functions(s: &Option<Vec<FuncEntry>>, t: &Tables) -> (r: String)
    ensures
        r@ == (match *s {
            Some(l) => title_text("Functions"@, l@.len() as int, ""@) + funcs_text(
                func_views(l@),
                t@,
                l@.len() as int,
            ),
            None => ""@,
        }),
{
    match s {
        Some(l) => {
            let mut r = title("Functions", l.len(), "");
            r.append(format_funcs(l, t).as_str());
            r
        },
        None => "".to_owned(),
    }
}

fn format_debug(s: &Option<DebugDump>, strings: &Vec<String>) -> (r: String)
    requires
        *s matches Some(g) ==> forall|i: int|
            0 <= i < g.entries@.len() ==> entry_wf(#[trigger] g.entries@[i]@),
    ensures
        r@ == (match *s {
            Some(g) => debug_text(g@, strings::texts(strings@)),
            None => ""@,
        }),
{
    match s {
        Some(g) => {
            let mut r = title("Debug", g.lists.len(), " functions");
            r.append(format_debug_entries(&g.entries, strings).as_str());
            r.append(format_lists(&g.lists).as_str());
            r
        },
        None => "".to_owned(),
    }
}

/// A dump as text.
pub fn format_dump(d: &Dump) -> (r: String)
    requires
        dump_wf(d@),
    ensures
        r@ == dump_text(d@),
{
    let t = &d.tables;
    let mut r = format_header(d.version);
    r.append(
        format_section("Strings", t.strings.len(), format_strings(&t.strings).as_str()).as_str(),
    );
    r.append(format_section("Types", t.types.len(), format_type_lines(&t.types).as_str()).as_str());
    r.append(
        format_section(
            "Constants",
            t.constants.len(),
            format_constants(&t.constants).as_str(),
        ).as_str(),
    );
    r.append(
        format_section(
            "Globals",
            d.globals.len(),
            format_globals(&d.globals, t, d.version.is_v13_3()).as_str(),
        ).as_str(),
    );
    r.append(format_functions(&d.functions, t).as_str());
    proof {
        match &d.debug {
            Some(g) => {
                assert forall|i: int| 0 <= i < g.entries@.len() implies entry_wf(
                    #[trigger] g.entries@[i]@,
                ) by {
                    assert(g@.entries[i] == g.entries@[i]@);
                    assert(entry_wf(d@.debug->0.entries[i]));
                }
            },
            None => {},
        }
    }
    r.append(format_debug(&d.debug, &t.strings).as_str());
    r
}

// ---------------------------------------------------------------------------
// Decoding
// ---------------------------------------------------------------------------

proof fn lemma_varints_len(d: Seq<u8>, p: int, n: int)
    ensures
        n >= 0 ==> (debug::varints_at(d, p, n) matches Ok((f, _)) ==> f.len() == n),
    decreases n,
{
    if n > 0 {
        lemma_varints_len(d, p, n - 1);
    }
}

proof fn lemma_entries_wf(data: Seq<u8>, offs: Seq<int>, n: int)
    ensures
        entries_at(data, offs, n) matches Ok(s) ==> forall|i: int|
            0 <= i < s.len() ==> entry_wf(#[trigger] s[i]),
    decreases n,
{
    if n > 0 {
        lemma_entries_wf(data, offs, n - 1);
        let start = offs[n - 1];
        let end = if n < offs.len() {
            offs[n]
        } else {
            data.len() as int
        };
        let d = data.subrange(start, end);
        match wire::byte_at(d, 0) {
            Ok((tag, q)) => match debug::field_count(tag) {
                Some(k) => lemma_varints_len(d, q, k),
                None => {},
            },
            Err(_) => {},
        }
    }
}

/// What is read for a dump is in order.
pub proof fn lemma_dump_wf(d: Seq<u8>)
    ensures
        dump_at(d) matches Ok(s) ==> dump_wf(s),
{
    match reader::header_at(d) {
        Ok((_, p)) => match known_sections_at(d, p, reader::no_sections()) {
            Ok(s) => match s[Section::Debug.spec_id() as int] {
                Some(x) => match list_at(x, 0, 4) {
                    Ok((_, p)) => match list_at(x, p, 8) {
                        Ok((_, p2)) => match list_at(x, p2, 4) {
                            Ok((offs, p3)) => lemma_entries_wf(
                                x.skip(p3),
                                offs,
                                offs.len() as int,
                            ),
                            Err(_) => {},
                        },
                        Err(_) => {},
                    },
                    Err(_) => {},
                },
                None => {},
            },
            Err(_) => {},
        },
        Err(_) => {},
    }
}

/// Decode a bytecode file into text.
pub fn decode_bytecode(data: &[u8]) -> (res: Result<String, ReadError>)
    ensures
        match dump_at(data@) {
            Ok(d) => res is Ok && res->Ok_0@ == dump_text(d),
            Err(e) => res == Err::<String, ReadError>(e),
        },
{
    proof {
        lemma_dump_wf(data@);
    }
    let d = read_dump(data)?;
    Ok(format_dump(&d))
}

} // verus!
