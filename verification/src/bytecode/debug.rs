//! The debug section: locations of functions and operations.
use vstd::prelude::*;
use crate::bytecode::encoding::EncodingReader;
use crate::bytecode::encoding;
use crate::bytecode::strings;
use crate::bytecode::table::{copy_bytes, read_offsets};
use crate::bytecode::table;
use crate::bytecode::types as wire_types;
use crate::bytecode::wire;
use crate::error::{ReadError, Subject};
use crate::ir::location::{
    DICompileUnit,
    DIFile,
    DILexicalBlock,
    DISubprogram,
    DebugInfoLoc,
    DebugScope,
    FileV,
    Location,
    LocationV,
    ScopeV,
    SubprogramV,
};
use crate::text::{same_text, split_file_path};
use crate::text;

verus! {

pub const DEBUG_UNKNOWN: u8 = 0;

pub const DEBUG_COMPILE_UNIT: u8 = 1;

pub const DEBUG_FILE: u8 = 2;

pub const DEBUG_LEXICAL_BLOCK: u8 = 3;

pub const DEBUG_LOC: u8 = 4;

pub const DEBUG_SUBPROGRAM: u8 = 5;

pub const DEBUG_CALL_SITE: u8 = 6;

/// A decoded entry of the attribute table. Strings are indices into the string
/// table; files, scopes, units and locations are attribute ids.
#[derive(Clone, Copy, Debug, PartialEq, Eq, Structural)]
pub enum DebugAttr {
    Unknown,
    File { name: u64, dir: u64 },
    CompileUnit { file: u64 },
    LexicalBlock { scope: u64, file: u64, line: u32, column: u32 },
    Loc { scope: u64, file: u64, line: u32, column: u32 },
    Subprogram { file: u64, line: u32, name: u64, linkage: u64, unit: u64, scope_line: u32 },
    CallSite { callee: u64, caller: u64 },
}

// ---------------------------------------------------------------------------
// Decoding an entry
// ---------------------------------------------------------------------------

/// `n` varints at position `p`.
pub open spec fn varints_at(d: Seq<u8>, p: int, n: int) -> Result<(Seq<u64>, int), ReadError>
    decreases n,
{
    if n <= 0 {
        Ok((seq![], p))
    } else {
        match varints_at(d, p, n - 1) {
            Ok((s, q)) => match wire::varint_at(d, q) {
                Ok((v, q2)) => Ok((s.push(v), q2)),
                Err(e) => Err(e),
            },
            Err(e) => Err(e),
        }
    }
}

/// The low half of a 64-bit number.
pub open spec fn low32(v: u64) -> u32 {
    (v % 0x1_0000_0000) as u32
}

/// The number of fields of an entry, by tag.
pub open spec fn field_count(tag: u8) -> Option<int> {
    if tag == DEBUG_UNKNOWN {
        Some(0)
    } else if tag == DEBUG_FILE {
        Some(2)
    } else if tag == DEBUG_COMPILE_UNIT {
        Some(1)
    } else if tag == DEBUG_LEXICAL_BLOCK {
        Some(4)
    } else if tag == DEBUG_LOC {
        Some(4)
    } else if tag == DEBUG_SUBPROGRAM {
        Some(6)
    } else if tag == DEBUG_CALL_SITE {
        Some(2)
    } else {
        None
    }
}

/// The entry with the given tag and fields.
pub open spec fn attr_of_fields(tag: u8, f: Seq<u64>) -> DebugAttr {
    if tag == DEBUG_UNKNOWN {
        DebugAttr::Unknown
    } else if tag == DEBUG_FILE {
        DebugAttr::File { name: f[0], dir: f[1] }
    } else if tag == DEBUG_COMPILE_UNIT {
        DebugAttr::CompileUnit { file: f[0] }
    } else if tag == DEBUG_LEXICAL_BLOCK {
        DebugAttr::LexicalBlock {
            scope: f[0],
            file: f[1],
            line: low32(f[2]),
            column: low32(f[3]),
        }
    } else if tag == DEBUG_LOC {
        DebugAttr::Loc { scope: f[0], file: f[1], line: low32(f[2]), column: low32(f[3]) }
    } else if tag == DEBUG_SUBPROGRAM {
        DebugAttr::Subprogram {
            file: f[0],
            line: low32(f[1]),
            name: f[2],
            linkage: f[3],
            unit: f[4],
            scope_line: low32(f[5]),
        }
    } else {
        DebugAttr::CallSite { callee: f[0], caller: f[1] }
    }
}

/// An entry at position `p`: a tag byte and varint fields.
pub open spec fn debug_attr_at(d: Seq<u8>, p: int) -> Result<(DebugAttr, int), ReadError> {
    match wire::byte_at(d, p) {
        Ok((tag, q)) => match field_count(tag) {
            Some(n) => match varints_at(d, q, n) {
                Ok((f, q2)) => Ok((attr_of_fields(tag, f), q2)),
                Err(e) => Err(e),
            },
            None => Err(ReadError::UnknownDebugTag(tag)),
        },
        Err(e) => Err(e),
    }
}

proof fn lemma_varints_error(d: Seq<u8>, p: int, k: int, n: int)
    requires
        0 <= k <= n,
        varints_at(d, p, k) is Err,
    ensures
        varints_at(d, p, n) == varints_at(d, p, k),
    decreases n,
{
    if k < n {
        lemma_varints_error(d, p, k, n - 1);
    }
}

/// Read `n` varints.
pub fn read_varints(r: &mut EncodingReader, n: usize) -> (res: Result<Vec<u64>, ReadError>)
    requires
        old(r).wf(),
    ensures
        encoding::reads_view(
            res,
            *old(r),
            *final(r),
            varints_at(old(r).bytes(), old(r).at(), n as int),
        ),
        res is Ok ==> res->Ok_0@.len() == n,
{
    let ghost d = r.bytes();
    let ghost p = r.at();
    let mut out: Vec<u64> = Vec::new();
    let mut i: usize = 0;
    while i < n
        invariant
            i <= n,
            r.wf(),
            r.bytes() == d,
            r.at() >= old(r).at(),
            d == old(r).bytes(),
            p == old(r).at(),
            out@.len() == i,
            varints_at(d, p, i as int) == Ok::<(Seq<u64>, int), ReadError>((out@, r.at())),
        decreases n - i,
    {
        proof {
            if varints_at(d, p, i + 1) is Err {
                lemma_varints_error(d, p, i + 1, n as int);
            }
        }
        let v: u64 = r.read_varint()?;
        out.push(v);
        i = i + 1;
    }
    Ok(out)
}

/// The number of fields of an entry, by tag.
pub fn field_count_of(tag: u8) -> (r: Option<usize>)
    ensures
        match field_count(tag) {
            Some(n) => r is Some && r->Some_0 == n,
            None => r is None,
        },
{
    if tag == DEBUG_UNKNOWN {
        Some(0)
    } else if tag == DEBUG_FILE {
        Some(2)
    } else if tag == DEBUG_COMPILE_UNIT {
        Some(1)
    } else if tag == DEBUG_LEXICAL_BLOCK {
        Some(4)
    } else if tag == DEBUG_LOC {
        Some(4)
    } else if tag == DEBUG_SUBPROGRAM {
        Some(6)
    } else if tag == DEBUG_CALL_SITE {
        Some(2)
    } else {
        None
    }
}

/// Read an entry of the attribute table.
pub fn decode_debug_attr(r: &mut EncodingReader) -> (res: Result<DebugAttr, ReadError>)
    requires
        old(r).wf(),
    ensures
        encoding::reads(res, *old(r), *final(r), debug_attr_at(old(r).bytes(), old(r).at())),
{
    let tag: u8 = r.read_byte()?;
    let n: usize = match field_count_of(tag) {
        Some(n) => n,
        None => {
            return Err(ReadError::UnknownDebugTag(tag));
        },
    };
    let f: Vec<u64> = read_varints(r, n)?;
    if tag == DEBUG_UNKNOWN {
        Ok(DebugAttr::Unknown)
    } else if tag == DEBUG_FILE {
        Ok(DebugAttr::File { name: f[0], dir: f[1] })
    } else if tag == DEBUG_COMPILE_UNIT {
        Ok(DebugAttr::CompileUnit { file: f[0] })
    } else if tag == DEBUG_LEXICAL_BLOCK {
        Ok(
            DebugAttr::LexicalBlock {
                scope: f[0],
                file: f[1],
                line: (f[2] % 0x1_0000_0000) as u32,
                column: (f[3] % 0x1_0000_0000) as u32,
            },
        )
    } else if tag == DEBUG_LOC {
        Ok(
            DebugAttr::Loc {
                scope: f[0],
                file: f[1],
                line: (f[2] % 0x1_0000_0000) as u32,
                column: (f[3] % 0x1_0000_0000) as u32,
            },
        )
    } else if tag == DEBUG_SUBPROGRAM {
        Ok(
            DebugAttr::Subprogram {
                file: f[0],
                line: (f[1] % 0x1_0000_0000) as u32,
                name: f[2],
                linkage: f[3],
                unit: f[4],
                scope_line: (f[5] % 0x1_0000_0000) as u32,
            },
        )
    } else {
        Ok(DebugAttr::CallSite { callee: f[0], caller: f[1] })
    }
}

// ---------------------------------------------------------------------------
// The section
// ---------------------------------------------------------------------------

/// The debug section: one list of attribute ids per function, of which the
/// first is the function's own and the others are one per operation, and the
/// attribute table.
pub struct DebugSection {
    index_offsets: Vec<u64>,
    attr_ids: Vec<u64>,
    attr_offsets: Vec<u64>,
    attr_data: Vec<u8>,
}

/// The contents of the debug section.
#[verifier::ext_equal]
pub struct DebugV {
    pub index_offsets: Seq<int>,
    pub attr_ids: Seq<int>,
    pub attr_offsets: Seq<int>,
    pub attr_data: Seq<u8>,
}

impl View for DebugSection {
    type V = DebugV;

    closed spec fn view(&self) -> DebugV {
        DebugV {
            index_offsets: table::as_ints(self.index_offsets@),
            attr_ids: table::as_ints(self.attr_ids@),
            attr_offsets: table::as_ints(self.attr_offsets@),
            attr_data: self.attr_data@,
        }
    }
}

/// No debug information.
pub open spec fn no_debug() -> DebugV {
    DebugV {
        index_offsets: seq![],
        attr_ids: seq![],
        attr_offsets: seq![],
        attr_data: seq![],
    }
}

/// A counted, aligned list of `w`-byte integers at position `p`; the count is
/// at most what the section could hold.
pub open spec fn counted_at(d: Seq<u8>, p: int, w: nat, what: Subject) -> Result<
    (Seq<int>, int),
    ReadError,
> {
    match wire::count_at(d, p, what) {
        Ok((n, q)) => if n > d.len() as int / w as int {
            Err(ReadError::CountExceedsPayload(what))
        } else {
            match wire::skip_padding_at(d, q, w as int) {
                Ok(q2) => table::offsets_at(d, q2, w, n),
                Err(e) => Err(e),
            }
        },
        Err(e) => Err(e),
    }
}

/// The debug section that fills the payload, nothing where it is absent.
pub open spec fn debug_section(payload: Option<Seq<u8>>) -> Result<DebugV, ReadError> {
    match payload {
        None => Ok(no_debug()),
        Some(d) => match counted_at(d, 0, 4, Subject::DebugFunction) {
            Ok((index_offsets, p)) => match counted_at(d, p, 8, Subject::DebugIndex) {
                Ok((attr_ids, p2)) => match counted_at(d, p2, 4, Subject::DebugAttribute) {
                    Ok((attr_offsets, p3)) => Ok(
                        DebugV { index_offsets, attr_ids, attr_offsets, attr_data: d.skip(p3) },
                    ),
                    Err(e) => Err(e),
                },
                Err(e) => Err(e),
            },
            Err(e) => Err(e),
        },
    }
}

fn read_counted(r: &mut EncodingReader, width: u32, cap: usize, what: Subject) -> (res: Result<
    Vec<u64>,
    ReadError,
>)
    requires
        old(r).wf(),
        width == 4 || width == 8,
        cap == old(r).bytes().len() as int / width as int,
    ensures
        final(r).wf(),
        final(r).bytes() == old(r).bytes(),
        final(r).at() >= old(r).at(),
        match counted_at(old(r).bytes(), old(r).at(), width as nat, what) {
            Ok((s, q)) => {
                &&& res is Ok
                &&& table::as_ints(res->Ok_0@) == s
                &&& final(r).at() == q
                &&& res->Ok_0@.len() <= cap
                &&& res->Ok_0@.len() <= u32::MAX
            },
            Err(e) => res == Err::<Vec<u64>, ReadError>(e),
        },
{
    let n: usize = r.read_count(what)?;
    if n > cap {
        return Err(ReadError::CountExceedsPayload(what));
    }
    r.skip_padding(width as u64)?;
    read_offsets(r, width, n as u64)
}

/// Read the debug section.
pub fn parse_debug_section(payload: Option<&[u8]>) -> (res: Result<DebugSection, ReadError>)
    ensures
        match debug_section(wire_types::payload_view(payload)) {
            Ok(v) => res is Ok && res->Ok_0@ == v && res->Ok_0.wf(),
            Err(e) => res == Err::<DebugSection, ReadError>(e),
        },
{
    let data = match payload {
        None => {
            let s = DebugSection {
                index_offsets: Vec::new(),
                attr_ids: Vec::new(),
                attr_offsets: Vec::new(),
                attr_data: Vec::new(),
            };
            assert(s@ =~= no_debug());
            return Ok(s);
        },
        Some(d) => d,
    };
    let ghost d = data@;
    let mut r = EncodingReader::new(data);
    let cap32: usize = data.len() / 4;
    let cap64: usize = data.len() / 8;
    let index_offsets = read_counted(&mut r, 4, cap32, Subject::DebugFunction)?;
    let attr_ids = read_counted(&mut r, 8, cap64, Subject::DebugIndex)?;
    let attr_offsets = read_counted(&mut r, 4, cap32, Subject::DebugAttribute)?;
    let ghost p3 = r.at();
    let rest: usize = r.remaining();
    let b = r.read_bytes(rest)?;
    assert(b@ =~= d.skip(p3));
    Ok(DebugSection { index_offsets, attr_ids, attr_offsets, attr_data: copy_bytes(b) })
}

/// The ids of a function, which is given by its one-based index; none where
/// there is no such list.
pub open spec fn func_ids(s: DebugV, func_idx: u64) -> Option<Seq<int>> {
    let i = func_idx - 1;
    if 0 <= i < s.index_offsets.len() {
        let start = s.index_offsets[i];
        let end = if i + 1 < s.index_offsets.len() {
            s.index_offsets[i + 1]
        } else {
            s.attr_ids.len() as int
        };
        if start <= end <= s.attr_ids.len() {
            Some(s.attr_ids.subrange(start, end))
        } else {
            None
        }
    } else {
        None
    }
}

/// The attribute with a one-based id.
pub open spec fn attr_of(s: DebugV, id: u64) -> Result<DebugAttr, ReadError> {
    if id == 0 {
        Err(ReadError::DebugIdZero)
    } else if id > s.attr_offsets.len() {
        Err(ReadError::IndexOutOfRange(Subject::DebugAttribute, id))
    } else {
        let start = s.attr_offsets[id - 1];
        let end = if (id as int) < s.attr_offsets.len() {
            s.attr_offsets[id as int]
        } else {
            s.attr_data.len() as int
        };
        if start > end || end > s.attr_data.len() {
            Err(ReadError::OffsetOutOfRange(Subject::DebugAttribute, id))
        } else {
            match debug_attr_at(s.attr_data.subrange(start, end), 0) {
                Ok((a, q)) => if q == end - start {
                    Ok(a)
                } else {
                    Err(ReadError::TrailingBytes(Subject::DebugAttribute, id))
                },
                Err(e) => Err(e),
            }
        }
    }
}

// ---------------------------------------------------------------------------
// Locations
// ---------------------------------------------------------------------------

/// A string that debug information refers to.
pub open spec fn di_string(strings: Seq<Seq<char>>, idx: u64) -> Result<Seq<char>, ReadError> {
    wire_types::lookup(strings, idx, Subject::DebugString)
}

/// The source file with the given attribute id.
pub open spec fn file_of(s: DebugV, strings: Seq<Seq<char>>, id: u64) -> Result<FileV, ReadError> {
    match attr_of(s, id) {
        Ok(DebugAttr::File { name, dir }) => match di_string(strings, name) {
            Ok(name) => match di_string(strings, dir) {
                Ok(directory) => Ok(FileV { name, directory }),
                Err(e) => Err(e),
            },
            Err(e) => Err(e),
        },
        Ok(_) => Err(ReadError::UnexpectedDebugKind),
        Err(e) => Err(e),
    }
}

/// The file of the compilation unit with the given attribute id.
pub open spec fn unit_of(s: DebugV, strings: Seq<Seq<char>>, id: u64) -> Result<FileV, ReadError> {
    match attr_of(s, id) {
        Ok(DebugAttr::CompileUnit { file }) => file_of(s, strings, file),
        Ok(_) => Err(ReadError::UnexpectedDebugKind),
        Err(e) => Err(e),
    }
}

/// A function in the debug information, from its fields.
pub open spec fn subprogram_of(
    s: DebugV,
    strings: Seq<Seq<char>>,
    file: u64,
    line: u32,
    name: u64,
    linkage: u64,
    unit: u64,
    scope_line: u32,
) -> Result<SubprogramV, ReadError> {
    match unit_of(s, strings, unit) {
        Ok(compile_unit) => match file_of(s, strings, file) {
            Ok(file) => match di_string(strings, name) {
                Ok(name) => match di_string(strings, linkage) {
                    Ok(linkage_name) => Ok(
                        SubprogramV { file, line, name, linkage_name, compile_unit, scope_line },
                    ),
                    Err(e) => Err(e),
                },
                Err(e) => Err(e),
            },
            Err(e) => Err(e),
        },
        Err(e) => Err(e),
    }
}

/// The scope with the given attribute id. Scopes nest at most as deep as there
/// are attributes, unless they refer to each other in a cycle.
pub open spec fn scope_of(s: DebugV, strings: Seq<Seq<char>>, id: u64, depth: nat) -> Result<
    ScopeV,
    ReadError,
>
    decreases depth,
{
    if depth == 0 {
        Err(ReadError::DebugCycle)
    } else {
        match attr_of(s, id) {
            Ok(DebugAttr::Subprogram { file, line, name, linkage, unit, scope_line }) => {
                match subprogram_of(s, strings, file, line, name, linkage, unit, scope_line) {
                    Ok(sp) => Ok(ScopeV::Subprogram(sp)),
                    Err(e) => Err(e),
                }
            },
            Ok(DebugAttr::LexicalBlock { scope, file, line, column }) => {
                match scope_of(s, strings, scope, (depth - 1) as nat) {
                    Ok(parent) => match file_of(s, strings, file) {
                        Ok(f) => Ok(ScopeV::LexicalBlock(Box::new(parent), f, line, column)),
                        Err(e) => Err(e),
                    },
                    Err(e) => Err(e),
                }
            },
            Ok(_) => Err(ReadError::UnexpectedDebugKind),
            Err(e) => Err(e),
        }
    }
}

/// The number of levels that attributes can refer to each other without a
/// cycle.
pub open spec fn levels(s: DebugV) -> nat {
    s.attr_offsets.len() + 1
}

/// The location with the given attribute id; id zero is no information.
pub open spec fn location_of(s: DebugV, strings: Seq<Seq<char>>, id: u64, depth: nat) -> Result<
    LocationV,
    ReadError,
>
    decreases depth,
{
    if id == 0 {
        Ok(LocationV::Unknown)
    } else if depth == 0 {
        Err(ReadError::DebugCycle)
    } else {
        match attr_of(s, id) {
            Ok(DebugAttr::Loc { scope, file, line, column }) => {
                match scope_of(s, strings, scope, levels(s)) {
                    Ok(scope) => match di_string(strings, file) {
                        Ok(f) => Ok(LocationV::DebugInfo(f, line, column, scope)),
                        Err(e) => Err(e),
                    },
                    Err(e) => Err(e),
                }
            },
            Ok(DebugAttr::CallSite { callee, caller }) => {
                match location_of(s, strings, callee, (depth - 1) as nat) {
                    Ok(x) => match location_of(s, strings, caller, (depth - 1) as nat) {
                        Ok(y) => Ok(LocationV::CallSite(Box::new(x), Box::new(y))),
                        Err(e) => Err(e),
                    },
                    Err(e) => Err(e),
                }
            },
            Ok(_) => Err(ReadError::UnexpectedDebugKind),
            Err(e) => Err(e),
        }
    }
}

/// The source file that a path names.
pub open spec fn file_of_path(path: Seq<char>) -> FileV {
    FileV { name: text::path_base(path), directory: text::path_directory(path) }
}

/// The scope that a bare source location gives its function.
pub open spec fn derived_scope(
    path: Seq<char>,
    line: u32,
    name: Seq<char>,
    sym_name: Seq<char>,
) -> SubprogramV {
    SubprogramV {
        file: file_of_path(path),
        line,
        name,
        linkage_name: sym_name,
        compile_unit: file_of_path(path),
        scope_line: line,
    }
}

/// A function's own location and the display name of its scope. A scope that a
/// bare source location gives the function is dropped again.
pub open spec fn located(l: LocationV, sym_name: Seq<char>) -> (LocationV, Option<Seq<char>>) {
    match l {
        LocationV::DebugInfo(f, line, column, ScopeV::Subprogram(sp)) => if sp == derived_scope(
            f,
            line,
            sp.name,
            sym_name,
        ) {
            (LocationV::FileLineCol(f, line, column), Some(sp.name))
        } else {
            (l, Some(sp.name))
        },
        _ => (l, None),
    }
}

/// The location of a function and the display name of its scope.
pub open spec fn function_location(
    s: DebugV,
    strings: Seq<Seq<char>>,
    func_idx: u64,
    sym_name: Seq<char>,
) -> Result<(LocationV, Option<Seq<char>>), ReadError> {
    match func_ids(s, func_idx) {
        None => Ok((LocationV::Unknown, None)),
        Some(ids) => if ids.len() == 0 || ids[0] == 0 {
            Ok((LocationV::Unknown, None))
        } else {
            match location_of(s, strings, ids[0] as u64, levels(s)) {
                Ok(l) => Ok(located(l, sym_name)),
                Err(e) => Err(e),
            }
        },
    }
}

/// The string that an index refers to.
fn find_string<'a>(strings: &'a Vec<String>, idx: u64) -> (res: Result<&'a String, ReadError>)
    ensures
        match di_string(strings::texts(strings@), idx) {
            Ok(t) => res is Ok && res->Ok_0@ == t,
            Err(e) => res == Err::<&'a String, ReadError>(e),
        },
{
    if idx > 0xFFFF_FFFF {
        return Err(ReadError::CountOutOfRange(Subject::DebugString, idx));
    }
    if idx as usize >= strings.len() {
        return Err(ReadError::IndexOutOfRange(Subject::DebugString, idx));
    }
    Ok(&strings[idx as usize])
}

impl DebugSection {
    /// The range of a function's ids in the list of all ids.
    fn id_range(&self, func_idx: u64) -> (r: Option<(usize, usize)>)
        ensures
            match func_ids(self@, func_idx) {
                Some(ids) => {
                    &&& r is Some
                    &&& r->Some_0.0 <= r->Some_0.1 <= self.attr_ids@.len()
                    &&& ids == self@.attr_ids.subrange(r->Some_0.0 as int, r->Some_0.1 as int)
                },
                None => r is None,
            },
    {
        if func_idx == 0 || func_idx > self.index_offsets.len() as u64 {
            return None;
        }
        let i: usize = (func_idx - 1) as usize;
        let start: u64 = self.index_offsets[i];
        let end: u64 = if i + 1 < self.index_offsets.len() {
            self.index_offsets[i + 1]
        } else {
            self.attr_ids.len() as u64
        };
        if start <= end && end <= self.attr_ids.len() as u64 {
            Some((start as usize, end as usize))
        } else {
            None
        }
    }

    /// The number of ids of a function, none where it has no list.
    pub fn func_id_count(&self, func_idx: u64) -> (r: Option<usize>)
        ensures
            match func_ids(self@, func_idx) {
                Some(ids) => r is Some && r->Some_0 == ids.len(),
                None => r is None,
            },
    {
        match self.id_range(func_idx) {
            Some((start, end)) => Some(end - start),
            None => None,
        }
    }

    /// One of the ids of a function.
    pub fn func_id(&self, func_idx: u64, pos: usize) -> (id: u64)
        requires
            func_ids(self@, func_idx) is Some,
            pos < func_ids(self@, func_idx)->Some_0.len(),
        ensures
            id == func_ids(self@, func_idx)->Some_0[pos as int],
    {
        match self.id_range(func_idx) {
            Some((start, _end)) => self.attr_ids[start + pos],
            None => 0,
        }
    }

    /// The entry of the attribute table with a one-based id.
    pub fn attr(&self, id: u64) -> (res: Result<DebugAttr, ReadError>)
        ensures
            res == attr_of(self@, id),
    {
        if id == 0 {
            return Err(ReadError::DebugIdZero);
        }
        if id > self.attr_offsets.len() as u64 {
            return Err(ReadError::IndexOutOfRange(Subject::DebugAttribute, id));
        }
        let i: usize = (id - 1) as usize;
        let start: u64 = self.attr_offsets[i];
        let end: u64 = if i + 1 < self.attr_offsets.len() {
            self.attr_offsets[i + 1]
        } else {
            self.attr_data.len() as u64
        };
        if start > end || end > self.attr_data.len() as u64 {
            return Err(ReadError::OffsetOutOfRange(Subject::DebugAttribute, id));
        }
        let piece = vstd::slice::slice_subrange(
            self.attr_data.as_slice(),
            start as usize,
            end as usize,
        );
        let mut r = EncodingReader::new(piece);
        let a = decode_debug_attr(&mut r)?;
        if r.remaining() != 0 {
            return Err(ReadError::TrailingBytes(Subject::DebugAttribute, id));
        }
        Ok(a)
    }

    fn di_file(&self, strings: &Vec<String>, id: u64) -> (res: Result<DIFile, ReadError>)
        ensures
            match file_of(self@, strings::texts(strings@), id) {
                Ok(f) => res is Ok && res->Ok_0@ == f,
                Err(e) => res == Err::<DIFile, ReadError>(e),
            },
    {
        match self.attr(id)? {
            DebugAttr::File { name, dir } => {
                let n = find_string(strings, name)?;
                let d = find_string(strings, dir)?;
                Ok(DIFile { name: n.clone(), directory: d.clone() })
            },
            _ => Err(ReadError::UnexpectedDebugKind),
        }
    }

    fn di_unit(&self, strings: &Vec<String>, id: u64) -> (res: Result<DIFile, ReadError>)
        ensures
            match unit_of(self@, strings::texts(strings@), id) {
                Ok(f) => res is Ok && res->Ok_0@ == f,
                Err(e) => res == Err::<DIFile, ReadError>(e),
            },
    {
        match self.attr(id)? {
            DebugAttr::CompileUnit { file } => self.di_file(strings, file),
            _ => Err(ReadError::UnexpectedDebugKind),
        }
    }

    /// The scope with the given attribute id.
    pub fn resolve_scope(&self, strings: &Vec<String>, id: u64, depth: usize) -> (res: Result<
        DebugScope,
        ReadError,
    >)
        ensures
            match scope_of(self@, strings::texts(strings@), id, depth as nat) {
                Ok(s) => res is Ok && res->Ok_0@ == s,
                Err(e) => res == Err::<DebugScope, ReadError>(e),
            },
        decreases depth,
    {
        if depth == 0 {
            return Err(ReadError::DebugCycle);
        }
        match self.attr(id)? {
            DebugAttr::Subprogram { file, line, name, linkage, unit, scope_line } => {
                let compile_unit = self.di_unit(strings, unit)?;
                let f = self.di_file(strings, file)?;
                let n = find_string(strings, name)?;
                let l = find_string(strings, linkage)?;
                let sp = DISubprogram {
                    file: f,
                    line,
                    name: n.clone(),
                    linkage_name: l.clone(),
                    compile_unit: DICompileUnit { file: compile_unit },
                    scope_line,
                };
                Ok(DebugScope::Subprogram(sp))
            },
            DebugAttr::LexicalBlock { scope, file, line, column } => {
                let parent = self.resolve_scope(strings, scope, depth - 1)?;
                let f = self.di_file(strings, file)?;
                Ok(
                    DebugScope::LexicalBlock(
                        DILexicalBlock { scope: Box::new(parent), file: f, line, column },
                    ),
                )
            },
            _ => Err(ReadError::UnexpectedDebugKind),
        }
    }

    /// The location with the given attribute id.
    fn resolve_within(&self, strings: &Vec<String>, id: u64, depth: usize) -> (res: Result<
        Location,
        ReadError,
    >)
        requires
            self.attr_offsets@.len() < usize::MAX,
        ensures
            match location_of(self@, strings::texts(strings@), id, depth as nat) {
                Ok(l) => res is Ok && res->Ok_0@ == l,
                Err(e) => res == Err::<Location, ReadError>(e),
            },
        decreases depth,
    {
        if id == 0 {
            return Ok(Location::Unknown);
        }
        if depth == 0 {
            return Err(ReadError::DebugCycle);
        }
        match self.attr(id)? {
            DebugAttr::Loc { scope, file, line, column } => {
                let scope = self.resolve_scope(strings, scope, self.attr_offsets.len() + 1)?;
                let f = find_string(strings, file)?;
                Ok(
                    Location::DebugInfo(
                        DebugInfoLoc { filename: f.clone(), line, column, scope },
                    ),
                )
            },
            DebugAttr::CallSite { callee, caller } => {
                let x = self.resolve_within(strings, callee, depth - 1)?;
                let y = self.resolve_within(strings, caller, depth - 1)?;
                Ok(Location::CallSite { callee: Box::new(x), caller: Box::new(y) })
            },
            _ => Err(ReadError::UnexpectedDebugKind),
        }
    }

    /// The offset table is small enough to count its levels.
    pub closed spec fn wf(&self) -> bool {
        self.attr_offsets@.len() <= u32::MAX && self.attr_offsets@.len() < usize::MAX
    }

    /// The location with the given attribute id; id zero is no information.
    pub fn resolve_location(&self, strings: &Vec<String>, id: u64) -> (res: Result<
        Location,
        ReadError,
    >)
        requires
            self.wf(),
        ensures
            match location_of(self@, strings::texts(strings@), id, levels(self@)) {
                Ok(l) => res is Ok && res->Ok_0@ == l,
                Err(e) => res == Err::<Location, ReadError>(e),
            },
    {
        self.resolve_within(strings, id, self.attr_offsets.len() + 1)
    }

    /// The location of a function and the display name of its scope.
    pub fn function_location(
        &self,
        strings: &Vec<String>,
        func_idx: u64,
        sym_name: &str,
    ) -> (res: Result<(Location, Option<String>), ReadError>)
        requires
            self.wf(),
        ensures
            match function_location(self@, strings::texts(strings@), func_idx, sym_name@) {
                Ok((l, n)) => {
                    &&& res is Ok
                    &&& res->Ok_0.0@ == l
                    &&& match n {
                        Some(t) => res->Ok_0.1 is Some && res->Ok_0.1->Some_0@ == t,
                        None => res->Ok_0.1 is None,
                    }
                },
                Err(e) => res == Err::<(Location, Option<String>), ReadError>(e),
            },
    {
        let n: usize = match self.func_id_count(func_idx) {
            Some(n) => n,
            None => {
                return Ok((Location::Unknown, None));
            },
        };
        if n == 0 {
            return Ok((Location::Unknown, None));
        }
        let id: u64 = self.func_id(func_idx, 0);
        if id == 0 {
            return Ok((Location::Unknown, None));
        }
        let loc = self.resolve_location(strings, id)?;
        match loc {
            Location::DebugInfo(di) => {
                let display: Option<String> = match &di.scope {
                    DebugScope::Subprogram(sp) => Some(sp.name.clone()),
                    DebugScope::LexicalBlock(_) => None,
                };
                let derived: bool = match &di.scope {
                    DebugScope::Subprogram(sp) => is_derived(
                        sp,
                        di.filename.as_str(),
                        di.line,
                        sym_name,
                    ),
                    DebugScope::LexicalBlock(_) => false,
                };
                if derived {
                    Ok(
                        (
                            Location::FileLineCol {
                                filename: di.filename,
                                line: di.line,
                                column: di.column,
                            },
                            display,
                        ),
                    )
                } else {
                    Ok((Location::DebugInfo(di), display))
                }
            },
            other => Ok((other, None)),
        }
    }
}

fn is_file_of_path(f: &DIFile, path: &str) -> (r: bool)
    ensures
        r == (f@ == file_of_path(path@)),
{
    let (dir, base) = split_file_path(path);
    let r: bool = same_text(f.name.as_str(), base) && same_text(f.directory.as_str(), dir);
    assert(r ==> f@ =~= file_of_path(path@));
    r
}

/// Whether a scope is the one that a bare source location gives its function.
fn is_derived(sp: &DISubprogram, path: &str, line: u32, sym_name: &str) -> (r: bool)
    ensures
        r == (sp@ == derived_scope(path@, line, sp@.name, sym_name@)),
{
    let r: bool = same_text(sp.linkage_name.as_str(), sym_name) && is_file_of_path(&sp.file, path)
        && sp.line == line && sp.scope_line == line && is_file_of_path(&sp.compile_unit.file, path);
    assert(r ==> sp@ =~= derived_scope(path@, line, sp@.name, sym_name@));
    r
}

} // verus!
