//! Interning of debug information. An attribute is its encoded bytes, so that
//! equal files, scopes and locations share one entry. Ids are one-based; id
//! zero is no information.
use vstd::prelude::*;
use crate::bytecode::debug::{
    DebugAttr,
    DEBUG_CALL_SITE,
    DEBUG_COMPILE_UNIT,
    DEBUG_FILE,
    DEBUG_LEXICAL_BLOCK,
    DEBUG_LOC,
    DEBUG_SUBPROGRAM,
    DEBUG_UNKNOWN,
};
use crate::bytecode::debug;
use crate::bytecode::encoding::EncodingWriter;
use crate::bytecode::strings::StringManager;
use crate::bytecode::strings;
use crate::bytecode::table;
use crate::bytecode::wire;
use crate::error::ReadError;
use crate::ir::location::{
    DIFile,
    DISubprogram,
    DebugScope,
    FileV,
    Location,
    LocationV,
    ScopeV,
    SubprogramV,
};
use crate::text::split_file_path;

verus! {

/// The id of what is not known.
pub const MISSING_DEBUG_ATTR_ID: u64 = 0;

/// The strings and the debug attributes that have been asked for.
#[verifier::ext_equal]
pub struct DebugPool {
    pub strings: Seq<Seq<char>>,
    pub entries: Seq<Seq<u8>>,
}

/// The varints of some fields.
pub open spec fn fields_bytes(f: Seq<u64>) -> Seq<u8>
    decreases f.len(),
{
    if f.len() == 0 {
        seq![]
    } else {
        fields_bytes(f.drop_last()) + wire::varint_bytes(f.last())
    }
}

/// The encoding of an attribute: a tag and fields.
pub open spec fn entry_bytes(tag: u8, f: Seq<u64>) -> Seq<u8> {
    seq![tag] + fields_bytes(f)
}

/// The table after an entry has been asked for.
pub open spec fn intern_entry(l: Seq<Seq<u8>>, e: Seq<u8>) -> Seq<Seq<u8>> {
    if l.contains(e) {
        l
    } else {
        l.push(e)
    }
}

/// The id of an entry.
pub open spec fn entry_id(l: Seq<Seq<u8>>, e: Seq<u8>) -> u64 {
    (l.index_of(e) + 1) as u64
}

/// The index of a string.
pub open spec fn string_id(l: Seq<Seq<char>>, s: Seq<char>) -> u64 {
    l.index_of(s) as u64
}

/// The pool after a string has been asked for.
pub open spec fn with_string(p: DebugPool, s: Seq<char>) -> DebugPool {
    DebugPool { strings: strings::intern(p.strings, s), ..p }
}

/// The pool after an entry has been asked for, and the entry's id.
pub open spec fn with_entry(p: DebugPool, e: Seq<u8>) -> (DebugPool, u64) {
    let entries = intern_entry(p.entries, e);
    (DebugPool { entries, ..p }, entry_id(entries, e))
}

/// A source file.
pub open spec fn file_attr(p: DebugPool, f: FileV) -> (DebugPool, u64) {
    let p1 = with_string(with_string(p, f.name), f.directory);
    with_entry(
        p1,
        entry_bytes(
            DEBUG_FILE,
            seq![string_id(p1.strings, f.name), string_id(p1.strings, f.directory)],
        ),
    )
}

/// A compilation unit.
pub open spec fn unit_attr(p: DebugPool, file: u64) -> (DebugPool, u64) {
    with_entry(p, entry_bytes(DEBUG_COMPILE_UNIT, seq![file]))
}

/// A function in the debug information, from its parts.
pub open spec fn subprogram_entry(
    p: DebugPool,
    file: u64,
    line: u64,
    name: Seq<char>,
    linkage_name: Seq<char>,
    unit: u64,
    scope_line: u64,
) -> (DebugPool, u64) {
    let p1 = with_string(with_string(p, name), linkage_name);
    with_entry(
        p1,
        entry_bytes(
            DEBUG_SUBPROGRAM,
            seq![
                file,
                line,
                string_id(p1.strings, name),
                string_id(p1.strings, linkage_name),
                unit,
                scope_line,
            ],
        ),
    )
}

/// A function in the debug information.
pub open spec fn subprogram_attr(p: DebugPool, sp: SubprogramV) -> (DebugPool, u64) {
    let (p1, file) = file_attr(p, sp.file);
    let (p2, unit_file) = file_attr(p1, sp.compile_unit);
    let (p3, unit) = unit_attr(p2, unit_file);
    subprogram_entry(
        p3,
        file,
        sp.line as u64,
        sp.name,
        sp.linkage_name,
        unit,
        sp.scope_line as u64,
    )
}

/// A scope.
pub open spec fn scope_attr(p: DebugPool, s: ScopeV) -> (DebugPool, u64)
    decreases s,
{
    match s {
        ScopeV::Subprogram(sp) => subprogram_attr(p, sp),
        ScopeV::LexicalBlock(parent, file, line, column) => {
            let (p1, scope) = scope_attr(p, *parent);
            let (p2, f) = file_attr(p1, file);
            with_entry(
                p2,
                entry_bytes(
                    DEBUG_LEXICAL_BLOCK,
                    seq![scope, f, line as u64, column as u64],
                ),
            )
        },
    }
}

/// A position in a file, within a scope.
pub open spec fn loc_attr(
    p: DebugPool,
    scope: u64,
    filename: Seq<char>,
    line: u64,
    column: u64,
) -> (DebugPool, u64) {
    let p1 = with_string(p, filename);
    with_entry(
        p1,
        entry_bytes(
            DEBUG_LOC,
            seq![scope, string_id(p1.strings, filename), line, column],
        ),
    )
}

/// A location. A bare source location belongs to the scope of the function
/// that is being written; without one there is nothing to say.
pub open spec fn location_attr(p: DebugPool, current: u64, l: LocationV) -> (DebugPool, u64)
    decreases l,
{
    match l {
        LocationV::Unknown => (p, 0),
        LocationV::FileLineCol(filename, line, column) => if current == 0 {
            (p, 0)
        } else {
            loc_attr(p, current, filename, line as u64, column as u64)
        },
        LocationV::DebugInfo(filename, line, column, scope) => {
            let (p1, s) = scope_attr(p, scope);
            loc_attr(p1, s, filename, line as u64, column as u64)
        },
        LocationV::CallSite(callee, caller) => {
            let (p1, x) = location_attr(p, current, *callee);
            if x == 0 {
                (p1, 0)
            } else {
                let (p2, y) = location_attr(p1, current, *caller);
                with_entry(p2, entry_bytes(DEBUG_CALL_SITE, seq![x, y]))
            }
        },
    }
}

/// The scope of a function, given its names and its location. A bare source
/// location names the file, and the function is its scope.
pub open spec fn function_scope(
    p: DebugPool,
    sym_name: Seq<char>,
    display: Seq<char>,
    l: LocationV,
) -> (DebugPool, u64) {
    match l {
        LocationV::FileLineCol(filename, line, _) => {
            let (p1, file) = file_attr(p, debug::file_of_path(filename));
            let (p2, unit) = unit_attr(p1, file);
            subprogram_entry(p2, file, line as u64, display, sym_name, unit, line as u64)
        },
        LocationV::DebugInfo(_, _, _, scope) => scope_attr(p, scope),
        _ => (p, 0),
    }
}

// ---------------------------------------------------------------------------
// The table
// ---------------------------------------------------------------------------

/// A table of encoded debug attributes.
pub struct DebugAttrTable {
    entries: Vec<Vec<u8>>,
}

impl View for DebugAttrTable {
    type V = Seq<Seq<u8>>;

    closed spec fn view(&self) -> Seq<Seq<u8>> {
        table::byte_views(self.entries@)
    }
}

fn same_bytes(a: &Vec<u8>, b: &Vec<u8>) -> (r: bool)
    ensures
        r == (a@ == b@),
{
    if a.len() != b.len() {
        return false;
    }
    let mut i: usize = 0;
    while i < a.len()
        invariant
            i <= a@.len(),
            a@.len() == b@.len(),
            forall|j: int| 0 <= j < i ==> a@[j] == b@[j],
        decreases a@.len() - i,
    {
        if a[i] != b[i] {
            return false;
        }
        i = i + 1;
    }
    assert(a@ =~= b@);
    true
}

impl DebugAttrTable {
    /// Nothing occurs twice.
    pub open spec fn wf(&self) -> bool {
        self@.no_duplicates()
    }

    /// No attributes.
    pub fn new() -> (t: DebugAttrTable)
        ensures
            t.wf(),
            t@ == Seq::<Seq<u8>>::empty(),
    {
        let t = DebugAttrTable { entries: Vec::new() };
        assert(t@ =~= Seq::<Seq<u8>>::empty());
        t
    }

    /// Whether there are no attributes.
    pub fn is_empty(&self) -> (r: bool)
        ensures
            r == (self@.len() == 0),
    {
        self.entries.len() == 0
    }

    /// The encoded attributes, in the order of their ids.
    pub fn entries(&self) -> (r: &Vec<Vec<u8>>)
        ensures
            table::byte_views(r@) == self@,
    {
        &self.entries
    }

    fn intern(&mut self, encoded: Vec<u8>) -> (id: u64)
        requires
            old(self).wf(),
        ensures
            final(self).wf(),
            final(self)@ == intern_entry(old(self)@, encoded@),
            id == entry_id(final(self)@, encoded@),
    {
        let ghost e = encoded@;
        let mut i: usize = 0;
        while i < self.entries.len()
            invariant
                i <= self.entries@.len(),
                self.wf(),
                *self == *old(self),
                e == encoded@,
                forall|j: int| 0 <= j < i ==> #[trigger] self@[j] != e,
            decreases self.entries@.len() - i,
        {
            if same_bytes(&self.entries[i], &encoded) {
                proof {
                    assert(self@[i as int] == e);
                    lemma_entry_index(self@, i as int);
                }
                return i as u64 + 1;
            }
            i = i + 1;
        }
        let ghost before = self.entries@;
        self.entries.push(encoded);
        let id: u64 = self.entries.len() as u64;
        proof {
            assert(self@ =~= table::byte_views(before).push(e));
            assert(!old(self)@.contains(e));
            lemma_entry_index(self@, self@.len() - 1);
        }
        id
    }

    fn write_entry(&mut self, tag: u8, fields: &[u64]) -> (id: u64)
        requires
            old(self).wf(),
        ensures
            final(self).wf(),
            final(self)@ == intern_entry(old(self)@, entry_bytes(tag, fields@)),
            id == entry_id(final(self)@, entry_bytes(tag, fields@)),
    {
        let mut w = EncodingWriter::new();
        w.write_byte(tag);
        assert(w@ =~= entry_bytes(tag, fields@.take(0)));
        let mut i: usize = 0;
        while i < fields.len()
            invariant
                i <= fields@.len(),
                w@ == entry_bytes(tag, fields@.take(i as int)),
            decreases fields@.len() - i,
        {
            w.write_varint(fields[i]);
            proof {
                let f = fields@.take(i + 1);
                assert(f.drop_last() =~= fields@.take(i as int));
                assert(f.last() == fields@[i as int]);
                assert(w@ =~= entry_bytes(tag, f));
            }
            i = i + 1;
        }
        assert(fields@.take(i as int) =~= fields@);
        self.intern(w.into_bytes())
    }

    /// Ask for a source file.
    pub fn file(&mut self, strings: &mut StringManager, name: &str, directory: &str) -> (id: u64)
        requires
            old(self).wf(),
            old(strings).wf(),
        ensures
            final(self).wf(),
            final(strings).wf(),
            (pool_of(*final(self), *final(strings)), id) == file_attr(
                pool_of(*old(self), *old(strings)),
                (FileV { name: name@, directory: directory@ }),
            ),
    {
        let (n, d): (u64, u64) = two_strings(strings, name, directory);
        let fields: [u64; 2] = [n, d];
        assert(fields@ =~= seq![string_id(strings@, name@), string_id(strings@, directory@)]);
        self.write_entry(DEBUG_FILE, &fields)
    }

    /// Ask for a compilation unit.
    pub fn compile_unit(&mut self, file: u64) -> (id: u64)
        requires
            old(self).wf(),
        ensures
            final(self).wf(),
            final(self)@ == intern_entry(
                old(self)@,
                entry_bytes(DEBUG_COMPILE_UNIT, seq![file]),
            ),
            id == entry_id(final(self)@, entry_bytes(DEBUG_COMPILE_UNIT, seq![file])),
    {
        let fields: [u64; 1] = [file];
        assert(fields@ =~= seq![file]);
        self.write_entry(DEBUG_COMPILE_UNIT, &fields)
    }

    /// Ask for a function.
    pub fn subprogram(
        &mut self,
        strings: &mut StringManager,
        file: u64,
        line: u64,
        name: &str,
        linkage_name: &str,
        compile_unit: u64,
        scope_line: u64,
    ) -> (id: u64)
        requires
            old(self).wf(),
            old(strings).wf(),
        ensures
            final(self).wf(),
            final(strings).wf(),
            (pool_of(*final(self), *final(strings)), id) == subprogram_entry(
                pool_of(*old(self), *old(strings)),
                file,
                line,
                name@,
                linkage_name@,
                compile_unit,
                scope_line,
            ),
    {
        let (n, l): (u64, u64) = two_strings(strings, name, linkage_name);
        let fields: [u64; 6] = [file, line, n, l, compile_unit, scope_line];
        assert(fields@ =~= seq![
            file,
            line,
            string_id(strings@, name@),
            string_id(strings@, linkage_name@),
            compile_unit,
            scope_line,
        ]);
        self.write_entry(DEBUG_SUBPROGRAM, &fields)
    }

    /// Ask for a nested scope.
    pub fn lexical_block(&mut self, parent_scope: u64, file: u64, line: u64, column: u64) -> (id:
        u64)
        requires
            old(self).wf(),
        ensures
            final(self).wf(),
            final(self)@ == intern_entry(
                old(self)@,
                entry_bytes(
                    DEBUG_LEXICAL_BLOCK,
                    seq![parent_scope, file, line, column],
                ),
            ),
            id == entry_id(
                final(self)@,
                entry_bytes(
                    DEBUG_LEXICAL_BLOCK,
                    seq![parent_scope, file, line, column],
                ),
            ),
    {
        let fields: [u64; 4] = [parent_scope, file, line, column];
        assert(fields@ =~= seq![parent_scope, file, line, column]);
        self.write_entry(DEBUG_LEXICAL_BLOCK, &fields)
    }

    /// Ask for a position in a file, within a scope.
    pub fn loc(
        &mut self,
        strings: &mut StringManager,
        scope: u64,
        filename: &str,
        line: u64,
        column: u64,
    ) -> (id: u64)
        requires
            old(self).wf(),
            old(strings).wf(),
        ensures
            final(self).wf(),
            final(strings).wf(),
            (pool_of(*final(self), *final(strings)), id) == loc_attr(
                pool_of(*old(self), *old(strings)),
                scope,
                filename@,
                line,
                column,
            ),
    {
        let f: u64 = strings.get_or_insert(filename);
        let fields: [u64; 4] = [scope, f, line, column];
        assert(fields@ =~= seq![
            scope,
            string_id(strings@, filename@),
            line,
            column,
        ]);
        self.write_entry(DEBUG_LOC, &fields)
    }

    /// Ask for a call: where it is, and where its caller is.
    pub fn call_site(&mut self, callee: u64, caller: u64) -> (id: u64)
        requires
            old(self).wf(),
        ensures
            final(self).wf(),
            final(self)@ == intern_entry(
                old(self)@,
                entry_bytes(DEBUG_CALL_SITE, seq![callee, caller]),
            ),
            id == entry_id(final(self)@, entry_bytes(DEBUG_CALL_SITE, seq![callee, caller])),
    {
        let fields: [u64; 2] = [callee, caller];
        assert(fields@ =~= seq![callee, caller]);
        self.write_entry(DEBUG_CALL_SITE, &fields)
    }

    /// Make sure that there is an attribute: readers reject an empty table.
    pub fn ensure_non_empty(&mut self)
        requires
            old(self).wf(),
        ensures
            final(self).wf(),
            final(self)@ == non_empty(old(self)@),
    {
        if self.is_empty() {
            let fields: [u64; 0] = [];
            assert(fields@ =~= seq![]);
            let _id: u64 = self.write_entry(DEBUG_UNKNOWN, &fields);
            proof {
                assert(!old(self)@.contains(entry_bytes(DEBUG_UNKNOWN, seq![])));
                assert(self@ =~= seq![entry_bytes(DEBUG_UNKNOWN, seq![])]);
            }
        }
    }
}

/// A table that is not empty.
pub open spec fn non_empty(l: Seq<Seq<u8>>) -> Seq<Seq<u8>> {
    if l.len() == 0 {
        seq![entry_bytes(DEBUG_UNKNOWN, seq![])]
    } else {
        l
    }
}

/// Ask for two strings.
fn two_strings(strings: &mut StringManager, x: &str, y: &str) -> (r: (u64, u64))
    requires
        old(strings).wf(),
    ensures
        final(strings).wf(),
        final(strings)@ == strings::intern(strings::intern(old(strings)@, x@), y@),
        r.0 == string_id(final(strings)@, x@),
        r.1 == string_id(final(strings)@, y@),
{
    let i: u64 = strings.get_or_insert(x);
    let ghost s1 = strings@;
    proof {
        strings.lemma_wf();
        strings::lemma_intern(s1, y@);
    }
    let j: u64 = strings.get_or_insert(y);
    proof {
        strings.lemma_wf();
        strings::lemma_extends_index(s1, strings@, x@);
    }
    (i, j)
}

/// The pool that a table and strings make.
pub open spec fn pool_of(t: DebugAttrTable, s: StringManager) -> DebugPool {
    DebugPool { strings: s@, entries: t@ }
}

/// A position of a table without repetitions is the index of what stands there.
pub proof fn lemma_entry_index(l: Seq<Seq<u8>>, i: int)
    requires
        l.no_duplicates(),
        0 <= i < l.len(),
    ensures
        l.contains(l[i]),
        l.index_of(l[i]) == i,
{
    let j = l.index_of(l[i]);
    assert(0 <= j < l.len() && l[j] == l[i]);
}

// ---------------------------------------------------------------------------
// Collecting
// ---------------------------------------------------------------------------

/// Collects debug information while functions are written: the attributes, and
/// for each function its own attribute id and then one per operation.
pub struct DebugInfoCollector {
    pub attrs: DebugAttrTable,
    pub per_function: Vec<Vec<u64>>,
    pub current_scope: u64,
}

impl DebugInfoCollector {
    /// Nothing collected.
    pub fn new() -> (c: DebugInfoCollector)
        ensures
            c.attrs.wf(),
            c.attrs@ == Seq::<Seq<u8>>::empty(),
            c.lists() == Seq::<Seq<u64>>::empty(),
            c.scope() == 0,
    {
        let c = DebugInfoCollector {
            attrs: DebugAttrTable::new(),
            per_function: Vec::new(),
            current_scope: 0,
        };
        assert(c.lists() =~= Seq::<Seq<u64>>::empty());
        c
    }

    /// The ids of each function.
    pub open spec fn lists(&self) -> Seq<Seq<u64>> {
        id_views(self.per_function@)
    }

    /// The scope of the function that is being written.
    pub open spec fn scope(&self) -> u64 {
        self.current_scope
    }

    /// The ids of each function.
    pub fn per_function(&self) -> (r: &Vec<Vec<u64>>)
        ensures
            id_views(r@) == self.lists(),
    {
        assert(id_views(self.per_function@) =~= self.lists());
        &self.per_function
    }

    fn file_id(&mut self, strings: &mut StringManager, f: &DIFile) -> (id: u64)
        requires
            old(self).attrs.wf(),
            old(strings).wf(),
        ensures
            final(self).attrs.wf(),
            final(strings).wf(),
            (pool_of(final(self).attrs, *final(strings)), id) == file_attr(
                pool_of(old(self).attrs, *old(strings)),
                f@,
            ),
            final(self).lists() == old(self).lists(),
            final(self).scope() == old(self).scope(),
    {
        self.attrs.file(strings, f.name.as_str(), f.directory.as_str())
    }

    fn subprogram_id(&mut self, strings: &mut StringManager, sp: &DISubprogram) -> (id: u64)
        requires
            old(self).attrs.wf(),
            old(strings).wf(),
        ensures
            final(self).attrs.wf(),
            final(strings).wf(),
            (pool_of(final(self).attrs, *final(strings)), id) == subprogram_attr(
                pool_of(old(self).attrs, *old(strings)),
                sp@,
            ),
            final(self).lists() == old(self).lists(),
            final(self).scope() == old(self).scope(),
    {
        let file: u64 = self.file_id(strings, &sp.file);
        let unit_file: u64 = self.file_id(strings, &sp.compile_unit.file);
        let unit: u64 = self.attrs.compile_unit(unit_file);
        self.attrs.subprogram(
            strings,
            file,
            sp.line as u64,
            sp.name.as_str(),
            sp.linkage_name.as_str(),
            unit,
            sp.scope_line as u64,
        )
    }

    fn scope_id(&mut self, strings: &mut StringManager, scope: &DebugScope) -> (id: u64)
        requires
            old(self).attrs.wf(),
            old(strings).wf(),
        ensures
            final(self).attrs.wf(),
            final(strings).wf(),
            (pool_of(final(self).attrs, *final(strings)), id) == scope_attr(
                pool_of(old(self).attrs, *old(strings)),
                scope@,
            ),
            final(self).lists() == old(self).lists(),
            final(self).scope() == old(self).scope(),
        decreases *scope,
    {
        match scope {
            DebugScope::Subprogram(sp) => self.subprogram_id(strings, sp),
            DebugScope::LexicalBlock(lb) => {
                let parent: u64 = self.scope_id(strings, &lb.scope);
                let file: u64 = self.file_id(strings, &lb.file);
                self.attrs.lexical_block(parent, file, lb.line as u64, lb.column as u64)
            },
        }
    }

    /// The attribute id of a location.
    fn attr_for(&mut self, strings: &mut StringManager, loc: &Location) -> (id: u64)
        requires
            old(self).attrs.wf(),
            old(strings).wf(),
        ensures
            final(self).attrs.wf(),
            final(strings).wf(),
            (pool_of(final(self).attrs, *final(strings)), id) == location_attr(
                pool_of(old(self).attrs, *old(strings)),
                old(self).scope(),
                loc@,
            ),
            final(self).lists() == old(self).lists(),
            final(self).scope() == old(self).scope(),
        decreases *loc,
    {
        match loc {
            Location::Unknown => MISSING_DEBUG_ATTR_ID,
            Location::FileLineCol { filename, line, column } => {
                if self.current_scope == MISSING_DEBUG_ATTR_ID {
                    return MISSING_DEBUG_ATTR_ID;
                }
                let scope: u64 = self.current_scope;
                self.attrs.loc(strings, scope, filename.as_str(), *line as u64, *column as u64)
            },
            Location::DebugInfo(di) => {
                let scope: u64 = self.scope_id(strings, &di.scope);
                self.attrs.loc(
                    strings,
                    scope,
                    di.filename.as_str(),
                    di.line as u64,
                    di.column as u64,
                )
            },
            Location::CallSite { callee, caller } => {
                let x: u64 = self.attr_for(strings, callee);
                if x == MISSING_DEBUG_ATTR_ID {
                    return MISSING_DEBUG_ATTR_ID;
                }
                let y: u64 = self.attr_for(strings, caller);
                self.attrs.call_site(x, y)
            },
        }
    }

    /// Start the list of a function; its one-based index comes out.
    pub fn begin_function(
        &mut self,
        strings: &mut StringManager,
        sym_name: &str,
        di_name: Option<&str>,
        loc: &Location,
    ) -> (idx: u64)
        requires
            old(self).attrs.wf(),
            old(strings).wf(),
        ensures
            final(self).attrs.wf(),
            final(strings).wf(),
            idx == final(self).lists().len(),
            ({
                let display = match di_name {
                    Some(s) => s@,
                    None => sym_name@,
                };
                let (p1, scope) = function_scope(
                    pool_of(old(self).attrs, *old(strings)),
                    sym_name@,
                    display,
                    loc@,
                );
                let (p2, id) = location_attr(p1, scope, loc@);
                &&& pool_of(final(self).attrs, *final(strings)) == p2
                &&& final(self).scope() == scope
                &&& final(self).lists() == old(self).lists().push(seq![id])
            }),
    {
        let display: &str = match di_name {
            Some(s) => s,
            None => sym_name,
        };
        let scope: u64 = match loc {
            Location::FileLineCol { filename, line, column: _ } => {
                let (dir, base) = split_file_path(filename.as_str());
                let file: u64 = self.attrs.file(strings, base, dir);
                let unit: u64 = self.attrs.compile_unit(file);
                self.attrs.subprogram(
                    strings,
                    file,
                    *line as u64,
                    display,
                    sym_name,
                    unit,
                    *line as u64,
                )
            },
            Location::DebugInfo(di) => self.scope_id(strings, &di.scope),
            _ => MISSING_DEBUG_ATTR_ID,
        };
        self.current_scope = scope;
        let id: u64 = self.attr_for(strings, loc);
        let mut list: Vec<u64> = Vec::new();
        list.push(id);
        let ghost before = self.per_function@;
        self.per_function.push(list);
        proof {
            assert(list@ =~= seq![id]);
            assert(self.lists() =~= old(self).lists().push(seq![id]));
        }
        self.per_function.len() as u64
    }

    /// Record the location of the next operation of the function.
    pub fn record_op(&mut self, strings: &mut StringManager, loc: &Location)
        requires
            old(self).attrs.wf(),
            old(strings).wf(),
            old(self).lists().len() > 0,
        ensures
            final(self).attrs.wf(),
            final(strings).wf(),
            final(self).scope() == old(self).scope(),
            ({
                let (p1, id) = location_attr(
                    pool_of(old(self).attrs, *old(strings)),
                    old(self).scope(),
                    loc@,
                );
                &&& pool_of(final(self).attrs, *final(strings)) == p1
                &&& final(self).lists() == old(self).lists().drop_last().push(
                    old(self).lists().last().push(id),
                )
            }),
    {
        let id: u64 = self.attr_for(strings, loc);
        let ghost before = self.lists();
        match self.per_function.pop() {
            Some(mut list) => {
                list.push(id);
                self.per_function.push(list);
            },
            None => {},
        }
        assert(self.lists() =~= before.drop_last().push(before.last().push(id)));
    }
}

/// The contents of id lists.
pub open spec fn id_views(s: Seq<Vec<u64>>) -> Seq<Seq<u64>> {
    Seq::new(s.len(), |i: int| s[i]@)
}

// ---------------------------------------------------------------------------
// Growth
// ---------------------------------------------------------------------------

/// Whether an entry refers to scopes and locations with ids up to `n` only.
pub open spec fn refers_back(e: Seq<u8>, n: int) -> bool {
    match debug::debug_attr_at(e, 0) {
        Ok((DebugAttr::LexicalBlock { scope, .. }, _)) => scope <= n,
        Ok((DebugAttr::CallSite { callee, caller }, _)) => callee <= n && caller <= n,
        _ => true,
    }
}

/// Every entry refers to entries in front of it only.
pub open spec fn ordered(l: Seq<Seq<u8>>) -> bool {
    forall|j: int| 0 <= j < l.len() ==> refers_back(#[trigger] l[j], j)
}

/// Nothing occurs twice, and entries refer to entries in front of them.
pub open spec fn pool_wf(p: DebugPool) -> bool {
    p.strings.no_duplicates() && p.entries.no_duplicates() && ordered(p.entries)
}

proof fn lemma_fields_hold(d: Seq<u8>, p: int, f: Seq<u64>)
    requires
        wire::holds_at(d, p, fields_bytes(f)),
    ensures
        debug::varints_at(d, p, f.len() as int) == Ok::<(Seq<u64>, int), ReadError>(
            (f, p + fields_bytes(f).len()),
        ),
    decreases f.len(),
{
    if f.len() > 0 {
        let x = fields_bytes(f.drop_last());
        wire::lemma_holds_split(d, p, x, wire::varint_bytes(f.last()));
        lemma_fields_hold(d, p, f.drop_last());
        wire::lemma_varint_holds(d, p + x.len(), f.last());
        assert(f.drop_last().push(f.last()) =~= f);
    } else {
        assert(f =~= seq![]);
    }
}

/// An entry is decoded to what was encoded.
pub proof fn lemma_entry_decodes(tag: u8, f: Seq<u64>)
    requires
        debug::field_count(tag) == Some(f.len() as int),
    ensures
        debug::debug_attr_at(entry_bytes(tag, f), 0) == Ok::<(DebugAttr, int), ReadError>(
            (debug::attr_of_fields(tag, f), entry_bytes(tag, f).len() as int),
        ),
{
    let e = entry_bytes(tag, f);
    wire::lemma_holds_whole(e);
    wire::lemma_holds_split(e, 0, seq![tag], fields_bytes(f));
    wire::lemma_byte_holds(e, 0, tag);
    lemma_fields_hold(e, 1, f);
}

/// `q` continues `p`.
pub open spec fn pool_grows(p: DebugPool, q: DebugPool) -> bool {
    &&& strings::extends(p.strings, q.strings)
    &&& p.entries.len() <= q.entries.len()
    &&& q.entries.take(p.entries.len() as int) == p.entries
}

/// A pool continues itself, and continuing twice continues.
pub proof fn lemma_pool_grows(p: DebugPool, q: DebugPool, r: DebugPool)
    ensures
        pool_grows(p, p),
        pool_grows(p, q) && pool_grows(q, r) ==> pool_grows(p, r),
{
    strings::lemma_extends(p.strings, q.strings, r.strings);
    assert(p.entries.take(p.entries.len() as int) =~= p.entries);
    if pool_grows(p, q) && pool_grows(q, r) {
        assert(r.entries.take(p.entries.len() as int) =~= q.entries.take(p.entries.len() as int));
    }
}

proof fn lemma_with_string(p: DebugPool, s: Seq<char>)
    requires
        pool_wf(p),
    ensures
        pool_wf(with_string(p, s)),
        pool_grows(p, with_string(p, s)),
        with_string(p, s).strings.contains(s),
{
    strings::lemma_intern(p.strings, s);
    lemma_pool_grows(p, p, p);
}

/// Asking for an entry.
pub proof fn lemma_with_entry(p: DebugPool, tag: u8, f: Seq<u64>)
    requires
        pool_wf(p),
        debug::field_count(tag) == Some(f.len() as int),
        tag == DEBUG_LEXICAL_BLOCK ==> f[0] <= p.entries.len(),
        tag == DEBUG_CALL_SITE ==> f[0] <= p.entries.len() && f[1] <= p.entries.len(),
    ensures
        pool_wf(with_entry(p, entry_bytes(tag, f)).0),
        pool_grows(p, with_entry(p, entry_bytes(tag, f)).0),
        with_entry(p, entry_bytes(tag, f)).0.entries.contains(entry_bytes(tag, f)),
        with_entry(p, entry_bytes(tag, f)).1 <= with_entry(p, entry_bytes(tag, f)).0.entries.len(),
{
    let e = entry_bytes(tag, f);
    let q = with_entry(p, e).0;
    lemma_entry_decodes(tag, f);
    strings::lemma_extends(p.strings, p.strings, p.strings);
    assert(q.entries.take(p.entries.len() as int) =~= p.entries);
    if !p.entries.contains(e) {
        assert(q.entries[p.entries.len() as int] == e);
    }
}

/// Asking for a source file.
pub proof fn lemma_file_attr(p: DebugPool, f: FileV)
    requires
        pool_wf(p),
    ensures
        pool_wf(file_attr(p, f).0),
        pool_grows(p, file_attr(p, f).0),
{
    let p1 = with_string(p, f.name);
    let p2 = with_string(p1, f.directory);
    lemma_with_string(p, f.name);
    lemma_with_string(p1, f.directory);
    lemma_pool_grows(p, p1, p2);
    let fields = seq![string_id(p2.strings, f.name), string_id(p2.strings, f.directory)];
    lemma_with_entry(p2, DEBUG_FILE, fields);
    lemma_pool_grows(p, p2, with_entry(p2, entry_bytes(DEBUG_FILE, fields)).0);
}

/// Asking for a compilation unit.
pub proof fn lemma_unit_attr(p: DebugPool, file: u64)
    requires
        pool_wf(p),
    ensures
        pool_wf(unit_attr(p, file).0),
        pool_grows(p, unit_attr(p, file).0),
{
    lemma_with_entry(p, DEBUG_COMPILE_UNIT, seq![file]);
}

/// Asking for a function.
pub proof fn lemma_subprogram_entry(
    p: DebugPool,
    file: u64,
    line: u64,
    name: Seq<char>,
    linkage_name: Seq<char>,
    unit: u64,
    scope_line: u64,
)
    requires
        pool_wf(p),
    ensures
        pool_wf(subprogram_entry(p, file, line, name, linkage_name, unit, scope_line).0),
        pool_grows(p, subprogram_entry(p, file, line, name, linkage_name, unit, scope_line).0),
        subprogram_entry(p, file, line, name, linkage_name, unit, scope_line).1 <= subprogram_entry(p, file, line, name, linkage_name, unit, scope_line).0.entries.len(),
{
    let p1 = with_string(p, name);
    let p2 = with_string(p1, linkage_name);
    lemma_with_string(p, name);
    lemma_with_string(p1, linkage_name);
    lemma_pool_grows(p, p1, p2);
    let fields = seq![
        file,
        line,
        string_id(p2.strings, name),
        string_id(p2.strings, linkage_name),
        unit,
        scope_line,
    ];
    lemma_with_entry(p2, DEBUG_SUBPROGRAM, fields);
    lemma_pool_grows(p, p2, with_entry(p2, entry_bytes(DEBUG_SUBPROGRAM, fields)).0);
}

proof fn lemma_subprogram_attr(p: DebugPool, sp: SubprogramV)
    requires
        pool_wf(p),
    ensures
        pool_wf(subprogram_attr(p, sp).0),
        pool_grows(p, subprogram_attr(p, sp).0),
        subprogram_attr(p, sp).1 <= subprogram_attr(p, sp).0.entries.len(),
{
    let (p1, file) = file_attr(p, sp.file);
    lemma_file_attr(p, sp.file);
    let (p2, unit_file) = file_attr(p1, sp.compile_unit);
    lemma_file_attr(p1, sp.compile_unit);
    let (p3, unit) = unit_attr(p2, unit_file);
    lemma_unit_attr(p2, unit_file);
    lemma_subprogram_entry(
        p3,
        file,
        sp.line as u64,
        sp.name,
        sp.linkage_name,
        unit,
        sp.scope_line as u64,
    );
    lemma_pool_grows(p, p1, p2);
    lemma_pool_grows(p, p2, p3);
    lemma_pool_grows(p, p3, subprogram_attr(p, sp).0);
}

/// Asking for a scope.
pub proof fn lemma_scope_attr(p: DebugPool, s: ScopeV)
    requires
        pool_wf(p),
    ensures
        pool_wf(scope_attr(p, s).0),
        pool_grows(p, scope_attr(p, s).0),
        scope_attr(p, s).1 <= scope_attr(p, s).0.entries.len(),
    decreases s,
{
    match s {
        ScopeV::Subprogram(sp) => lemma_subprogram_attr(p, sp),
        ScopeV::LexicalBlock(parent, file, line, column) => {
            lemma_scope_attr(p, *parent);
            let (p1, scope) = scope_attr(p, *parent);
            lemma_file_attr(p1, file);
            let (p2, f) = file_attr(p1, file);
            let fields = seq![scope, f, line as u64, column as u64];
            lemma_with_entry(p2, DEBUG_LEXICAL_BLOCK, fields);
            lemma_pool_grows(p, p1, p2);
            lemma_pool_grows(p, p2, with_entry(p2, entry_bytes(DEBUG_LEXICAL_BLOCK, fields)).0);
        },
    }
}

/// Asking for a position.
pub proof fn lemma_loc_attr(p: DebugPool, scope: u64, filename: Seq<char>, line: u64, column: u64)
    requires
        pool_wf(p),
    ensures
        pool_wf(loc_attr(p, scope, filename, line, column).0),
        pool_grows(p, loc_attr(p, scope, filename, line, column).0),
        loc_attr(p, scope, filename, line, column).1 <= loc_attr(p, scope, filename, line, column).0.entries.len(),
{
    let p1 = with_string(p, filename);
    lemma_with_string(p, filename);
    let fields = seq![scope, string_id(p1.strings, filename), line, column];
    lemma_with_entry(p1, DEBUG_LOC, fields);
    lemma_pool_grows(p, p1, with_entry(p1, entry_bytes(DEBUG_LOC, fields)).0);
}

/// Asking for a location.
pub proof fn lemma_location_attr(p: DebugPool, current: u64, l: LocationV)
    requires
        pool_wf(p),
    ensures
        pool_wf(location_attr(p, current, l).0),
        pool_grows(p, location_attr(p, current, l).0),
        location_attr(p, current, l).1 <= location_attr(p, current, l).0.entries.len(),
    decreases l,
{
    lemma_pool_grows(p, p, p);
    match l {
        LocationV::Unknown => {},
        LocationV::FileLineCol(filename, line, column) => {
            if current != 0 {
                lemma_loc_attr(p, current, filename, line as u64, column as u64);
            }
        },
        LocationV::DebugInfo(filename, line, column, scope) => {
            lemma_scope_attr(p, scope);
            let (p1, s) = scope_attr(p, scope);
            lemma_loc_attr(p1, s, filename, line as u64, column as u64);
            lemma_pool_grows(p, p1, loc_attr(p1, s, filename, line as u64, column as u64).0);
        },
        LocationV::CallSite(callee, caller) => {
            lemma_location_attr(p, current, *callee);
            let (p1, x) = location_attr(p, current, *callee);
            if x != 0 {
                lemma_location_attr(p1, current, *caller);
                let (p2, y) = location_attr(p1, current, *caller);
                lemma_with_entry(p2, DEBUG_CALL_SITE, seq![x, y]);
                lemma_pool_grows(p, p1, p2);
                lemma_pool_grows(
                    p,
                    p2,
                    with_entry(p2, entry_bytes(DEBUG_CALL_SITE, seq![x, y])).0,
                );
            }
        },
    }
}

/// Asking for the scope of a function.
pub proof fn lemma_function_scope(
    p: DebugPool,
    sym_name: Seq<char>,
    display: Seq<char>,
    l: LocationV,
)
    requires
        pool_wf(p),
    ensures
        pool_wf(function_scope(p, sym_name, display, l).0),
        pool_grows(p, function_scope(p, sym_name, display, l).0),
{
    lemma_pool_grows(p, p, p);
    match l {
        LocationV::FileLineCol(filename, line, _) => {
            let f = debug::file_of_path(filename);
            let (p1, file) = file_attr(p, f);
            lemma_file_attr(p, f);
            let (p2, unit) = unit_attr(p1, file);
            lemma_unit_attr(p1, file);
            lemma_subprogram_entry(p2, file, line as u64, display, sym_name, unit, line as u64);
            lemma_pool_grows(p, p1, p2);
            lemma_pool_grows(p, p2, function_scope(p, sym_name, display, l).0);
        },
        LocationV::DebugInfo(_, _, _, scope) => lemma_scope_attr(p, scope),
        _ => {},
    }
}

} // verus!
