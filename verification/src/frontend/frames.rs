//! Source locations of operations while calls are inlined.
//!
//! An operation of an inlined function is placed where the function's own
//! source has it, chained to the place of the call; an operation of the core
//! library is placed at the call.
use vstd::prelude::*;
use crate::ir::location::{
    DICompileUnit,
    DIFile,
    DISubprogram,
    DebugInfoLoc,
    DebugScope,
    FileV,
    Location,
    LocationV,
    ScopeV,
    SubprogramV,
};
use crate::text::{joined, number_text, split_file_path};
use crate::text;

verus! {

/// A place in the source, where it is known.
pub enum SourceLocation {
    Unknown,
    At { file: String, line: u32, column: u32 },
}

/// The contents of a place in the source.
#[verifier::ext_equal]
pub enum SourceV {
    Unknown,
    At(Seq<char>, u32, u32),
}

impl View for SourceLocation {
    type V = SourceV;

    open spec fn view(&self) -> SourceV {
        match self {
            SourceLocation::Unknown => SourceV::Unknown,
            SourceLocation::At { file, line, column } => SourceV::At(file@, *line, *column),
        }
    }
}

impl SourceLocation {
    /// Whether the place is known.
    pub fn is_known(&self) -> (b: bool)
        ensures
            b == (self@ is At),
    {
        match self {
            SourceLocation::Unknown => false,
            SourceLocation::At { .. } => true,
        }
    }
}

/// An inline expansion in progress.
pub enum CallFrame {
    /// A function whose own source is known: operations belong to it.
    Transparent { caller: Location, callee_scope: Option<DISubprogram> },
    /// Operations belong to the call.
    Opaque { caller: Location },
}

/// The contents of an inline expansion.
#[verifier::ext_equal]
pub enum FrameV {
    Transparent(LocationV, Option<SubprogramV>),
    Opaque(LocationV),
}

impl View for CallFrame {
    type V = FrameV;

    open spec fn view(&self) -> FrameV {
        match self {
            CallFrame::Transparent { caller, callee_scope } => FrameV::Transparent(
                caller@,
                match callee_scope {
                    Some(s) => Some(s@),
                    None => None,
                },
            ),
            CallFrame::Opaque { caller } => FrameV::Opaque(caller@),
        }
    }
}

/// The place in the source of a location: of a call, that of the callee.
pub open spec fn place_of(l: LocationV) -> SourceV
    decreases l,
{
    match l {
        LocationV::Unknown => SourceV::Unknown,
        LocationV::FileLineCol(f, line, col) => SourceV::At(f, line, col),
        LocationV::DebugInfo(f, line, col, _) => SourceV::At(f, line, col),
        LocationV::CallSite(callee, _) => place_of(*callee),
    }
}

/// The place in the source of a location.
pub fn source_location(location: &Location) -> (r: SourceLocation)
    ensures
        r@ == place_of(location@),
    decreases location,
{
    match location {
        Location::Unknown => SourceLocation::Unknown,
        Location::FileLineCol { filename, line, column } => SourceLocation::At {
            file: filename.clone(),
            line: *line,
            column: *column,
        },
        Location::DebugInfo(d) => SourceLocation::At {
            file: d.filename.clone(),
            line: d.line,
            column: d.column,
        },
        Location::CallSite { callee, .. } => source_location(callee),
    }
}

/// A place as a location without a scope.
pub open spec fn plain(s: SourceV) -> LocationV {
    match s {
        SourceV::Unknown => LocationV::Unknown,
        SourceV::At(f, line, col) => LocationV::FileLineCol(f, line, col),
    }
}

/// The location of an operation whose source stands at `s`, under the innermost
/// inline expansion.
pub open spec fn placed(frame: Option<FrameV>, s: SourceV) -> LocationV {
    match frame {
        None => plain(s),
        Some(FrameV::Opaque(caller)) => caller,
        Some(FrameV::Transparent(caller, scope)) => match s {
            SourceV::Unknown => LocationV::Unknown,
            SourceV::At(f, line, col) => LocationV::CallSite(
                Box::new(
                    match scope {
                        Some(sp) => LocationV::DebugInfo(f, line, col, ScopeV::Subprogram(sp)),
                        None => LocationV::FileLineCol(f, line, col),
                    },
                ),
                Box::new(caller),
            ),
        },
    }
}

/// Inline expansions and modules in progress, innermost last.
pub struct InlineStack {
    pub frames: Vec<CallFrame>,
    pub modules: Vec<String>,
    /// The kernel's module.
    pub module_name: String,
}

impl InlineStack {
    /// The innermost inline expansion.
    pub open spec fn innermost(&self) -> Option<FrameV> {
        if self.frames@.len() > 0 {
            Some(self.frames@.last()@)
        } else {
            None
        }
    }

    /// No expansion in progress, in the kernel's module.
    pub fn new(module_name: &str) -> (s: InlineStack)
        ensures
            s.frames@.len() == 0,
            s.modules@.len() == 1,
            s.modules@[0]@ == module_name@,
            s.module_name@ == module_name@,
    {
        let mut modules: Vec<String> = Vec::new();
        modules.push(module_name.to_owned());
        InlineStack { frames: Vec::new(), modules, module_name: module_name.to_owned() }
    }

    /// The module whose source is being compiled.
    pub fn current_module(&self) -> (r: String)
        ensures
            r@ == (if self.modules@.len() > 0 {
                self.modules@.last()@
            } else {
                self.module_name@
            }),
    {
        if self.modules.len() > 0 {
            self.modules[self.modules.len() - 1].clone()
        } else {
            self.module_name.clone()
        }
    }

    /// Enter a module.
    pub fn push_module_scope(&mut self, module: &str)
        ensures
            final(self).modules@.len() == old(self).modules@.len() + 1,
            final(self).modules@.drop_last() == old(self).modules@,
            final(self).modules@.last()@ == module@,
            final(self).frames == old(self).frames,
            final(self).module_name == old(self).module_name,
    {
        self.modules.push(module.to_owned());
        assert(self.modules@.drop_last() =~= old(self).modules@);
    }

    /// Leave the innermost module.
    pub fn pop_module_scope(&mut self)
        ensures
            final(self).modules@ == (if old(self).modules@.len() > 0 {
                old(self).modules@.drop_last()
            } else {
                old(self).modules@
            }),
            final(self).frames == old(self).frames,
            final(self).module_name == old(self).module_name,
    {
        let _ = self.modules.pop();
    }

    /// Where the diagnostics of a place point: under an expansion that belongs
    /// to its call, at the call.
    pub fn resolve_span(&self, place: SourceLocation) -> (r: SourceLocation)
        ensures
            r@ == (match self.innermost() {
                Some(FrameV::Opaque(caller)) => place_of(caller),
                _ => place@,
            }),
    {
        if self.frames.len() > 0 {
            match &self.frames[self.frames.len() - 1] {
                CallFrame::Opaque { caller } => {
                    return source_location(caller);
                },
                CallFrame::Transparent { .. } => {},
            }
        }
        place
    }

    /// The location of an operation whose source stands at `place`.
    pub fn ir_location(&self, place: &SourceLocation) -> (r: Location)
        ensures
            r@ == placed(self.innermost(), place@),
    {
        if self.frames.len() == 0 {
            return match place {
                SourceLocation::Unknown => Location::Unknown,
                SourceLocation::At { file, line, column } => Location::FileLineCol {
                    filename: file.clone(),
                    line: *line,
                    column: *column,
                },
            };
        }
        match &self.frames[self.frames.len() - 1] {
            CallFrame::Opaque { caller } => caller.duplicate(),
            CallFrame::Transparent { caller, callee_scope } => {
                match place {
                    SourceLocation::Unknown => Location::Unknown,
                    SourceLocation::At { file, line, column } => {
                        let callee = match callee_scope {
                            Some(sp) => Location::DebugInfo(
                                DebugInfoLoc {
                                    filename: file.clone(),
                                    line: *line,
                                    column: *column,
                                    scope: DebugScope::Subprogram(sp.duplicate()),
                                },
                            ),
                            None => Location::FileLineCol {
                                filename: file.clone(),
                                line: *line,
                                column: *column,
                            },
                        };
                        assert(callee@ == *placed(self.innermost(), place@)->CallSite_0);
                        let caller = caller.duplicate();
                        let r = Location::CallSite {
                            callee: Box::new(callee),
                            caller: Box::new(caller),
                        };
                        assert(r@ == LocationV::CallSite(Box::new(callee@), Box::new(caller@)));
                        r
                    },
                }
            },
        }
    }

    /// Start an expansion whose operations belong to the call.
    pub fn push_opaque_call_site(&mut self, call: &SourceLocation)
        ensures
            final(self).frames@.len() == old(self).frames@.len() + 1,
            final(self).frames@.drop_last() == old(self).frames@,
            final(self).innermost() == Some(
                FrameV::Opaque(placed(old(self).innermost(), call@)),
            ),
            final(self).modules == old(self).modules,
            final(self).module_name == old(self).module_name,
    {
        let caller = self.ir_location(call);
        self.frames.push(CallFrame::Opaque { caller });
        assert(self.frames@.drop_last() =~= old(self).frames@);
    }

    /// Start an expansion of a function that is defined at `def`; `root_file`
    /// is the kernel's source file.
    pub fn push_call_site(
        &mut self,
        call: &SourceLocation,
        callee_name: &str,
        def: &SourceLocation,
        root_file: &str,
    )
        ensures
            final(self).frames@.len() == old(self).frames@.len() + 1,
            final(self).frames@.drop_last() == old(self).frames@,
            final(self).innermost() == Some(
                FrameV::Transparent(
                    placed(old(self).innermost(), call@),
                    subprogram_of(callee_name@, def@, root_file@),
                ),
            ),
            final(self).modules == old(self).modules,
            final(self).module_name == old(self).module_name,
    {
        let caller = self.ir_location(call);
        let callee_scope = callee_subprogram(callee_name, def, root_file);
        self.frames.push(CallFrame::Transparent { caller, callee_scope });
        assert(self.frames@.drop_last() =~= old(self).frames@);
    }

    /// End the innermost expansion.
    pub fn pop_call_site(&mut self)
        ensures
            final(self).frames@ == (if old(self).frames@.len() > 0 {
                old(self).frames@.drop_last()
            } else {
                old(self).frames@
            }),
            final(self).modules == old(self).modules,
            final(self).module_name == old(self).module_name,
    {
        let _ = self.frames.pop();
    }
}

/// Where the first dot stands, from `from` on; behind the end if there is none.
pub open spec fn first_dot(s: Seq<char>, from: int) -> int
    decreases s.len() - from,
{
    if from >= s.len() {
        s.len() as int
    } else if s[from] == '.' {
        from
    } else {
        first_dot(s, from + 1)
    }
}

/// A file's name without what follows the first dot.
pub open spec fn stem(base: Seq<char>) -> Seq<char> {
    base.take(first_dot(base, 0))
}

fn file_stem(base: &str) -> (r: &str)
    ensures
        r@ == stem(base@),
{
    let n: usize = base.unicode_len();
    let mut i: usize = 0;
    while i < n
        invariant
            n == base@.len(),
            i <= n,
            first_dot(base@, 0) == first_dot(base@, i as int),
        decreases n - i,
    {
        if base.get_char(i) == '.' {
            let r: &str = base.substring_char(0, i);
            assert(r@ =~= stem(base@));
            return r;
        }
        i = i + 1;
    }
    assert(stem(base@) =~= base@);
    base
}

/// The name that stands for a function that has no symbol of its own.
pub open spec fn inlined_name(name: Seq<char>, file: Seq<char>, line: u32, column: u32) -> Seq<char> {
    name + "@"@ + stem(text::path_base(file)) + ":"@ + text::decimal_text(line as int) + ":"@
        + text::decimal_text(column as int)
}

/// A file by its path.
pub open spec fn file_of(path: Seq<char>) -> FileV {
    FileV { name: text::path_base(path), directory: text::path_directory(path) }
}

/// The function in the debug information for an inlined function: in its own
/// file, but in the kernel's compilation unit.
pub open spec fn subprogram_of(name: Seq<char>, def: SourceV, root_file: Seq<char>) -> Option<
    SubprogramV,
> {
    match def {
        SourceV::Unknown => None,
        SourceV::At(file, line, column) => Some(
            SubprogramV {
                file: file_of(file),
                line,
                name,
                linkage_name: inlined_name(name, file, line, column),
                compile_unit: file_of(root_file),
                scope_line: line,
            },
        ),
    }
}

fn di_file(path: &str) -> (r: DIFile)
    ensures
        r@ == file_of(path@),
{
    let (directory, name) = split_file_path(path);
    DIFile { name: name.to_owned(), directory: directory.to_owned() }
}

/// The function in the debug information for an inlined function.
pub fn callee_subprogram(callee_name: &str, def: &SourceLocation, root_file: &str) -> (r: Option<
    DISubprogram,
>)
    ensures
        match r {
            Some(s) => subprogram_of(callee_name@, def@, root_file@) == Some(s@),
            None => subprogram_of(callee_name@, def@, root_file@) is None,
        },
{
    match def {
        SourceLocation::Unknown => None,
        SourceLocation::At { file, line, column } => {
            let (_, base) = split_file_path(file.as_str());
            let mut linkage: String = joined(callee_name, "@");
            linkage.append(file_stem(base));
            linkage.append(":");
            linkage.append(number_text(*line as u64).as_str());
            linkage.append(":");
            linkage.append(number_text(*column as u64).as_str());
            Some(
                DISubprogram {
                    file: di_file(file.as_str()),
                    line: *line,
                    name: callee_name.to_owned(),
                    linkage_name: linkage,
                    compile_unit: DICompileUnit { file: di_file(root_file) },
                    scope_line: *line,
                },
            )
        },
    }
}

/// Where a module's source begins.
pub struct SpanBase {
    pub file: String,
    pub base_line: usize,
    pub base_col: usize,
    pub known: bool,
}

/// Two modules have the same source.
pub open spec fn same_base(a: SpanBase, b: SpanBase) -> bool {
    a.file@ == b.file@ && a.base_line == b.base_line && a.base_col == b.base_col
}

/// Whether a module keeps its own locations when its functions are inlined: its
/// source is known, and is not the core library's.
pub fn has_inline_source(base: Option<&SpanBase>, core: Option<&SpanBase>) -> (r: bool)
    ensures
        r == (match base {
            Some(b) => b.known && !(match core {
                Some(c) => same_base(*c, *b),
                None => false,
            }),
            None => false,
        }),
{
    match base {
        Some(b) => {
            if !b.known {
                return false;
            }
            match core {
                Some(c) => !(crate::text::same_text(c.file.as_str(), b.file.as_str())
                    && c.base_line == b.base_line && c.base_col == b.base_col),
                None => true,
            }
        },
        None => false,
    }
}

/// An operation of an inlined function is found in the function's source; the
/// place of the call stays at the end of the chain.
pub proof fn lemma_inlined_place(frame: FrameV, s: SourceV)
    requires
        frame is Transparent,
        s is At,
    ensures
        place_of(placed(Some(frame), s)) == s,
        placed(Some(frame), s) is CallSite,
        *placed(Some(frame), s)->CallSite_1 == frame->Transparent_0,
{
    let l = placed(Some(frame), s);
    let callee = *l->CallSite_0;
    assert(place_of(callee) == s);
}

/// Ending an expansion undoes starting it.
pub proof fn lemma_push_pop(frames: Seq<CallFrame>, f: CallFrame)
    ensures
        frames.push(f).drop_last() == frames,
{
    assert(frames.push(f).drop_last() =~= frames);
}

} // verus!
