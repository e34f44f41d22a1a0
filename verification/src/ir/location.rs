//! Source locations of operations.
use vstd::prelude::*;

verus! {

/// A source file.
pub struct DIFile {
    pub name: String,
    pub directory: String,
}

/// A compilation unit.
pub struct DICompileUnit {
    pub file: DIFile,
}

/// A function in the debug information.
pub struct DISubprogram {
    pub file: DIFile,
    pub line: u32,
    pub name: String,
    pub linkage_name: String,
    pub compile_unit: DICompileUnit,
    pub scope_line: u32,
}

/// A nested scope.
pub struct DILexicalBlock {
    pub scope: Box<DebugScope>,
    pub file: DIFile,
    pub line: u32,
    pub column: u32,
}

/// The scope that a location belongs to.
pub enum DebugScope {
    Subprogram(DISubprogram),
    LexicalBlock(DILexicalBlock),
}

/// A location with its scope.
pub struct DebugInfoLoc {
    pub filename: String,
    pub line: u32,
    pub column: u32,
    pub scope: DebugScope,
}

/// Where an operation comes from.
pub enum Location {
    Unknown,
    FileLineCol { filename: String, line: u32, column: u32 },
    DebugInfo(DebugInfoLoc),
    CallSite { callee: Box<Location>, caller: Box<Location> },
}

/// The contents of a source file.
#[verifier::ext_equal]
pub struct FileV {
    pub name: Seq<char>,
    pub directory: Seq<char>,
}

/// The contents of a function in the debug information.
#[verifier::ext_equal]
pub struct SubprogramV {
    pub file: FileV,
    pub line: u32,
    pub name: Seq<char>,
    pub linkage_name: Seq<char>,
    pub compile_unit: FileV,
    pub scope_line: u32,
}

/// The contents of a scope.
#[verifier::ext_equal]
pub enum ScopeV {
    Subprogram(SubprogramV),
    LexicalBlock(Box<ScopeV>, FileV, u32, u32),
}

/// The contents of a location.
#[verifier::ext_equal]
pub enum LocationV {
    Unknown,
    FileLineCol(Seq<char>, u32, u32),
    DebugInfo(Seq<char>, u32, u32, ScopeV),
    CallSite(Box<LocationV>, Box<LocationV>),
}

impl View for DIFile {
    type V = FileV;

    open spec fn view(&self) -> FileV {
        FileV { name: self.name@, directory: self.directory@ }
    }
}

impl View for DISubprogram {
    type V = SubprogramV;

    open spec fn view(&self) -> SubprogramV {
        SubprogramV {
            file: self.file@,
            line: self.line,
            name: self.name@,
            linkage_name: self.linkage_name@,
            compile_unit: self.compile_unit.file@,
            scope_line: self.scope_line,
        }
    }
}

/// The contents of a scope.
pub open spec fn scope_view(s: DebugScope) -> ScopeV
    decreases s,
{
    match s {
        DebugScope::Subprogram(sp) => ScopeV::Subprogram(sp@),
        DebugScope::LexicalBlock(lb) => ScopeV::LexicalBlock(
            Box::new(scope_view(*lb.scope)),
            lb.file@,
            lb.line,
            lb.column,
        ),
    }
}

impl View for DebugScope {
    type V = ScopeV;

    open spec fn view(&self) -> ScopeV {
        scope_view(*self)
    }
}

/// The contents of a location.
pub open spec fn location_view(l: Location) -> LocationV
    decreases l,
{
    match l {
        Location::Unknown => LocationV::Unknown,
        Location::FileLineCol { filename, line, column } => LocationV::FileLineCol(
            filename@,
            line,
            column,
        ),
        Location::DebugInfo(d) => LocationV::DebugInfo(d.filename@, d.line, d.column, d.scope@),
        Location::CallSite { callee, caller } => LocationV::CallSite(
            Box::new(location_view(*callee)),
            Box::new(location_view(*caller)),
        ),
    }
}

impl View for Location {
    type V = LocationV;

    open spec fn view(&self) -> LocationV {
        location_view(*self)
    }
}

impl DIFile {
    /// A copy.
    pub fn duplicate(&self) -> (r: DIFile)
        ensures
            r@ == self@,
    {
        DIFile { name: self.name.clone(), directory: self.directory.clone() }
    }
}

impl DISubprogram {
    /// A copy.
    pub fn duplicate(&self) -> (r: DISubprogram)
        ensures
            r@ == self@,
    {
        DISubprogram {
            file: self.file.duplicate(),
            line: self.line,
            name: self.name.clone(),
            linkage_name: self.linkage_name.clone(),
            compile_unit: DICompileUnit { file: self.compile_unit.file.duplicate() },
            scope_line: self.scope_line,
        }
    }
}

impl DebugScope {
    /// A copy.
    pub fn duplicate(&self) -> (r: DebugScope)
        ensures
            r@ == self@,
        decreases *self,
    {
        match self {
            DebugScope::Subprogram(sp) => DebugScope::Subprogram(sp.duplicate()),
            DebugScope::LexicalBlock(lb) => DebugScope::LexicalBlock(
                DILexicalBlock {
                    scope: Box::new(lb.scope.duplicate()),
                    file: lb.file.duplicate(),
                    line: lb.line,
                    column: lb.column,
                },
            ),
        }
    }
}

impl Location {
    /// A copy.
    pub fn duplicate(&self) -> (r: Location)
        ensures
            r@ == self@,
        decreases *self,
    {
        match self {
            Location::Unknown => Location::Unknown,
            Location::FileLineCol { filename, line, column } => Location::FileLineCol {
                filename: filename.clone(),
                line: *line,
                column: *column,
            },
            Location::DebugInfo(d) => Location::DebugInfo(
                DebugInfoLoc {
                    filename: d.filename.clone(),
                    line: d.line,
                    column: d.column,
                    scope: d.scope.duplicate(),
                },
            ),
            Location::CallSite { callee, caller } => Location::CallSite {
                callee: Box::new(callee.duplicate()),
                caller: Box::new(caller.duplicate()),
            },
        }
    }
}

} // verus!
