//! Numbers that are fixed by the bytecode format.
use vstd::prelude::*;

verus! {

/// Byte used to fill alignment gaps.
pub const ALIGNMENT_BYTE: u8 = 0xCB;

/// Number of section ids, the end marker included.
pub const NUM_SECTIONS: u8 = 7;

/// The eight magic bytes that open every bytecode file.
pub open spec fn magic() -> Seq<u8> {
    seq![0x7Fu8, 0x54u8, 0x69u8, 0x6Cu8, 0x65u8, 0x49u8, 0x52u8, 0x00u8]
}

/// The eight magic bytes, as an array.
pub const MAGIC: [u8; 8] = [0x7F, 0x54, 0x69, 0x6C, 0x65, 0x49, 0x52, 0x00];

/// A bytecode version triple. Versions are ordered by major, minor, tag.
#[derive(Clone, Copy, Debug, PartialEq, Eq, Structural)]
pub struct BytecodeVersion {
    pub major: u8,
    pub minor: u8,
    pub tag: u16,
}

/// The rank of a version in the version order.
pub open spec fn version_rank(v: BytecodeVersion) -> int {
    (v.major as int * 256 + v.minor as int) * 65536 + v.tag as int
}

impl BytecodeVersion {
    /// Version 13.2.
    pub fn v13_2() -> (r: BytecodeVersion)
        ensures
            r == (BytecodeVersion { major: 13, minor: 2, tag: 0 }),
    {
        BytecodeVersion { major: 13, minor: 2, tag: 0 }
    }

    /// Version 13.3, the newest that the reader understands.
    pub fn v13_3() -> (r: BytecodeVersion)
        ensures
            r == (BytecodeVersion { major: 13, minor: 3, tag: 0 }),
    {
        BytecodeVersion { major: 13, minor: 3, tag: 0 }
    }

    /// The oldest version that is read and written.
    pub open spec fn spec_min_supported() -> BytecodeVersion {
        BytecodeVersion { major: 13, minor: 1, tag: 0 }
    }

    /// The oldest version that is read and written.
    pub fn min_supported() -> (r: BytecodeVersion)
        ensures
            r == BytecodeVersion::spec_min_supported(),
    {
        BytecodeVersion { major: 13, minor: 1, tag: 0 }
    }

    /// The version written unless another is asked for.
    pub open spec fn spec_current() -> BytecodeVersion {
        BytecodeVersion { major: 13, minor: 3, tag: 0 }
    }

    /// The version written unless another is asked for.
    pub fn current() -> (r: BytecodeVersion)
        ensures
            r == BytecodeVersion::spec_current(),
    {
        BytecodeVersion { major: 13, minor: 3, tag: 0 }
    }

    /// Whether this version comes before `other`.
    pub fn before(self, other: BytecodeVersion) -> (r: bool)
        ensures
            r == (version_rank(self) < version_rank(other)),
    {
        self.major < other.major || (self.major == other.major && (self.minor < other.minor || (
        self.minor == other.minor && self.tag < other.tag)))
    }

    /// Whether this version has the 13.3 encodings.
    pub open spec fn spec_v13_3(self) -> bool {
        version_rank(self) >= version_rank(BytecodeVersion { major: 13, minor: 3, tag: 0 })
    }

    /// Whether this version has the 13.3 encodings.
    pub fn is_v13_3(self) -> (r: bool)
        ensures
            r == self.spec_v13_3(),
    {
        !self.before(BytecodeVersion { major: 13, minor: 3, tag: 0 })
    }
}

/// Sections of a bytecode file.
#[derive(Clone, Copy, Debug, PartialEq, Eq, Structural)]
pub enum Section {
    EndOfBytecode,
    Str,
    Func,
    Debug,
    Constant,
    Type,
    Global,
}

impl Section {
    /// The section's id byte.
    pub open spec fn spec_id(self) -> u8 {
        match self {
            Section::EndOfBytecode => 0,
            Section::Str => 1,
            Section::Func => 2,
            Section::Debug => 3,
            Section::Constant => 4,
            Section::Type => 5,
            Section::Global => 6,
        }
    }

    /// The section's id byte.
    pub fn id(self) -> (r: u8)
        ensures
            r == self.spec_id(),
            r < NUM_SECTIONS,
    {
        match self {
            Section::EndOfBytecode => 0,
            Section::Str => 1,
            Section::Func => 2,
            Section::Debug => 3,
            Section::Constant => 4,
            Section::Type => 5,
            Section::Global => 6,
        }
    }
}

/// Flag bit of a function record: the function is a kernel entry.
pub const FLAG_KERNEL: u8 = 0x02;

/// Flag bit of a function record: optimization hints follow.
pub const FLAG_HINTS: u8 = 0x04;

} // verus!
