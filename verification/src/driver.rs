//! Finding the CUDA driver and toolkit, and whether they are recent enough.
use vstd::prelude::*;
use crate::text::{chars_of, joined, number_text, parse_unsigned, same_text};
use crate::text;

verus! {

/// The oldest toolkit that has the tile assembler.
pub const MIN_TILE_CUDA_VERSION: u32 = 13020;

/// Why a library could not be used.
#[derive(Debug)]
pub enum DynLoadError {
    /// None of the candidates could be opened; the last one's error.
    LoadFailed { names: Vec<String>, source: String },
    /// The driver's major version is older than the one compiled against.
    RuntimeTooOld { compile_version: u32, runtime_version: u32 },
}

/// The system that the library is loaded on.
#[derive(Clone, Copy, Debug, PartialEq, Eq, Structural)]
pub enum TargetOs {
    Linux,
    MacOs,
    Windows,
    Other,
}

/// The driver's candidates on a system, in the order in which they are tried.
pub open spec fn driver_names(os: TargetOs) -> Seq<Seq<char>> {
    match os {
        TargetOs::Linux => seq![
            "libcuda.so.1"@,
            "/usr/lib/wsl/lib/libcuda.so.1"@,
            "libcuda.so"@,
            "/usr/lib/wsl/lib/libcuda.so"@,
            "/usr/lib/x86_64-linux-gnu/libcuda.so.1"@,
        ],
        TargetOs::MacOs => seq!["libcuda.dylib"@],
        TargetOs::Windows => seq!["nvcuda.dll"@],
        TargetOs::Other => seq!["libcuda.so"@],
    }
}

/// The random number library's candidates on a system, in the order in which they are
/// tried.
pub open spec fn curand_names(os: TargetOs) -> Seq<Seq<char>> {
    match os {
        TargetOs::Linux => seq!["libcurand.so.10"@, "libcurand.so"@],
        TargetOs::MacOs => seq!["libcurand.dylib"@],
        TargetOs::Windows => seq!["curand64_10.dll"@],
        TargetOs::Other => seq!["libcurand.so"@],
    }
}

/// The texts of some strings.
pub open spec fn texts(v: Seq<String>) -> Seq<Seq<char>> {
    Seq::new(v.len(), |i: int| v[i]@)
}

/// The driver's candidates on a system; there is at least one.
pub fn cuda_lib_names(os: TargetOs) -> (r: Vec<String>)
    ensures
        texts(r@) == driver_names(os),
        r@.len() > 0,
{
    let mut r: Vec<String> = Vec::new();
    match os {
        TargetOs::Linux => {
            r.push("libcuda.so.1".to_owned());
            r.push("/usr/lib/wsl/lib/libcuda.so.1".to_owned());
            r.push("libcuda.so".to_owned());
            r.push("/usr/lib/wsl/lib/libcuda.so".to_owned());
            r.push("/usr/lib/x86_64-linux-gnu/libcuda.so.1".to_owned());
        },
        TargetOs::MacOs => {
            r.push("libcuda.dylib".to_owned());
        },
        TargetOs::Windows => {
            r.push("nvcuda.dll".to_owned());
        },
        TargetOs::Other => {
            r.push("libcuda.so".to_owned());
        },
    }
    assert(texts(r@) =~= driver_names(os));
    r
}

/// The random number library's candidates on a system; there is at least one.
pub fn curand_lib_names(os: TargetOs) -> (r: Vec<String>)
    ensures
        texts(r@) == curand_names(os),
        r@.len() > 0,
{
    let mut r: Vec<String> = Vec::new();
    match os {
        TargetOs::Linux => {
            r.push("libcurand.so.10".to_owned());
            r.push("libcurand.so".to_owned());
        },
        TargetOs::MacOs => {
            r.push("libcurand.dylib".to_owned());
        },
        TargetOs::Windows => {
            r.push("curand64_10.dll".to_owned());
        },
        TargetOs::Other => {
            r.push("libcurand.so".to_owned());
        },
    }
    assert(texts(r@) =~= curand_names(os));
    r
}

/// Where the search for a library stands: how many candidates have failed, and
/// how the last one did.
pub struct Search {
    pub names: Vec<String>,
    pub failed: usize,
    pub last_error: Option<String>,
}

impl Search {
    /// The search makes sense: there are candidates, and an error for those
    /// that have failed.
    pub open spec fn wf(&self) -> bool {
        &&& self.names@.len() > 0
        &&& self.failed <= self.names@.len()
        &&& self.failed > 0 ==> self.last_error is Some
    }

    /// Start with the first candidate.
    pub fn new(names: Vec<String>) -> (s: Search)
        requires
            names@.len() > 0,
        ensures
            s.wf(),
            s.names == names,
            s.failed == 0,
    {
        Search { names, failed: 0, last_error: None }
    }

    /// The position of the next candidate to open, if one is left.
    pub fn candidate(&self) -> (r: Option<usize>)
        requires
            self.wf(),
        ensures
            r == (if self.failed < self.names@.len() {
                Some(self.failed)
            } else {
                None
            }),
    {
        if self.failed < self.names.len() {
            Some(self.failed)
        } else {
            None
        }
    }

    /// No candidate is left: the error names them all, with the last one's error.
    pub fn give_up(self) -> (e: DynLoadError)
        requires
            self.wf(),
            self.failed == self.names@.len(),
        ensures
            e == (DynLoadError::LoadFailed {
                names: self.names,
                source: self.last_error->Some_0,
            }),
    {
        DynLoadError::LoadFailed { names: self.names, source: self.last_error.unwrap() }
    }

    /// The candidate could not be opened.
    pub fn failed(&mut self, error: String)
        requires
            old(self).wf(),
            old(self).failed < old(self).names@.len(),
        ensures
            final(self).wf(),
            final(self).names == old(self).names,
            final(self).failed == old(self).failed + 1,
            final(self).last_error == Some(error),
    {
        if self.failed < self.names.len() {
            self.failed = self.failed + 1;
        }
        self.last_error = Some(error);
    }
}

/// Whether a driver serves what was compiled against a toolkit version: a newer
/// minor version is fine, an older major version is not. A driver that does not
/// tell its version is taken as it is.
pub fn verify_version(compile_version: u32, runtime_version: Option<u32>) -> (r: Result<
    (),
    DynLoadError,
>)
    ensures
        match runtime_version {
            Some(v) => if v / 1000 < compile_version / 1000 {
                r is Err && r->Err_0 == (DynLoadError::RuntimeTooOld {
                    compile_version,
                    runtime_version: v,
                })
            } else {
                r is Ok
            },
            None => r is Ok,
        },
{
    match runtime_version {
        Some(v) => {
            if v / 1000 < compile_version / 1000 {
                Err(DynLoadError::RuntimeTooOld { compile_version, runtime_version: v })
            } else {
                Ok(())
            }
        },
        None => Ok(()),
    }
}

/// Whether the driver was loaded.
pub fn is_cuda_driver_available<T>(driver: &Result<T, DynLoadError>) -> (b: bool)
    ensures
        b == (driver is Ok),
{
    driver.is_ok()
}

/// Why the driver was not loaded.
pub fn cuda_driver_load_error<T>(driver: &Result<T, DynLoadError>) -> (e: Option<&DynLoadError>)
    ensures
        match e {
            Some(x) => *driver == Err::<T, DynLoadError>(*x),
            None => driver is Ok,
        },
{
    match driver {
        Ok(_) => None,
        Err(e) => Some(e),
    }
}

/// Whether the random number library was loaded.
pub fn is_curand_available<T>(curand: &Result<T, DynLoadError>) -> (b: bool)
    ensures
        b == (curand is Ok),
{
    curand.is_ok()
}

/// Why the random number library was not loaded.
pub fn curand_load_error<T>(curand: &Result<T, DynLoadError>) -> (e: Option<&DynLoadError>)
    ensures
        match e {
            Some(x) => *curand == Err::<T, DynLoadError>(*x),
            None => curand is Ok,
        },
{
    match curand {
        Ok(_) => None,
        Err(e) => Some(e),
    }
}

/// A version in words: thousands are the major version, tens the minor one.
pub open spec fn version_words(v: u32) -> Seq<char> {
    text::decimal_text((v / 1000) as int) + "."@ + text::decimal_text(((v % 1000) / 10) as int)
}

/// A version in words.
pub fn version_text(v: u32) -> (r: String)
    ensures
        r@ == version_words(v),
{
    let mut s = number_text((v / 1000) as u64);
    s.append(".");
    s.append(number_text(((v % 1000) / 10) as u64).as_str());
    s
}

/// What is said of a driver that is too old.
pub fn too_old_text(compile_version: u32, runtime_version: u32) -> (r: String)
    ensures
        r@ == "CUDA driver too old: built against "@ + version_words(compile_version)
            + " but runtime is "@ + version_words(runtime_version),
{
    let mut s: String = "CUDA driver too old: built against ".to_owned();
    s.append(version_text(compile_version).as_str());
    s.append(" but runtime is ");
    s.append(version_text(runtime_version).as_str());
    s
}

// ---------------------------------------------------------------------------
// The toolkit's header
// ---------------------------------------------------------------------------

/// Where the next line break stands, from `from` on, or the end.
pub open spec fn line_end(s: Seq<char>, from: int) -> int
    decreases s.len() - from,
{
    if from >= s.len() {
        s.len() as int
    } else if s[from] == '\n' {
        from
    } else {
        line_end(s, from + 1)
    }
}

/// Where the next word starts in `from..to`, or `to`.
pub open spec fn word_start(s: Seq<char>, from: int, to: int) -> int
    decreases to - from,
{
    if from >= to {
        to
    } else if !text::is_space(s[from]) {
        from
    } else {
        word_start(s, from + 1, to)
    }
}

/// Where the word at `from` ends in `from..to`, or `to`.
pub open spec fn word_end(s: Seq<char>, from: int, to: int) -> int
    decreases to - from,
{
    if from >= to {
        to
    } else if text::is_space(s[from]) {
        from
    } else {
        word_end(s, from + 1, to)
    }
}

/// The version that the line `from..to` defines.
pub open spec fn version_in_line(s: Seq<char>, from: int, to: int) -> Option<int> {
    let a = word_start(s, from, to);
    let b = word_end(s, a, to);
    let c = word_start(s, b, to);
    let d = word_end(s, c, to);
    let e = word_start(s, d, to);
    let f = word_end(s, e, to);
    if s.subrange(a, b) == "#define"@ && s.subrange(c, d) == "CUDA_VERSION"@ && e < to {
        text::unsigned_below(s.subrange(e, f), 0x1_0000_0000)
    } else {
        None
    }
}

/// The version that the first line from `from` on defines that defines one.
pub open spec fn version_from(s: Seq<char>, from: int) -> Option<int>
    decreases s.len() - from,
{
    if from < 0 || from >= s.len() {
        None
    } else {
        let to = line_end(s, from);
        match version_in_line(s, from, to) {
            Some(v) => Some(v),
            None => if to < from || to >= s.len() {
                None
            } else {
                version_from(s, to + 1)
            },
        }
    }
}

proof fn lemma_line_end(s: Seq<char>, from: int)
    requires
        0 <= from <= s.len(),
    ensures
        from <= line_end(s, from) <= s.len(),
    decreases s.len() - from,
{
    if from < s.len() && s[from] != '\n' {
        lemma_line_end(s, from + 1);
    }
}

fn find_line_end(s: &Vec<char>, from: usize) -> (r: usize)
    requires
        from <= s@.len(),
    ensures
        r == line_end(s@, from as int),
        from <= r <= s@.len(),
{
    let mut i: usize = from;
    while i < s.len()
        invariant
            from <= i <= s@.len(),
            line_end(s@, from as int) == line_end(s@, i as int),
        decreases s@.len() - i,
    {
        if s[i] == '\n' {
            return i;
        }
        i = i + 1;
    }
    i
}

fn find_word_start(s: &Vec<char>, from: usize, to: usize) -> (r: usize)
    requires
        from <= to <= s@.len(),
    ensures
        r == word_start(s@, from as int, to as int),
        from <= r <= to,
{
    let mut i: usize = from;
    while i < to
        invariant
            from <= i <= to <= s@.len(),
            word_start(s@, from as int, to as int) == word_start(s@, i as int, to as int),
        decreases to - i,
    {
        if !text::space(s[i]) {
            return i;
        }
        i = i + 1;
    }
    i
}

fn find_word_end(s: &Vec<char>, from: usize, to: usize) -> (r: usize)
    requires
        from <= to <= s@.len(),
    ensures
        r == word_end(s@, from as int, to as int),
        from <= r <= to,
{
    let mut i: usize = from;
    while i < to
        invariant
            from <= i <= to <= s@.len(),
            word_end(s@, from as int, to as int) == word_end(s@, i as int, to as int),
        decreases to - i,
    {
        if text::space(s[i]) {
            return i;
        }
        i = i + 1;
    }
    i
}

fn line_version(header: &str, s: &Vec<char>, from: usize, to: usize) -> (r: Option<u32>)
    requires
        s@ == header@,
        from <= to <= s@.len(),
    ensures
        match version_in_line(s@, from as int, to as int) {
            Some(v) => r is Some && r->Some_0 == v,
            None => r is None,
        },
{
    let a: usize = find_word_start(s, from, to);
    let b: usize = find_word_end(s, a, to);
    let c: usize = find_word_start(s, b, to);
    let d: usize = find_word_end(s, c, to);
    let e: usize = find_word_start(s, d, to);
    let f: usize = find_word_end(s, e, to);
    if !same_text(header.substring_char(a, b), "#define") {
        return None;
    }
    if !same_text(header.substring_char(c, d), "CUDA_VERSION") {
        return None;
    }
    if e >= to {
        return None;
    }
    match parse_unsigned(header.substring_char(e, f)) {
        Some(v) => if v < 0x1_0000_0000 {
            Some(v as u32)
        } else {
            None
        },
        None => None,
    }
}

/// The toolkit version that a header defines.
pub fn header_version(header: &str) -> (r: Option<u32>)
    ensures
        match version_from(header@, 0) {
            Some(v) => r is Some && r->Some_0 == v,
            None => r is None,
        },
{
    let s = chars_of(header);
    let mut from: usize = 0;
    while from < s.len()
        invariant
            s@ == header@,
            from <= s@.len(),
            version_from(header@, 0) == version_from(header@, from as int),
        decreases s@.len() - from,
    {
        let to: usize = find_line_end(&s, from);
        match line_version(header, &s, from, to) {
            Some(v) => {
                return Some(v);
            },
            None => {},
        }
        if to >= s.len() {
            return None;
        }
        from = to + 1;
    }
    None
}

/// What is said at build time of a toolkit that is too old to run tile kernels;
/// nothing where the version is not known or recent enough.
pub fn toolkit_warning(toolkit: &str, version: Option<u32>) -> (r: Option<String>)
    ensures
        match version {
            Some(v) => if v < MIN_TILE_CUDA_VERSION {
                r is Some && r->Some_0@ == "cargo:warning=cutile-compiler: the toolkit at "@
                    + toolkit@ + " is CUDA "@ + version_words(v)
                    + "; cuTile requires CUDA 13.2+ at run time (tileiras ships with it). The shared CUDA host-side crates support 13.0+."@
            } else {
                r is None
            },
            None => r is None,
        },
{
    match version {
        Some(v) => {
            if v < MIN_TILE_CUDA_VERSION {
                let mut s = joined("cargo:warning=cutile-compiler: the toolkit at ", toolkit);
                s.append(" is CUDA ");
                s.append(version_text(v).as_str());
                s.append(
                    "; cuTile requires CUDA 13.2+ at run time (tileiras ships with it). The shared CUDA host-side crates support 13.0+.",
                );
                Some(s)
            } else {
                None
            }
        },
        None => None,
    }
}

/// The debug level to build with: the setting where there is one, else the
/// profile's. None where the setting or the profile's flag is not one of the
/// words that they may be.
pub open spec fn build_debug(setting: Option<Seq<char>>, profile: Option<Seq<char>>) -> Option<
    Seq<char>,
> {
    match setting {
        Some(v) => if v == "none"@ || v == "line"@ || v == "full"@ {
            Some(v)
        } else {
            None
        },
        None => match profile {
            Some(d) => if d == "true"@ {
                Some("full"@)
            } else if d == "false"@ {
                Some("none"@)
            } else {
                None
            },
            None => None,
        },
    }
}

/// The debug level to build with.
pub fn build_debug_info(setting: Option<&str>, profile: Option<&str>) -> (r: Option<String>)
    ensures
        match build_debug(
            match setting {
                Some(s) => Some(s@),
                None => None,
            },
            match profile {
                Some(s) => Some(s@),
                None => None,
            },
        ) {
            Some(v) => r is Some && r->Some_0@ == v,
            None => r is None,
        },
{
    match setting {
        Some(v) => {
            if same_text(v, "none") || same_text(v, "line") || same_text(v, "full") {
                Some(v.to_owned())
            } else {
                None
            }
        },
        None => match profile {
            Some(d) => {
                if same_text(d, "true") {
                    Some("full".to_owned())
                } else if same_text(d, "false") {
                    Some("none".to_owned())
                } else {
                    None
                }
            },
            None => None,
        },
    }
}

/// A driver of the same or a later major version is never refused.
pub proof fn lemma_minor_versions(compile_version: u32, runtime_version: u32)
    requires
        runtime_version >= compile_version - compile_version % 1000,
    ensures
        runtime_version / 1000 >= compile_version / 1000,
{
}

} // verus!
