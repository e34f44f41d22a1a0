//! Optimization hints of kernels: per-architecture entry hints and run-time
//! compile options.
use vstd::prelude::*;
use crate::frontend::syntax::{Expr, Lit};
use crate::text;

verus! {

/// A hint that can be set for an entry point.
#[derive(Clone, Copy, Debug, PartialEq, Eq, Structural)]
pub enum Hint {
    NumCtaInCga,
    Occupancy,
    MaxDivisibility,
    NumWorkerWarpsPerCta,
}

/// Why optimization hints were rejected.
#[derive(Debug, PartialEq, Eq)]
pub enum HintError {
    /// The hint was set before.
    AlreadySet(Hint),
    /// The value is not a literal.
    NotLiteral,
    /// The value is not an integer literal.
    NotInteger,
    /// The integer does not fit in 32 bits.
    BadInteger,
    /// An entry is not an assignment.
    NotAssignment,
    /// The left side of an assignment is not a path.
    KeyNotPath,
    /// The left side has not exactly one segment.
    KeySegments(usize),
    /// The hints are not a tuple.
    NotTuple,
    /// The key of the assignment at this place is not an architecture name.
    UnexpectedHint(usize),
    /// The hints of an architecture are not a tuple.
    ArchNotTuple,
    /// The hint with this key belongs on individual operations.
    PerOpHint(String),
    /// No hint has this key.
    UnknownKey(String),
    /// This architecture occurs twice.
    DuplicateArch(String),
}

/// The contents of such a reason.
#[verifier::ext_equal]
pub enum HintErrorV {
    AlreadySet(Hint),
    NotLiteral,
    NotInteger,
    BadInteger,
    NotAssignment,
    KeyNotPath,
    KeySegments(usize),
    NotTuple,
    UnexpectedHint(int),
    ArchNotTuple,
    PerOpHint(Seq<char>),
    UnknownKey(Seq<char>),
    DuplicateArch(Seq<char>),
}

impl View for HintError {
    type V = HintErrorV;

    open spec fn view(&self) -> HintErrorV {
        match self {
            HintError::AlreadySet(h) => HintErrorV::AlreadySet(*h),
            HintError::NotLiteral => HintErrorV::NotLiteral,
            HintError::NotInteger => HintErrorV::NotInteger,
            HintError::BadInteger => HintErrorV::BadInteger,
            HintError::NotAssignment => HintErrorV::NotAssignment,
            HintError::KeyNotPath => HintErrorV::KeyNotPath,
            HintError::KeySegments(n) => HintErrorV::KeySegments(*n),
            HintError::NotTuple => HintErrorV::NotTuple,
            HintError::UnexpectedHint(i) => HintErrorV::UnexpectedHint(*i as int),
            HintError::ArchNotTuple => HintErrorV::ArchNotTuple,
            HintError::PerOpHint(k) => HintErrorV::PerOpHint(k@),
            HintError::UnknownKey(k) => HintErrorV::UnknownKey(k@),
            HintError::DuplicateArch(k) => HintErrorV::DuplicateArch(k@),
        }
    }
}

/// The key of a hint.
pub open spec fn hint_key(h: Hint) -> Seq<char> {
    match h {
        Hint::NumCtaInCga => "num_cta_in_cga"@,
        Hint::Occupancy => "occupancy"@,
        Hint::MaxDivisibility => "max_divisibility"@,
        Hint::NumWorkerWarpsPerCta => "num_worker_warps_per_cta"@,
    }
}

/// What a refusal says. `detail` is the text of the assignment that was not expected,
/// or why an integer was not read.
pub open spec fn hint_words(e: HintErrorV, detail: Seq<char>) -> Seq<char> {
    match e {
        HintErrorV::AlreadySet(h) => hint_key(h) + " hint has already been set"@,
        HintErrorV::NotLiteral => "expected a literal value for optimization hint"@,
        HintErrorV::NotInteger => "expected an integer literal for optimization hint"@,
        HintErrorV::BadInteger => "Failed to parse int hint: "@ + detail,
        HintErrorV::NotAssignment => "expected an assignment expression in optimization hints"@,
        HintErrorV::KeyNotPath =>
            "Expected path expression on LHS of optimization hints assignment."@,
        HintErrorV::KeySegments(n) =>
            "Expected single-segment path in optimization hints key, got "@ + text::decimal_text(
            n as int,
        ) + " segments."@,
        HintErrorV::NotTuple => "expected a tuple expression for optimization hints"@,
        HintErrorV::UnexpectedHint(_) => "Unexpected optimization hint "@ + detail + "."@,
        HintErrorV::ArchNotTuple =>
            "expected a tuple expression for architecture-specific optimization hints"@,
        HintErrorV::PerOpHint(k) => "'"@ + k
            + "' is a per-op hint and cannot be set at the entry level. Use it as a parameter on individual load/store operations instead."@,
        HintErrorV::UnknownKey(k) => "Unexpected optimization hint key '"@ + k + "'."@,
        HintErrorV::DuplicateArch(k) => "Duplicate optimization hint key '"@ + k + "'."@,
    }
}

impl Hint {
    /// The key of the hint.
    pub fn key(self) -> (r: &'static str)
        ensures
            r@ == hint_key(self),
    {
        match self {
            Hint::NumCtaInCga => "num_cta_in_cga",
            Hint::Occupancy => "occupancy",
            Hint::MaxDivisibility => "max_divisibility",
            Hint::NumWorkerWarpsPerCta => "num_worker_warps_per_cta",
        }
    }
}

/// A text between two others.
fn between(a: &str, b: &str, c: &str) -> (r: String)
    ensures
        r@ == a@ + b@ + c@,
{
    let mut s = text::joined(a, b);
    s.append(c);
    s
}

impl HintError {
    /// What the refusal says. `detail` is the text of the assignment that was not
    /// expected, or why an integer was not read.
    pub fn message(&self, detail: &str) -> (r: String)
        ensures
            r@ == hint_words(self@, detail@),
    {
        match self {
            HintError::AlreadySet(h) => text::joined(h.key(), " hint has already been set"),
            HintError::NotLiteral => "expected a literal value for optimization hint".to_owned(),
            HintError::NotInteger => "expected an integer literal for optimization hint".to_owned(),
            HintError::BadInteger => text::joined("Failed to parse int hint: ", detail),
            HintError::NotAssignment =>
                "expected an assignment expression in optimization hints".to_owned(),
            HintError::KeyNotPath =>
                "Expected path expression on LHS of optimization hints assignment.".to_owned(),
            HintError::KeySegments(n) => {
                let t = text::number_text(*n as u64);
                between(
                    "Expected single-segment path in optimization hints key, got ",
                    t.as_str(),
                    " segments.",
                )
            },
            HintError::NotTuple => "expected a tuple expression for optimization hints".to_owned(),
            HintError::UnexpectedHint(_) => between("Unexpected optimization hint ", detail, "."),
            HintError::ArchNotTuple =>
                "expected a tuple expression for architecture-specific optimization hints".to_owned(),
            HintError::PerOpHint(k) => between(
                "'",
                k.as_str(),
                "' is a per-op hint and cannot be set at the entry level. Use it as a parameter on individual load/store operations instead.",
            ),
            HintError::UnknownKey(k) => between(
                "Unexpected optimization hint key '",
                k.as_str(),
                "'.",
            ),
            HintError::DuplicateArch(k) => between(
                "Duplicate optimization hint key '",
                k.as_str(),
                "'.",
            ),
        }
    }
}

/// Optimization hints for one architecture. `allow_tma` and `latency` are
/// hints of single operations and cannot be set here.
pub struct SMHints {
    pub gpu_name: String,
    pub num_cta_in_cga: Option<i32>,
    pub occupancy: Option<i32>,
    pub max_divisibility: Option<i32>,
    pub num_worker_warps_per_cta: Option<i32>,
}

/// The hint values of one architecture.
pub struct HintValues {
    pub num_cta_in_cga: Option<i32>,
    pub occupancy: Option<i32>,
    pub max_divisibility: Option<i32>,
    pub num_worker_warps_per_cta: Option<i32>,
}

/// No hint set.
pub open spec fn no_hints() -> HintValues {
    HintValues {
        num_cta_in_cga: None,
        occupancy: None,
        max_divisibility: None,
        num_worker_warps_per_cta: None,
    }
}

/// The value of one hint.
pub open spec fn hint_of(v: HintValues, h: Hint) -> Option<i32> {
    match h {
        Hint::NumCtaInCga => v.num_cta_in_cga,
        Hint::Occupancy => v.occupancy,
        Hint::MaxDivisibility => v.max_divisibility,
        Hint::NumWorkerWarpsPerCta => v.num_worker_warps_per_cta,
    }
}

/// `v` with one hint replaced.
pub open spec fn with_hint(v: HintValues, h: Hint, x: Option<i32>) -> HintValues {
    match h {
        Hint::NumCtaInCga => HintValues { num_cta_in_cga: x, ..v },
        Hint::Occupancy => HintValues { occupancy: x, ..v },
        Hint::MaxDivisibility => HintValues { max_divisibility: x, ..v },
        Hint::NumWorkerWarpsPerCta => HintValues { num_worker_warps_per_cta: x, ..v },
    }
}

/// The integer that a hint expression stands for.
pub open spec fn int_hint(e: Expr) -> Result<i32, HintErrorV> {
    match e {
        Expr::Lit(Lit::Int(digits)) => match text::decimal_below(digits@, 0x8000_0000) {
            Some(v) => Ok(v as i32),
            None => Err(HintErrorV::BadInteger),
        },
        Expr::Lit(_) => Err(HintErrorV::NotInteger),
        _ => Err(HintErrorV::NotLiteral),
    }
}

/// What setting a hint that may be set only once gives.
pub open spec fn set_once(v: HintValues, h: Hint, e: Expr) -> Result<HintValues, HintErrorV> {
    if hint_of(v, h) is Some {
        Err(HintErrorV::AlreadySet(h))
    } else {
        match int_hint(e) {
            Ok(x) => Ok(with_hint(v, h, Some(x))),
            Err(err) => Err(err),
        }
    }
}

/// The integer that a hint expression stands for.
fn get_int_hint(expr: &Expr) -> (r: Result<i32, HintError>)
    ensures
        match int_hint(*expr) {
            Ok(v) => r == Ok::<i32, HintError>(v),
            Err(err) => r is Err && r->Err_0@ == err,
        },
{
    match expr {
        Expr::Lit(lit) => match lit {
            Lit::Int(digits) => match text::parse_decimal(digits.as_str(), 0x8000_0000) {
                Some(v) => Ok(v as i32),
                None => Err(HintError::BadInteger),
            },
            _ => Err(HintError::NotInteger),
        },
        _ => Err(HintError::NotLiteral),
    }
}

/// How a setter of a hint changes `before` into `after` and what it returns.
pub open spec fn sets_hint(
    r: Result<(), HintError>,
    before: SMHints,
    after: SMHints,
    h: Hint,
    e: Expr,
) -> bool {
    &&& after.gpu_name == before.gpu_name
    &&& match set_once(before.values(), h, e) {
        Ok(v) => r is Ok && after.values() == v,
        Err(err) => r is Err && r->Err_0@ == err && after.values() == before.values(),
    }
}

impl SMHints {
    /// The hint values.
    pub open spec fn values(self) -> HintValues {
        HintValues {
            num_cta_in_cga: self.num_cta_in_cga,
            occupancy: self.occupancy,
            max_divisibility: self.max_divisibility,
            num_worker_warps_per_cta: self.num_worker_warps_per_cta,
        }
    }

    /// No hints for the architecture `gpu_name`.
    pub fn new(gpu_name: String) -> (r: SMHints)
        ensures
            r.gpu_name == gpu_name,
            r.values() == no_hints(),
    {
        SMHints {
            gpu_name,
            num_cta_in_cga: None,
            occupancy: None,
            max_divisibility: None,
            num_worker_warps_per_cta: None,
        }
    }

    pub fn set_num_cta_in_cga(&mut self, hint: &Expr) -> (r: Result<(), HintError>)
        ensures
            sets_hint(r, *old(self), *final(self), Hint::NumCtaInCga, *hint),
    {
        if self.num_cta_in_cga.is_some() {
            return Err(HintError::AlreadySet(Hint::NumCtaInCga));
        }
        let v: i32 = get_int_hint(hint)?;
        self.num_cta_in_cga = Some(v);
        Ok(())
    }

    pub fn set_occupancy(&mut self, hint: &Expr) -> (r: Result<(), HintError>)
        ensures
            sets_hint(r, *old(self), *final(self), Hint::Occupancy, *hint),
    {
        if self.occupancy.is_some() {
            return Err(HintError::AlreadySet(Hint::Occupancy));
        }
        let v: i32 = get_int_hint(hint)?;
        self.occupancy = Some(v);
        Ok(())
    }

    pub fn set_max_divisibility(&mut self, hint: &Expr) -> (r: Result<(), HintError>)
        ensures
            sets_hint(r, *old(self), *final(self), Hint::MaxDivisibility, *hint),
    {
        if self.max_divisibility.is_some() {
            return Err(HintError::AlreadySet(Hint::MaxDivisibility));
        }
        let v: i32 = get_int_hint(hint)?;
        self.max_divisibility = Some(v);
        Ok(())
    }

    pub fn set_num_worker_warps_per_cta(&mut self, hint: &Expr) -> (r: Result<(), HintError>)
        ensures
            sets_hint(r, *old(self), *final(self), Hint::NumWorkerWarpsPerCta, *hint),
    {
        if self.num_worker_warps_per_cta.is_some() {
            return Err(HintError::AlreadySet(Hint::NumWorkerWarpsPerCta));
        }
        let v: i32 = get_int_hint(hint)?;
        self.num_worker_warps_per_cta = Some(v);
        Ok(())
    }
}

/// Device debug information to ask of the assembler.
#[derive(Clone, Copy, Debug, PartialEq, Eq, Structural)]
pub enum DebugInfoLevel {
    /// No device debug information.
    Off,
    /// Source line tables for profiling optimized kernels.
    Line,
    /// Source locations and inline frames for debugging unoptimized kernels.
    Full,
}

/// Run-time options of kernel compilation. Different values give different
/// compilations.
#[derive(Clone, Copy, Debug, PartialEq, Eq, Hash, Structural)]
pub struct CompileOptions {
    pub occupancy: Option<i32>,
    pub num_cta_in_cga: Option<i32>,
    pub max_divisibility: Option<i32>,
    pub num_worker_warps_per_cta: Option<i32>,
    /// Optimization level of the assembler. Unset means 3, or 0 when
    /// `device_debug` is set.
    pub opt_level: Option<u8>,
    /// Compile for debugging.
    pub device_debug: bool,
    /// Emit line-number information.
    pub lineinfo: bool,
    /// Instrument memory accesses for the memory checker.
    pub sanitize_memcheck: bool,
}

/// The options with nothing set and the debug information of `level`.
pub open spec fn default_options(level: DebugInfoLevel) -> CompileOptions {
    CompileOptions {
        occupancy: None,
        num_cta_in_cga: None,
        max_divisibility: None,
        num_worker_warps_per_cta: None,
        opt_level: None,
        device_debug: level == DebugInfoLevel::Full,
        lineinfo: level == DebugInfoLevel::Line,
        sanitize_memcheck: false,
    }
}

impl CompileOptions {
    /// Nothing set, with the debug information that the build asked for.
    pub fn new(build_debug_info: DebugInfoLevel) -> (r: CompileOptions)
        ensures
            r == default_options(build_debug_info),
    {
        CompileOptions {
            occupancy: None,
            num_cta_in_cga: None,
            max_divisibility: None,
            num_worker_warps_per_cta: None,
            opt_level: None,
            device_debug: build_debug_info == DebugInfoLevel::Full,
            lineinfo: build_debug_info == DebugInfoLevel::Line,
            sanitize_memcheck: false,
        }
    }

    /// Select exactly one debug-info mode, replacing both debug flags and
    /// keeping everything else.
    pub fn debug_info(self, level: DebugInfoLevel) -> (r: CompileOptions)
        ensures
            r == (CompileOptions {
                device_debug: level == DebugInfoLevel::Full,
                lineinfo: level == DebugInfoLevel::Line,
                ..self
            }),
            level == DebugInfoLevel::Full && self.opt_level is None
                ==> r.spec_effective_opt_level() == 0,
            level != DebugInfoLevel::Full && self.opt_level is None
                ==> r.spec_effective_opt_level() == 3,
    {
        CompileOptions {
            device_debug: level == DebugInfoLevel::Full,
            lineinfo: level == DebugInfoLevel::Line,
            ..self
        }
    }

    /// The optimization level that takes effect.
    pub open spec fn spec_effective_opt_level(self) -> u8 {
        match self.opt_level {
            Some(l) => l,
            None => if self.device_debug { 0 } else { 3 },
        }
    }

    /// The optimization level that takes effect.
    pub fn effective_opt_level(self) -> (r: u8)
        ensures
            r == self.spec_effective_opt_level(),
    {
        match self.opt_level {
            Some(l) => l,
            None => if self.device_debug { 0 } else { 3 },
        }
    }

    pub fn occupancy(self, occupancy: i32) -> (r: CompileOptions)
        ensures
            r == (CompileOptions { occupancy: Some(occupancy), ..self }),
    {
        CompileOptions { occupancy: Some(occupancy), ..self }
    }

    pub fn num_cta_in_cga(self, num_cta_in_cga: i32) -> (r: CompileOptions)
        ensures
            r == (CompileOptions { num_cta_in_cga: Some(num_cta_in_cga), ..self }),
    {
        CompileOptions { num_cta_in_cga: Some(num_cta_in_cga), ..self }
    }

    pub fn max_divisibility(self, max_divisibility: i32) -> (r: CompileOptions)
        ensures
            r == (CompileOptions { max_divisibility: Some(max_divisibility), ..self }),
    {
        CompileOptions { max_divisibility: Some(max_divisibility), ..self }
    }

    pub fn num_worker_warps_per_cta(self, num_worker_warps_per_cta: i32) -> (r: CompileOptions)
        ensures
            r == (CompileOptions { num_worker_warps_per_cta: Some(num_worker_warps_per_cta), ..self }),
    {
        CompileOptions { num_worker_warps_per_cta: Some(num_worker_warps_per_cta), ..self }
    }

    pub fn opt_level(self, opt_level: u8) -> (r: CompileOptions)
        ensures
            r == (CompileOptions { opt_level: Some(opt_level), ..self }),
    {
        CompileOptions { opt_level: Some(opt_level), ..self }
    }

    pub fn device_debug(self, device_debug: bool) -> (r: CompileOptions)
        ensures
            r == (CompileOptions { device_debug, ..self }),
    {
        CompileOptions { device_debug, ..self }
    }

    pub fn lineinfo(self, lineinfo: bool) -> (r: CompileOptions)
        ensures
            r == (CompileOptions { lineinfo, ..self }),
    {
        CompileOptions { lineinfo, ..self }
    }

    pub fn sanitize_memcheck(self, sanitize_memcheck: bool) -> (r: CompileOptions)
        ensures
            r == (CompileOptions { sanitize_memcheck, ..self }),
    {
        CompileOptions { sanitize_memcheck, ..self }
    }
}

/// Hints of a kernel, by architecture name. No name occurs twice.
pub struct OptimizationHints {
    pub target_gpu_name: Option<String>,
    pub tile_as_hints: Vec<SMHints>,
}

/// Hint values by architecture name.
pub open spec fn hints_map(s: Seq<SMHints>) -> Map<Seq<char>, HintValues>
    decreases s.len(),
{
    if s.len() == 0 {
        Map::empty()
    } else {
        hints_map(s.drop_last()).insert(s.last().gpu_name@, s.last().values())
    }
}

/// No architecture name occurs twice.
pub open spec fn distinct_archs(s: Seq<SMHints>) -> bool {
    forall|i: int, j: int|
        0 <= i < j < s.len() ==> (#[trigger] s[i]).gpu_name@ != (#[trigger] s[j]).gpu_name@
}

proof fn lemma_hints_map(s: Seq<SMHints>)
    requires
        distinct_archs(s),
    ensures
        forall|k: Seq<char>|
            #![trigger hints_map(s).dom().contains(k)]
            hints_map(s).dom().contains(k) <==> exists|i: int|
                0 <= i < s.len() && (#[trigger] s[i]).gpu_name@ == k,
        forall|i: int|
            0 <= i < s.len() ==> hints_map(s).dom().contains((#[trigger] s[i]).gpu_name@)
                && hints_map(s)[s[i].gpu_name@] == s[i].values(),
    decreases s.len(),
{
    if s.len() > 0 {
        let t = s.drop_last();
        lemma_hints_map(t);
        assert forall|k: Seq<char>|
            #![trigger hints_map(s).dom().contains(k)]
            hints_map(s).dom().contains(k) implies exists|i: int|
            0 <= i < s.len() && (#[trigger] s[i]).gpu_name@ == k by {
            if k != s.last().gpu_name@ {
                let i = choose|i: int| 0 <= i < t.len() && (#[trigger] t[i]).gpu_name@ == k;
                assert(s[i].gpu_name@ == k);
            } else {
                assert(s[s.len() - 1].gpu_name@ == k);
            }
        }
        assert forall|i: int| 0 <= i < s.len() implies hints_map(s).dom().contains(
            (#[trigger] s[i]).gpu_name@,
        ) && hints_map(s)[s[i].gpu_name@] == s[i].values() by {
            if i < s.len() - 1 {
                assert(t[i] == s[i]);
                assert(s[i].gpu_name@ != s[s.len() - 1].gpu_name@);
            }
        }
    }
}

/// The key and value of an assignment whose left side is a single name.
pub open spec fn key_value(e: Expr) -> Result<(Seq<char>, Expr), HintErrorV> {
    match e {
        Expr::Assign(l, r) => match *l {
            Expr::Path(p) => if p.segments@.len() != 1 {
                Err(HintErrorV::KeySegments(p.segments@.len() as usize))
            } else {
                Ok((p.segments@[0].ident@, *r))
            },
            _ => Err(HintErrorV::KeyNotPath),
        },
        _ => Err(HintErrorV::NotAssignment),
    }
}

/// The entry hint with the given name.
pub open spec fn hint_named(k: Seq<char>) -> Result<Hint, HintErrorV> {
    if k == "num_cta_in_cga"@ {
        Ok(Hint::NumCtaInCga)
    } else if k == "occupancy"@ {
        Ok(Hint::Occupancy)
    } else if k == "max_divisibility"@ {
        Ok(Hint::MaxDivisibility)
    } else if k == "num_worker_warps_per_cta"@ {
        Ok(Hint::NumWorkerWarpsPerCta)
    } else if k == "allow_tma"@ || k == "latency"@ {
        Err(HintErrorV::PerOpHint(k))
    } else {
        Err(HintErrorV::UnknownKey(k))
    }
}

/// The hints of one architecture, from the first `n` assignments.
pub open spec fn arch_hints(elems: Seq<Expr>, n: int) -> Result<HintValues, HintErrorV>
    decreases n,
{
    if n <= 0 {
        Ok(no_hints())
    } else {
        match arch_hints(elems, n - 1) {
            Ok(v) => match key_value(elems[n - 1]) {
                Ok((k, e)) => match hint_named(k) {
                    Ok(h) => set_once(v, h, e),
                    Err(err) => Err(err),
                },
                Err(err) => Err(err),
            },
            Err(err) => Err(err),
        }
    }
}

/// The hints of all architectures, from the first `n` assignments.
pub open spec fn all_hints(elems: Seq<Expr>, n: int) -> Result<
    Map<Seq<char>, HintValues>,
    HintErrorV,
>
    decreases n,
{
    if n <= 0 {
        Ok(Map::empty())
    } else {
        match all_hints(elems, n - 1) {
            Ok(m) => match key_value(elems[n - 1]) {
                Ok((k, e)) => if !text::has_prefix(k, "sm_"@) {
                    Err(HintErrorV::UnexpectedHint(n - 1))
                } else {
                    match e {
                        Expr::Tuple(inner) => match arch_hints(inner@, inner@.len() as int) {
                            Ok(v) => if m.dom().contains(k) {
                                Err(HintErrorV::DuplicateArch(k))
                            } else {
                                Ok(m.insert(k, v))
                            },
                            Err(err) => Err(err),
                        },
                        _ => Err(HintErrorV::ArchNotTuple),
                    }
                },
                Err(err) => Err(err),
            },
            Err(err) => Err(err),
        }
    }
}

/// The hints written by an expression: a tuple of `sm_* = (hint = value, ..)`.
pub open spec fn hints_of(e: Expr) -> Result<Map<Seq<char>, HintValues>, HintErrorV> {
    match e {
        Expr::Tuple(elems) => all_hints(elems@, elems@.len() as int),
        _ => Err(HintErrorV::NotTuple),
    }
}

proof fn lemma_arch_hints_error(elems: Seq<Expr>, k: int, n: int)
    requires
        0 <= k <= n,
        arch_hints(elems, k) is Err,
    ensures
        arch_hints(elems, n) == arch_hints(elems, k),
    decreases n,
{
    if n > k {
        lemma_arch_hints_error(elems, k, n - 1);
    }
}

proof fn lemma_all_hints_error(elems: Seq<Expr>, k: int, n: int)
    requires
        0 <= k <= n,
        all_hints(elems, k) is Err,
    ensures
        all_hints(elems, n) == all_hints(elems, k),
    decreases n,
{
    if n > k {
        lemma_all_hints_error(elems, k, n - 1);
    }
}

/// The key and value of an assignment whose left side is a single name.
fn parse_key_value(expr: &Expr) -> (r: Result<(&String, &Expr), HintError>)
    ensures
        match key_value(*expr) {
            Ok((k, e)) => r is Ok && r->Ok_0.0@ == k && *r->Ok_0.1 == e,
            Err(err) => r is Err && r->Err_0@ == err,
        },
{
    match expr {
        Expr::Assign(left, right) => match &**left {
            Expr::Path(path) => {
                if path.segments.len() != 1 {
                    return Err(HintError::KeySegments(path.segments.len()));
                }
                Ok((&path.segments[0].ident, &**right))
            },
            _ => Err(HintError::KeyNotPath),
        },
        _ => Err(HintError::NotAssignment),
    }
}

/// The entry hint with the given name.
fn named_hint(key: &str) -> (r: Result<Hint, HintError>)
    ensures
        match hint_named(key@) {
            Ok(h) => r == Ok::<Hint, HintError>(h),
            Err(err) => r is Err && r->Err_0@ == err,
        },
{
    if text::same_text(key, "num_cta_in_cga") {
        Ok(Hint::NumCtaInCga)
    } else if text::same_text(key, "occupancy") {
        Ok(Hint::Occupancy)
    } else if text::same_text(key, "max_divisibility") {
        Ok(Hint::MaxDivisibility)
    } else if text::same_text(key, "num_worker_warps_per_cta") {
        Ok(Hint::NumWorkerWarpsPerCta)
    } else if text::same_text(key, "allow_tma") || text::same_text(key, "latency") {
        Err(HintError::PerOpHint(key.to_owned()))
    } else {
        Err(HintError::UnknownKey(key.to_owned()))
    }
}

/// The hints of one architecture.
fn parse_arch(arch: &String, elems: &Vec<Expr>) -> (r: Result<SMHints, HintError>)
    ensures
        match arch_hints(elems@, elems@.len() as int) {
            Ok(v) => r is Ok && r->Ok_0.values() == v && r->Ok_0.gpu_name@ == arch@,
            Err(err) => r is Err && r->Err_0@ == err,
        },
{
    let mut sm: SMHints = SMHints::new(arch.clone());
    let mut i: usize = 0;
    while i < elems.len()
        invariant
            i <= elems.len(),
            arch_hints(elems@, i as int) == Ok::<HintValues, HintErrorV>(sm.values()),
            sm.gpu_name@ == arch@,
        decreases elems.len() - i,
    {
        proof {
            if arch_hints(elems@, i + 1) is Err {
                lemma_arch_hints_error(elems@, i + 1, elems@.len() as int);
            }
        }
        let (key, value) = parse_key_value(&elems[i])?;
        let hint: Hint = named_hint(key.as_str())?;
        match hint {
            Hint::NumCtaInCga => sm.set_num_cta_in_cga(value)?,
            Hint::Occupancy => sm.set_occupancy(value)?,
            Hint::MaxDivisibility => sm.set_max_divisibility(value)?,
            Hint::NumWorkerWarpsPerCta => sm.set_num_worker_warps_per_cta(value)?,
        }
        i = i + 1;
    }
    Ok(sm)
}

impl OptimizationHints {
    /// Hint values by architecture name.
    pub open spec fn by_arch(self) -> Map<Seq<char>, HintValues> {
        hints_map(self.tile_as_hints@)
    }

    /// No architecture occurs twice.
    pub open spec fn wf(self) -> bool {
        distinct_archs(self.tile_as_hints@)
    }

    /// No hints and no target.
    pub fn empty() -> (r: OptimizationHints)
        ensures
            r.wf(),
            r.target_gpu_name is None,
            r.by_arch() == Map::<Seq<char>, HintValues>::empty(),
    {
        OptimizationHints { target_gpu_name: None, tile_as_hints: Vec::new() }
    }

    /// The position of an architecture.
    fn position(&self, key: &str) -> (r: Option<usize>)
        requires
            self.wf(),
        ensures
            match r {
                Some(i) => i < self.tile_as_hints@.len() && self.tile_as_hints@[i as int].gpu_name@
                    == key@ && self.by_arch().dom().contains(key@),
                None => !self.by_arch().dom().contains(key@),
            },
    {
        proof {
            lemma_hints_map(self.tile_as_hints@);
        }
        let mut i: usize = 0;
        while i < self.tile_as_hints.len()
            invariant
                self.wf(),
                i <= self.tile_as_hints@.len(),
                forall|j: int|
                    0 <= j < i ==> (#[trigger] self.tile_as_hints@[j]).gpu_name@ != key@,
            decreases self.tile_as_hints.len() - i,
        {
            if text::same_text(self.tile_as_hints[i].gpu_name.as_str(), key) {
                proof {
                    lemma_hints_map(self.tile_as_hints@);
                }
                return Some(i);
            }
            i = i + 1;
        }
        proof {
            lemma_hints_map(self.tile_as_hints@);
        }
        None
    }

    /// Read hints off an expression.
    pub fn parse(expr: &Expr, target_gpu_name: String) -> (r: Result<OptimizationHints, HintError>)
        ensures
            match hints_of(*expr) {
                Ok(m) => r is Ok && r->Ok_0.wf() && r->Ok_0.by_arch() == m
                    && r->Ok_0.target_gpu_name == Some(target_gpu_name),
                Err(err) => r is Err && r->Err_0@ == err,
            },
    {
        let elems: &Vec<Expr> = match expr {
            Expr::Tuple(elems) => elems,
            _ => return Err(HintError::NotTuple),
        };
        let mut result: OptimizationHints = OptimizationHints::empty();
        result.target_gpu_name = Some(target_gpu_name);
        let mut i: usize = 0;
        while i < elems.len()
            invariant
                i <= elems.len(),
                result.wf(),
                result.target_gpu_name == Some(target_gpu_name),
                all_hints(elems@, i as int) == Ok::<Map<Seq<char>, HintValues>, HintErrorV>(
                    result.by_arch(),
                ),
                *expr == Expr::Tuple(*elems),
            decreases elems.len() - i,
        {
            proof {
                if all_hints(elems@, i + 1) is Err {
                    lemma_all_hints_error(elems@, i + 1, elems@.len() as int);
                }
            }
            let (key, value) = parse_key_value(&elems[i])?;
            if !text::begins_with(key.as_str(), "sm_") {
                return Err(HintError::UnexpectedHint(i));
            }
            let inner: &Vec<Expr> = match value {
                Expr::Tuple(inner) => inner,
                _ => return Err(HintError::ArchNotTuple),
            };
            let sm: SMHints = parse_arch(key, inner)?;
            if result.position(key.as_str()).is_some() {
                return Err(HintError::DuplicateArch(key.clone()));
            }
            let ghost before = result.tile_as_hints@;
            proof {
                lemma_hints_map(before);
            }
            result.tile_as_hints.push(sm);
            proof {
                let s = result.tile_as_hints@;
                assert(s.drop_last() =~= before);
                assert forall|a: int, b: int| 0 <= a < b < s.len() implies (#[trigger] s[a]).gpu_name@
                    != (#[trigger] s[b]).gpu_name@ by {
                    if b == s.len() - 1 {
                        assert(s[a] == before[a]);
                    } else {
                        assert(s[a] == before[a] && s[b] == before[b]);
                    }
                }
            }
            i = i + 1;
        }
        Ok(result)
    }

    /// The hints of an architecture.
    pub fn get_sm_hints(&self, key: &str) -> (r: Option<&SMHints>)
        requires
            self.wf(),
        ensures
            match r {
                Some(h) => self.by_arch().dom().contains(key@) && h.values() == self.by_arch()[key@]
                    && h.gpu_name@ == key@,
                None => !self.by_arch().dom().contains(key@),
            },
    {
        match self.position(key) {
            Some(i) => {
                proof {
                    lemma_hints_map(self.tile_as_hints@);
                }
                Some(&self.tile_as_hints[i])
            },
            None => None,
        }
    }

    /// The architecture that compile options apply to.
    pub open spec fn target_arch(self) -> Seq<char> {
        match self.target_gpu_name {
            Some(name) => name@,
            None => "sm_100"@,
        }
    }

    /// Let run-time compile options override the hints of the target.
    pub fn apply_compile_options(&mut self, options: &CompileOptions)
        requires
            old(self).wf(),
        ensures
            final(self).wf(),
            final(self).target_gpu_name == old(self).target_gpu_name,
            final(self).by_arch() == applied(
                old(self).by_arch(),
                old(self).target_arch(),
                *options,
            ),
    {
        if options.occupancy.is_none() && options.num_cta_in_cga.is_none()
            && options.max_divisibility.is_none() && options.num_worker_warps_per_cta.is_none() {
            return;
        }
        let target: String = match &self.target_gpu_name {
            Some(name) => name.clone(),
            None => "sm_100".to_owned(),
        };
        let ghost m0 = self.by_arch();
        let ghost s0 = self.tile_as_hints@;
        proof {
            lemma_hints_map(s0);
        }
        let i: usize = match self.position(target.as_str()) {
            Some(i) => i,
            None => {
                let fresh: SMHints = SMHints::new(target.clone());
                self.tile_as_hints.push(fresh);
                self.tile_as_hints.len() - 1
            },
        };
        let ghost s1 = self.tile_as_hints@;
        proof {
            assert(distinct_archs(s1)) by {
                assert forall|a: int, b: int| 0 <= a < b < s1.len() implies (
                #[trigger] s1[a]).gpu_name@ != (#[trigger] s1[b]).gpu_name@ by {
                    if b < s0.len() {
                        assert(s1[a] == s0[a] && s1[b] == s0[b]);
                    } else {
                        assert(s1[a] == s0[a]);
                    }
                }
            }
            assert(s1[i as int].values() == base_values(m0, target@));
        }
        let mut sm: SMHints = SMHints {
            gpu_name: target,
            num_cta_in_cga: self.tile_as_hints[i].num_cta_in_cga,
            occupancy: self.tile_as_hints[i].occupancy,
            max_divisibility: self.tile_as_hints[i].max_divisibility,
            num_worker_warps_per_cta: self.tile_as_hints[i].num_worker_warps_per_cta,
        };
        if options.occupancy.is_some() {
            sm.occupancy = options.occupancy;
        }
        if options.num_cta_in_cga.is_some() {
            sm.num_cta_in_cga = options.num_cta_in_cga;
        }
        if options.max_divisibility.is_some() {
            sm.max_divisibility = options.max_divisibility;
        }
        if options.num_worker_warps_per_cta.is_some() {
            sm.num_worker_warps_per_cta = options.num_worker_warps_per_cta;
        }
        let ghost updated = sm;
        self.tile_as_hints.set(i, sm);
        proof {
            let s2 = self.tile_as_hints@;
            assert(s2 =~= s1.update(i as int, updated));
            assert(distinct_archs(s2)) by {
                assert forall|a: int, b: int| 0 <= a < b < s2.len() implies (
                #[trigger] s2[a]).gpu_name@ != (#[trigger] s2[b]).gpu_name@ by {
                    assert(s2[a].gpu_name@ == s1[a].gpu_name@);
                    assert(s2[b].gpu_name@ == s1[b].gpu_name@);
                    assert(s1[a].gpu_name@ != s1[b].gpu_name@);
                }
            }
            lemma_hints_map(s1);
            lemma_hints_map(s2);
            let want = applied(m0, old(self).target_arch(), *options);
            assert forall|k: Seq<char>| #[trigger]
                hints_map(s2).dom().contains(k) <==> want.dom().contains(k) by {
                if hints_map(s2).dom().contains(k) {
                    let a = choose|a: int| 0 <= a < s2.len() && (#[trigger] s2[a]).gpu_name@ == k;
                    if a != i && a < s0.len() {
                        assert(s0[a].gpu_name@ == k);
                    }
                }
                if want.dom().contains(k) && k != updated.gpu_name@ {
                    let a = choose|a: int| 0 <= a < s0.len() && (#[trigger] s0[a]).gpu_name@ == k;
                    assert(s2[a].gpu_name@ == k);
                }
                if k == updated.gpu_name@ {
                    assert(s2[i as int].gpu_name@ == k);
                }
            }
            assert forall|k: Seq<char>| #[trigger] want.dom().contains(k) implies hints_map(s2)[k]
                == want[k] by {
                if k != updated.gpu_name@ {
                    let a = choose|a: int| 0 <= a < s0.len() && (#[trigger] s0[a]).gpu_name@ == k;
                    assert(s2[a] == s0[a]);
                } else {
                    assert(s2[i as int].gpu_name@ == k);
                }
            }
            assert(hints_map(s2) =~= want);
        }
    }
}

/// The hints of an architecture, none where it has no entry.
pub open spec fn base_values(m: Map<Seq<char>, HintValues>, arch: Seq<char>) -> HintValues {
    if m.dom().contains(arch) {
        m[arch]
    } else {
        no_hints()
    }
}

/// `v`, overridden by the options that are set.
pub open spec fn overridden(v: HintValues, o: CompileOptions) -> HintValues {
    HintValues {
        num_cta_in_cga: if o.num_cta_in_cga is Some { o.num_cta_in_cga } else { v.num_cta_in_cga },
        occupancy: if o.occupancy is Some { o.occupancy } else { v.occupancy },
        max_divisibility: if o.max_divisibility is Some {
            o.max_divisibility
        } else {
            v.max_divisibility
        },
        num_worker_warps_per_cta: if o.num_worker_warps_per_cta is Some {
            o.num_worker_warps_per_cta
        } else {
            v.num_worker_warps_per_cta
        },
    }
}

/// `m` after options were applied to `arch`: unchanged where no option is set.
pub open spec fn applied(
    m: Map<Seq<char>, HintValues>,
    arch: Seq<char>,
    o: CompileOptions,
) -> Map<Seq<char>, HintValues> {
    if o.occupancy is None && o.num_cta_in_cga is None && o.max_divisibility is None
        && o.num_worker_warps_per_cta is None {
        m
    } else {
        m.insert(arch, overridden(base_values(m, arch), o))
    }
}

/// Applying the same options twice changes nothing more.
pub proof fn lemma_apply_idempotent(
    m: Map<Seq<char>, HintValues>,
    arch: Seq<char>,
    o: CompileOptions,
)
    ensures
        applied(applied(m, arch, o), arch, o) == applied(m, arch, o),
{
    assert(applied(applied(m, arch, o), arch, o) =~= applied(m, arch, o));
}

/// Options never touch the hints of another architecture.
pub proof fn lemma_apply_keeps_others(
    m: Map<Seq<char>, HintValues>,
    arch: Seq<char>,
    o: CompileOptions,
    other: Seq<char>,
)
    requires
        other != arch,
    ensures
        applied(m, arch, o).dom().contains(other) == m.dom().contains(other),
        m.dom().contains(other) ==> applied(m, arch, o)[other] == m[other],
{
}

} // verus!
