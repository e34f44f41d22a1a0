//! Compiling a kernel's entry function.
//!
//! A kernel is admitted step by step: it has to exist, carry the entry
//! attribute, be unsafe where its accesses are unchecked, have sound hints and
//! a name of its own. What comes between, such as the analysis of its
//! preconditions, is done elsewhere; the outcome is handed in.
use vstd::prelude::*;
use crate::bytecode::assemble;
use crate::bytecode::opcode::Opcode;
use crate::bytecode::wire;
use crate::frontend::frames::InlineStack;
use crate::frontend::hints::{CompileOptions, HintError, HintErrorV, HintValues, OptimizationHints};
use crate::frontend::hints;
use crate::frontend::items::{const_item_bool_value, const_item_i32_value};
use crate::frontend::items;
use crate::frontend::meta::{get_attribute, has_text, is_ident};
use crate::frontend::meta;
use crate::frontend::obligations::{CheckHoistStats, KernelParams, LaunchCheck};
use crate::frontend::syntax::{Expr, FnArg, ItemConst, ItemFn, Lit, Meta, Pat};
use crate::ir::attr::{AttrV, Attribute};
use crate::ir::attr;
use crate::ir::builder::{append_op, build_single_block_region, OpBuilder};
use crate::ir::builder;
use crate::ir::fmt::{format_ints, format_signed};
use crate::ir::fmt;
use crate::ir::location::{Location, LocationV};
use crate::ir::module::{BlockId, Module, ModuleV, OpId, OperationV, RegionId, Value};
use crate::ir::types::{duplicate_types, FuncType, ScalarType, Type, TypeV};
use crate::ir::types;
use crate::text::{joined, number_text, same_text};
use crate::text;

verus! {

/// Why a kernel is not compiled. `E` is the error of what is done elsewhere.
pub enum KernelError<E> {
    UndefinedModule(String),
    UndefinedFunction(String),
    /// The entry attribute is missing.
    MissingEntry(String),
    /// The analysis of the preconditions failed.
    Analysis(E),
    /// Unchecked accesses need an unsafe kernel.
    NotUnsafe,
    Hints(HintError),
    /// The generic arguments do not fit.
    Generics(E),
    /// The entry point could not be generated.
    EntryPoint(E),
    /// The entry point's name belongs to another function.
    NameTaken(String),
}

/// The contents of such an error.
#[verifier::ext_equal]
pub enum KernelErrorV<E> {
    UndefinedModule(Seq<char>),
    UndefinedFunction(Seq<char>),
    MissingEntry(Seq<char>),
    Analysis(E),
    NotUnsafe,
    Hints(HintErrorV),
    Generics(E),
    EntryPoint(E),
    NameTaken(Seq<char>),
}

impl<E> View for KernelError<E> {
    type V = KernelErrorV<E>;

    open spec fn view(&self) -> KernelErrorV<E> {
        match self {
            KernelError::UndefinedModule(s) => KernelErrorV::UndefinedModule(s@),
            KernelError::UndefinedFunction(s) => KernelErrorV::UndefinedFunction(s@),
            KernelError::MissingEntry(s) => KernelErrorV::MissingEntry(s@),
            KernelError::Analysis(e) => KernelErrorV::Analysis(*e),
            KernelError::NotUnsafe => KernelErrorV::NotUnsafe,
            KernelError::Hints(e) => KernelErrorV::Hints(e@),
            KernelError::Generics(e) => KernelErrorV::Generics(*e),
            KernelError::EntryPoint(e) => KernelErrorV::EntryPoint(*e),
            KernelError::NameTaken(s) => KernelErrorV::NameTaken(s@),
        }
    }
}

/// What an error of the library's own says.
pub open spec fn error_words<E>(e: KernelErrorV<E>) -> Option<Seq<char>> {
    match e {
        KernelErrorV::UndefinedModule(s) => Some("Undefined module: "@ + s),
        KernelErrorV::UndefinedFunction(s) => Some("Undefined function: "@ + s),
        KernelErrorV::MissingEntry(s) => Some(
            "function `"@ + s + "` is missing a required `#[entry(...)]` attribute"@,
        ),
        KernelErrorV::NotUnsafe => Some(
            "kernel must be declared `unsafe` when `unchecked_accesses` is enabled"@,
        ),
        KernelErrorV::NameTaken(s) => Some("Entry point namespace collision: "@ + s),
        _ => None,
    }
}

impl<E> KernelError<E> {
    /// What an error of the library's own says.
    pub fn message(&self) -> (r: Option<String>)
        ensures
            match error_words(self@) {
                Some(s) => r is Some && r->Some_0@ == s,
                None => r is None,
            },
    {
        match self {
            KernelError::UndefinedModule(s) => Some(joined("Undefined module: ", s.as_str())),
            KernelError::UndefinedFunction(s) => Some(joined("Undefined function: ", s.as_str())),
            KernelError::MissingEntry(s) => {
                let mut t = joined("function `", s.as_str());
                t.append("` is missing a required `#[entry(...)]` attribute");
                Some(t)
            },
            KernelError::NotUnsafe => Some(
                "kernel must be declared `unsafe` when `unchecked_accesses` is enabled".to_owned(),
            ),
            KernelError::NameTaken(s) => Some(
                joined("Entry point namespace collision: ", s.as_str()),
            ),
            _ => None,
        }
    }
}

/// The arguments of a function's entry attribute; the bare form has none.
pub open spec fn entry_arguments(attrs: Seq<Meta>) -> Option<Seq<Meta>> {
    match meta::first_named(attrs, "entry"@, true, 0) {
        Some(i) => meta::arguments(attrs[i]),
        None => None,
    }
}

/// The entry attribute, where there is one, has arguments that can be read. Where the
/// analysis of the preconditions has succeeded, those that admitting the kernel looks up
/// are a truth value for the flag, and the hints behind plain names only.
pub open spec fn entry_readable(attrs: Seq<Meta>, analysed: bool) -> bool {
    match meta::first_named(attrs, "entry"@, true, 0) {
        Some(i) => match meta::arguments(attrs[i]) {
            Some(args) => analysed ==> {
                &&& meta::plain_before(args, "optimization_hints"@, 0)
                &&& flag_readable(args, "unchecked_accesses"@)
            },
            None => false,
        },
        None => true,
    }
}

/// A flag stands bare, has a truth value, or is absent.
pub open spec fn flag_readable(args: Seq<Meta>, name: Seq<char>) -> bool {
    !meta::bare(args, name) ==> meta::plain_before(args, name, 0) && (meta::value_of(
        args,
        name,
        0,
    ) matches Some(e) ==> (e matches Expr::Lit(Lit::Bool(_))))
}

/// What an entry attribute asks for.
pub struct EntryAttrs<'a> {
    pub unchecked_accesses: bool,
    pub deny_in_kernel_checks: bool,
    pub optimization_hints: Option<&'a Expr>,
}

fn is_flag_set(args: &Vec<Meta>, name: &str) -> (r: bool)
    ensures
        r == meta::flag(args@, name@),
{
    let mut i: usize = 0;
    while i < args.len()
        invariant
            i <= args@.len(),
            forall|j: int|
                0 <= j < i ==> !((#[trigger] args@[j]) matches Meta::Path(p) && meta::path_ident(p)
                    == Some(name@)),
        decreases args@.len() - i,
    {
        match &args[i] {
            Meta::Path(p) => {
                if is_ident(p, name) {
                    assert(meta::bare(args@, name@));
                    return true;
                }
            },
            _ => {},
        }
        i = i + 1;
    }
    assert(!meta::bare(args@, name@));
    match find_value(args, name) {
        Some(e) => match e {
            Expr::Lit(lit) => match lit {
                Lit::Bool(b) => *b,
                _ => false,
            },
            _ => false,
        },
        None => false,
    }
}

fn find_value<'a>(args: &'a Vec<Meta>, name: &str) -> (r: Option<&'a Expr>)
    ensures
        match r {
            Some(e) => meta::value_of(args@, name@, 0) == Some(*e),
            None => meta::value_of(args@, name@, 0) is None,
        },
{
    let mut i: usize = 0;
    while i < args.len()
        invariant
            i <= args@.len(),
            meta::value_of(args@, name@, 0) == meta::value_of(args@, name@, i as int),
        decreases args@.len() - i,
    {
        match &args[i] {
            Meta::NameValue(p, e) => {
                if is_ident(p, name) {
                    return Some(e);
                }
            },
            _ => {},
        }
        i = i + 1;
    }
    None
}

/// A kernel's flags and hints as the entry attribute gives them.
pub open spec fn reads_entry(a: EntryAttrs, args: Seq<Meta>) -> bool {
    &&& a.unchecked_accesses == meta::flag(args, "unchecked_accesses"@)
    &&& a.deny_in_kernel_checks == meta::flag(args, "deny_in_kernel_checks"@)
    &&& match a.optimization_hints {
        Some(e) => meta::value_of(args, "optimization_hints"@, 0) == Some(*e),
        None => meta::value_of(args, "optimization_hints"@, 0) is None,
    }
}

proof fn lemma_found(attrs: Seq<Meta>, from: int)
    requires
        0 <= from,
    ensures
        meta::first_named(attrs, "entry"@, true, from) matches Some(i) ==> from <= i < attrs.len()
            && !(attrs[i] is NameValue),
    decreases attrs.len() - from,
{
    if from < attrs.len() {
        lemma_found(attrs, from + 1);
    }
}

/// What the entry attribute asks for, if the function has one whose arguments can be
/// read. A flag with a value other than `true` is not set.
pub fn entry_attrs(item: &ItemFn) -> (r: Option<EntryAttrs<'_>>)
    ensures
        match entry_arguments(item.attrs@) {
            Some(args) => r is Some && reads_entry(r->Some_0, args),
            None => r is None,
        },
{
    proof {
        lemma_found(item.attrs@, 0);
        reveal_strlit("unchecked_accesses");
        reveal_strlit("deny_in_kernel_checks");
        reveal_strlit("optimization_hints");
    }
    match get_attribute("entry", &item.attrs, true) {
        None => None,
        Some(i) => match &item.attrs[i] {
            Meta::List(_, args) => match args {
                Some(args) => Some(
                    EntryAttrs {
                        unchecked_accesses: is_flag_set(args, "unchecked_accesses"),
                        deny_in_kernel_checks: is_flag_set(args, "deny_in_kernel_checks"),
                        optimization_hints: find_value(args, "optimization_hints"),
                    },
                ),
                None => None,
            },
            Meta::Path(_) => Some(
                EntryAttrs {
                    unchecked_accesses: false,
                    deny_in_kernel_checks: false,
                    optimization_hints: None,
                },
            ),
            Meta::NameValue(_, _) => None,
        },
    }
}

/// Whether and why a kernel is refused, step by step.
pub open spec fn refusal<E>(
    module_known: bool,
    module_name: Seq<char>,
    function: Option<ItemFn>,
    function_name: Seq<char>,
    analysis: Result<(), E>,
    generics: Result<(), E>,
    entry_point: Result<(), E>,
    entry_name: Seq<char>,
    entry_name_taken: bool,
) -> Option<KernelErrorV<E>> {
    if !module_known {
        Some(KernelErrorV::UndefinedModule(module_name))
    } else {
        match function {
            None => Some(KernelErrorV::UndefinedFunction(function_name)),
            Some(f) => match entry_arguments(f.attrs@) {
                None => Some(KernelErrorV::MissingEntry(function_name)),
                Some(args) => match analysis {
                    Err(e) => Some(KernelErrorV::Analysis(e)),
                    Ok(()) => if meta::flag(args, "unchecked_accesses"@) && !f.sig.is_unsafe {
                        Some(KernelErrorV::NotUnsafe)
                    } else {
                        match hints_error(args) {
                            Some(e) => Some(KernelErrorV::Hints(e)),
                            None => match generics {
                                Err(e) => Some(KernelErrorV::Generics(e)),
                                Ok(()) => match entry_point {
                                    Err(e) => Some(KernelErrorV::EntryPoint(e)),
                                    Ok(()) => if entry_name_taken {
                                        Some(KernelErrorV::NameTaken(entry_name))
                                    } else {
                                        None
                                    },
                                },
                            },
                        }
                    },
                },
            },
        }
    }
}

/// What is wrong with the hints of an entry attribute.
pub open spec fn hints_error(args: Seq<Meta>) -> Option<HintErrorV> {
    match meta::value_of(args, "optimization_hints"@, 0) {
        Some(e) => match hints::hints_of(e) {
            Ok(_) => None,
            Err(x) => Some(x),
        },
        None => None,
    }
}

/// The hints of an entry attribute, by architecture.
pub open spec fn entry_hints(args: Seq<Meta>) -> Map<Seq<char>, HintValues> {
    match meta::value_of(args, "optimization_hints"@, 0) {
        Some(e) => match hints::hints_of(e) {
            Ok(m) => m,
            Err(_) => Map::empty(),
        },
        None => Map::empty(),
    }
}

/// Which check optimizations a compilation uses.
#[derive(Clone, Copy, Debug, PartialEq, Eq, Structural)]
pub struct CheckOptimizations {
    pub hoist_to_preheaders: bool,
    pub relocate_to_launch: bool,
}

/// The name of a parameter, where it is a plain one.
pub open spec fn param_name(a: FnArg) -> Option<Seq<char>> {
    match a {
        FnArg::Typed(Pat::Ident(n), _) => Some(n@),
        _ => None,
    }
}

/// The names of parameters.
pub open spec fn name_views(s: Seq<Option<String>>) -> Seq<Option<Seq<char>>> {
    Seq::new(
        s.len(),
        |i: int|
            match s[i] {
                Some(n) => Some(n@),
                None => None,
            },
    )
}

fn param_names(inputs: &Vec<FnArg>) -> (r: Vec<Option<String>>)
    ensures
        name_views(r@) == Seq::new(inputs@.len(), |i: int| param_name(inputs@[i])),
{
    let ghost want = Seq::new(inputs@.len(), |i: int| param_name(inputs@[i]));
    let mut out: Vec<Option<String>> = Vec::new();
    let mut i: usize = 0;
    assert(name_views(out@) =~= want.take(0));
    while i < inputs.len()
        invariant
            i <= inputs@.len(),
            want == Seq::new(inputs@.len(), |i: int| param_name(inputs@[i])),
            name_views(out@) == want.take(i as int),
        decreases inputs@.len() - i,
    {
        let ghost before = out@;
        let n: Option<String> = match &inputs[i] {
            FnArg::Typed(p, _) => match p {
                Pat::Ident(n) => Some(n.clone()),
                _ => None,
            },
            FnArg::Receiver => None,
        };
        out.push(n);
        proof {
            let got = param_name(inputs@[i as int]);
            assert(name_views(out@) =~= name_views(before).push(got));
            assert(want.take(i + 1) =~= want.take(i as int).push(want[i as int]));
            assert(want[i as int] == param_name(inputs@[i as int]));
        }
        i = i + 1;
    }
    assert(want.take(i as int) =~= want);
    out
}

/// What is known of a kernel while it is compiled.
pub struct CUDATileFunctionCompiler {
    pub module_name: String,
    pub function_name: String,
    pub gpu_name: String,
    pub const_grid: Option<(u32, u32, u32)>,
    pub optimization_hints: OptimizationHints,
    pub deny_in_kernel_checks: bool,
    pub check_opts: CheckOptimizations,
    pub params: KernelParams,
    pub launch_checks: Vec<LaunchCheck>,
    pub stack: InlineStack,
    pub check_stats: CheckHoistStats,
}

impl CUDATileFunctionCompiler {
    /// Admit a kernel. `function` is the function with the kernel's public name,
    /// `analysis`, `generics` and `entry_point` are the outcomes of analysing its
    /// preconditions, of instantiating its generic parameters and of generating
    /// its entry point, and `entry_name_taken` says whether a function with the
    /// entry point's name exists. Compile options override the hints of the
    /// target; device debugging keeps checks where they are.
    pub fn new<E>(
        module_known: bool,
        module_name: &str,
        function: Option<&ItemFn>,
        function_name: &str,
        analysis: Result<(), E>,
        generics: Result<(), E>,
        entry_point: Result<(), E>,
        entry_name: &str,
        entry_name_taken: bool,
        is_mutable: Vec<bool>,
        shapes: Vec<Option<Vec<i32>>>,
        const_grid: Option<(u32, u32, u32)>,
        gpu_name: String,
        check_opts: CheckOptimizations,
        options: &CompileOptions,
    ) -> (r: Result<CUDATileFunctionCompiler, KernelError<E>>)
        requires
            module_known && function is Some ==> entry_readable(
                function->Some_0.attrs@,
                analysis is Ok,
            ),
        ensures
            match refusal(
                module_known,
                module_name@,
                match function {
                    Some(f) => Some(*f),
                    None => None,
                },
                function_name@,
                analysis,
                generics,
                entry_point,
                entry_name@,
                entry_name_taken,
            ) {
                Some(e) => r is Err && r->Err_0@ == e,
                None => {
                    let f = *function->Some_0;
                    let args = entry_arguments(f.attrs@)->Some_0;
                    &&& r is Ok
                    &&& r->Ok_0.module_name@ == module_name@
                    &&& r->Ok_0.function_name@ == function_name@
                    &&& r->Ok_0.gpu_name == gpu_name
                    &&& r->Ok_0.const_grid == const_grid
                    &&& r->Ok_0.optimization_hints.wf()
                    &&& r->Ok_0.optimization_hints.target_gpu_name is Some
                    &&& r->Ok_0.optimization_hints.target_gpu_name->Some_0@ == gpu_name@
                    &&& r->Ok_0.optimization_hints.by_arch() == hints::applied(
                        entry_hints(args),
                        gpu_name@,
                        *options,
                    )
                    &&& r->Ok_0.deny_in_kernel_checks == meta::flag(args, "deny_in_kernel_checks"@)
                    &&& r->Ok_0.check_opts.hoist_to_preheaders == (check_opts.hoist_to_preheaders
                        && !options.device_debug)
                    &&& r->Ok_0.check_opts.relocate_to_launch == check_opts.relocate_to_launch
                    &&& name_views(r->Ok_0.params.names@) == Seq::new(
                        f.sig.inputs@.len(),
                        |i: int| param_name(f.sig.inputs@[i]),
                    )
                    &&& r->Ok_0.params.is_mutable == is_mutable
                    &&& r->Ok_0.params.shapes == shapes
                    &&& r->Ok_0.launch_checks@.len() == 0
                    &&& r->Ok_0.stack.frames@.len() == 0
                    &&& r->Ok_0.stack.module_name@ == module_name@
                    &&& r->Ok_0.stack.modules@.len() == 1
                    &&& r->Ok_0.stack.modules@[0]@ == module_name@
                    &&& r->Ok_0.check_stats == (CheckHoistStats {
                        discharged: 0,
                        hoisted: 0,
                        in_place: 0,
                    })
                },
            },
    {
        if !module_known {
            return Err(KernelError::UndefinedModule(module_name.to_owned()));
        }
        let f: &ItemFn = match function {
            Some(f) => f,
            None => {
                return Err(KernelError::UndefinedFunction(function_name.to_owned()));
            },
        };
        let attrs = match entry_attrs(f) {
            Some(a) => a,
            None => {
                return Err(KernelError::MissingEntry(function_name.to_owned()));
            },
        };
        match analysis {
            Err(e) => {
                return Err(KernelError::Analysis(e));
            },
            Ok(()) => {},
        }
        if attrs.unchecked_accesses && !f.sig.is_unsafe {
            return Err(KernelError::NotUnsafe);
        }
        let mut optimization_hints = match attrs.optimization_hints {
            Some(e) => match OptimizationHints::parse(e, gpu_name.clone()) {
                Ok(h) => h,
                Err(x) => {
                    return Err(KernelError::Hints(x));
                },
            },
            None => {
                let mut h = OptimizationHints::empty();
                h.target_gpu_name = Some(gpu_name.clone());
                h
            },
        };
        optimization_hints.apply_compile_options(options);
        match generics {
            Err(e) => {
                return Err(KernelError::Generics(e));
            },
            Ok(()) => {},
        }
        match entry_point {
            Err(e) => {
                return Err(KernelError::EntryPoint(e));
            },
            Ok(()) => {},
        }
        if entry_name_taken {
            return Err(KernelError::NameTaken(entry_name.to_owned()));
        }
        let mut opts = check_opts;
        if options.device_debug {
            opts.hoist_to_preheaders = false;
        }
        let names = param_names(&f.sig.inputs);
        let stack = InlineStack::new(module_name);
        Ok(
            CUDATileFunctionCompiler {
                module_name: module_name.to_owned(),
                function_name: function_name.to_owned(),
                gpu_name,
                const_grid,
                optimization_hints,
                deny_in_kernel_checks: attrs.deny_in_kernel_checks,
                check_opts: opts,
                params: KernelParams { names, is_mutable, shapes },
                launch_checks: Vec::new(),
                stack,
                check_stats: CheckHoistStats { discharged: 0, hoisted: 0, in_place: 0 },
            },
        )
    }

    /// The largest divisibility that scalar arguments may be assumed to have,
    /// by the hints of the target.
    pub fn scalar_max_divisibility(&self) -> (r: Option<i32>)
        requires
            self.optimization_hints.wf(),
        ensures
            r == (match self.optimization_hints.target_gpu_name {
                Some(t) => if self.optimization_hints.by_arch().dom().contains(t@) {
                    self.optimization_hints.by_arch()[t@].max_divisibility
                } else {
                    None
                },
                None => None,
            }),
    {
        match &self.optimization_hints.target_gpu_name {
            Some(t) => match self.optimization_hints.get_sm_hints(t.as_str()) {
                Some(h) => h.max_divisibility,
                None => None,
            },
            None => None,
        }
    }

    /// The target.
    pub fn gpu_name(&self) -> (r: &String)
        ensures
            *r == self.gpu_name,
    {
        &self.gpu_name
    }
}

// ---------------------------------------------------------------------------
// The entry operation
// ---------------------------------------------------------------------------

/// The operation of an entry function.
pub open spec fn entry_op(
    fn_name: Seq<char>,
    di_name: Seq<char>,
    inputs: Seq<TypeV>,
    region: RegionId,
    hints: Option<AttrV>,
    location: LocationV,
) -> OperationV {
    let base = seq![
        ("sym_name"@, AttrV::Str(fn_name)),
        ("di_name"@, AttrV::Str(di_name)),
        ("function_type"@, AttrV::Type(TypeV::Func(inputs, seq![]))),
    ];
    OperationV {
        opcode: Opcode::Entry,
        operands: seq![],
        result_types: seq![],
        attributes: match hints {
            Some(h) => base.push(("optimization_hints"@, h)),
            None => base,
        },
        regions: seq![region],
        location,
    }
}

/// The contents of hints, where there are any.
pub open spec fn hint_view(h: Option<Attribute>) -> Option<AttrV> {
    match h {
        Some(a) => Some(a@),
        None => None,
    }
}

/// Start an entry function: a region with one block that has the parameters.
pub fn start_entry_function(module: &mut Module, arg_types: &Vec<Type>) -> (r: (
    RegionId,
    BlockId,
    Vec<Value>,
))
    ensures
        r.0 == RegionId(old(module)@.regions.len() as u32),
        r.1 == BlockId(old(module)@.blocks.len() as u32),
        r.2@ == assemble::fresh(old(module)@, arg_types@.len()),
        final(module)@ == builder::with_region(old(module)@, types::types_view(arg_types@)),
{
    build_single_block_region(module, arg_types)
}

/// A parameter inside the entry function.
pub struct Binding {
    pub name: String,
    pub value: Value,
    pub mutable: bool,
}

/// The parameters' names for the block's arguments, as far as both go.
pub fn bind_parameters(names: &Vec<String>, args: &Vec<Value>, mutable: &Vec<bool>) -> (r: Vec<
    Binding,
>)
    requires
        names@.len() <= mutable@.len(),
    ensures
        r@.len() == (if names@.len() < args@.len() {
            names@.len()
        } else {
            args@.len()
        }),
        forall|i: int|
            0 <= i < r@.len() ==> {
                &&& (#[trigger] r@[i]).name@ == names@[i]@
                &&& r@[i].value == args@[i]
                &&& r@[i].mutable == mutable@[i]
            },
{
    let mut out: Vec<Binding> = Vec::new();
    let mut i: usize = 0;
    while i < names.len() && i < args.len()
        invariant
            i <= names@.len() <= mutable@.len(),
            i <= args@.len(),
            out@.len() == i,
            forall|j: int|
                0 <= j < i ==> {
                    &&& (#[trigger] out@[j]).name@ == names@[j]@
                    &&& out@[j].value == args@[j]
                    &&& out@[j].mutable == mutable@[j]
                },
        decreases names@.len() - i,
    {
        out.push(Binding { name: names[i].clone(), value: args[i], mutable: mutable[i] });
        i = i + 1;
    }
    out
}

/// Finish an entry function: its operation, and its place among the module's
/// functions. An entry function returns nothing; where its body gave a value,
/// nothing is added.
pub fn finish_entry_function(
    module: &mut Module,
    fn_name: &str,
    di_name: &str,
    arg_types: &Vec<Type>,
    region: RegionId,
    returns_value: bool,
    hints: Option<Attribute>,
    location: Location,
) -> (r: Option<OpId>)
    ensures
        if returns_value {
            r is None && final(module)@ == old(module)@
        } else {
            let op = entry_op(
                fn_name@,
                di_name@,
                types::types_view(arg_types@),
                region,
                hint_view(hints),
                location@,
            );
            let m = builder::with_op(old(module)@, op);
            let id = OpId(old(module)@.ops.len() as u32);
            r == Some(id) && final(module)@ == (ModuleV { functions: m.functions.push(id), ..m })
        },
{
    if returns_value {
        return None;
    }
    let inputs = duplicate_types(arg_types);
    let ghost tv = types::types_view(arg_types@);
    let results: Vec<Type> = Vec::new();
    assert(types::types_view(results@) =~= seq![]);
    let ty = Type::Func(FuncType { inputs, results });
    assert(ty@ == TypeV::Func(tv, seq![]));
    let ghost hv = hint_view(hints);
    let b = OpBuilder::new(Opcode::Entry, location).attr(
        "sym_name",
        Attribute::String(fn_name.to_owned()),
    ).attr("di_name", Attribute::String(di_name.to_owned())).attr(
        "function_type",
        Attribute::Type(ty),
    ).region(region);
    assert(b@ =~= entry_op(fn_name@, di_name@, tv, region, None, location@));
    let b = match hints {
        Some(h) => b.attr("optimization_hints", h),
        None => b,
    };
    assert(b@ =~= entry_op(fn_name@, di_name@, tv, region, hv, location@));
    let (id, _) = b.build(module);
    module.push_function(id);
    Some(id)
}

// ---------------------------------------------------------------------------
// Constants
// ---------------------------------------------------------------------------

/// The bytes of an integer constant of a scalar type: all ones or zeros for a
/// truth value, the low bits for the others. The binary floating point types of
/// 16 bits and more are not encoded here.
pub open spec fn constant_data(scalar: ScalarType, v: int) -> Option<Seq<u8>> {
    match scalar {
        ScalarType::I1 => Some(
            if v != 0 {
                seq![0xFFu8]
            } else {
                seq![0u8]
            },
        ),
        ScalarType::I4 | ScalarType::F4E2M1FN => Some(seq![(v % 16) as u8]),
        ScalarType::I8 | ScalarType::F8E4M3FN | ScalarType::F8E5M2 | ScalarType::F8E8M0FNU => Some(
            wire::le_bytes(v, 1),
        ),
        ScalarType::I16 => Some(wire::le_bytes(v, 2)),
        ScalarType::I32 | ScalarType::TF32 => Some(wire::le_bytes(v, 4)),
        ScalarType::I64 => Some(wire::le_bytes(v, 8)),
        ScalarType::F16 | ScalarType::BF16 | ScalarType::F32 | ScalarType::F64 => None,
    }
}

/// The low byte of a number and the number without it.
fn low_byte(v: i64) -> (r: (u8, i64))
    ensures
        r.0 as int == v as int % 256,
        r.1 as int == v as int / 256,
{
    if v >= 0 {
        ((v % 256) as u8, v / 256)
    } else {
        let x: i64 = -(v + 1);
        ((255 - x % 256) as u8, -(x / 256) - 1)
    }
}

fn low_bytes(v: i64, n: usize) -> (r: Vec<u8>)
    ensures
        r@ == wire::le_bytes(v as int, n as nat),
{
    let mut out: Vec<u8> = Vec::new();
    let mut x: i64 = v;
    let mut i: usize = 0;
    let ghost whole = wire::le_bytes(v as int, n as nat);
    assert(out@ + wire::le_bytes(x as int, n as nat) =~= whole);
    while i < n
        invariant
            i <= n,
            whole == wire::le_bytes(v as int, n as nat),
            out@ + wire::le_bytes(x as int, (n - i) as nat) == whole,
        decreases n - i,
    {
        let (b, rest) = low_byte(x);
        let ghost before = out@;
        out.push(b);
        proof {
            assert(wire::le_bytes(x as int, (n - i) as nat) =~= seq![b] + wire::le_bytes(
                rest as int,
                (n - i - 1) as nat,
            ));
            assert(out@ + wire::le_bytes(rest as int, (n - i - 1) as nat) =~= before
                + wire::le_bytes(x as int, (n - i) as nat));
        }
        x = rest;
        i = i + 1;
    }
    assert(out@ + wire::le_bytes(x as int, 0) =~= out@);
    out
}

/// The bytes of an integer constant of a scalar type.
pub fn constant_bytes(scalar: ScalarType, v: i64) -> (r: Option<Vec<u8>>)
    ensures
        match constant_data(scalar, v as int) {
            Some(s) => r is Some && r->Some_0@ == s,
            None => r is None,
        },
{
    match scalar {
        ScalarType::I1 => {
            let mut out: Vec<u8> = Vec::new();
            if v != 0 {
                out.push(0xFF);
            } else {
                out.push(0);
            }
            assert(out@ =~= constant_data(scalar, v as int)->Some_0);
            Some(out)
        },
        ScalarType::I4 | ScalarType::F4E2M1FN => {
            let (b, _) = low_byte(v);
            let mut out: Vec<u8> = Vec::new();
            out.push(b % 16);
            assert(out@ =~= constant_data(scalar, v as int)->Some_0);
            Some(out)
        },
        ScalarType::I8 | ScalarType::F8E4M3FN | ScalarType::F8E5M2 | ScalarType::F8E8M0FNU => Some(
            low_bytes(v, 1),
        ),
        ScalarType::I16 => Some(low_bytes(v, 2)),
        ScalarType::I32 | ScalarType::TF32 => Some(low_bytes(v, 4)),
        ScalarType::I64 => Some(low_bytes(v, 8)),
        ScalarType::F16 | ScalarType::BF16 | ScalarType::F32 | ScalarType::F64 => None,
    }
}

/// The operation of a scalar constant.
pub open spec fn constant_op(scalar: ScalarType, data: Seq<u8>, location: LocationV) -> OperationV {
    let ty = TypeV::Tile(seq![], crate::ir::types::TileElementType::Scalar(scalar));
    OperationV {
        opcode: Opcode::Constant,
        operands: seq![],
        result_types: seq![ty],
        attributes: seq![
            (
                "value"@,
                AttrV::Dense(attr::DenseV { element_type: ty, shape: seq![], data }),
            ),
        ],
        regions: seq![],
        location,
    }
}

fn scalar_tile(scalar: ScalarType) -> (t: Type)
    ensures
        t@ == TypeV::Tile(seq![], types::TileElementType::Scalar(scalar)),
{
    let shape: Vec<i64> = Vec::new();
    assert(shape@ =~= seq![]);
    Type::Tile(types::TileType { shape, element_type: types::TileElementType::Scalar(scalar) })
}

/// Add a scalar constant with encoded data at the end of a block.
pub fn emit_constant(
    module: &mut Module,
    block: BlockId,
    scalar: ScalarType,
    data: Vec<u8>,
    location: Location,
) -> (v: Value)
    requires
        block.0 < old(module)@.blocks.len(),
    ensures
        v == Value(old(module)@.values.len() as u32),
        final(module)@ == builder::with_appended(
            builder::with_op(old(module)@, constant_op(scalar, data@, location@)),
            block,
            OpId(old(module)@.ops.len() as u32),
        ),
{
    let shape: Vec<i64> = Vec::new();
    assert(shape@ =~= seq![]);
    let b = OpBuilder::new(Opcode::Constant, location).result(scalar_tile(scalar)).attr(
        "value",
        Attribute::DenseElements(
            attr::DenseElements { element_type: scalar_tile(scalar), shape, data },
        ),
    );
    assert(b@ =~= constant_op(scalar, data@, location@));
    let (id, results) = b.build(module);
    append_op(module, block, id);
    results[0]
}

/// Why a constant is refused.
#[derive(Clone, Copy, Debug, PartialEq, Eq, Structural)]
pub enum ConstantError {
    /// The value is not known exactly.
    NotExact,
    /// The type is not that of a scalar element.
    NotElement,
    /// The element type has no name.
    NoName,
    /// The element type is not supported.
    Unsupported,
}

/// What a refusal says, for these bounds and this element type.
pub open spec fn constant_text(
    e: ConstantError,
    start: int,
    end: int,
    element: Seq<char>,
) -> Seq<char> {
    match e {
        ConstantError::NotExact =>
            "expected a compile-time constant, but got a value with bounds ["@ + fmt::signed_text(
            start,
        ) + ", "@ + fmt::signed_text(end) + "]"@,
        ConstantError::NotElement => "expected a scalar element type"@,
        ConstantError::NoName => "failed to compile constant value"@,
        ConstantError::Unsupported => "unsupported scalar type for constant: "@ + element,
    }
}

impl ConstantError {
    /// What the refusal says, for these bounds and this element type.
    pub fn message(&self, start: i64, end: i64, element: &str) -> (r: String)
        ensures
            r@ == constant_text(*self, start as int, end as int, element@),
    {
        match self {
            ConstantError::NotExact => {
                let mut s =
                    "expected a compile-time constant, but got a value with bounds [".to_owned();
                let a = format_signed(start);
                s.append(a.as_str());
                s.append(", ");
                let b = format_signed(end);
                s.append(b.as_str());
                s.append("]");
                s
            },
            ConstantError::NotElement => "expected a scalar element type".to_owned(),
            ConstantError::NoName => "failed to compile constant value".to_owned(),
            ConstantError::Unsupported => joined("unsupported scalar type for constant: ", element),
        }
    }
}

/// Why a constant with these bounds and this type is refused. `named` is absent
/// where the type is not that of a scalar element.
pub open spec fn constant_refusal(
    start: i64,
    end: i64,
    named: Option<bool>,
    scalar: Option<ScalarType>,
) -> Option<ConstantError> {
    if start != end {
        Some(ConstantError::NotExact)
    } else {
        match named {
            None => Some(ConstantError::NotElement),
            Some(false) => Some(ConstantError::NoName),
            Some(true) => if scalar is None {
                Some(ConstantError::Unsupported)
            } else {
                None
            },
        }
    }
}

/// Add the constant that exact bounds give at the end of a block. `named` says
/// whether the element type has a name, `scalar` is the type with that name, and
/// `float_data` holds the bytes of the value where that type is a binary floating
/// point one of 16 bits or more.
pub fn compile_constant_from_exact_bounds(
    module: &mut Module,
    block: BlockId,
    start: i64,
    end: i64,
    named: Option<bool>,
    scalar: Option<ScalarType>,
    float_data: Vec<u8>,
    location: Location,
) -> (r: Result<Value, ConstantError>)
    requires
        block.0 < old(module)@.blocks.len(),
    ensures
        match constant_refusal(start, end, named, scalar) {
            Some(e) => r == Err::<Value, ConstantError>(e) && final(module)@ == old(module)@,
            None => {
                let data = match constant_data(scalar->Some_0, start as int) {
                    Some(s) => s,
                    None => float_data@,
                };
                &&& r == Ok::<Value, ConstantError>(Value(old(module)@.values.len() as u32))
                &&& final(module)@ == builder::with_appended(
                    builder::with_op(
                        old(module)@,
                        constant_op(scalar->Some_0, data, location@),
                    ),
                    block,
                    OpId(old(module)@.ops.len() as u32),
                )
            },
        },
{
    if start != end {
        return Err(ConstantError::NotExact);
    }
    match named {
        None => {
            return Err(ConstantError::NotElement);
        },
        Some(false) => {
            return Err(ConstantError::NoName);
        },
        Some(true) => {},
    }
    let s = match scalar {
        None => {
            return Err(ConstantError::Unsupported);
        },
        Some(s) => s,
    };
    let data = match constant_bytes(s, start) {
        Some(d) => d,
        None => float_data,
    };
    Ok(emit_constant(module, block, s, data, location))
}

/// Whether the expected type of an argument is looked up before it is compiled: a
/// literal or an operand of a prefix operator.
pub fn needs_expected_type(arg: &Expr) -> (r: bool)
    ensures
        r == (arg is Lit || arg is Unary),
{
    match arg {
        Expr::Lit(_) => true,
        Expr::Unary(_, _) => true,
        _ => false,
    }
}

// ---------------------------------------------------------------------------
// Generic variables
// ---------------------------------------------------------------------------

/// The array type that writes strides.
pub fn strides_type(strides: &Vec<i32>) -> (r: String)
    ensures
        r@ == "Array<{["@ + fmt::numbers_text(fmt::ints(strides@), strides@.len() as int)
            + "]}>"@,
{
    let mut out = "Array<{[".to_owned();
    let t = format_ints(strides);
    out.append(t.as_str());
    out.append("]}>");
    out
}

/// The type of an array of `n` numbers.
pub fn array_type(n: usize) -> (r: String)
    ensures
        r@ == "[i32;"@ + text::decimal_text(n as int) + "]"@,
{
    let mut out = "[i32;".to_owned();
    let t = number_text(n as u64);
    out.append(t.as_str());
    out.append("]");
    out
}

/// The generic variables of a function: those whose kind is known otherwise, the
/// integers and the truth values.
pub struct GenericVars {
    pub others: Vec<String>,
    pub inst_i32: Vec<(String, i32)>,
    pub inst_bool: Vec<(String, bool)>,
}

/// The contents of generic variables.
#[verifier::ext_equal]
pub struct VarsV {
    pub others: Seq<Seq<char>>,
    pub inst_i32: Seq<(Seq<char>, i32)>,
    pub inst_bool: Seq<(Seq<char>, bool)>,
}

impl View for GenericVars {
    type V = VarsV;

    open spec fn view(&self) -> VarsV {
        VarsV {
            others: meta::texts(self.others@),
            inst_i32: Seq::new(
                self.inst_i32@.len(),
                |i: int| (self.inst_i32@[i].0@, self.inst_i32@[i].1),
            ),
            inst_bool: Seq::new(
                self.inst_bool@.len(),
                |i: int| (self.inst_bool@[i].0@, self.inst_bool@[i].1),
            ),
        }
    }
}

impl VarsV {
    /// Whether a variable is known.
    pub open spec fn knows(self, name: Seq<char>) -> bool {
        ||| self.others.contains(name)
        ||| exists|i: int| 0 <= i < self.inst_i32.len() && (#[trigger] self.inst_i32[i]).0 == name
        ||| exists|i: int| 0 <= i < self.inst_bool.len() && (#[trigger] self.inst_bool[i]).0 == name
    }

    /// The variables with a constant: a known variable stays, an integer or a truth
    /// value is added, and other constants are passed over.
    pub open spec fn with_const(self, name: Seq<char>, item: ItemConst) -> VarsV {
        if self.knows(name) {
            self
        } else {
            match items::i32_const(item) {
                Some(v) => VarsV { inst_i32: self.inst_i32.push((name, v)), ..self },
                None => match items::bool_const(item) {
                    Some(b) => VarsV { inst_bool: self.inst_bool.push((name, b)), ..self },
                    None => self,
                },
            }
        }
    }

    /// The variables with the first `n` of some constants.
    pub open spec fn with_consts(self, consts: Seq<(String, ItemConst)>, n: int) -> VarsV
        decreases n,
    {
        if n <= 0 {
            self
        } else {
            self.with_consts(consts, n - 1).with_const(consts[n - 1].0@, consts[n - 1].1)
        }
    }
}

impl GenericVars {
    /// Whether a variable is known.
    pub fn knows(&self, name: &str) -> (r: bool)
        ensures
            r == self@.knows(name@),
    {
        if has_text(&self.others, name) {
            return true;
        }
        let mut i: usize = 0;
        while i < self.inst_i32.len()
            invariant
                i <= self.inst_i32@.len(),
                forall|j: int| 0 <= j < i ==> (#[trigger] self@.inst_i32[j]).0 != name@,
            decreases self.inst_i32@.len() - i,
        {
            assert(self@.inst_i32[i as int].0 == self.inst_i32@[i as int].0@);
            if same_text(self.inst_i32[i].0.as_str(), name) {
                return true;
            }
            i = i + 1;
        }
        let mut i: usize = 0;
        while i < self.inst_bool.len()
            invariant
                i <= self.inst_bool@.len(),
                forall|j: int| 0 <= j < i ==> (#[trigger] self@.inst_bool[j]).0 != name@,
            decreases self.inst_bool@.len() - i,
        {
            assert(self@.inst_bool[i as int].0 == self.inst_bool@[i as int].0@);
            if same_text(self.inst_bool[i].0.as_str(), name) {
                return true;
            }
            i = i + 1;
        }
        false
    }

    /// Add the constants that a module sees as generic variables. A variable that
    /// is known keeps its value.
    pub fn add_module_const_vars(&mut self, consts: &Vec<(String, ItemConst)>)
        ensures
            final(self)@ == old(self)@.with_consts(consts@, consts@.len() as int),
    {
        let ghost start = self@;
        let mut i: usize = 0;
        while i < consts.len()
            invariant
                i <= consts@.len(),
                self@ == start.with_consts(consts@, i as int),
            decreases consts@.len() - i,
        {
            let ghost before = self@;
            let (name, item) = &consts[i];
            if !self.knows(name.as_str()) {
                match const_item_i32_value(item) {
                    Some(v) => {
                        self.inst_i32.push((name.clone(), v));
                        assert(self@.inst_i32 =~= before.inst_i32.push((name@, v)));
                        assert(self@ =~= before.with_const(name@, *item));
                    },
                    None => match const_item_bool_value(item) {
                        Some(b) => {
                            self.inst_bool.push((name.clone(), b));
                            assert(self@.inst_bool =~= before.inst_bool.push((name@, b)));
                            assert(self@ =~= before.with_const(name@, *item));
                        },
                        None => {},
                    },
                }
            }
            i = i + 1;
        }
    }
}

// ---------------------------------------------------------------------------
// Generic variables inside the entry function
// ---------------------------------------------------------------------------

impl VarsV {
    /// How many variables have a scalar value.
    pub open spec fn scalars(self) -> int {
        (self.inst_i32.len() + self.inst_bool.len()) as int
    }

    /// A variable with a scalar value: the integers come first.
    pub open spec fn scalar(self, i: int) -> (Seq<char>, ScalarType, int) {
        if i < self.inst_i32.len() {
            (self.inst_i32[i].0, ScalarType::I32, self.inst_i32[i].1 as int)
        } else {
            let (n, b) = self.inst_bool[i - self.inst_i32.len()];
            (
                n,
                ScalarType::I1,
                if b {
                    1
                } else {
                    0
                },
            )
        }
    }
}

/// A module with the constants of the first `n` variables at the end of a block.
pub open spec fn with_scalars(
    m: ModuleV,
    block: BlockId,
    vars: VarsV,
    location: LocationV,
    n: int,
) -> ModuleV
    decreases n,
{
    if n <= 0 {
        m
    } else {
        let p = with_scalars(m, block, vars, location, n - 1);
        let (_, scalar, v) = vars.scalar(n - 1);
        builder::with_appended(
            builder::with_op(
                p,
                constant_op(scalar, constant_data(scalar, v)->Some_0, location),
            ),
            block,
            OpId(p.ops.len() as u32),
        )
    }
}

proof fn lemma_with_scalars(m: ModuleV, block: BlockId, vars: VarsV, location: LocationV, n: int)
    requires
        0 <= n,
        block.0 < m.blocks.len(),
    ensures
        with_scalars(m, block, vars, location, n).blocks.len() == m.blocks.len(),
        with_scalars(m, block, vars, location, n).values.len() == m.values.len() + n,
    decreases n,
{
    if n > 0 {
        lemma_with_scalars(m, block, vars, location, n - 1);
        let p = with_scalars(m, block, vars, location, n - 1);
        let (_, scalar, v) = vars.scalar(n - 1);
        let op = constant_op(scalar, constant_data(scalar, v)->Some_0, location);
        assert(op.result_types.len() == 1);
        assert(builder::with_op(p, op).values.len() == p.values.len() + 1);
    }
}

/// Give the scalar variables their values inside the entry function: a constant
/// for each integer, then for each truth value, at the end of a block. None of
/// them is mutable.
pub fn bind_constants(
    module: &mut Module,
    block: BlockId,
    vars: &GenericVars,
    location: &Location,
) -> (r: Vec<Binding>)
    requires
        block.0 < old(module)@.blocks.len(),
    ensures
        final(module)@ == with_scalars(
            old(module)@,
            block,
            vars@,
            location@,
            vars@.scalars(),
        ),
        r@.len() == vars@.scalars(),
        forall|i: int|
            0 <= i < r@.len() ==> {
                &&& (#[trigger] r@[i]).name@ == vars@.scalar(i).0
                &&& r@[i].value == Value((old(module)@.values.len() + i) as u32)
                &&& !r@[i].mutable
            },
{
    let ghost m0 = module@;
    let ghost l = location@;
    let mut out: Vec<Binding> = Vec::new();
    let ints: usize = vars.inst_i32.len();
    let bools: usize = vars.inst_bool.len();
    let mut i: usize = 0;
    while i < ints
        invariant
            m0 == old(module)@,
            l == location@,
            ints == vars@.inst_i32.len(),
            ints == vars.inst_i32@.len(),
            i <= ints,
            block.0 < m0.blocks.len(),
            out@.len() == i,
            module@ == with_scalars(m0, block, vars@, l, i as int),
            forall|j: int|
                0 <= j < out@.len() ==> {
                    &&& (#[trigger] out@[j]).name@ == vars@.scalar(j).0
                    &&& out@[j].value == Value((m0.values.len() + j) as u32)
                    &&& !out@[j].mutable
                },
        decreases ints - i,
    {
        proof {
            lemma_with_scalars(m0, block, vars@, l, i as int);
        }
        let v: i32 = vars.inst_i32[i].1;
        let data = low_bytes(v as i64, 4);
        let value = emit_constant(module, block, ScalarType::I32, data, location.duplicate());
        assert(vars@.scalar(i as int) == (vars.inst_i32@[i as int].0@, ScalarType::I32, v as int));
        out.push(Binding { name: vars.inst_i32[i].0.clone(), value, mutable: false });
        i = i + 1;
    }
    let mut k: usize = 0;
    while k < bools
        invariant
            m0 == old(module)@,
            l == location@,
            ints == vars@.inst_i32.len(),
            bools == vars@.inst_bool.len(),
            bools == vars.inst_bool@.len(),
            k <= bools,
            block.0 < m0.blocks.len(),
            out@.len() == ints + k,
            module@ == with_scalars(m0, block, vars@, l, ints + k),
            forall|j: int|
                0 <= j < out@.len() ==> {
                    &&& (#[trigger] out@[j]).name@ == vars@.scalar(j).0
                    &&& out@[j].value == Value((m0.values.len() + j) as u32)
                    &&& !out@[j].mutable
                },
        decreases bools - k,
    {
        proof {
            lemma_with_scalars(m0, block, vars@, l, ints + k);
        }
        let b: bool = vars.inst_bool[k].1;
        let mut data: Vec<u8> = Vec::new();
        if b {
            data.push(0xFF);
        } else {
            data.push(0);
        }
        let value = emit_constant(module, block, ScalarType::I1, data, location.duplicate());
        proof {
            let s = vars@.scalar(ints + k);
            assert(s.0 == vars.inst_bool@[k as int].0@);
            assert(data@ =~= constant_data(ScalarType::I1, s.2)->Some_0);
        }
        out.push(Binding { name: vars.inst_bool[k].0.clone(), value, mutable: false });
        k = k + 1;
    }
    out
}

} // verus!
