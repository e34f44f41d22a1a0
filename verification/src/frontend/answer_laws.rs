//! What attributes, settings and answers from elsewhere come down to.
use vstd::prelude::*;
use crate::frontend::aliases::{AliasT, ModuleItem};
use crate::frontend::aliases;
use crate::frontend::entry::{EntryAttrs, GenericVars, VarsV};
use crate::frontend::entry;
use crate::frontend::frames::{InlineStack, SourceV, SpanBase};
use crate::frontend::frames;
use crate::frontend::hints::{
    CompileOptions,
    DebugInfoLevel,
    Hint,
    HintError,
    HintErrorV,
    HintValues,
    OptimizationHints,
    SMHints,
};
use crate::frontend::hints;
use crate::frontend::items::ClosureParam;
use crate::frontend::items;
use crate::frontend::meta::SingleMetaList;
use crate::frontend::meta;
use crate::frontend::obligations::KernelParams;
use crate::frontend::statics::{InitialV, StaticItem};
use crate::frontend::statics;
use crate::frontend::syntax::{Expr, FnArg, ItemConst, Lit, Meta, Pat, Path, Type};
use crate::frontend::typing::TypingError;
use crate::frontend::typing;
use crate::ir::location::LocationV;
use crate::ir::module::{GlobalV, ModuleV};
use crate::text;

verus! {

// ---------------------------------------------------------------------------
// Options
// ---------------------------------------------------------------------------

/// Options start with nothing set: a level of debug information asks for one kind of it,
/// and code with full debug information is not optimized unless a level is given.
pub proof fn lemma_default_options(level: DebugInfoLevel, l: u8)
    ensures
        ({
            let o = hints::default_options(level);
            &&& o.occupancy is None && o.num_cta_in_cga is None
            &&& o.max_divisibility is None && o.num_worker_warps_per_cta is None
            &&& o.opt_level is None && !o.sanitize_memcheck
            &&& o.device_debug <==> level == DebugInfoLevel::Full
            &&& o.lineinfo <==> level == DebugInfoLevel::Line
            &&& o.spec_effective_opt_level() == (if level == DebugInfoLevel::Full {
                0u8
            } else {
                3u8
            })
            &&& (CompileOptions { opt_level: Some(l), ..o }).spec_effective_opt_level() == l
        }),
{
}

/// Options apply to the architecture that was named, or to the default one.
pub proof fn lemma_target(h: OptimizationHints)
    ensures
        h.target_gpu_name matches Some(n) ==> h.target_arch() == n@,
        h.target_gpu_name is None ==> h.target_arch() == "sm_100"@,
{
}

/// What was set last for an architecture is what it has.
pub proof fn lemma_by_arch(h: OptimizationHints)
    requires
        h.tile_as_hints@.len() > 0,
    ensures
        h.by_arch().dom().contains(h.tile_as_hints@.last().gpu_name@),
        h.by_arch()[h.tile_as_hints@.last().gpu_name@] == h.tile_as_hints@.last().values(),
{
}

/// A setter sets its hint where it is not set and the value is an integer; else it says
/// why not, and changes nothing.
pub proof fn lemma_set(r: Result<(), HintError>, a: SMHints, b: SMHints, h: Hint, e: Expr)
    requires
        hints::sets_hint(r, a, b, h, e),
    ensures
        b.gpu_name == a.gpu_name,
        hints::hint_of(a.values(), h) is Some ==> r is Err && r->Err_0@ == HintErrorV::AlreadySet(h),
        hints::hint_of(a.values(), h) is None && hints::int_hint(e) is Err ==> r is Err
            && r->Err_0@ == hints::int_hint(e)->Err_0,
        hints::hint_of(a.values(), h) is None && hints::int_hint(e) is Ok ==> r is Ok
            && hints::hint_of(b.values(), h) == Some(hints::int_hint(e)->Ok_0),
        r is Err ==> b.values() == a.values(),
        forall|g: Hint|
            g != h ==> #[trigger] hints::hint_of(b.values(), g) == hints::hint_of(a.values(), g),
{
}

/// A parameter is mutable where it was declared so; one that was not declared is taken to
/// be.
pub proof fn lemma_mutable(p: KernelParams, i: usize)
    ensures
        i < p.is_mutable@.len() ==> p.mutable(i) == p.is_mutable@[i as int],
        i >= p.is_mutable@.len() ==> p.mutable(i),
{
}

/// A variable is known where it is one of the integers, truth values or others.
pub proof fn lemma_knows(v: VarsV, name: Seq<char>)
    ensures
        v.knows(name) <==> v.others.contains(name) || (exists|i: int|
            0 <= i < v.inst_i32.len() && (#[trigger] v.inst_i32[i]).0 == name) || (exists|i: int|
            0 <= i < v.inst_bool.len() && (#[trigger] v.inst_bool[i]).0 == name),
        v.others.len() == 0 && v.inst_i32.len() == 0 && v.inst_bool.len() == 0 ==> !v.knows(name),
{
}

// ---------------------------------------------------------------------------
// Attributes
// ---------------------------------------------------------------------------

/// A name stands by itself where one of the arguments is that name and nothing else.
pub proof fn lemma_bare(vars: Seq<Meta>, name: Seq<char>)
    ensures
        meta::bare(vars, name) <==> (exists|i: int|
            0 <= i < vars.len() && (#[trigger] vars[i]) is Path && meta::path_ident(vars[i]->Path_0)
                == Some(name)),
        vars.len() == 0 ==> !meta::bare(vars, name),
{
}

/// A flag is set by its bare name or by `true`; by nothing else.
pub proof fn lemma_flag(vars: Seq<Meta>, name: Seq<char>)
    ensures
        meta::bare(vars, name) ==> meta::flag(vars, name),
        meta::value_of(vars, name, 0) == Some(Expr::Lit(Lit::Bool(true))) ==> meta::flag(
            vars,
            name,
        ),
        !meta::bare(vars, name) && meta::value_of(vars, name, 0) == Some(
            Expr::Lit(Lit::Bool(false)),
        ) ==> !meta::flag(vars, name),
        !meta::bare(vars, name) && meta::value_of(vars, name, 0) is None ==> !meta::flag(
            vars,
            name,
        ),
{
}

/// An attribute goes where its whole name is among those to be cleared.
pub proof fn lemma_cleared(m: Meta, names: Seq<Seq<char>>, i: int)
    ensures
        meta::attr_name(m, false) is None ==> !meta::cleared(m, names),
        0 <= i < names.len() && meta::attr_name(m, false) == Some(names[i]) ==> meta::cleared(
            m,
            names,
        ),
        meta::cleared(m, names) ==> exists|j: int|
            0 <= j < names.len() && meta::attr_name(m, false) == Some(#[trigger] names[j]),
{
}

/// The texts of a list of literals stand in its order.
pub proof fn lemma_string_texts(s: Seq<Expr>, i: int, t: String)
    requires
        0 <= i < s.len(),
        s[i] == Expr::Lit(Lit::Str(t)),
    ensures
        meta::string_texts(s).len() == s.len(),
        meta::string_texts(s)[i] == t@,
{
}

/// A list has the name and the arguments of its attribute.
pub proof fn lemma_list_of(m: Meta, l: SingleMetaList)
    requires
        meta::list_of(m, l),
    ensures
        l.name matches Some(n) && meta::attr_name(m, false) == Some(n@),
        meta::arguments(m) == Some(l.variables@),
{
}

/// The project's attributes have arguments and a path of their own that starts with
/// `cuda_tile`.
pub proof fn lemma_cuda_tile(p: Path, e: Expr, args: Option<Vec<Meta>>)
    ensures
        !meta::is_cuda_tile(Meta::Path(p)),
        !meta::is_cuda_tile(Meta::NameValue(p, e)),
        meta::is_cuda_tile(Meta::List(p, args)) <==> (p.qself is None && !p.leading
            && p.segments@.len() > 0 && meta::segment_text(p.segments@[0]) == "cuda_tile"@),
{
}

/// Arguments can be read up to the one that gives a name its value where those before it
/// that give values have plain names.
pub proof fn lemma_plain_before(vars: Seq<Meta>, name: Seq<char>, from: int, k: int)
    requires
        0 <= from <= k <= vars.len(),
        forall|i: int|
            from <= i < k ==> ((#[trigger] vars[i]) matches Meta::NameValue(p, _)
                ==> meta::path_ident(p) is Some && meta::path_ident(p) != Some(name)),
    ensures
        k == vars.len() ==> meta::plain_before(vars, name, from),
        k < vars.len() && vars[k] is NameValue ==> (meta::plain_before(vars, name, from)
            <==> meta::path_ident(vars[k]->NameValue_0) is Some && (meta::path_ident(
            vars[k]->NameValue_0,
        ) == Some(name) || meta::plain_before(vars, name, k + 1))),
    decreases k - from,
{
    if from < k {
        lemma_plain_before(vars, name, from + 1, k);
    }
}

/// The attributes of a kernel: two flags, each by its own name, and the hints.
pub proof fn lemma_entry_attributes(a: EntryAttrs, args: Seq<Meta>)
    requires
        entry::reads_entry(a, args),
    ensures
        a.unchecked_accesses <==> meta::flag(args, "unchecked_accesses"@),
        a.deny_in_kernel_checks <==> meta::flag(args, "deny_in_kernel_checks"@),
        a.optimization_hints is Some <==> meta::value_of(args, "optimization_hints"@, 0) is Some,
        a.optimization_hints matches Some(e) ==> meta::value_of(args, "optimization_hints"@, 0)
            == Some(*e),
{
}

/// The hints of a kernel are those that its entry attribute writes, none where it writes
/// none; they are refused where they cannot be read.
pub proof fn lemma_entry_hints(args: Seq<Meta>)
    ensures
        ({
            let written = meta::value_of(args, "optimization_hints"@, 0);
            &&& written is None ==> entry::entry_hints(args) == Map::<
                Seq<char>,
                HintValues,
            >::empty() && entry::hints_error(args) is None
            &&& written matches Some(e) ==> {
                &&& hints::hints_of(e) matches Ok(m) ==> entry::entry_hints(args) == m
                    && entry::hints_error(args) is None
                &&& hints::hints_of(e) matches Err(x) ==> entry::hints_error(args) == Some(x)
            }
        }),
{
}

/// A parameter has a name where its pattern is one.
pub proof fn lemma_param_name(n: String, ty: Type, p: Pat)
    ensures
        entry::param_name(FnArg::Receiver) is None,
        entry::param_name(FnArg::Typed(Pat::Ident(n), ty)) == Some(n@),
        !(p is Ident) ==> entry::param_name(FnArg::Typed(p, ty)) is None,
{
}

/// Constants are added one after the other, in their order.
pub proof fn lemma_constants_added(vars: VarsV, consts: Seq<(String, ItemConst)>, n: int)
    requires
        0 <= n < consts.len(),
    ensures
        vars.with_consts(consts, 0) == vars,
        vars.with_consts(consts, n + 1) == vars.with_consts(consts, n).with_const(
            consts[n].0@,
            consts[n].1,
        ),
{
}

/// A closure's parameter keeps its name and the type that is written for it.
pub proof fn lemma_closure_parameter(c: ClosureParam, n: String, ty: Type)
    ensures
        items::param_is(c, Pat::Ident(n)) <==> c.name == n && c.ty is None,
        items::param_is(c, Pat::Typed(n, ty)) <==> c.name == n && c.ty == Some(ty),
        !items::param_is(c, Pat::Other),
{
}

/// A path shows its segments, behind a separator where it starts with one, and behind the
/// type that it starts from.
pub proof fn lemma_path_text(p: Path)
    ensures
        ({
            let n = p.segments@.len() as int;
            let first = if p.leading {
                ":: "@
            } else {
                Seq::empty()
            };
            &&& p.qself is None ==> meta::path_text(p) == first + meta::segments_text(
                p.segments@,
                0,
                n,
            )
            &&& p.qself matches Some(q) ==> {
                &&& q.position == 0 ==> meta::path_text(p) == "< "@ + q.ty@ + " > "@ + first
                    + meta::segments_text(p.segments@, 0, n)
                &&& 0 < q.position < n ==> meta::path_text(p) == "< "@ + q.ty@ + " as "@ + first
                    + meta::segments_text(p.segments@, 0, q.position as int) + " > :: "@
                    + meta::segments_text(p.segments@, q.position as int, n)
            }
        }),
{
}

// ---------------------------------------------------------------------------
// Places and aliases
// ---------------------------------------------------------------------------

/// A place keeps its file, line and column as a location.
pub proof fn lemma_plain_place(f: Seq<char>, line: u32, column: u32)
    ensures
        frames::plain(SourceV::Unknown) == LocationV::Unknown,
        frames::plain(SourceV::At(f, line, column)) == LocationV::FileLineCol(f, line, column),
{
}

/// Of the frames, the one that was entered last counts.
pub proof fn lemma_innermost(s: InlineStack)
    ensures
        s.frames@.len() == 0 ==> s.innermost() is None,
        s.frames@.len() > 0 ==> s.innermost() == Some(s.frames@[s.frames@.len() - 1]@),
{
}

/// A function without a symbol is named by itself, its file, its line and its column, in
/// this order.
pub proof fn lemma_inlined_name(name: Seq<char>, file: Seq<char>, line: u32, column: u32)
    ensures
        frames::inlined_name(name, file, line, column) == name + seq!['@'] + frames::stem(
            text::path_base(file),
        ) + seq![':'] + text::decimal_text(line as int) + seq![':'] + text::decimal_text(
            column as int,
        ),
{
    reveal_strlit("@");
    reveal_strlit(":");
    assert("@"@ =~= seq!['@']);
    assert(":"@ =~= seq![':']);
}

/// Two modules have the same source where all that says where it starts is the same.
pub proof fn lemma_same_source(a: SpanBase, b: SpanBase)
    ensures
        frames::same_base(a, b) <==> a.file@ == b.file@ && a.base_line == b.base_line
            && a.base_col == b.base_col,
        frames::same_base(a, a),
        frames::same_base(a, b) <==> frames::same_base(b, a),
{
}

/// The aliases of a module are its alias items, in their order.
pub proof fn lemma_aliases_among(s: Seq<ModuleItem>, n: int)
    requires
        0 <= n < s.len(),
    ensures
        aliases::aliases_among(s, 0) == Seq::<AliasT>::empty(),
        s[n] matches ModuleItem::Alias(a) ==> aliases::aliases_among(s, n + 1)
            == aliases::aliases_among(s, n).push(a@),
        s[n] is Other ==> aliases::aliases_among(s, n + 1) == aliases::aliases_among(s, n),
{
}

// ---------------------------------------------------------------------------
// Statics
// ---------------------------------------------------------------------------

/// The static items of a module become its globals, in their order, each with what was
/// encoded for it; what the module had stays.
pub proof fn lemma_globals_added<F: Fn(&str, &str) -> Vec<u8>>(
    encode: F,
    items: Seq<StaticItem>,
    n: int,
    before: ModuleV,
    after: ModuleV,
    i: int,
)
    requires
        statics::globals_added(encode, items, n, before, after),
        0 <= i < n <= items.len(),
    ensures
        after.globals.len() == before.globals.len() + n,
        forall|j: int|
            0 <= j < before.globals.len() ==> #[trigger] after.globals[j] == before.globals[j],
        statics::admitted(items[i]) is Ok,
        statics::encoded(
            encode,
            statics::admitted(items[i])->Ok_0,
            after.globals[before.globals.len() + i],
        ),
        after.name == before.name && after.functions == before.functions && after.ops
            == before.ops && after.blocks == before.blocks && after.regions == before.regions
            && after.values == before.values,
{
    assert forall|j: int| 0 <= j < before.globals.len() implies #[trigger] after.globals[j]
        == before.globals[j] by {
        assert(after.globals.take(before.globals.len() as int)[j] == after.globals[j]);
    }
    let x = items[i];
    assert(statics::admitted(x) is Ok);
}

/// A global has its item's symbol, and the bytes that the encoder gave for the item's
/// text and the name of its element type.
pub proof fn lemma_encoded<F: Fn(&str, &str) -> Vec<u8>>(encode: F, i: InitialV, g: GlobalV)
    requires
        statics::encoded(encode, i, g),
    ensures
        g.sym_name == i.symbol,
        exists|t: &str, e: &str, d: Vec<u8>| #[trigger]
            call_ensures(encode, (t, e), d) && t@ == i.text && e@ == i.element_name
                && crate::frontend::globals::scalar_global(i.symbol, i.scalar, d@) == g,
{
    let (t, e, d) = choose|t: &str, e: &str, d: Vec<u8>|
        t@ == i.text && e@ == i.element_name && #[trigger] call_ensures(encode, (t, e), d) && g
            == crate::frontend::globals::scalar_global(i.symbol, i.scalar, d@);
    assert(call_ensures(encode, (t, e), d));
}

/// A method's receiver names a static where it is one plain name that no local variable
/// has.
pub proof fn lemma_receiver(p: Path, locals: Seq<Seq<char>>)
    ensures
        statics::receiver_name(Expr::Path(p), locals) is Some <==> (p.segments@.len() == 1
            && !locals.contains(p.segments@[0].ident@)),
        statics::receiver_name(Expr::Path(p), locals) is Some ==> statics::receiver_name(
            Expr::Path(p),
            locals,
        ) == Some(p.segments@[0].ident@),
{
}

// ---------------------------------------------------------------------------
// Answers
// ---------------------------------------------------------------------------

/// Each parameter has the type that was answered for it and its strides, in order.
pub proof fn lemma_params_typed<T, E, F: Fn(usize, Option<String>) -> Result<Option<T>, E>>(
    compile: F,
    names: Seq<String>,
    strides: Seq<(String, Vec<i32>)>,
    v: Seq<T>,
    i: int,
)
    requires
        typing::params_typed(compile, names, strides, v),
        0 <= i < v.len(),
    ensures
        v.len() <= names.len(),
        exists|s: Option<String>| #[trigger]
            call_ensures(compile, (i as usize, s), Ok(Some(v[i]))) && typing::text_view(s)
                == typing::strides_written(strides, names[i]@),
{
    let x = v[i];
    assert(typing::param_answer(compile, names, strides, i, Ok(Some(x))));
}

/// The first parameter without a type is refused: with the error that was answered, or
/// by its place.
pub proof fn lemma_param_refused<T, E, F: Fn(usize, Option<String>) -> Result<Option<T>, E>>(
    compile: F,
    names: Seq<String>,
    strides: Seq<(String, Vec<i32>)>,
    v: Seq<T>,
    e: TypingError<E>,
)
    requires
        typing::param_refused(compile, names, strides, v, e),
    ensures
        v.len() < names.len(),
        e is Elsewhere || e is NoParam,
        e matches TypingError::NoParam(j) ==> j == v.len() && exists|s: Option<String>| #[trigger]
            call_ensures(compile, (v.len() as usize, s), Ok(None)),
        e matches TypingError::Elsewhere(x) ==> exists|s: Option<String>| #[trigger]
            call_ensures(compile, (v.len() as usize, s), Err(x)),
{
}

/// The types that are known by name: each parameter's, then each variable's as it was
/// answered for its own text.
pub proof fn lemma_typed_names<T, E, F: Fn(String) -> Result<Option<T>, E>>(
    compile: F,
    params: Seq<(Seq<char>, T)>,
    vars: GenericVars,
    arrays: Seq<(String, usize)>,
    s: Seq<(String, T)>,
    i: int,
)
    requires
        typing::typed_names(compile, params, vars, arrays, s),
        0 <= i < s.len(),
    ensures
        i < params.len() ==> s[i].0@ == params[i].0 && s[i].1 == params[i].1,
        i >= params.len() ==> s[i].0@ == typing::var(vars, arrays, i - params.len()).name
            && exists|t: String| #[trigger]
            call_ensures(compile, (t,), Ok(Some(s[i].1))) && t@ == typing::var(
                vars,
                arrays,
                i - params.len(),
            ).written,
{
    let x = s[i];
    if i >= params.len() {
        assert(typing::type_answer(
            compile,
            typing::var(vars, arrays, i - params.len()).written,
            Ok(Some(x.1)),
        ));
    }
}

/// Names stand beside the types at their places.
pub proof fn lemma_paired<T>(names: Seq<String>, types: Seq<T>, i: int)
    requires
        0 <= i < names.len(),
        i < types.len(),
    ensures
        typing::paired(names, types).len() <= names.len(),
        typing::paired(names, types).len() <= types.len(),
        typing::paired(names, types)[i] == (names[i]@, types[i]),
{
}

/// An argument is compiled without a type, but a literal, or what stands behind a prefix
/// operator, with the type that was derived for it.
pub proof fn lemma_args_compiled<
    T,
    V,
    E,
    D: Fn(usize) -> Result<Option<T>, E>,
    C: Fn(usize, Option<T>) -> Result<Option<V>, E>,
>(derive: D, compile: C, args: Seq<Expr>, v: Seq<V>, i: int)
    requires
        typing::args_compiled(derive, compile, args, v),
        0 <= i < v.len(),
    ensures
        v.len() <= args.len(),
        !(args[i] is Lit) && !(args[i] is Unary) ==> call_ensures(
            compile,
            (i as usize, None::<T>),
            Ok(Some(v[i])),
        ),
        args[i] is Lit || args[i] is Unary ==> exists|t: Option<T>| #[trigger]
            call_ensures(compile, (i as usize, t), Ok(Some(v[i]))) && call_ensures(
                derive,
                (i as usize,),
                Ok(t),
            ),
{
    let x = v[i];
    assert(typing::arg_answer(derive, compile, args, i, Ok(Some(x))));
}

} // verus!
