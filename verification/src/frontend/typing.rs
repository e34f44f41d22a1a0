//! The types of a function's parameters, generic variables and arguments.
//!
//! A type is compiled elsewhere, as is an expression: what does it is handed in. The
//! rules here say for what it is asked, in which order, and what comes of the answers.
use vstd::prelude::*;
use crate::frontend::entry::{array_type, needs_expected_type, strides_type, GenericVars};
use crate::frontend::syntax::Expr;
use crate::ir::fmt;
use crate::text::{joined, quoted_text, same_text};
use crate::text;

verus! {

/// Why types are not known. `E` is the error of what is done elsewhere.
#[derive(Debug, PartialEq, Eq)]
pub enum TypingError<E> {
    Elsewhere(E),
    /// A parameter has no type.
    NoParam(usize),
    /// A generic variable has no type.
    NoVariable(VarKind),
    /// An argument has no value.
    NoArgument(usize),
}

/// The kinds of generic variables that have values.
#[derive(Clone, Copy, Debug, PartialEq, Eq, Structural)]
pub enum VarKind {
    I32,
    Bool,
    Array,
}

impl VarKind {
    /// The name of a kind in messages.
    pub open spec fn spec_name(self) -> Seq<char> {
        match self {
            VarKind::I32 => "i32"@,
            VarKind::Bool => "bool"@,
            VarKind::Array => "array"@,
        }
    }

    /// The name of a kind in messages.
    pub fn name(self) -> (r: &'static str)
        ensures
            r@ == self.spec_name(),
    {
        match self {
            VarKind::I32 => "i32",
            VarKind::Bool => "bool",
            VarKind::Array => "array",
        }
    }
}

/// What a refusal says; `tokens` is the text of the parameter's type or of the
/// argument. Errors from elsewhere speak for themselves.
pub open spec fn typing_text<E>(e: TypingError<E>, tokens: Seq<char>) -> Option<Seq<char>> {
    match e {
        TypingError::Elsewhere(_) => None,
        TypingError::NoParam(_) => Some("unable to compile parameter type `"@ + tokens + "`"@),
        TypingError::NoVariable(k) => Some(
            "unable to compile const generic "@ + k.spec_name() + " type"@,
        ),
        TypingError::NoArgument(_) => Some("Failed to compile argument: "@ + text::quoted(tokens)),
    }
}

impl<E> TypingError<E> {
    /// What the refusal says.
    pub fn message(&self, tokens: &str) -> (r: Option<String>)
        ensures
            match typing_text(*self, tokens@) {
                Some(t) => r is Some && r->Some_0@ == t,
                None => r is None,
            },
    {
        match self {
            TypingError::Elsewhere(_) => None,
            TypingError::NoParam(_) => {
                let mut s = joined("unable to compile parameter type `", tokens);
                s.append("`");
                Some(s)
            },
            TypingError::NoVariable(k) => {
                let mut s = joined("unable to compile const generic ", k.name());
                s.append(" type");
                Some(s)
            },
            TypingError::NoArgument(_) => {
                let q = quoted_text(tokens);
                Some(joined("Failed to compile argument: ", q.as_str()))
            },
        }
    }
}

// ---------------------------------------------------------------------------
// Parameters
// ---------------------------------------------------------------------------

/// The strides that are given for a name: the last that are.
pub open spec fn strides_of(s: Seq<(String, Vec<i32>)>, name: Seq<char>, n: int) -> Option<Seq<i32>>
    decreases n,
{
    if n <= 0 {
        None
    } else if s[n - 1].0@ == name {
        Some(s[n - 1].1@)
    } else {
        strides_of(s, name, n - 1)
    }
}

/// The type that writes the strides of a parameter, where there are any.
pub open spec fn strides_written(s: Seq<(String, Vec<i32>)>, name: Seq<char>) -> Option<Seq<char>> {
    match strides_of(s, name, s.len() as int) {
        Some(l) => Some(
            "Array<{["@ + fmt::numbers_text(fmt::ints(l), l.len() as int) + "]}>"@,
        ),
        None => None,
    }
}

/// An optional text.
pub open spec fn text_view(s: Option<String>) -> Option<Seq<char>> {
    match s {
        Some(t) => Some(t@),
        None => None,
    }
}

fn written_strides(s: &Vec<(String, Vec<i32>)>, name: &str) -> (r: Option<String>)
    ensures
        text_view(r) == strides_written(s@, name@),
{
    let mut n: usize = s.len();
    while n > 0
        invariant
            n <= s@.len(),
            strides_of(s@, name@, s@.len() as int) == strides_of(s@, name@, n as int),
        decreases n,
    {
        n = n - 1;
        if same_text(s[n].0.as_str(), name) {
            return Some(strides_type(&s[n].1));
        }
    }
    None
}

/// What a parameter's type may be: what was answered for the parameter and its
/// strides.
pub open spec fn param_answer<T, E, F: Fn(usize, Option<String>) -> Result<Option<T>, E>>(
    compile: F,
    names: Seq<String>,
    strides: Seq<(String, Vec<i32>)>,
    i: int,
    answer: Result<Option<T>, E>,
) -> bool {
    exists|s: Option<String>| #[trigger]
        call_ensures(compile, (i as usize, s), answer) && text_view(s) == strides_written(
            strides,
            names[i]@,
        )
}

/// The types of the first parameters, as they were answered.
pub open spec fn params_typed<T, E, F: Fn(usize, Option<String>) -> Result<Option<T>, E>>(
    compile: F,
    names: Seq<String>,
    strides: Seq<(String, Vec<i32>)>,
    v: Seq<T>,
) -> bool {
    &&& v.len() <= names.len()
    &&& forall|i: int|
        0 <= i < v.len() ==> param_answer(compile, names, strides, i, Ok(Some(#[trigger] v[i])))
}

/// The first parameters have the types `v`, and the one behind them has none.
pub open spec fn param_refused<T, E, F: Fn(usize, Option<String>) -> Result<Option<T>, E>>(
    compile: F,
    names: Seq<String>,
    strides: Seq<(String, Vec<i32>)>,
    v: Seq<T>,
    e: TypingError<E>,
) -> bool {
    let k = v.len() as int;
    &&& k < names.len()
    &&& params_typed(compile, names, strides, v)
    &&& match e {
        TypingError::Elsewhere(x) => param_answer(compile, names, strides, k, Err(x)),
        TypingError::NoParam(j) => j == k && param_answer(compile, names, strides, k, Ok(None)),
        _ => false,
    }
}

/// Compile the types of a function's parameters, in order. The first parameter that
/// has no type ends it.
pub fn compile_function_param_types<T, E, F: Fn(usize, Option<String>) -> Result<Option<T>, E>>(
    names: &Vec<String>,
    strides: &Vec<(String, Vec<i32>)>,
    compile: F,
) -> (r: Result<Vec<T>, TypingError<E>>)
    requires
        forall|i: usize, s: Option<String>| #[trigger] call_requires(compile, (i, s)),
    ensures
        match r {
            Ok(v) => v@.len() == names@.len() && params_typed(compile, names@, strides@, v@),
            Err(e) => exists|v: Seq<T>| #[trigger]
                param_refused(compile, names@, strides@, v, e),
        },
{
    let mut out: Vec<T> = Vec::new();
    let mut i: usize = 0;
    while i < names.len()
        invariant
            forall|i: usize, s: Option<String>| #[trigger] call_requires(compile, (i, s)),
            i <= names@.len(),
            out@.len() == i,
            params_typed(compile, names@, strides@, out@),
        decreases names@.len() - i,
    {
        let s = written_strides(strides, names[i].as_str());
        let ghost asked = s;
        let ghost before = out@;
        let answer = compile(i, s);
        assert(call_ensures(compile, ((i as int) as usize, asked), answer));
        assert(param_answer(compile, names@, strides@, i as int, answer));
        match answer {
            Ok(Some(t)) => {
                out.push(t);
                assert forall|j: int| 0 <= j < out@.len() implies param_answer(
                    compile,
                    names@,
                    strides@,
                    j,
                    Ok(Some(#[trigger] out@[j])),
                ) by {
                    if j < i {
                        assert(out@[j] == before[j]);
                    }
                }
            },
            Ok(None) => {
                let e = TypingError::NoParam(i);
                assert(param_refused(compile, names@, strides@, before, e));
                return Err(e);
            },
            Err(x) => {
                let e = TypingError::Elsewhere(x);
                assert(param_refused(compile, names@, strides@, before, e));
                return Err(e);
            },
        }
        i = i + 1;
    }
    Ok(out)
}

// ---------------------------------------------------------------------------
// Generic variables
// ---------------------------------------------------------------------------

/// A generic variable and the text of its type.
#[verifier::ext_equal]
pub struct VarV {
    pub name: Seq<char>,
    pub kind: VarKind,
    pub written: Seq<char>,
}

/// How many generic variables have values.
pub open spec fn var_count(vars: GenericVars, arrays: Seq<(String, usize)>) -> int {
    (vars.inst_i32@.len() + vars.inst_bool@.len() + arrays.len()) as int
}

/// A generic variable: integers come first, then truth values, then arrays.
pub open spec fn var(vars: GenericVars, arrays: Seq<(String, usize)>, i: int) -> VarV {
    let n = vars.inst_i32@.len();
    let m = n + vars.inst_bool@.len();
    if i < n {
        VarV { name: vars.inst_i32@[i].0@, kind: VarKind::I32, written: "i32"@ }
    } else if i < m {
        VarV { name: vars.inst_bool@[i - n].0@, kind: VarKind::Bool, written: "bool"@ }
    } else {
        let (name, len) = arrays[i - m];
        VarV {
            name: name@,
            kind: VarKind::Array,
            written: "[i32;"@ + text::decimal_text(len as int) + "]"@,
        }
    }
}

fn var_at(vars: &GenericVars, arrays: &Vec<(String, usize)>, i: usize) -> (r: (
    String,
    VarKind,
    String,
))
    requires
        i < var_count(*vars, arrays@),
    ensures
        (VarV { name: r.0@, kind: r.1, written: r.2@ }) == var(*vars, arrays@, i as int),
{
    let n: usize = vars.inst_i32.len();
    if i < n {
        return (vars.inst_i32[i].0.clone(), VarKind::I32, "i32".to_owned());
    }
    let k: usize = i - n;
    let m: usize = vars.inst_bool.len();
    if k < m {
        return (vars.inst_bool[k].0.clone(), VarKind::Bool, "bool".to_owned());
    }
    let a: &(String, usize) = &arrays[k - m];
    (a.0.clone(), VarKind::Array, array_type(a.1))
}

/// What was answered for a type, given its text.
pub open spec fn type_answer<T, E, F: Fn(String) -> Result<Option<T>, E>>(
    compile: F,
    written: Seq<char>,
    answer: Result<Option<T>, E>,
) -> bool {
    exists|s: String| #[trigger] call_ensures(compile, (s,), answer) && s@ == written
}

/// The types that are known by name: those of the parameters, then those of the first
/// generic variables as they were answered.
pub open spec fn typed_names<T, E, F: Fn(String) -> Result<Option<T>, E>>(
    compile: F,
    params: Seq<(Seq<char>, T)>,
    vars: GenericVars,
    arrays: Seq<(String, usize)>,
    s: Seq<(String, T)>,
) -> bool {
    let n = params.len() as int;
    &&& n <= s.len() <= n + var_count(vars, arrays)
    &&& forall|i: int|
        0 <= i < n ==> (#[trigger] s[i]).0@ == params[i].0 && s[i].1 == params[i].1
    &&& forall|i: int|
        n <= i < s.len() ==> (#[trigger] s[i]).0@ == var(vars, arrays, i - n).name && type_answer(
            compile,
            var(vars, arrays, i - n).written,
            Ok(Some(s[i].1)),
        )
}

/// The first generic variables have types, and the one behind them has none.
pub open spec fn var_refused<T, E, F: Fn(String) -> Result<Option<T>, E>>(
    compile: F,
    params: Seq<(Seq<char>, T)>,
    vars: GenericVars,
    arrays: Seq<(String, usize)>,
    s: Seq<(String, T)>,
    e: TypingError<E>,
) -> bool {
    let k = s.len() - params.len();
    &&& k < var_count(vars, arrays)
    &&& typed_names(compile, params, vars, arrays, s)
    &&& match e {
        TypingError::Elsewhere(x) => type_answer(
            compile,
            var(vars, arrays, k).written,
            Err::<Option<T>, E>(x),
        ),
        TypingError::NoVariable(kind) => kind == var(vars, arrays, k).kind && type_answer(
            compile,
            var(vars, arrays, k).written,
            Ok::<Option<T>, E>(None),
        ),
        _ => false,
    }
}

/// Names with their types, as far as there are both.
pub open spec fn paired<T>(names: Seq<String>, types: Seq<T>) -> Seq<(Seq<char>, T)> {
    Seq::new(
        if names.len() <= types.len() {
            names.len()
        } else {
            types.len()
        },
        |i: int| (names[i]@, types[i]),
    )
}

/// The types that are known by name before a function is checked: those of its
/// parameters, and those of its generic variables, which are compiled in order. Where
/// a name occurs twice, the last type is the name's. The first variable that has no
/// type ends it.
pub fn initial_typeck_types<T, E, F: Fn(String) -> Result<Option<T>, E>>(
    names: &Vec<String>,
    types: Vec<T>,
    vars: &GenericVars,
    arrays: &Vec<(String, usize)>,
    compile: F,
) -> (r: Result<Vec<(String, T)>, TypingError<E>>)
    requires
        forall|s: String| #[trigger] call_requires(compile, (s,)),
        var_count(*vars, arrays@) <= usize::MAX,
    ensures
        match r {
            Ok(v) => v@.len() == paired(names@, types@).len() + var_count(*vars, arrays@)
                && typed_names(compile, paired(names@, types@), *vars, arrays@, v@),
            Err(e) => exists|s: Seq<(String, T)>| #[trigger]
                var_refused(compile, paired(names@, types@), *vars, arrays@, s, e),
        },
{
    let ghost all = types@;
    let ghost params = paired(names@, all);
    let mut out: Vec<(String, T)> = Vec::new();
    let mut rest = types;
    let mut i: usize = 0;
    while i < names.len() && rest.len() > 0
        invariant
            i <= names@.len(),
            i <= all.len(),
            params == paired(names@, all),
            rest@ == all.skip(i as int),
            out@.len() == i,
            forall|j: int|
                0 <= j < i ==> (#[trigger] out@[j]).0@ == params[j].0 && out@[j].1 == params[j].1,
        decreases names@.len() - i,
    {
        let t = rest.remove(0);
        assert(rest@ =~= all.skip(i + 1));
        out.push((names[i].clone(), t));
        i = i + 1;
    }
    assert(out@.len() == params.len());
    let n: usize = vars.inst_i32.len() + vars.inst_bool.len() + arrays.len();
    let mut k: usize = 0;
    while k < n
        invariant
            forall|s: String| #[trigger] call_requires(compile, (s,)),
            n == var_count(*vars, arrays@),
            k <= n,
            params == paired(names@, all),
            all == types@,
            out@.len() == params.len() + k,
            typed_names(compile, params, *vars, arrays@, out@),
        decreases n - k,
    {
        let ghost before = out@;
        let (name, kind, written) = var_at(vars, arrays, k);
        let ghost asked = written;
        let answer = compile(written);
        assert(call_ensures(compile, (asked,), answer));
        assert(type_answer(compile, var(*vars, arrays@, k as int).written, answer));
        match answer {
            Ok(Some(t)) => {
                out.push((name, t));
                assert forall|j: int| 0 <= j < before.len() implies out@[j] == before[j] by {}
                assert(typed_names(compile, params, *vars, arrays@, out@));
            },
            Ok(None) => {
                let e = TypingError::NoVariable(kind);
                assert(var_refused(compile, params, *vars, arrays@, before, e));
                return Err(e);
            },
            Err(x) => {
                let e = TypingError::Elsewhere(x);
                assert(var_refused(compile, params, *vars, arrays@, before, e));
                return Err(e);
            },
        }
        k = k + 1;
    }
    Ok(out)
}

// ---------------------------------------------------------------------------
// Arguments
// ---------------------------------------------------------------------------

/// What was answered for an argument: a literal, or what a prefix operator stands
/// before, is compiled with the type that was derived for it, if any, the others with
/// none.
pub open spec fn arg_answer<
    T,
    V,
    E,
    D: Fn(usize) -> Result<Option<T>, E>,
    C: Fn(usize, Option<T>) -> Result<Option<V>, E>,
>(derive: D, compile: C, args: Seq<Expr>, i: int, answer: Result<Option<V>, E>) -> bool {
    if args[i] is Lit || args[i] is Unary {
        ||| exists|t: Option<T>| #[trigger]
            call_ensures(compile, (i as usize, t), answer) && call_ensures(
                derive,
                (i as usize,),
                Ok(t),
            )
        ||| answer matches Err(e) && call_ensures(derive, (i as usize,), Err(e))
    } else {
        call_ensures(compile, (i as usize, None::<T>), answer)
    }
}

/// The values of the first arguments, as they were answered.
pub open spec fn args_compiled<
    T,
    V,
    E,
    D: Fn(usize) -> Result<Option<T>, E>,
    C: Fn(usize, Option<T>) -> Result<Option<V>, E>,
>(derive: D, compile: C, args: Seq<Expr>, v: Seq<V>) -> bool {
    &&& v.len() <= args.len()
    &&& forall|i: int|
        0 <= i < v.len() ==> arg_answer(derive, compile, args, i, Ok(Some(#[trigger] v[i])))
}

/// The first arguments have the values `v`, and the one behind them has none.
pub open spec fn arg_refused<
    T,
    V,
    E,
    D: Fn(usize) -> Result<Option<T>, E>,
    C: Fn(usize, Option<T>) -> Result<Option<V>, E>,
>(derive: D, compile: C, args: Seq<Expr>, v: Seq<V>, e: TypingError<E>) -> bool {
    let k = v.len() as int;
    &&& k < args.len()
    &&& args_compiled(derive, compile, args, v)
    &&& match e {
        TypingError::Elsewhere(x) => arg_answer(derive, compile, args, k, Err(x)),
        TypingError::NoArgument(j) => j == k && arg_answer(derive, compile, args, k, Ok(None)),
        _ => false,
    }
}

/// Compile the arguments of a call, in order. The first argument that has no value
/// ends it.
pub fn compile_call_args<
    T,
    V,
    E,
    D: Fn(usize) -> Result<Option<T>, E>,
    C: Fn(usize, Option<T>) -> Result<Option<V>, E>,
>(args: &Vec<Expr>, derive: D, compile: C) -> (r: Result<Vec<V>, TypingError<E>>)
    requires
        forall|i: usize| #[trigger] call_requires(derive, (i,)),
        forall|i: usize, t: Option<T>| #[trigger] call_requires(compile, (i, t)),
    ensures
        match r {
            Ok(v) => v@.len() == args@.len() && args_compiled(derive, compile, args@, v@),
            Err(e) => exists|v: Seq<V>| #[trigger] arg_refused(derive, compile, args@, v, e),
        },
{
    let mut out: Vec<V> = Vec::new();
    let mut i: usize = 0;
    while i < args.len()
        invariant
            forall|i: usize| #[trigger] call_requires(derive, (i,)),
            forall|i: usize, t: Option<T>| #[trigger] call_requires(compile, (i, t)),
            i <= args@.len(),
            out@.len() == i,
            args_compiled(derive, compile, args@, out@),
        decreases args@.len() - i,
    {
        let ghost before = out@;
        let expected: Option<T> = if needs_expected_type(&args[i]) {
            match derive(i) {
                Ok(t) => t,
                Err(x) => {
                    let e = TypingError::Elsewhere(x);
                    assert(call_ensures(derive, ((i as int) as usize,), Err(x)));
                    assert(arg_refused(derive, compile, args@, before, e));
                    return Err(e);
                },
            }
        } else {
            None
        };
        let ghost asked = expected;
        let answer = compile(i, expected);
        assert(call_ensures(compile, ((i as int) as usize, asked), answer));
        assert(arg_answer(derive, compile, args@, i as int, answer));
        match answer {
            Ok(Some(v)) => {
                out.push(v);
                assert forall|j: int| 0 <= j < out@.len() implies arg_answer(
                    derive,
                    compile,
                    args@,
                    j,
                    Ok(Some(#[trigger] out@[j])),
                ) by {
                    if j < i {
                        assert(out@[j] == before[j]);
                    }
                }
            },
            Ok(None) => {
                let e = TypingError::NoArgument(i);
                assert(arg_refused(derive, compile, args@, before, e));
                return Err(e);
            },
            Err(x) => {
                let e = TypingError::Elsewhere(x);
                assert(arg_refused(derive, compile, args@, before, e));
                return Err(e);
            },
        }
        i = i + 1;
    }
    Ok(out)
}

} // verus!
