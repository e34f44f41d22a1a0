//! What expanding aliases and filling in constants keep, and what they replace.
use vstd::prelude::*;
use crate::frontend::aliases::{
    AliasErrorT,
    AliasT,
    ArgT,
    ArgTree,
    ArgsT,
    ExprT,
    ExprTree,
    FormalT,
    PathT,
    PathTree,
    SegmentT,
    SubstT,
    TypeT,
    TypeTree,
    WordsT,
    Wrapper,
};
use crate::frontend::aliases;

verus! {

/// The contents of a type keep its form, and the forms in it.
pub proof fn lemma_contents(
    w: Wrapper,
    e: TypeTree,
    n: ExprTree,
    v: Vec<TypeTree>,
    p: PathTree,
    i: int,
    k: int,
)
    requires
        0 <= i < v@.len(),
        0 <= k < p.segments@.len(),
    ensures
        TypeTree::Wrap(w, Box::new(e))@ == TypeT::Wrap(w, Box::new(e@)),
        TypeTree::Array(Box::new(e), n)@ == TypeT::Array(Box::new(e@), n@),
        TypeTree::Tuple(v)@ matches TypeT::Tuple(s) && s.len() == v@.len() && s[i] == v@[i]@,
        TypeTree::Path(p)@ == TypeT::Path(p@),
        p@.leading == p.leading,
        p@.qself is Some <==> p.qself is Some,
        p@.segments.len() == p.segments@.len(),
        p@.segments[k].name == p.segments@[k].name@,
        p@.segments[k].args == p.segments@[k].args@,
{
    assert(aliases::type_view(TypeTree::Tuple(v)) == TypeT::Tuple(aliases::types_view(v@)));
    assert(aliases::types_view(v@).len() == v@.len());
    assert(aliases::types_view(v@)[i] == aliases::type_view(v@[i]));
}

/// The contents of arguments and of expressions keep their places.
pub proof fn lemma_places(a: Seq<ArgTree>, e: Seq<ExprTree>, i: int)
    requires
        0 <= i,
    ensures
        aliases::arg_views(a).len() == a.len(),
        i < a.len() ==> aliases::arg_views(a)[i] == a[i]@,
        aliases::exprs_view(e).len() == e.len(),
        i < e.len() ==> aliases::exprs_view(e)[i] == e[i]@,
{
    if i < a.len() {
        assert(aliases::arg_views(a)[i] == aliases::arg_view(a[i]));
    }
    if i < e.len() {
        assert(aliases::exprs_view(e)[i] == aliases::expr_view(e[i]));
    }
}

// ---------------------------------------------------------------------------
// Types that name no alias
// ---------------------------------------------------------------------------

/// No alias has this name.
pub open spec fn no_alias(name: Seq<char>, al: Seq<AliasT>) -> bool {
    forall|i: int| 0 <= i < al.len() ==> (#[trigger] al[i]).name != name
}

/// No alias is named in a type: not by the last name of a path, nor in the arguments of
/// that name.
pub open spec fn names_none(t: TypeT, al: Seq<AliasT>) -> bool
    decreases t,
{
    match t {
        TypeT::Path(p) => p.segments.len() == 0 || (no_alias(p.segments.last().name, al) && match
        p.segments.last().args {
            ArgsT::Angle(args) => args_name_none(args, al),
            _ => true,
        }),
        TypeT::Wrap(_, e) => names_none(*e, al),
        TypeT::Tuple(s) => all_name_none(s, al),
        TypeT::Array(e, _) => names_none(*e, al),
        TypeT::Other(_) => true,
    }
}

/// No alias is named in some types.
pub open spec fn all_name_none(s: Seq<TypeT>, al: Seq<AliasT>) -> bool
    decreases s,
{
    forall|i: int| 0 <= i < s.len() ==> names_none(#[trigger] s[i], al)
}

/// No alias is named in some generic arguments.
pub open spec fn args_name_none(s: Seq<ArgT>, al: Seq<AliasT>) -> bool
    decreases s,
{
    forall|i: int|
        0 <= i < s.len() ==> match #[trigger] s[i] {
            ArgT::Type(t) => names_none(t, al),
            _ => true,
        }
}

proof fn lemma_not_found(name: Seq<char>, al: Seq<AliasT>, n: int)
    requires
        no_alias(name, al),
    ensures
        aliases::find_alias(al, name, n) is None,
    decreases n,
{
    if 0 < n <= al.len() {
        assert(al[n - 1].name != name);
        lemma_not_found(name, al, n - 1);
    }
}

// ---------------------------------------------------------------------------
// Parameters and what they stand for
// ---------------------------------------------------------------------------

/// A type in which parameters are replaced by what they stand for.
pub open spec fn replaced(t: TypeT, s: SubstT) -> TypeT
    decreases t,
{
    match t {
        TypeT::Path(p) => match aliases::param_type(p, s) {
            Some(r) => r,
            None => TypeT::Path(replaced_path(p, s)),
        },
        TypeT::Wrap(w, e) => TypeT::Wrap(w, Box::new(replaced(*e, s))),
        TypeT::Tuple(l) => TypeT::Tuple(replaced_list(l, s)),
        TypeT::Array(e, n) => TypeT::Array(
            Box::new(replaced(*e, s)),
            aliases::fill_expr(n, s.consts),
        ),
        TypeT::Other(_) => t,
    }
}

/// A path in whose last arguments parameters are replaced.
pub open spec fn replaced_path(p: PathT, s: SubstT) -> PathT
    decreases p,
{
    if p.segments.len() == 0 {
        p
    } else {
        match p.segments.last().args {
            ArgsT::Angle(args) => PathT {
                segments: p.segments.update(
                    p.segments.len() - 1,
                    SegmentT {
                        args: ArgsT::Angle(replaced_args(args, s)),
                        ..p.segments.last()
                    },
                ),
                ..p
            },
            _ => p,
        }
    }
}

/// Types in which parameters are replaced.
pub open spec fn replaced_list(l: Seq<TypeT>, s: SubstT) -> Seq<TypeT>
    decreases l,
{
    Seq::new(
        l.len(),
        |i: int|
            if 0 <= i < l.len() {
                replaced(l[i], s)
            } else {
                TypeT::Tuple(seq![])
            },
    )
}

/// Generic arguments in which parameters are replaced. The name of a constant is
/// replaced whole; a path that stands for it looks like a type.
pub open spec fn replaced_args(l: Seq<ArgT>, s: SubstT) -> Seq<ArgT>
    decreases l,
{
    Seq::new(
        l.len(),
        |i: int|
            if 0 <= i < l.len() {
                match aliases::named_const(l[i], s) {
                    Some(ExprT::Path(p)) => ArgT::Type(TypeT::Path(p)),
                    Some(e) => ArgT::Const(e),
                    None => match l[i] {
                        ArgT::Type(t) => ArgT::Type(replaced(t, s)),
                        ArgT::Const(e) => ArgT::Const(aliases::fill_expr(e, s.consts)),
                        ArgT::Other(_) => l[i],
                    },
                }
            } else {
                ArgT::Type(TypeT::Tuple(seq![]))
            },
    )
}

// ---------------------------------------------------------------------------
// Constants
// ---------------------------------------------------------------------------

/// Where there are no constants, filling them in changes nothing.
pub proof fn lemma_fill_nothing(t: TypeT)
    ensures
        aliases::fill_type(t, seq![]) == t,
    decreases t,
{
    match t {
        TypeT::Path(p) => lemma_fill_no_path(p),
        TypeT::Wrap(_, e) => lemma_fill_nothing(*e),
        TypeT::Tuple(s) => {
            assert forall|i: int| 0 <= i < s.len() implies aliases::fill_type(#[trigger] s[i], seq![])
                == s[i] by {
                lemma_fill_nothing(s[i]);
            }
            lemma_fill_no_types(s, s.len() as int);
            assert(s.take(s.len() as int) =~= s);
        },
        TypeT::Array(e, n) => {
            lemma_fill_nothing(*e);
            lemma_fill_no_expr(n);
        },
        TypeT::Other(w) => lemma_fill_no_words(w),
    }
}

proof fn lemma_fill_no_types(s: Seq<TypeT>, n: int)
    requires
        0 <= n <= s.len(),
        forall|i: int| 0 <= i < s.len() ==> aliases::fill_type(#[trigger] s[i], seq![]) == s[i],
    ensures
        aliases::fill_types(s, seq![], n) == s.take(n),
    decreases n,
{
    if n > 0 {
        lemma_fill_no_types(s, n - 1);
        assert(s.take(n) =~= s.take(n - 1).push(s[n - 1]));
    } else {
        assert(s.take(0) =~= seq![]);
    }
}

proof fn lemma_fill_no_path(p: PathT)
    ensures
        aliases::fill_path(p, seq![]) == p,
    decreases p,
{
    match p.qself {
        Some(q) => lemma_fill_no_words(q.ty),
        None => {},
    }
    let s = p.segments;
    assert forall|i: int| 0 <= i < s.len() implies aliases::fill_args((#[trigger] s[i]).args, seq![])
        == s[i].args by {
        lemma_fill_no_args(s[i].args);
    }
    lemma_fill_no_segments(s, s.len() as int);
    assert(s.take(s.len() as int) =~= s);
}

proof fn lemma_fill_no_segments(s: Seq<SegmentT>, n: int)
    requires
        0 <= n <= s.len(),
        forall|i: int|
            0 <= i < s.len() ==> aliases::fill_args((#[trigger] s[i]).args, seq![]) == s[i].args,
    ensures
        aliases::fill_segments(s, seq![], n) == s.take(n),
    decreases n,
{
    if n > 0 {
        lemma_fill_no_segments(s, n - 1);
        assert(s.take(n) =~= s.take(n - 1).push(s[n - 1]));
    } else {
        assert(s.take(0) =~= seq![]);
    }
}

proof fn lemma_fill_no_args(a: ArgsT)
    ensures
        aliases::fill_args(a, seq![]) == a,
    decreases a,
{
    match a {
        ArgsT::Angle(s) => {
            assert forall|i: int| 0 <= i < s.len() implies aliases::fill_arg(#[trigger] s[i], seq![])
                == s[i] by {
                match s[i] {
                    ArgT::Type(t) => lemma_fill_nothing(t),
                    ArgT::Const(e) => lemma_fill_no_expr(e),
                    ArgT::Other(w) => lemma_fill_no_words(w),
                }
            }
            lemma_fill_no_list(s, s.len() as int);
            assert(s.take(s.len() as int) =~= s);
        },
        ArgsT::Parenthesized(w) => lemma_fill_no_words(w),
        ArgsT::Absent => {},
    }
}

proof fn lemma_fill_no_list(s: Seq<ArgT>, n: int)
    requires
        0 <= n <= s.len(),
        forall|i: int| 0 <= i < s.len() ==> aliases::fill_arg(#[trigger] s[i], seq![]) == s[i],
    ensures
        aliases::fill_list(s, seq![], n) == s.take(n),
    decreases n,
{
    if n > 0 {
        lemma_fill_no_list(s, n - 1);
        assert(s.take(n) =~= s.take(n - 1).push(s[n - 1]));
    } else {
        assert(s.take(0) =~= seq![]);
    }
}

proof fn lemma_fill_no_words(w: WordsT)
    ensures
        aliases::fill_words(w, seq![]) == w,
    decreases w,
{
    let s = w.parts;
    assert forall|i: int| 0 <= i < s.len() implies aliases::fill_expr(#[trigger] s[i], seq![]) == s[i] by {
        lemma_fill_no_expr(s[i]);
    }
    lemma_fill_no_exprs(s, s.len() as int);
    assert(s.take(s.len() as int) =~= s);
}

proof fn lemma_fill_no_exprs(s: Seq<ExprT>, n: int)
    requires
        0 <= n <= s.len(),
        forall|i: int| 0 <= i < s.len() ==> aliases::fill_expr(#[trigger] s[i], seq![]) == s[i],
    ensures
        aliases::fill_exprs(s, seq![], n) == s.take(n),
    decreases n,
{
    if n > 0 {
        lemma_fill_no_exprs(s, n - 1);
        assert(s.take(n) =~= s.take(n - 1).push(s[n - 1]));
    } else {
        assert(s.take(0) =~= seq![]);
    }
}

proof fn lemma_fill_no_expr(e: ExprT)
    ensures
        aliases::fill_expr(e, seq![]) == e,
    decreases e,
{
    match e {
        ExprT::Path(p) => lemma_fill_no_path(p),
        ExprT::Node(h, s) => {
            assert forall|i: int| 0 <= i < s.len() implies aliases::fill_expr(
                #[trigger] s[i],
                seq![],
            ) == s[i] by {
                lemma_fill_no_expr(s[i]);
            }
            lemma_fill_no_exprs(s, s.len() as int);
            assert(s.take(s.len() as int) =~= s);
        },
    }
}

/// The last entry with a name is the one that is found.
proof fn lemma_lookup_last<T>(s: Seq<(Seq<char>, T)>, i: int, n: int)
    requires
        0 <= i < n <= s.len(),
        forall|j: int| i < j < n ==> (#[trigger] s[j]).0 != s[i].0,
    ensures
        aliases::lookup(s, s[i].0, n) == Some(s[i].1),
    decreases n,
{
    if i < n - 1 {
        assert(s[n - 1].0 != s[i].0);
        lemma_lookup_last(s, i, n - 1);
    }
}

/// Where an expression is one plain name that a constant has, and no later one, it is
/// replaced by the constant's value; where no constant has the name, it stays.
pub proof fn lemma_fill_name(name: Seq<char>, leading: bool, c: Seq<(Seq<char>, ExprT)>, i: int)
    requires
        0 <= i < c.len(),
        c[i].0 == name,
        forall|j: int| i < j < c.len() ==> (#[trigger] c[j]).0 != name,
    ensures
        aliases::fill_expr(
            ExprT::Path(
                PathT {
                    qself: None,
                    leading,
                    segments: seq![SegmentT { name, args: ArgsT::Absent }],
                },
            ),
            c,
        ) == c[i].1,
{
    lemma_lookup_last(c, i, c.len() as int);
}

/// Filling in goes through every form: the form stays, its parts are filled in.
pub proof fn lemma_fill_forms(
    w: Wrapper,
    e: TypeT,
    n: ExprT,
    s: Seq<TypeT>,
    i: int,
    c: Seq<(Seq<char>, ExprT)>,
)
    requires
        0 <= i < s.len(),
    ensures
        aliases::fill_type(TypeT::Wrap(w, Box::new(e)), c) == TypeT::Wrap(
            w,
            Box::new(aliases::fill_type(e, c)),
        ),
        aliases::fill_type(TypeT::Array(Box::new(e), n), c) == TypeT::Array(
            Box::new(aliases::fill_type(e, c)),
            aliases::fill_expr(n, c),
        ),
        aliases::fill_type(TypeT::Tuple(s), c) matches TypeT::Tuple(r) && r.len() == s.len() && r[i]
            == aliases::fill_type(s[i], c),
{
    lemma_fill_element(s, c, i, s.len() as int);
}

proof fn lemma_fill_element(s: Seq<TypeT>, c: Seq<(Seq<char>, ExprT)>, i: int, n: int)
    requires
        0 <= n <= s.len(),
    ensures
        aliases::fill_types(s, c, n).len() == n,
        0 <= i < n ==> aliases::fill_types(s, c, n)[i] == aliases::fill_type(s[i], c),
    decreases n,
{
    if n > 0 {
        lemma_fill_element(s, c, i, n - 1);
    }
}

// ---------------------------------------------------------------------------
// Expanding
// ---------------------------------------------------------------------------

/// The form around a type stays: what is expanded is the type in it.
pub proof fn lemma_form_stays(
    w: Wrapper,
    e: TypeT,
    n: ExprT,
    al: Seq<AliasT>,
    open: Seq<Seq<char>>,
    steps: nat,
)
    requires
        open.len() <= 64,
    ensures
        aliases::expanded(TypeT::Wrap(w, Box::new(e)), al, open, steps + 1) == (
        match aliases::expanded(e, al, open, steps) {
            Ok(x) => Ok::<TypeT, AliasErrorT>(TypeT::Wrap(w, Box::new(x))),
            Err(err) => Err(err),
        }),
        aliases::expanded(TypeT::Array(Box::new(e), n), al, open, steps + 1) == (
        match aliases::expanded(e, al, open, steps) {
            Ok(x) => Ok::<TypeT, AliasErrorT>(TypeT::Array(Box::new(x), n)),
            Err(err) => Err(err),
        }),
{
}

/// The types of a tuple are expanded each, in their places.
pub proof fn lemma_tuple_stays(
    s: Seq<TypeT>,
    al: Seq<AliasT>,
    open: Seq<Seq<char>>,
    steps: nat,
    i: int,
)
    requires
        0 <= i < s.len(),
        aliases::expanded(TypeT::Tuple(s), al, open, steps) is Ok,
    ensures
        aliases::expanded(TypeT::Tuple(s), al, open, steps)->Ok_0 matches TypeT::Tuple(r) && r.len()
            == s.len() && aliases::expanded(s[i], al, open, steps) == Ok::<TypeT, AliasErrorT>(r[i]),
{
    lemma_element(s, al, open, (steps - 1) as nat, i, s.len() as int);
    aliases::lemma_more_steps(s[i], al, open, (steps - 2) as nat, steps);
}

proof fn lemma_element(
    s: Seq<TypeT>,
    al: Seq<AliasT>,
    open: Seq<Seq<char>>,
    k: nat,
    i: int,
    n: int,
)
    requires
        0 <= n <= s.len(),
    ensures
        aliases::expanded_list(s, al, open, k, n) matches Ok(x) ==> x.len() == n && (0 <= i < n
            ==> k > 0 && aliases::expanded(s[i], al, open, (k - 1) as nat) == Ok::<
            TypeT,
            AliasErrorT,
        >(x[i])),
    decreases n,
{
    if n > 0 {
        lemma_element(s, al, open, k, i, n - 1);
    }
}

/// A type in which no alias is named stays as it is.
pub proof fn lemma_unchanged(t: TypeT, al: Seq<AliasT>, open: Seq<Seq<char>>, steps: nat)
    requires
        names_none(t, al),
    ensures
        match aliases::expanded(t, al, open, steps) {
            Ok(x) => x == t,
            Err(e) => e == AliasErrorT::TooDeep || e == AliasErrorT::OutOfSteps,
        },
    decreases steps, 0int,
{
    if steps > 0 && open.len() <= 64 {
        let k = (steps - 1) as nat;
        match t {
            TypeT::Path(p) => lemma_path_unchanged(p, al, open, k),
            TypeT::Wrap(_, e) => lemma_unchanged(*e, al, open, k),
            TypeT::Tuple(s) => {
                lemma_list_unchanged(s, al, open, k, s.len() as int);
                assert(s.take(s.len() as int) =~= s);
            },
            TypeT::Array(e, _) => lemma_unchanged(*e, al, open, k),
            TypeT::Other(_) => {},
        }
    }
}

proof fn lemma_list_unchanged(
    s: Seq<TypeT>,
    al: Seq<AliasT>,
    open: Seq<Seq<char>>,
    k: nat,
    n: int,
)
    requires
        all_name_none(s, al),
        0 <= n <= s.len(),
    ensures
        match aliases::expanded_list(s, al, open, k, n) {
            Ok(x) => x == s.take(n),
            Err(e) => e == AliasErrorT::TooDeep || e == AliasErrorT::OutOfSteps,
        },
    decreases k, n,
{
    if n > 0 {
        lemma_list_unchanged(s, al, open, k, n - 1);
        assert(s.take(n) =~= s.take(n - 1).push(s[n - 1]));
        if k > 0 {
            assert(names_none(s[n - 1], al));
            lemma_unchanged(s[n - 1], al, open, (k - 1) as nat);
        }
    } else {
        assert(s.take(0) =~= seq![]);
    }
}

proof fn lemma_path_unchanged(p: PathT, al: Seq<AliasT>, open: Seq<Seq<char>>, k: nat)
    requires
        names_none(TypeT::Path(p), al),
    ensures
        match aliases::expanded_path(p, al, open, k) {
            Ok(x) => x == TypeT::Path(p),
            Err(e) => e == AliasErrorT::TooDeep || e == AliasErrorT::OutOfSteps,
        },
    decreases k, 0int,
{
    if p.segments.len() > 0 {
        let last = p.segments.last();
        lemma_not_found(last.name, al, al.len() as int);
        match last.args {
            ArgsT::Angle(args) => {
                if k > 0 {
                    let n = args.len() as int;
                    lemma_replace_no_args(args);
                    lemma_args_replaced(args, aliases::no_subst(), al, open, (k - 1) as nat, n);
                    assert(args.take(n) =~= args);
                    assert(p.segments.drop_last().push(last) =~= p.segments);
                }
            },
            _ => {},
        }
    }
}

proof fn lemma_replace_no_args(l: Seq<ArgT>)
    ensures
        replaced_args(l, aliases::no_subst()) == l,
    decreases l,
{
    let s = aliases::no_subst();
    assert forall|i: int| 0 <= i < l.len() implies #[trigger] replaced_args(l, s)[i] == l[i] by {
        match l[i] {
            ArgT::Type(t) => lemma_replace_nothing(t),
            ArgT::Const(e) => lemma_fill_no_expr(e),
            ArgT::Other(_) => {},
        }
    }
    assert(replaced_args(l, s) =~= l);
}

/// Where parameters stand for nothing, replacing them changes nothing.
proof fn lemma_replace_nothing(t: TypeT)
    ensures
        replaced(t, aliases::no_subst()) == t,
    decreases t,
{
    let s = aliases::no_subst();
    match t {
        TypeT::Path(p) => {
            if p.segments.len() > 0 {
                match p.segments.last().args {
                    ArgsT::Angle(args) => {
                        lemma_replace_no_args(args);
                        assert(replaced_path(p, s).segments =~= p.segments);
                    },
                    _ => {},
                }
            }
        },
        TypeT::Wrap(_, e) => lemma_replace_nothing(*e),
        TypeT::Tuple(l) => {
            assert forall|i: int| 0 <= i < l.len() implies #[trigger] replaced_list(l, s)[i] == l[i] by {
                lemma_replace_nothing(l[i]);
            }
            assert(replaced_list(l, s) =~= l);
        },
        TypeT::Array(e, n) => {
            lemma_replace_nothing(*e);
            lemma_fill_no_expr(n);
        },
        TypeT::Other(_) => {},
    }
}

/// What stands for an alias: its type, in which each parameter is replaced by what it
/// stands for and nothing else changes, as long as that names no alias itself.
pub proof fn lemma_replaced(
    t: TypeT,
    s: SubstT,
    al: Seq<AliasT>,
    open: Seq<Seq<char>>,
    steps: nat,
)
    requires
        names_none(replaced(t, s), al),
    ensures
        match aliases::substituted(t, s, al, open, steps) {
            Ok(x) => x == replaced(t, s),
            Err(e) => e == AliasErrorT::TooDeep || e == AliasErrorT::OutOfSteps,
        },
    decreases steps, 0int,
{
    if steps > 0 {
        let k = (steps - 1) as nat;
        match t {
            TypeT::Path(p) => match aliases::param_type(p, s) {
                Some(r) => lemma_unchanged(r, al, open, k),
                None => {
                    lemma_path_replaced(p, s, al, open, k);
                    lemma_unchanged(TypeT::Path(replaced_path(p, s)), al, open, k);
                },
            },
            TypeT::Wrap(_, e) => lemma_replaced(*e, s, al, open, k),
            TypeT::Tuple(l) => {
                let r = replaced_list(l, s);
                assert(replaced(t, s) == TypeT::Tuple(r));
                assert(all_name_none(r, al));
                assert forall|i: int| 0 <= i < l.len() implies names_none(
                    replaced(#[trigger] l[i], s),
                    al,
                ) by {
                    assert(names_none(r[i], al));
                }
                lemma_list_replaced(l, s, al, open, k, l.len() as int);
                assert(r.take(l.len() as int) =~= r);
            },
            TypeT::Array(e, _) => lemma_replaced(*e, s, al, open, k),
            TypeT::Other(_) => {},
        }
    }
}

proof fn lemma_list_replaced(
    l: Seq<TypeT>,
    s: SubstT,
    al: Seq<AliasT>,
    open: Seq<Seq<char>>,
    k: nat,
    n: int,
)
    requires
        forall|i: int| 0 <= i < l.len() ==> names_none(replaced(#[trigger] l[i], s), al),
        0 <= n <= l.len(),
    ensures
        match aliases::substituted_list(l, s, al, open, k, n) {
            Ok(x) => x == replaced_list(l, s).take(n),
            Err(e) => e == AliasErrorT::TooDeep || e == AliasErrorT::OutOfSteps,
        },
    decreases k, n,
{
    let r = replaced_list(l, s);
    if n > 0 {
        lemma_list_replaced(l, s, al, open, k, n - 1);
        assert(r.take(n) =~= r.take(n - 1).push(r[n - 1]));
        if k > 0 {
            assert(names_none(replaced(l[n - 1], s), al));
            lemma_replaced(l[n - 1], s, al, open, (k - 1) as nat);
        }
    } else {
        assert(r.take(0) =~= seq![]);
    }
}

proof fn lemma_path_replaced(
    p: PathT,
    s: SubstT,
    al: Seq<AliasT>,
    open: Seq<Seq<char>>,
    k: nat,
)
    requires
        names_none(TypeT::Path(replaced_path(p, s)), al),
    ensures
        match aliases::substituted_path(p, s, al, open, k) {
            Ok(x) => x == replaced_path(p, s),
            Err(e) => e == AliasErrorT::TooDeep || e == AliasErrorT::OutOfSteps,
        },
    decreases k, 0int,
{
    if p.segments.len() > 0 {
        match p.segments.last().args {
            ArgsT::Angle(args) => {
                if k > 0 {
                    let n = args.len() as int;
                    let r = replaced_args(args, s);
                    assert(replaced_path(p, s).segments.last().args == ArgsT::Angle(r));
                    lemma_args_replaced(args, s, al, open, (k - 1) as nat, n);
                    assert(r.take(n) =~= r);
                    let last = SegmentT { args: ArgsT::Angle(r), ..p.segments.last() };
                    assert(p.segments.drop_last().push(last) =~= p.segments.update(
                        p.segments.len() - 1,
                        last,
                    ));
                }
            },
            _ => {},
        }
    }
}

proof fn lemma_args_replaced(
    l: Seq<ArgT>,
    s: SubstT,
    al: Seq<AliasT>,
    open: Seq<Seq<char>>,
    k: nat,
    n: int,
)
    requires
        args_name_none(replaced_args(l, s), al),
        0 <= n <= l.len(),
    ensures
        match aliases::substituted_args(l, s, al, open, k, n) {
            Ok(x) => x == replaced_args(l, s).take(n),
            Err(e) => e == AliasErrorT::TooDeep || e == AliasErrorT::OutOfSteps,
        },
    decreases k, n,
{
    let r = replaced_args(l, s);
    if n > 0 {
        lemma_args_replaced(l, s, al, open, k, n - 1);
        assert(r.take(n) =~= r.take(n - 1).push(r[n - 1]));
        if k > 0 {
            let a = l[n - 1];
            let got = aliases::substituted_arg(a, s, al, open, (k - 1) as nat);
            match aliases::named_const(a, s) {
                Some(e) => {
                    assert(got == Ok::<ArgT, AliasErrorT>(aliases::const_arg(e)));
                    assert(r[n - 1] == aliases::const_arg(e));
                },
                None => match a {
                    ArgT::Type(t) => {
                        assert(r[n - 1] == ArgT::Type(replaced(t, s)));
                        if k > 1 {
                            lemma_replaced(t, s, al, open, (k - 2) as nat);
                        }
                    },
                    ArgT::Const(e) => {
                        assert(got == Ok::<ArgT, AliasErrorT>(r[n - 1]));
                    },
                    ArgT::Other(_) => {
                        assert(got == Ok::<ArgT, AliasErrorT>(r[n - 1]));
                    },
                },
            }
        }
    } else {
        assert(r.take(0) =~= seq![]);
    }
}

/// A path that names an alias is replaced by what the alias stands for, with the
/// alias's parameters replaced by the path's arguments, as long as that names no alias
/// itself.
pub proof fn lemma_alias_replaced(
    p: PathT,
    al: Seq<AliasT>,
    i: int,
    s: SubstT,
    open: Seq<Seq<char>>,
    steps: nat,
)
    requires
        p.segments.len() > 0,
        0 <= i < al.len(),
        al[i].name == p.segments.last().name,
        forall|j: int| i < j < al.len() ==> (#[trigger] al[j]).name != al[i].name,
        aliases::substitution(al[i], p.segments.last().args) == Ok::<SubstT, AliasErrorT>(s),
        names_none(replaced(al[i].ty, s), al),
        !open.contains(al[i].name),
    ensures
        match aliases::expanded(TypeT::Path(p), al, open, steps) {
            Ok(x) => x == replaced(al[i].ty, s),
            Err(e) => e == AliasErrorT::TooDeep || e == AliasErrorT::OutOfSteps,
        },
{
    lemma_alias_found(al, i, al.len() as int);
    if steps > 0 {
        let inner = aliases::expanded_path(p, al, open, (steps - 1) as nat);
        assert(steps == 1 ==> inner == Err::<TypeT, AliasErrorT>(AliasErrorT::OutOfSteps));
    }
    if steps > 1 {
        let k = (steps - 2) as nat;
        let inner = open.push(al[i].name);
        lemma_replaced(al[i].ty, s, al, inner, k);
        lemma_unchanged(replaced(al[i].ty, s), al, inner, k);
    }
}

proof fn lemma_alias_found(al: Seq<AliasT>, i: int, n: int)
    requires
        0 <= i < n <= al.len(),
        forall|j: int| i < j < al.len() ==> (#[trigger] al[j]).name != al[i].name,
    ensures
        aliases::find_alias(al, al[i].name, n) == Some(al[i]),
    decreases n,
{
    if i < n - 1 {
        assert(al[n - 1].name != al[i].name);
        lemma_alias_found(al, i, n - 1);
    }
}

/// An alias that is open already stands for itself: that is an error.
pub proof fn lemma_recursive(p: PathT, al: Seq<AliasT>, i: int, open: Seq<Seq<char>>, steps: nat)
    requires
        p.segments.len() > 0,
        0 <= i < al.len(),
        al[i].name == p.segments.last().name,
        open.contains(al[i].name),
        open.len() <= 64,
        steps > 0,
    ensures
        aliases::expanded(TypeT::Path(p), al, open, steps) == Err::<TypeT, AliasErrorT>(
            AliasErrorT::Recursive(al[i].name),
        ),
{
    lemma_alias_some(al, i, al.len() as int);
    assert(aliases::expanded_path(p, al, open, (steps - 1) as nat) is Err);
}

proof fn lemma_alias_some(al: Seq<AliasT>, i: int, n: int)
    requires
        0 <= i < n <= al.len(),
    ensures
        aliases::find_alias(al, al[i].name, n) is Some,
    decreases n,
{
    if i < n - 1 {
        lemma_alias_some(al, i, n - 1);
    }
}

// ---------------------------------------------------------------------------
// Parameters and arguments
// ---------------------------------------------------------------------------

/// Each parameter stands for the argument at its place, where no later parameter has
/// its name: a type for a type, a constant or a path for a constant.
pub proof fn lemma_bound(name: Seq<char>, f: Seq<FormalT>, a: Seq<ArgT>, i: int, n: int)
    requires
        0 <= i < n <= f.len(),
        f.len() == a.len(),
        aliases::bound(name, f, a, n) is Ok,
        forall|j: int| i < j < n ==> #[trigger] f[j] != f[i],
    ensures
        ({
            let s = aliases::bound(name, f, a, n)->Ok_0;
            match f[i] {
                FormalT::Type(p) => a[i] matches ArgT::Type(t) && aliases::lookup(
                    s.types,
                    p,
                    s.types.len() as int,
                ) == Some(t),
                FormalT::Const(p) => aliases::lookup(s.consts, p, s.consts.len() as int) == (
                match a[i] {
                    ArgT::Const(e) => Some(e),
                    ArgT::Type(TypeT::Path(path)) => Some(ExprT::Path(path)),
                    _ => None,
                }) && !(a[i] is Other),
                FormalT::Lifetime(_) => true,
            }
        }),
    decreases n,
{
    let s = aliases::bound(name, f, a, n)->Ok_0;
    if i < n - 1 {
        lemma_bound(name, f, a, i, n - 1);
        let before = aliases::bound(name, f, a, n - 1)->Ok_0;
        assert(f[n - 1] != f[i]);
        match f[i] {
            FormalT::Type(p) => {
                if s.types != before.types {
                    assert(s.types.drop_last() =~= before.types);
                }
                lemma_lookup_behind(before.types, s.types, p);
            },
            FormalT::Const(p) => {
                if s.consts != before.consts {
                    assert(s.consts.drop_last() =~= before.consts);
                }
                lemma_lookup_behind(before.consts, s.consts, p);
            },
            FormalT::Lifetime(_) => {},
        }
    }
}

proof fn lemma_lookup_behind<T>(a: Seq<(Seq<char>, T)>, b: Seq<(Seq<char>, T)>, name: Seq<char>)
    requires
        b == a || (b.len() == a.len() + 1 && b.drop_last() == a && b.last().0 != name),
    ensures
        aliases::lookup(b, name, b.len() as int) == aliases::lookup(a, name, a.len() as int),
{
    if b != a {
        lemma_lookup_prefix(a, b, name, a.len() as int);
    }
}

proof fn lemma_lookup_prefix<T>(
    a: Seq<(Seq<char>, T)>,
    b: Seq<(Seq<char>, T)>,
    name: Seq<char>,
    n: int,
)
    requires
        n <= a.len() <= b.len(),
        forall|j: int| 0 <= j < a.len() ==> a[j] == #[trigger] b[j],
    ensures
        aliases::lookup(b, name, n) == aliases::lookup(a, name, n),
    decreases n,
{
    if n > 0 {
        assert(a[n - 1] == b[n - 1]);
        lemma_lookup_prefix(a, b, name, n - 1);
    }
}

/// Lifetimes take no arguments; the other parameters keep their order.
pub proof fn lemma_formals(s: Seq<FormalT>)
    ensures
        aliases::formals(s, s.len() as int) == s.filter(|f: FormalT| !(f is Lifetime)),
    decreases s.len(),
{
    reveal(Seq::filter);
    if s.len() > 0 {
        lemma_formals(s.drop_last());
        lemma_formals_prefix(s, s.drop_last(), s.len() - 1);
    }
}

proof fn lemma_formals_prefix(s: Seq<FormalT>, t: Seq<FormalT>, n: int)
    requires
        n <= t.len() <= s.len(),
        forall|j: int| 0 <= j < t.len() ==> s[j] == #[trigger] t[j],
    ensures
        aliases::formals(s, n) == aliases::formals(t, n),
    decreases n,
{
    if n > 0 {
        assert(s[n - 1] == t[n - 1]);
        lemma_formals_prefix(s, t, n - 1);
    }
}

/// The wrong number of arguments, or arguments in parentheses, are refused.
pub proof fn lemma_refused_arguments(alias: AliasT, args: Seq<ArgT>, w: WordsT)
    ensures
        aliases::substitution(alias, ArgsT::Parenthesized(w)) == Err::<SubstT, AliasErrorT>(
            AliasErrorT::Parenthesized(alias.name),
        ),
        ({
            let n = alias.params.filter(|f: FormalT| !(f is Lifetime)).len();
            n != args.len() ==> aliases::substitution(alias, ArgsT::Angle(args)) == Err::<
                SubstT,
                AliasErrorT,
            >(AliasErrorT::WrongCount(alias.name, n, args.len()))
        }),
{
    lemma_formals(alias.params);
}

} // verus!
