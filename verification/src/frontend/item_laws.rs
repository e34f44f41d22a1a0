//! What is read off items, paths, attributes and closures.
use vstd::prelude::*;
use crate::frontend::items;
use crate::frontend::meta;
use crate::frontend::syntax::{
    Closure,
    Expr,
    FnArg,
    GenericParam,
    ItemConst,
    Lit,
    Meta,
    Pat,
    Path,
    PathArgs,
    Segment,
    Stmt,
    Type,
    UnOp,
};
use crate::text;

verus! {

// ---------------------------------------------------------------------------
// Variables of expressions
// ---------------------------------------------------------------------------

/// The plain names that an expression is made of.
pub open spec fn variables(e: Expr) -> Set<Seq<char>>
    decreases e,
{
    match e {
        Expr::Path(p) => if !p.leading && p.segments@.len() == 1
            && p.segments@[0].arguments is Absent {
            set![p.segments@[0].ident@]
        } else {
            Set::empty()
        },
        Expr::Binary(a, b) => variables(*a).union(variables(*b)),
        Expr::Unary(_, a) => variables(*a),
        Expr::Call(f, args) => variables(*f).union(variables_of(args@, args@.len() as int)),
        Expr::MethodCall(r, _, args) => variables(*r).union(
            variables_of(args@, args@.len() as int),
        ),
        Expr::Field(b, _) => variables(*b),
        Expr::Index(a, b) => variables(*a).union(variables(*b)),
        Expr::Paren(a) => variables(*a),
        Expr::Reference(a) => variables(*a),
        Expr::Block(s) => variables_in(s@, s@.len() as int),
        Expr::If(c, s, other) => variables(*c).union(variables_in(s@, s@.len() as int)).union(
            match other {
                Some(o) => variables(*o),
                None => Set::empty(),
            },
        ),
        _ => Set::empty(),
    }
}

/// The plain names that the first `n` expressions are made of.
pub open spec fn variables_of(s: Seq<Expr>, n: int) -> Set<Seq<char>>
    decreases s, n,
{
    if n <= 0 || n > s.len() {
        Set::empty()
    } else {
        variables_of(s, n - 1).union(variables(s[n - 1]))
    }
}

/// The plain names that the expressions among the first `n` statements are made of.
pub open spec fn variables_in(s: Seq<Stmt>, n: int) -> Set<Seq<char>>
    decreases s, n,
{
    if n <= 0 || n > s.len() {
        Set::empty()
    } else {
        match s[n - 1] {
            Stmt::Expr(e) => variables_in(s, n - 1).union(variables(e)),
            Stmt::Other => variables_in(s, n - 1),
        }
    }
}

/// An expression refers to the names that it is made of, and to no others.
pub proof fn lemma_refers(e: Expr, name: Seq<char>)
    ensures
        items::refers(e, name) <==> variables(e).contains(name),
    decreases e,
{
    match e {
        Expr::Binary(a, b) => {
            lemma_refers(*a, name);
            lemma_refers(*b, name);
        },
        Expr::Unary(_, a) => lemma_refers(*a, name),
        Expr::Call(f, args) => {
            lemma_refers(*f, name);
            assert forall|i: int| 0 <= i < args@.len() implies items::refers(
                #[trigger] args@[i],
                name,
            ) == variables(args@[i]).contains(name) by {
                lemma_refers(args@[i], name);
            }
            lemma_any(args@, name, args@.len() as int);
            assert(items::any_refers(args@, name) == variables_of(args@, args@.len() as int).contains(
                name,
            ));
        },
        Expr::MethodCall(r, _, args) => {
            lemma_refers(*r, name);
            assert forall|i: int| 0 <= i < args@.len() implies items::refers(
                #[trigger] args@[i],
                name,
            ) == variables(args@[i]).contains(name) by {
                lemma_refers(args@[i], name);
            }
            lemma_any(args@, name, args@.len() as int);
            assert(items::any_refers(args@, name) == variables_of(args@, args@.len() as int).contains(
                name,
            ));
        },
        Expr::Field(b, _) => lemma_refers(*b, name),
        Expr::Index(a, b) => {
            lemma_refers(*a, name);
            lemma_refers(*b, name);
        },
        Expr::Paren(a) => lemma_refers(*a, name),
        Expr::Reference(a) => lemma_refers(*a, name),
        Expr::Block(s) => {
            assert forall|i: int| 0 <= i < s@.len() implies ((#[trigger] s@[i]) matches Stmt::Expr(x)
                ==> items::refers(x, name) == variables(x).contains(name)) by {
                match s@[i] {
                    Stmt::Expr(x) => lemma_refers(x, name),
                    Stmt::Other => {},
                }
            }
            lemma_any_stmt(s@, name, s@.len() as int);
            assert(items::any_stmt_refers(s@, name) == variables_in(s@, s@.len() as int).contains(
                name,
            ));
        },
        Expr::If(c, s, other) => {
            lemma_refers(*c, name);
            assert forall|i: int| 0 <= i < s@.len() implies ((#[trigger] s@[i]) matches Stmt::Expr(x)
                ==> items::refers(x, name) == variables(x).contains(name)) by {
                match s@[i] {
                    Stmt::Expr(x) => lemma_refers(x, name),
                    Stmt::Other => {},
                }
            }
            lemma_any_stmt(s@, name, s@.len() as int);
            assert(items::any_stmt_refers(s@, name) == variables_in(s@, s@.len() as int).contains(
                name,
            ));
            match other {
                Some(o) => lemma_refers(*o, name),
                None => {},
            }
        },
        _ => {},
    }
}

proof fn lemma_any(s: Seq<Expr>, name: Seq<char>, n: int)
    requires
        0 <= n <= s.len(),
        forall|i: int|
            0 <= i < s.len() ==> items::refers(#[trigger] s[i], name) == variables(s[i]).contains(
                name,
            ),
    ensures
        variables_of(s, n).contains(name) <==> exists|i: int|
            0 <= i < n && items::refers(#[trigger] s[i], name),
    decreases n,
{
    if n > 0 {
        lemma_any(s, name, n - 1);
        assert(items::refers(s[n - 1], name) == variables(s[n - 1]).contains(name));
        if exists|i: int| 0 <= i < n - 1 && items::refers(#[trigger] s[i], name) {
            let i = choose|i: int| 0 <= i < n - 1 && items::refers(#[trigger] s[i], name);
            assert(items::refers(s[i], name));
        }
    }
}

proof fn lemma_any_stmt(s: Seq<Stmt>, name: Seq<char>, n: int)
    requires
        0 <= n <= s.len(),
        forall|i: int|
            0 <= i < s.len() ==> ((#[trigger] s[i]) matches Stmt::Expr(x) ==> items::refers(x, name)
                == variables(x).contains(name)),
    ensures
        variables_in(s, n).contains(name) <==> exists|i: int|
            0 <= i < n && match #[trigger] s[i] {
                Stmt::Expr(x) => items::refers(x, name),
                Stmt::Other => false,
            },
    decreases n,
{
    if n > 0 {
        lemma_any_stmt(s, name, n - 1);
        assert(s[n - 1] matches Stmt::Expr(x) ==> items::refers(x, name) == variables(x).contains(
            name,
        ));
        if variables_in(s, n - 1).contains(name) {
            let i = choose|i: int|
                0 <= i < n - 1 && match #[trigger] s[i] {
                    Stmt::Expr(x) => items::refers(x, name),
                    Stmt::Other => false,
                };
            assert(s[i] is Expr);
        } else if variables_in(s, n).contains(name) {
            assert(s[n - 1] is Expr);
        }
    }
}

/// A closure captures an outer variable that its body refers to, unless one of its
/// parameters has the name.
pub proof fn lemma_captured(c: Closure, outer: Seq<Seq<char>>, name: Seq<char>)
    ensures
        items::is_captured(c, outer, name) <==> {
            &&& outer.contains(name)
            &&& variables(c.body).contains(name)
            &&& forall|i: int|
                0 <= i < c.inputs@.len() ==> match #[trigger] c.inputs@[i] {
                    Pat::Ident(n) => n@ != name,
                    Pat::Typed(n, _) => n@ != name,
                    Pat::Other => true,
                }
        },
{
    lemma_refers(c.body, name);
    if items::takes(c, name) {
        let i = choose|i: int|
            0 <= i < c.inputs@.len() && items::pat_name(#[trigger] c.inputs@[i]) == Some(name);
        assert(!(match c.inputs@[i] {
            Pat::Ident(n) => n@ != name,
            Pat::Typed(n, _) => n@ != name,
            Pat::Other => true,
        }));
    } else {
        assert forall|i: int| 0 <= i < c.inputs@.len() implies match #[trigger] c.inputs@[i] {
            Pat::Ident(n) => n@ != name,
            Pat::Typed(n, _) => n@ != name,
            Pat::Other => true,
        } by {
            assert(items::pat_name(c.inputs@[i]) != Some(name));
        }
    }
}

/// A text comes before another where, behind what they have in common, it ends or has the
/// smaller character.
pub proof fn lemma_before(a: Seq<char>, b: Seq<char>)
    ensures
        items::before(a, b) <==> exists|k: int|
            #![trigger a.take(k)]
            0 <= k <= a.len() && k < b.len() && a.take(k) == b.take(k) && (k == a.len() || a[k]
                < b[k]),
    decreases a.len(),
{
    if items::before(a, b) {
        lemma_before_place(a, b);
    } else {
        assert forall|k: int|
            #![trigger a.take(k)]
            0 <= k <= a.len() && k < b.len() && a.take(k) == b.take(k) && (k == a.len() || a[k]
                < b[k]) implies false by {
            lemma_before_converse(a, b, k);
        }
    }
}

proof fn lemma_before_place(a: Seq<char>, b: Seq<char>)
    requires
        items::before(a, b),
    ensures
        exists|k: int|
            #![trigger a.take(k)]
            0 <= k <= a.len() && k < b.len() && a.take(k) == b.take(k) && (k == a.len() || a[k]
                < b[k]),
    decreases a.len(),
{
    if a.len() == 0 || a[0] != b[0] {
        assert(a.take(0) =~= b.take(0));
    } else {
        let x = a.skip(1);
        let y = b.skip(1);
        lemma_before_place(x, y);
        let k = choose|k: int|
            #![trigger x.take(k)]
            0 <= k <= x.len() && k < y.len() && x.take(k) == y.take(k) && (k == x.len() || x[k]
                < y[k]);
        assert(a.take(k + 1) =~= seq![a[0]] + x.take(k));
        assert(b.take(k + 1) =~= seq![b[0]] + y.take(k));
        assert(a.take(k + 1) == b.take(k + 1));
    }
}

proof fn lemma_before_converse(a: Seq<char>, b: Seq<char>, k: int)
    requires
        0 <= k <= a.len(),
        k < b.len(),
        a.take(k) == b.take(k),
        k == a.len() || a[k] < b[k],
    ensures
        items::before(a, b),
    decreases a.len(),
{
    if k > 0 {
        assert(a.take(k)[0] == b.take(k)[0]);
        let x = a.skip(1);
        let y = b.skip(1);
        assert(x.take(k - 1) =~= a.take(k).skip(1));
        assert(y.take(k - 1) =~= b.take(k).skip(1));
        assert(k < a.len() ==> x[k - 1] == a[k] && y[k - 1] == b[k]);
        lemma_before_converse(x, y, k - 1);
        assert(a[0] == a.take(k)[0] && b[0] == b.take(k)[0]);
    } else if a.len() > 0 {
        assert(a[0] != b[0]);
    }
}

// ---------------------------------------------------------------------------
// Generic parameters and types
// ---------------------------------------------------------------------------

/// Constants of array type and of named type are told apart, each kind in order; other
/// parameters are neither.
pub proof fn lemma_constants(gs: Seq<GenericParam>, n: int)
    requires
        0 <= n < gs.len(),
    ensures
        match gs[n] {
            GenericParam::Const(name, Type::Array(elem, len)) => {
                &&& items::consts_of(gs, n + 1) == items::consts_of(gs, n)
                &&& items::cgas_of(gs, n + 1).len() == items::cgas_of(gs, n).len() + 1
                &&& items::cgas_of(gs, n + 1).drop_last() == items::cgas_of(gs, n)
                &&& items::cgas_of(gs, n + 1).last().name == name@
                &&& *elem matches Type::Path(p) ==> (meta::path_ident(p) matches Some(e) ==> items::cgas_of(
                    gs,
                    n + 1,
                ).last().element_type == e)
                &&& *len matches Expr::Lit(Lit::Int(d)) ==> (text::unsigned_below(
                    d@,
                    0x1_0000_0000,
                ) matches Some(v) ==> items::cgas_of(gs, n + 1).last().length == v as u32)
            },
            GenericParam::Const(name, Type::Path(p)) => {
                &&& items::cgas_of(gs, n + 1) == items::cgas_of(gs, n)
                &&& items::consts_of(gs, n + 1) == items::consts_of(gs, n).push(
                    (name@, meta::path_text(p)),
                )
            },
            _ => {
                &&& items::cgas_of(gs, n + 1) == items::cgas_of(gs, n)
                &&& items::consts_of(gs, n + 1) == items::consts_of(gs, n)
            },
        },
        items::cgas_of(gs, 0).len() == 0,
        items::consts_of(gs, 0).len() == 0,
{
    assert(items::cgas_of(gs, n + 1).drop_last() =~= items::cgas_of(gs, n) || items::cgas_of(
        gs,
        n + 1,
    ) == items::cgas_of(gs, n));
}

/// The supported parameters are the types, and the constants with their types, in order.
pub proof fn lemma_supported(gs: Seq<GenericParam>, n: int)
    requires
        0 <= n < gs.len(),
    ensures
        items::supported(gs, 0).len() == 0,
        items::supported(gs, n + 1) == (match gs[n] {
            GenericParam::Type(name) => items::supported(gs, n).push((name@, None)),
            GenericParam::Const(name, ty) => items::supported(gs, n).push((name@, Some(ty))),
            GenericParam::Lifetime(_) => items::supported(gs, n),
        }),
{
}

/// The receiver is called `self`, any other parameter by its own name; the receiver has
/// the type that is given, any other its own.
pub proof fn lemma_arguments(n: String, ty: Type, given: Type)
    ensures
        items::arg_name(FnArg::Receiver) == seq!['s', 'e', 'l', 'f'],
        items::arg_name(FnArg::Typed(Pat::Ident(n), ty)) == n@,
        items::arg_type(FnArg::Typed(Pat::Ident(n), ty), Some(given)) == ty,
        items::arg_type(FnArg::Receiver, Some(given)) == given,
{
    reveal_strlit("self");
    assert("self"@ =~= seq!['s', 'e', 'l', 'f']);
}

/// References are looked through, for names and for generic arguments.
pub proof fn lemma_references(x: Expr, t: Type, m: bool, p: Path)
    requires
        p.segments@.len() > 0,
    ensures
        items::expr_ident(Expr::Reference(Box::new(x))) == items::expr_ident(x),
        items::expr_ident(Expr::Path(p)) == Some(p.segments@[p.segments@.len() - 1].ident@),
        items::generic_args(Type::Reference(m, Box::new(t))) == items::generic_args(t),
        items::path_name(Type::Reference(m, Box::new(t))) == items::path_name(t),
        items::path_name(Type::Path(p)) == p.segments@[p.segments@.len() - 1].ident@,
        items::generic_args(Type::Path(p)) == (match p.segments@[p.segments@.len() - 1].arguments {
            PathArgs::Angle(args) => Some(args@),
            _ => None,
        }),
        items::generic_args(Type::Ptr(m, Box::new(t))) is None,
{
}

// ---------------------------------------------------------------------------
// Constants
// ---------------------------------------------------------------------------

/// A literal integer has its value, and its negation the negated one; of other
/// expressions nothing is known.
pub proof fn lemma_signed(d: String)
    ensures
        match items::signed_literal(Expr::Lit(Lit::Int(d))) {
            Some(v) => text::decimal_below(d@, 0x8000_0000) == Some(v as int) && items::signed_literal(
                Expr::Unary(UnOp::Neg, Box::new(Expr::Lit(Lit::Int(d)))),
            ) == Some((-v) as i32),
            None => text::decimal_below(d@, 0x8000_0000) is None && items::signed_literal(
                Expr::Unary(UnOp::Neg, Box::new(Expr::Lit(Lit::Int(d)))),
            ) is None,
        },
        items::signed_literal(
            Expr::Unary(UnOp::Not, Box::new(Expr::Lit(Lit::Int(d)))),
        ) is None,
{
    if text::all_digits(d@) {
        text::lemma_decimal_nonneg(d@);
    }
    reveal_with_fuel(crate::frontend::globals::written_i32, 3);
}

/// A constant of type `i32` has the value of its literal, one of type `bool` its truth
/// value; a constant of another type has neither.
pub proof fn lemma_const_values(item: ItemConst, p: Path)
    requires
        item.ty == Type::Path(p),
        p.segments@.len() > 0,
    ensures
        p.segments@.last().ident@ == "i32"@ ==> items::i32_const(item) == items::signed_literal(
            item.expr,
        ) && items::bool_const(item) is None,
        p.segments@.last().ident@ == "bool"@ ==> items::i32_const(item) is None
            && items::bool_const(item) == (match item.expr {
            Expr::Lit(Lit::Bool(b)) => Some(b),
            _ => None,
        }),
        p.segments@.last().ident@ != "i32"@ ==> items::i32_const(item) is None,
        p.segments@.last().ident@ != "bool"@ ==> items::bool_const(item) is None,
        items::scalar_const(item) <==> {
            let t = p.segments@.last().ident@;
            ||| t == "bool"@ && (item.expr matches Expr::Lit(Lit::Bool(_)))
            ||| (t == "i32"@ || t == "i64"@ || t == "u32"@ || t == "u64"@) && (
            (item.expr matches Expr::Lit(Lit::Int(_))) || (item.expr matches Expr::Unary(_, x) && (
            *x matches Expr::Lit(Lit::Int(_)))))
        },
{
    reveal_strlit("i32");
    reveal_strlit("i64");
    reveal_strlit("u32");
    reveal_strlit("u64");
    reveal_strlit("bool");
    assert("bool"@.len() == 4 && "i32"@.len() == 3 && "i64"@.len() == 3 && "u32"@.len() == 3
        && "u64"@.len() == 3);
}

/// A pointer in words is its marker and what it points to; white space around that does
/// not count.
pub proof fn lemma_pointer(s: Seq<char>)
    ensures
        items::pointer_words("* mut "@ + s) == Some((true, items::trimmed(s))),
        items::pointer_words("* const "@ + s) == Some((false, items::trimmed(s))),
        items::pointer_words(s) is Some ==> text::has_prefix(s, "* mut "@) || text::has_prefix(
            s,
            "* const "@,
        ),
{
    reveal_strlit("* mut ");
    reveal_strlit("* const ");
    let m = "* mut "@ + s;
    let c = "* const "@ + s;
    assert(m.take(6) =~= "* mut "@);
    assert(m.skip(6) =~= s);
    assert(c.take(8) =~= "* const "@);
    assert(c.skip(8) =~= s);
    assert(c[2] == 'c' && "* mut "@[2] == 'm');
    if text::has_prefix(c, "* mut "@) {
        assert(c.take(6)[2] == 'm');
    }
}

/// Trimming takes white space off both ends, and nothing else.
pub proof fn lemma_trimmed(s: Seq<char>)
    ensures
        ({
            let t = items::trimmed(s);
            let a = items::skip_spaces(s, 0);
            &&& 0 <= a <= s.len()
            &&& a + t.len() <= s.len()
            &&& t == s.subrange(a, a + t.len())
            &&& forall|i: int| 0 <= i < a ==> text::is_space(#[trigger] s[i])
            &&& forall|i: int| a + t.len() <= i < s.len() ==> text::is_space(#[trigger] s[i])
            &&& t.len() > 0 ==> !text::is_space(t[0]) && !text::is_space(t[t.len() - 1])
        }),
{
    lemma_skip(s, 0);
    let a = items::skip_spaces(s, 0);
    lemma_drop(s, a, s.len() as int);
}

proof fn lemma_skip(s: Seq<char>, from: int)
    requires
        0 <= from <= s.len(),
    ensures
        from <= items::skip_spaces(s, from) <= s.len(),
        forall|i: int| from <= i < items::skip_spaces(s, from) ==> text::is_space(#[trigger] s[i]),
        items::skip_spaces(s, from) < s.len() ==> !text::is_space(s[items::skip_spaces(s, from)]),
    decreases s.len() - from,
{
    if from < s.len() && text::is_space(s[from]) {
        lemma_skip(s, from + 1);
    }
}

proof fn lemma_drop(s: Seq<char>, from: int, to: int)
    requires
        0 <= from <= to <= s.len(),
    ensures
        from <= items::drop_spaces(s, from, to) <= to,
        forall|i: int| items::drop_spaces(s, from, to) <= i < to ==> text::is_space(#[trigger] s[i]),
        items::drop_spaces(s, from, to) > from ==> !text::is_space(
            s[items::drop_spaces(s, from, to) - 1],
        ),
    decreases to - from,
{
    if to > from && text::is_space(s[to - 1]) {
        lemma_drop(s, from, to - 1);
    }
}

// ---------------------------------------------------------------------------
// Attributes
// ---------------------------------------------------------------------------

/// A segment is its name, and its arguments behind a space; segments are joined by a
/// separator.
pub proof fn lemma_segments(s: Seq<Segment>, from: int, to: int)
    requires
        0 <= from < to <= s.len(),
    ensures
        meta::segment_text(s[from]) == (if s[from].words@.len() == 0 {
            s[from].ident@
        } else {
            s[from].ident@ + seq![' '] + s[from].words@
        }),
        meta::segments_text(s, from, from) == Seq::<char>::empty(),
        meta::segments_text(s, from, from + 1) == meta::segment_text(s[from]),
        to > from + 1 ==> meta::segments_text(s, from, to) == meta::segments_text(s, from, to - 1)
            + seq![' ', ':', ':', ' '] + meta::segment_text(s[to - 1]),
{
    reveal_strlit(" ");
    reveal_strlit(" :: ");
    assert(" "@ =~= seq![' ']);
    assert(" :: "@ =~= seq![' ', ':', ':', ' ']);
}

/// The first attribute with a name is the one that no other with the name comes before.
pub proof fn lemma_first_named(attrs: Seq<Meta>, name: Seq<char>, last: bool, from: int)
    requires
        0 <= from,
    ensures
        match meta::first_named(attrs, name, last, from) {
            Some(i) => {
                &&& from <= i < attrs.len()
                &&& meta::attr_name(attrs[i], last) == Some(name)
                &&& forall|j: int|
                    from <= j < i ==> meta::attr_name(#[trigger] attrs[j], last) != Some(name)
            },
            None => forall|j: int|
                from <= j < attrs.len() ==> meta::attr_name(#[trigger] attrs[j], last) != Some(name),
        },
    decreases attrs.len() - from,
{
    if from < attrs.len() {
        lemma_first_named(attrs, name, last, from + 1);
    }
}

/// An attribute is called by its whole path, or by the last segment; one that gives a
/// name a value has no name.
pub proof fn lemma_attribute_name(p: Path, e: Expr, args: Option<Vec<Meta>>)
    ensures
        meta::attr_name(Meta::Path(p), false) == Some(meta::path_text(p)),
        meta::attr_name(Meta::List(p, args), false) == Some(meta::path_text(p)),
        meta::attr_name(Meta::NameValue(p, e), false) is None,
        meta::attr_name(Meta::NameValue(p, e), true) is None,
        p.segments@.len() > 0 ==> meta::attr_name(Meta::Path(p), true) == Some(
            meta::segment_text(p.segments@[p.segments@.len() - 1]),
        ) && meta::attr_name(Meta::List(p, args), true) == Some(
            meta::segment_text(p.segments@[p.segments@.len() - 1]),
        ),
        meta::arguments(Meta::Path(p)) == Some(Seq::<Meta>::empty()),
        meta::arguments(Meta::List(p, args)) == (match args {
            Some(v) => Some(v@),
            None => None,
        }),
{
}

/// The value of an argument is the first that is given to its name.
pub proof fn lemma_argument_value(vars: Seq<Meta>, name: Seq<char>, from: int)
    requires
        0 <= from,
    ensures
        match meta::value_of(vars, name, from) {
            Some(e) => exists|i: int|
                from <= i < vars.len() && gives(#[trigger] vars[i], name, e) && forall|j: int|
                    from <= j < i ==> !gives_any(#[trigger] vars[j], name),
            None => forall|j: int| from <= j < vars.len() ==> !gives_any(#[trigger] vars[j], name),
        },
    decreases vars.len() - from,
{
    if from < vars.len() {
        lemma_argument_value(vars, name, from + 1);
        match meta::value_of(vars, name, from) {
            Some(e) => {
                if gives(vars[from], name, e) {
                    assert(gives(vars[from], name, e));
                } else {
                    let i = choose|i: int|
                        from + 1 <= i < vars.len() && gives(#[trigger] vars[i], name, e)
                            && forall|j: int|
                            from + 1 <= j < i ==> !gives_any(#[trigger] vars[j], name);
                    assert(gives(vars[i], name, e));
                }
            },
            None => {},
        }
    }
}

/// An argument gives a name this value.
pub open spec fn gives(m: Meta, name: Seq<char>, e: Expr) -> bool {
    m matches Meta::NameValue(p, x) && meta::path_ident(p) == Some(name) && x == e
}

/// An argument gives a name a value.
pub open spec fn gives_any(m: Meta, name: Seq<char>) -> bool {
    m matches Meta::NameValue(p, _) && meta::path_ident(p) == Some(name)
}

/// A path is one plain name where it has one segment, without arguments and without a
/// separator in front.
pub proof fn lemma_plain_name(p: Path)
    ensures
        match meta::path_ident(p) {
            Some(n) => !p.leading && p.segments@.len() == 1 && p.segments@[0].arguments is Absent
                && p.segments@[0].ident@ == n,
            None => p.leading || p.segments@.len() != 1 || !(p.segments@[0].arguments is Absent),
        },
{
}

} // verus!
