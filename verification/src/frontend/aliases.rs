//! Type aliases: what a type stands for once the aliases in it are expanded,
//! and constants in the lengths and arguments of types.
use vstd::prelude::*;
use crate::frontend::meta::has_text;
use crate::frontend::meta;
use crate::text::{number_text, same_text};
use crate::text;

verus! {

// ---------------------------------------------------------------------------
// Trees
// ---------------------------------------------------------------------------

/// A form that wraps one type.
#[derive(Clone, Copy, Debug, PartialEq, Eq, Structural)]
pub enum Wrapper {
    Reference,
    MutReference,
    ConstPtr,
    MutPtr,
    Slice,
    Paren,
    Group,
}

/// A type, as far as aliases look into it.
pub enum TypeTree {
    Path(PathTree),
    Wrap(Wrapper, Box<TypeTree>),
    Tuple(Vec<TypeTree>),
    Array(Box<TypeTree>, ExprTree),
    Other(Words),
}

/// Syntax into which no alias is looked for: its words, with a place for each of the
/// path expressions in it, and those expressions.
pub struct Words {
    pub template: String,
    pub parts: Vec<ExprTree>,
}

/// The type that a qualified path starts from, and how many of the path's names are
/// those of the trait.
pub struct QSelfTree {
    pub ty: Words,
    pub position: usize,
}

/// A path, with whether it starts with a separator.
pub struct PathTree {
    pub qself: Option<QSelfTree>,
    pub leading: bool,
    pub segments: Vec<SegmentTree>,
}

/// A name in a path, with its arguments.
pub struct SegmentTree {
    pub name: String,
    pub args: ArgsTree,
}

/// The arguments of a name.
pub enum ArgsTree {
    Absent,
    Angle(Vec<ArgTree>),
    Parenthesized(Words),
}

/// A generic argument.
pub enum ArgTree {
    Type(TypeTree),
    Const(ExprTree),
    Other(Words),
}

/// An expression: a path, or anything else with the expressions in it.
pub enum ExprTree {
    Path(PathTree),
    Node(String, Vec<ExprTree>),
}

/// The contents of a type.
#[verifier::ext_equal]
pub enum TypeT {
    Path(PathT),
    Wrap(Wrapper, Box<TypeT>),
    Tuple(Seq<TypeT>),
    Array(Box<TypeT>, ExprT),
    Other(WordsT),
}

/// The contents of syntax into which no alias is looked for.
#[verifier::ext_equal]
pub struct WordsT {
    pub template: Seq<char>,
    pub parts: Seq<ExprT>,
}

/// The contents of the type that a qualified path starts from.
#[verifier::ext_equal]
pub struct QSelfT {
    pub ty: WordsT,
    pub position: usize,
}

/// The contents of a path.
#[verifier::ext_equal]
pub struct PathT {
    pub qself: Option<QSelfT>,
    pub leading: bool,
    pub segments: Seq<SegmentT>,
}

/// The contents of a name in a path.
#[verifier::ext_equal]
pub struct SegmentT {
    pub name: Seq<char>,
    pub args: ArgsT,
}

/// The contents of arguments.
#[verifier::ext_equal]
pub enum ArgsT {
    Absent,
    Angle(Seq<ArgT>),
    Parenthesized(WordsT),
}

/// The contents of a generic argument.
#[verifier::ext_equal]
pub enum ArgT {
    Type(TypeT),
    Const(ExprT),
    Other(WordsT),
}

/// The contents of an expression.
#[verifier::ext_equal]
pub enum ExprT {
    Path(PathT),
    Node(Seq<char>, Seq<ExprT>),
}

/// The contents of a type.
pub open spec fn type_view(t: TypeTree) -> TypeT
    decreases t,
{
    match t {
        TypeTree::Path(p) => TypeT::Path(path_view(p)),
        TypeTree::Wrap(w, e) => TypeT::Wrap(w, Box::new(type_view(*e))),
        TypeTree::Tuple(v) => TypeT::Tuple(types_view(v@)),
        TypeTree::Array(e, n) => TypeT::Array(Box::new(type_view(*e)), expr_view(n)),
        TypeTree::Other(w) => TypeT::Other(words_view(w)),
    }
}

/// The contents of some types.
pub open spec fn types_view(s: Seq<TypeTree>) -> Seq<TypeT>
    decreases s,
{
    Seq::new(
        s.len(),
        |i: int|
            if 0 <= i < s.len() {
                type_view(s[i])
            } else {
                TypeT::Tuple(seq![])
            },
    )
}

/// The contents of a path.
pub open spec fn path_view(p: PathTree) -> PathT
    decreases p,
{
    PathT {
        qself: match p.qself {
            Some(q) => Some(qself_view(q)),
            None => None,
        },
        leading: p.leading,
        segments: segments_view(p.segments@),
    }
}

/// The contents of the type that a qualified path starts from.
pub open spec fn qself_view(q: QSelfTree) -> QSelfT
    decreases q,
{
    QSelfT { ty: words_view(q.ty), position: q.position }
}

/// The contents of syntax into which no alias is looked for.
pub open spec fn words_view(w: Words) -> WordsT
    decreases w,
{
    WordsT { template: w.template@, parts: exprs_view(w.parts@) }
}

/// The contents of the names of a path.
pub open spec fn segments_view(s: Seq<SegmentTree>) -> Seq<SegmentT>
    decreases s,
{
    Seq::new(
        s.len(),
        |i: int|
            if 0 <= i < s.len() {
                segment_view(s[i])
            } else {
                SegmentT { name: seq![], args: ArgsT::Absent }
            },
    )
}

/// The contents of a name in a path.
pub open spec fn segment_view(s: SegmentTree) -> SegmentT
    decreases s,
{
    SegmentT { name: s.name@, args: args_view(s.args) }
}

/// The contents of arguments.
pub open spec fn args_view(a: ArgsTree) -> ArgsT
    decreases a,
{
    match a {
        ArgsTree::Absent => ArgsT::Absent,
        ArgsTree::Angle(v) => ArgsT::Angle(arg_views(v@)),
        ArgsTree::Parenthesized(w) => ArgsT::Parenthesized(words_view(w)),
    }
}

/// The contents of some generic arguments.
pub open spec fn arg_views(s: Seq<ArgTree>) -> Seq<ArgT>
    decreases s,
{
    Seq::new(
        s.len(),
        |i: int|
            if 0 <= i < s.len() {
                arg_view(s[i])
            } else {
                ArgT::Type(TypeT::Tuple(seq![]))
            },
    )
}

/// The contents of a generic argument.
pub open spec fn arg_view(a: ArgTree) -> ArgT
    decreases a,
{
    match a {
        ArgTree::Type(t) => ArgT::Type(type_view(t)),
        ArgTree::Const(e) => ArgT::Const(expr_view(e)),
        ArgTree::Other(w) => ArgT::Other(words_view(w)),
    }
}

/// The contents of an expression.
pub open spec fn expr_view(e: ExprTree) -> ExprT
    decreases e,
{
    match e {
        ExprTree::Path(p) => ExprT::Path(path_view(p)),
        ExprTree::Node(s, v) => ExprT::Node(s@, exprs_view(v@)),
    }
}

/// The contents of some expressions.
pub open spec fn exprs_view(s: Seq<ExprTree>) -> Seq<ExprT>
    decreases s,
{
    Seq::new(
        s.len(),
        |i: int|
            if 0 <= i < s.len() {
                expr_view(s[i])
            } else {
                ExprT::Node(seq![], seq![])
            },
    )
}

impl View for TypeTree {
    type V = TypeT;

    open spec fn view(&self) -> TypeT {
        type_view(*self)
    }
}

impl View for PathTree {
    type V = PathT;

    open spec fn view(&self) -> PathT {
        path_view(*self)
    }
}

impl View for QSelfTree {
    type V = QSelfT;

    open spec fn view(&self) -> QSelfT {
        qself_view(*self)
    }
}

impl View for Words {
    type V = WordsT;

    open spec fn view(&self) -> WordsT {
        words_view(*self)
    }
}

impl View for SegmentTree {
    type V = SegmentT;

    open spec fn view(&self) -> SegmentT {
        segment_view(*self)
    }
}

impl View for ArgsTree {
    type V = ArgsT;

    open spec fn view(&self) -> ArgsT {
        args_view(*self)
    }
}

impl View for ArgTree {
    type V = ArgT;

    open spec fn view(&self) -> ArgT {
        arg_view(*self)
    }
}

impl View for ExprTree {
    type V = ExprT;

    open spec fn view(&self) -> ExprT {
        expr_view(*self)
    }
}

// ---------------------------------------------------------------------------
// Constants in types
// ---------------------------------------------------------------------------

/// The only name of a path.
pub open spec fn single_name(p: PathT) -> Option<Seq<char>> {
    if p.qself is Some || p.segments.len() != 1 {
        None
    } else {
        Some(p.segments[0].name)
    }
}

/// The last of the first `n` entries with a name.
pub open spec fn lookup<T>(s: Seq<(Seq<char>, T)>, name: Seq<char>, n: int) -> Option<T>
    decreases n,
{
    if n <= 0 || n > s.len() {
        None
    } else if s[n - 1].0 == name {
        Some(s[n - 1].1)
    } else {
        lookup(s, name, n - 1)
    }
}

/// What a path stands for among some constants.
pub open spec fn const_for(p: PathT, c: Seq<(Seq<char>, ExprT)>) -> Option<ExprT> {
    match single_name(p) {
        Some(n) => lookup(c, n, c.len() as int),
        None => None,
    }
}

/// A type with constants filled in.
pub open spec fn fill_type(t: TypeT, c: Seq<(Seq<char>, ExprT)>) -> TypeT
    decreases t, 0int,
{
    match t {
        TypeT::Path(p) => TypeT::Path(fill_path(p, c)),
        TypeT::Wrap(w, e) => TypeT::Wrap(w, Box::new(fill_type(*e, c))),
        TypeT::Tuple(s) => TypeT::Tuple(fill_types(s, c, s.len() as int)),
        TypeT::Array(e, n) => TypeT::Array(Box::new(fill_type(*e, c)), fill_expr(n, c)),
        TypeT::Other(w) => TypeT::Other(fill_words(w, c)),
    }
}

/// The first `n` types with constants filled in.
pub open spec fn fill_types(s: Seq<TypeT>, c: Seq<(Seq<char>, ExprT)>, n: int) -> Seq<TypeT>
    decreases s, n,
{
    if n <= 0 || n > s.len() {
        seq![]
    } else {
        fill_types(s, c, n - 1).push(fill_type(s[n - 1], c))
    }
}

/// A path with constants filled in.
pub open spec fn fill_path(p: PathT, c: Seq<(Seq<char>, ExprT)>) -> PathT
    decreases p, 0int,
{
    PathT {
        qself: match p.qself {
            Some(q) => Some(fill_qself(q, c)),
            None => None,
        },
        leading: p.leading,
        segments: fill_segments(p.segments, c, p.segments.len() as int),
    }
}

/// The type that a qualified path starts from with constants filled in.
pub open spec fn fill_qself(q: QSelfT, c: Seq<(Seq<char>, ExprT)>) -> QSelfT
    decreases q, 0int,
{
    QSelfT { ty: fill_words(q.ty, c), position: q.position }
}

/// Syntax into which no alias is looked for with constants filled in.
pub open spec fn fill_words(w: WordsT, c: Seq<(Seq<char>, ExprT)>) -> WordsT
    decreases w, 0int,
{
    WordsT { template: w.template, parts: fill_exprs(w.parts, c, w.parts.len() as int) }
}

/// The first `n` names of a path with constants filled in.
pub open spec fn fill_segments(s: Seq<SegmentT>, c: Seq<(Seq<char>, ExprT)>, n: int) -> Seq<
    SegmentT,
>
    decreases s, n,
{
    if n <= 0 || n > s.len() {
        seq![]
    } else {
        fill_segments(s, c, n - 1).push(
            SegmentT { name: s[n - 1].name, args: fill_args(s[n - 1].args, c) },
        )
    }
}

/// Arguments with constants filled in.
pub open spec fn fill_args(a: ArgsT, c: Seq<(Seq<char>, ExprT)>) -> ArgsT
    decreases a, 0int,
{
    match a {
        ArgsT::Angle(s) => ArgsT::Angle(fill_list(s, c, s.len() as int)),
        ArgsT::Parenthesized(w) => ArgsT::Parenthesized(fill_words(w, c)),
        ArgsT::Absent => a,
    }
}

/// The first `n` generic arguments with constants filled in.
pub open spec fn fill_list(s: Seq<ArgT>, c: Seq<(Seq<char>, ExprT)>, n: int) -> Seq<ArgT>
    decreases s, n,
{
    if n <= 0 || n > s.len() {
        seq![]
    } else {
        fill_list(s, c, n - 1).push(fill_arg(s[n - 1], c))
    }
}

/// A generic argument with constants filled in.
pub open spec fn fill_arg(a: ArgT, c: Seq<(Seq<char>, ExprT)>) -> ArgT
    decreases a, 0int,
{
    match a {
        ArgT::Type(t) => ArgT::Type(fill_type(t, c)),
        ArgT::Const(e) => ArgT::Const(fill_expr(e, c)),
        ArgT::Other(w) => ArgT::Other(fill_words(w, c)),
    }
}

/// An expression with constants filled in. What is filled in is not looked
/// into again.
pub open spec fn fill_expr(e: ExprT, c: Seq<(Seq<char>, ExprT)>) -> ExprT
    decreases e, 0int,
{
    match e {
        ExprT::Path(p) => match const_for(p, c) {
            Some(r) => r,
            None => ExprT::Path(fill_path(p, c)),
        },
        ExprT::Node(h, s) => ExprT::Node(h, fill_exprs(s, c, s.len() as int)),
    }
}

/// The first `n` expressions with constants filled in.
pub open spec fn fill_exprs(s: Seq<ExprT>, c: Seq<(Seq<char>, ExprT)>, n: int) -> Seq<ExprT>
    decreases s, n,
{
    if n <= 0 || n > s.len() {
        seq![]
    } else {
        fill_exprs(s, c, n - 1).push(fill_expr(s[n - 1], c))
    }
}

/// The contents of named expressions.
pub open spec fn consts_view(s: Seq<(String, ExprTree)>) -> Seq<(Seq<char>, ExprT)> {
    Seq::new(s.len(), |i: int| (s[i].0@, s[i].1@))
}

/// The contents of named types.
pub open spec fn named_view(s: Seq<(String, TypeTree)>) -> Seq<(Seq<char>, TypeT)> {
    Seq::new(s.len(), |i: int| (s[i].0@, s[i].1@))
}

// ---------------------------------------------------------------------------
// Copies
// ---------------------------------------------------------------------------

fn copy_types(v: &Vec<TypeTree>) -> (r: Vec<TypeTree>)
    ensures
        types_view(r@) == types_view(v@),
    decreases v, 0int,
{
    let ghost l = types_view(v@);
    let mut out: Vec<TypeTree> = Vec::new();
    let n: usize = v.len();
    let mut i: usize = 0;
    assert(types_view(out@) =~= l.take(0));
    while i < n
        invariant
            i <= n,
            n == v@.len(),
            l == types_view(v@),
            types_view(out@) == l.take(i as int),
        decreases n - i,
    {
        assert(l[i as int] == v@[i as int]@);
        let x = v[i].duplicate();
        let ghost before = out@;
        out.push(x);
        assert(types_view(out@) =~= types_view(before).push(x@));
        assert(l.take(i as int).push(l[i as int]) =~= l.take(i + 1));
        i = i + 1;
    }
    assert(l.take(n as int) =~= l);
    out
}

fn copy_segments(v: &Vec<SegmentTree>) -> (r: Vec<SegmentTree>)
    ensures
        segments_view(r@) == segments_view(v@),
    decreases v, 0int,
{
    let ghost l = segments_view(v@);
    let mut out: Vec<SegmentTree> = Vec::new();
    let n: usize = v.len();
    let mut i: usize = 0;
    assert(segments_view(out@) =~= l.take(0));
    while i < n
        invariant
            i <= n,
            n == v@.len(),
            l == segments_view(v@),
            segments_view(out@) == l.take(i as int),
        decreases n - i,
    {
        assert(l[i as int] == v@[i as int]@);
        let x = v[i].duplicate();
        let ghost before = out@;
        out.push(x);
        assert(segments_view(out@) =~= segments_view(before).push(x@));
        assert(l.take(i as int).push(l[i as int]) =~= l.take(i + 1));
        i = i + 1;
    }
    assert(l.take(n as int) =~= l);
    out
}

fn copy_args(v: &Vec<ArgTree>) -> (r: Vec<ArgTree>)
    ensures
        arg_views(r@) == arg_views(v@),
    decreases v, 0int,
{
    let ghost l = arg_views(v@);
    let mut out: Vec<ArgTree> = Vec::new();
    let n: usize = v.len();
    let mut i: usize = 0;
    assert(arg_views(out@) =~= l.take(0));
    while i < n
        invariant
            i <= n,
            n == v@.len(),
            l == arg_views(v@),
            arg_views(out@) == l.take(i as int),
        decreases n - i,
    {
        assert(l[i as int] == v@[i as int]@);
        let x = v[i].duplicate();
        let ghost before = out@;
        out.push(x);
        assert(arg_views(out@) =~= arg_views(before).push(x@));
        assert(l.take(i as int).push(l[i as int]) =~= l.take(i + 1));
        i = i + 1;
    }
    assert(l.take(n as int) =~= l);
    out
}

fn copy_exprs(v: &Vec<ExprTree>) -> (r: Vec<ExprTree>)
    ensures
        exprs_view(r@) == exprs_view(v@),
    decreases v, 0int,
{
    let ghost l = exprs_view(v@);
    let mut out: Vec<ExprTree> = Vec::new();
    let n: usize = v.len();
    let mut i: usize = 0;
    assert(exprs_view(out@) =~= l.take(0));
    while i < n
        invariant
            i <= n,
            n == v@.len(),
            l == exprs_view(v@),
            exprs_view(out@) == l.take(i as int),
        decreases n - i,
    {
        assert(l[i as int] == v@[i as int]@);
        let x = v[i].duplicate();
        let ghost before = out@;
        out.push(x);
        assert(exprs_view(out@) =~= exprs_view(before).push(x@));
        assert(l.take(i as int).push(l[i as int]) =~= l.take(i + 1));
        i = i + 1;
    }
    assert(l.take(n as int) =~= l);
    out
}

impl TypeTree {
    /// A copy.
    pub fn duplicate(&self) -> (r: TypeTree)
        ensures
            r@ == self@,
        decreases self, 1int,
    {
        match self {
            TypeTree::Path(p) => TypeTree::Path(p.duplicate()),
            TypeTree::Wrap(w, e) => TypeTree::Wrap(*w, Box::new(e.duplicate())),
            TypeTree::Tuple(v) => TypeTree::Tuple(copy_types(v)),
            TypeTree::Array(e, n) => TypeTree::Array(Box::new(e.duplicate()), n.duplicate()),
            TypeTree::Other(w) => TypeTree::Other(w.duplicate()),
        }
    }
}

impl Words {
    /// A copy.
    pub fn duplicate(&self) -> (r: Words)
        ensures
            r@ == self@,
        decreases self, 1int,
    {
        Words { template: self.template.clone(), parts: copy_exprs(&self.parts) }
    }
}

impl QSelfTree {
    /// A copy.
    pub fn duplicate(&self) -> (r: QSelfTree)
        ensures
            r@ == self@,
        decreases self, 1int,
    {
        QSelfTree { ty: self.ty.duplicate(), position: self.position }
    }
}

fn copy_qself(q: &Option<QSelfTree>) -> (r: Option<QSelfTree>)
    ensures
        match *q {
            Some(x) => r is Some && r->Some_0@ == x@,
            None => r is None,
        },
    decreases q, 1int,
{
    match q {
        Some(x) => Some(x.duplicate()),
        None => None,
    }
}

impl PathTree {
    /// A copy.
    pub fn duplicate(&self) -> (r: PathTree)
        ensures
            r@ == self@,
        decreases self, 1int,
    {
        PathTree {
            qself: copy_qself(&self.qself),
            leading: self.leading,
            segments: copy_segments(&self.segments),
        }
    }
}

impl SegmentTree {
    /// A copy.
    pub fn duplicate(&self) -> (r: SegmentTree)
        ensures
            r@ == self@,
        decreases self, 1int,
    {
        SegmentTree { name: self.name.clone(), args: self.args.duplicate() }
    }
}

impl ArgsTree {
    /// A copy.
    pub fn duplicate(&self) -> (r: ArgsTree)
        ensures
            r@ == self@,
        decreases self, 1int,
    {
        match self {
            ArgsTree::Absent => ArgsTree::Absent,
            ArgsTree::Parenthesized(w) => ArgsTree::Parenthesized(w.duplicate()),
            ArgsTree::Angle(v) => ArgsTree::Angle(copy_args(v)),
        }
    }
}

impl ArgTree {
    /// A copy.
    pub fn duplicate(&self) -> (r: ArgTree)
        ensures
            r@ == self@,
        decreases self, 1int,
    {
        match self {
            ArgTree::Type(t) => ArgTree::Type(t.duplicate()),
            ArgTree::Const(e) => ArgTree::Const(e.duplicate()),
            ArgTree::Other(w) => ArgTree::Other(w.duplicate()),
        }
    }
}

impl ExprTree {
    /// A copy.
    pub fn duplicate(&self) -> (r: ExprTree)
        ensures
            r@ == self@,
        decreases self, 1int,
    {
        match self {
            ExprTree::Path(p) => ExprTree::Path(p.duplicate()),
            ExprTree::Node(h, v) => ExprTree::Node(h.clone(), copy_exprs(v)),
        }
    }
}

// ---------------------------------------------------------------------------
// Filling in
// ---------------------------------------------------------------------------

fn find_const<'a>(c: &'a Vec<(String, ExprTree)>, name: &str) -> (r: Option<&'a ExprTree>)
    ensures
        match r {
            Some(e) => lookup(consts_view(c@), name@, c@.len() as int) == Some(e@),
            None => lookup(consts_view(c@), name@, c@.len() as int) is None,
        },
{
    let ghost l = consts_view(c@);
    let mut i: usize = c.len();
    while i > 0
        invariant
            i <= c@.len(),
            l == consts_view(c@),
            lookup(l, name@, c@.len() as int) == lookup(l, name@, i as int),
        decreases i,
    {
        i = i - 1;
        assert(l[i as int] == (c@[i as int].0@, c@[i as int].1@));
        if same_text(c[i].0.as_str(), name) {
            return Some(&c[i].1);
        }
    }
    None
}

fn find_type<'a>(c: &'a Vec<(String, TypeTree)>, name: &str) -> (r: Option<&'a TypeTree>)
    ensures
        match r {
            Some(e) => lookup(named_view(c@), name@, c@.len() as int) == Some(e@),
            None => lookup(named_view(c@), name@, c@.len() as int) is None,
        },
{
    let ghost l = named_view(c@);
    let mut i: usize = c.len();
    while i > 0
        invariant
            i <= c@.len(),
            l == named_view(c@),
            lookup(l, name@, c@.len() as int) == lookup(l, name@, i as int),
        decreases i,
    {
        i = i - 1;
        assert(l[i as int] == (c@[i as int].0@, c@[i as int].1@));
        if same_text(c[i].0.as_str(), name) {
            return Some(&c[i].1);
        }
    }
    None
}

impl PathTree {
    /// The only name of a path.
    pub fn single_name(&self) -> (r: Option<&String>)
        ensures
            match r {
                Some(s) => single_name(self@) == Some(s@),
                None => single_name(self@) is None,
            },
    {
        if self.qself.is_some() || self.segments.len() != 1 {
            None
        } else {
            assert(self@.segments[0] == self.segments@[0]@);
            Some(&self.segments[0].name)
        }
    }

    fn const_for<'a>(&self, c: &'a Vec<(String, ExprTree)>) -> (r: Option<&'a ExprTree>)
        ensures
            match r {
                Some(e) => const_for(self@, consts_view(c@)) == Some(e@),
                None => const_for(self@, consts_view(c@)) is None,
            },
    {
        match self.single_name() {
            Some(n) => find_const(c, n.as_str()),
            None => None,
        }
    }

    fn fill(&self, c: &Vec<(String, ExprTree)>) -> (r: PathTree)
        ensures
            r@ == fill_path(self@, consts_view(c@)),
        decreases self, 1int,
    {
        PathTree {
            qself: match &self.qself {
                Some(q) => Some(q.fill(c)),
                None => None,
            },
            leading: self.leading,
            segments: fill_segment_list(&self.segments, c),
        }
    }
}

impl QSelfTree {
    fn fill(&self, c: &Vec<(String, ExprTree)>) -> (r: QSelfTree)
        ensures
            r@ == fill_qself(self@, consts_view(c@)),
        decreases self, 1int,
    {
        QSelfTree { ty: self.ty.fill(c), position: self.position }
    }
}

impl Words {
    fn fill(&self, c: &Vec<(String, ExprTree)>) -> (r: Words)
        ensures
            r@ == fill_words(self@, consts_view(c@)),
        decreases self, 1int,
    {
        Words { template: self.template.clone(), parts: fill_expr_list(&self.parts, c) }
    }
}

fn fill_type_list(v: &Vec<TypeTree>, c: &Vec<(String, ExprTree)>) -> (r: Vec<TypeTree>)
    ensures
        types_view(r@) == fill_types(types_view(v@), consts_view(c@), v@.len() as int),
    decreases v, 0int,
{
    let ghost l = types_view(v@);
    let mut out: Vec<TypeTree> = Vec::new();
    let n: usize = v.len();
    let mut i: usize = 0;
    assert(types_view(out@) =~= seq![]);
    while i < n
        invariant
            i <= n,
            n == v@.len(),
            l == types_view(v@),
            types_view(out@) == fill_types(l, consts_view(c@), i as int),
        decreases n - i,
    {
        assert(l[i as int] == v@[i as int]@);
        let x = v[i].fill(c);
        let ghost before = out@;
        out.push(x);
        assert(types_view(out@) =~= types_view(before).push(x@));
        i = i + 1;
    }
    out
}

fn fill_segment_list(v: &Vec<SegmentTree>, c: &Vec<(String, ExprTree)>) -> (r: Vec<SegmentTree>)
    ensures
        segments_view(r@) == fill_segments(segments_view(v@), consts_view(c@), v@.len() as int),
    decreases v, 0int,
{
    let ghost l = segments_view(v@);
    let mut out: Vec<SegmentTree> = Vec::new();
    let n: usize = v.len();
    let mut i: usize = 0;
    assert(segments_view(out@) =~= seq![]);
    while i < n
        invariant
            i <= n,
            n == v@.len(),
            l == segments_view(v@),
            segments_view(out@) == fill_segments(l, consts_view(c@), i as int),
        decreases n - i,
    {
        assert(l[i as int] == v@[i as int]@);
        let x = v[i].fill(c);
        let ghost before = out@;
        out.push(x);
        assert(segments_view(out@) =~= segments_view(before).push(x@));
        i = i + 1;
    }
    out
}

fn fill_arg_list(v: &Vec<ArgTree>, c: &Vec<(String, ExprTree)>) -> (r: Vec<ArgTree>)
    ensures
        arg_views(r@) == fill_list(arg_views(v@), consts_view(c@), v@.len() as int),
    decreases v, 0int,
{
    let ghost l = arg_views(v@);
    let mut out: Vec<ArgTree> = Vec::new();
    let n: usize = v.len();
    let mut i: usize = 0;
    assert(arg_views(out@) =~= seq![]);
    while i < n
        invariant
            i <= n,
            n == v@.len(),
            l == arg_views(v@),
            arg_views(out@) == fill_list(l, consts_view(c@), i as int),
        decreases n - i,
    {
        assert(l[i as int] == v@[i as int]@);
        let x = v[i].fill(c);
        let ghost before = out@;
        out.push(x);
        assert(arg_views(out@) =~= arg_views(before).push(x@));
        i = i + 1;
    }
    out
}

fn fill_expr_list(v: &Vec<ExprTree>, c: &Vec<(String, ExprTree)>) -> (r: Vec<ExprTree>)
    ensures
        exprs_view(r@) == fill_exprs(exprs_view(v@), consts_view(c@), v@.len() as int),
    decreases v, 0int,
{
    let ghost l = exprs_view(v@);
    let mut out: Vec<ExprTree> = Vec::new();
    let n: usize = v.len();
    let mut i: usize = 0;
    assert(exprs_view(out@) =~= seq![]);
    while i < n
        invariant
            i <= n,
            n == v@.len(),
            l == exprs_view(v@),
            exprs_view(out@) == fill_exprs(l, consts_view(c@), i as int),
        decreases n - i,
    {
        assert(l[i as int] == v@[i as int]@);
        let x = v[i].fill(c);
        let ghost before = out@;
        out.push(x);
        assert(exprs_view(out@) =~= exprs_view(before).push(x@));
        i = i + 1;
    }
    out
}

impl SegmentTree {
    fn fill(&self, c: &Vec<(String, ExprTree)>) -> (r: SegmentTree)
        ensures
            r@ == (SegmentT { name: self@.name, args: fill_args(self@.args, consts_view(c@)) }),
        decreases self, 1int,
    {
        SegmentTree { name: self.name.clone(), args: self.args.fill(c) }
    }
}

impl ArgsTree {
    fn fill(&self, c: &Vec<(String, ExprTree)>) -> (r: ArgsTree)
        ensures
            r@ == fill_args(self@, consts_view(c@)),
        decreases self, 1int,
    {
        match self {
            ArgsTree::Absent => ArgsTree::Absent,
            ArgsTree::Parenthesized(w) => ArgsTree::Parenthesized(w.fill(c)),
            ArgsTree::Angle(v) => ArgsTree::Angle(fill_arg_list(v, c)),
        }
    }
}

impl ArgTree {
    fn fill(&self, c: &Vec<(String, ExprTree)>) -> (r: ArgTree)
        ensures
            r@ == fill_arg(self@, consts_view(c@)),
        decreases self, 1int,
    {
        match self {
            ArgTree::Type(t) => ArgTree::Type(t.fill(c)),
            ArgTree::Const(e) => ArgTree::Const(e.fill(c)),
            ArgTree::Other(w) => ArgTree::Other(w.fill(c)),
        }
    }
}

impl ExprTree {
    /// The expression with constants filled in.
    pub fn fill(&self, c: &Vec<(String, ExprTree)>) -> (r: ExprTree)
        ensures
            r@ == fill_expr(self@, consts_view(c@)),
        decreases self, 1int,
    {
        match self {
            ExprTree::Path(p) => match p.const_for(c) {
                Some(e) => e.duplicate(),
                None => ExprTree::Path(p.fill(c)),
            },
            ExprTree::Node(h, v) => ExprTree::Node(h.clone(), fill_expr_list(v, c)),
        }
    }
}

impl TypeTree {
    fn fill(&self, c: &Vec<(String, ExprTree)>) -> (r: TypeTree)
        ensures
            r@ == fill_type(self@, consts_view(c@)),
        decreases self, 1int,
    {
        match self {
            TypeTree::Path(p) => TypeTree::Path(p.fill(c)),
            TypeTree::Wrap(w, e) => TypeTree::Wrap(*w, Box::new(e.fill(c))),
            TypeTree::Tuple(v) => TypeTree::Tuple(fill_type_list(v, c)),
            TypeTree::Array(e, n) => TypeTree::Array(Box::new(e.fill(c)), n.fill(c)),
            TypeTree::Other(w) => TypeTree::Other(w.fill(c)),
        }
    }
}

/// Replace the names of constants in a type by their values.
pub fn normalize_const_paths_in_type(ty: &TypeTree, consts: &Vec<(String, ExprTree)>) -> (r:
    TypeTree)
    ensures
        r@ == fill_type(ty@, consts_view(consts@)),
{
    ty.fill(consts)
}

// ---------------------------------------------------------------------------
// Aliases
// ---------------------------------------------------------------------------

/// The number of aliases that may be open at once.
pub const MAX_ALIAS_EXPANSION_DEPTH: usize = 64;

/// A generic parameter of an alias.
pub enum Formal {
    Type(String),
    Const(String),
    Lifetime(String),
}

/// The contents of a generic parameter.
#[verifier::ext_equal]
pub enum FormalT {
    Type(Seq<char>),
    Const(Seq<char>),
    Lifetime(Seq<char>),
}

impl View for Formal {
    type V = FormalT;

    open spec fn view(&self) -> FormalT {
        match self {
            Formal::Type(s) => FormalT::Type(s@),
            Formal::Const(s) => FormalT::Const(s@),
            Formal::Lifetime(s) => FormalT::Lifetime(s@),
        }
    }
}

/// A type alias.
pub struct Alias {
    pub name: String,
    pub params: Vec<Formal>,
    pub ty: TypeTree,
}

/// The contents of a type alias.
#[verifier::ext_equal]
pub struct AliasT {
    pub name: Seq<char>,
    pub params: Seq<FormalT>,
    pub ty: TypeT,
}

/// The contents of generic parameters.
pub open spec fn formals_view(s: Seq<Formal>) -> Seq<FormalT> {
    Seq::new(s.len(), |i: int| s[i]@)
}

impl View for Alias {
    type V = AliasT;

    open spec fn view(&self) -> AliasT {
        AliasT { name: self.name@, params: formals_view(self.params@), ty: self.ty@ }
    }
}

/// The contents of aliases.
pub open spec fn aliases_view(s: Seq<Alias>) -> Seq<AliasT> {
    Seq::new(s.len(), |i: int| s[i]@)
}

/// Why aliases cannot be expanded.
pub enum AliasError {
    /// Too many aliases are open at once.
    TooDeep,
    /// An alias stands for itself.
    Recursive(String),
    /// The arguments of an alias are in parentheses.
    Parenthesized(String),
    /// An alias has another number of arguments than parameters.
    WrongCount(String, usize, usize),
    /// An argument is not a type.
    ExpectedType(String, String, ArgTree),
    /// An argument is not a constant.
    ExpectedConst(String, String, ArgTree),
    /// Types are nested deeper than the steps that were allowed.
    OutOfSteps,
}

/// The contents of an error.
#[verifier::ext_equal]
pub enum AliasErrorT {
    TooDeep,
    Recursive(Seq<char>),
    Parenthesized(Seq<char>),
    WrongCount(Seq<char>, nat, nat),
    ExpectedType(Seq<char>, Seq<char>, ArgT),
    ExpectedConst(Seq<char>, Seq<char>, ArgT),
    OutOfSteps,
}

impl View for AliasError {
    type V = AliasErrorT;

    open spec fn view(&self) -> AliasErrorT {
        match self {
            AliasError::TooDeep => AliasErrorT::TooDeep,
            AliasError::Recursive(s) => AliasErrorT::Recursive(s@),
            AliasError::Parenthesized(s) => AliasErrorT::Parenthesized(s@),
            AliasError::WrongCount(s, a, b) => AliasErrorT::WrongCount(s@, *a as nat, *b as nat),
            AliasError::ExpectedType(s, p, a) => AliasErrorT::ExpectedType(s@, p@, a@),
            AliasError::ExpectedConst(s, p, a) => AliasErrorT::ExpectedConst(s@, p@, a@),
            AliasError::OutOfSteps => AliasErrorT::OutOfSteps,
        }
    }
}

/// What parameters stand for.
#[verifier::ext_equal]
pub struct SubstT {
    pub types: Seq<(Seq<char>, TypeT)>,
    pub consts: Seq<(Seq<char>, ExprT)>,
}

/// What parameters stand for.
pub struct AliasSubstitution {
    pub types: Vec<(String, TypeTree)>,
    pub consts: Vec<(String, ExprTree)>,
}

impl View for AliasSubstitution {
    type V = SubstT;

    open spec fn view(&self) -> SubstT {
        SubstT { types: named_view(self.types@), consts: consts_view(self.consts@) }
    }
}

/// Nothing is substituted.
pub open spec fn no_subst() -> SubstT {
    SubstT { types: seq![], consts: seq![] }
}

/// The last of the first `n` aliases with a name.
pub open spec fn find_alias(s: Seq<AliasT>, name: Seq<char>, n: int) -> Option<AliasT>
    decreases n,
{
    if n <= 0 || n > s.len() {
        None
    } else if s[n - 1].name == name {
        Some(s[n - 1])
    } else {
        find_alias(s, name, n - 1)
    }
}

/// The parameters among the first `n` that take arguments.
pub open spec fn formals(s: Seq<FormalT>, n: int) -> Seq<FormalT>
    decreases n,
{
    if n <= 0 || n > s.len() {
        seq![]
    } else if s[n - 1] is Lifetime {
        formals(s, n - 1)
    } else {
        formals(s, n - 1).push(s[n - 1])
    }
}

/// What the first `n` parameters stand for.
pub open spec fn bound(name: Seq<char>, f: Seq<FormalT>, a: Seq<ArgT>, n: int) -> Result<
    SubstT,
    AliasErrorT,
>
    decreases n,
{
    if n <= 0 {
        Ok(no_subst())
    } else {
        match bound(name, f, a, n - 1) {
            Ok(s) => match (f[n - 1], a[n - 1]) {
                (FormalT::Type(p), ArgT::Type(t)) => Ok(
                    SubstT { types: s.types.push((p, t)), consts: s.consts },
                ),
                (FormalT::Const(p), ArgT::Const(e)) => Ok(
                    SubstT { types: s.types, consts: s.consts.push((p, e)) },
                ),
                (FormalT::Const(p), ArgT::Type(TypeT::Path(path))) => Ok(
                    SubstT { types: s.types, consts: s.consts.push((p, ExprT::Path(path))) },
                ),
                (FormalT::Type(p), _) => Err(AliasErrorT::ExpectedType(name, p, a[n - 1])),
                (FormalT::Const(p), _) => Err(AliasErrorT::ExpectedConst(name, p, a[n - 1])),
                (FormalT::Lifetime(_), _) => Ok(s),
            },
            Err(e) => Err(e),
        }
    }
}

/// What the parameters of an alias stand for.
pub open spec fn substitution(alias: AliasT, args: ArgsT) -> Result<SubstT, AliasErrorT> {
    let f = formals(alias.params, alias.params.len() as int);
    let a = match args {
        ArgsT::Angle(s) => s,
        _ => seq![],
    };
    if args is Parenthesized {
        Err(AliasErrorT::Parenthesized(alias.name))
    } else if f.len() != a.len() {
        Err(AliasErrorT::WrongCount(alias.name, f.len(), a.len()))
    } else {
        bound(alias.name, f, a, f.len() as int)
    }
}

/// A path whose last name has other arguments.
pub open spec fn with_args(p: PathT, args: ArgsT) -> PathT {
    PathT {
        qself: p.qself,
        leading: p.leading,
        segments: p.segments.drop_last().push(SegmentT { name: p.segments.last().name, args }),
    }
}

/// A type with its aliases expanded, while the aliases in `open` are being
/// expanded. `steps` bounds the nesting.
pub open spec fn expanded(t: TypeT, al: Seq<AliasT>, open: Seq<Seq<char>>, steps: nat) -> Result<
    TypeT,
    AliasErrorT,
>
    decreases steps, 0int,
{
    if open.len() > MAX_ALIAS_EXPANSION_DEPTH {
        Err(AliasErrorT::TooDeep)
    } else if steps == 0 {
        Err(AliasErrorT::OutOfSteps)
    } else {
        let k = (steps - 1) as nat;
        match t {
            TypeT::Path(p) => expanded_path(p, al, open, k),
            TypeT::Wrap(w, e) => match expanded(*e, al, open, k) {
                Ok(x) => Ok(TypeT::Wrap(w, Box::new(x))),
                Err(e) => Err(e),
            },
            TypeT::Tuple(s) => match expanded_list(s, al, open, k, s.len() as int) {
                Ok(x) => Ok(TypeT::Tuple(x)),
                Err(e) => Err(e),
            },
            TypeT::Array(e, n) => match expanded(*e, al, open, k) {
                Ok(x) => Ok(TypeT::Array(Box::new(x), n)),
                Err(e) => Err(e),
            },
            TypeT::Other(_) => Ok(t),
        }
    }
}

/// The first `n` types with their aliases expanded.
pub open spec fn expanded_list(
    s: Seq<TypeT>,
    al: Seq<AliasT>,
    open: Seq<Seq<char>>,
    steps: nat,
    n: int,
) -> Result<Seq<TypeT>, AliasErrorT>
    decreases steps, n,
{
    if n <= 0 || n > s.len() {
        Ok(seq![])
    } else {
        match expanded_list(s, al, open, steps, n - 1) {
            Ok(l) => if steps == 0 {
                Err(AliasErrorT::OutOfSteps)
            } else {
                match expanded(s[n - 1], al, open, (steps - 1) as nat) {
                    Ok(x) => Ok(l.push(x)),
                    Err(e) => Err(e),
                }
            },
            Err(e) => Err(e),
        }
    }
}

/// A path with its aliases expanded: an alias is replaced by what it stands
/// for, any other path keeps its names.
pub open spec fn expanded_path(p: PathT, al: Seq<AliasT>, open: Seq<Seq<char>>, steps: nat) -> Result<
    TypeT,
    AliasErrorT,
>
    decreases steps, 0int,
{
    if p.segments.len() == 0 {
        Ok(TypeT::Path(p))
    } else {
        let last = p.segments.last();
        match find_alias(al, last.name, al.len() as int) {
            Some(alias) => if open.contains(last.name) {
                Err(AliasErrorT::Recursive(last.name))
            } else {
                match substitution(alias, last.args) {
                    Ok(s) => if steps == 0 {
                        Err(AliasErrorT::OutOfSteps)
                    } else {
                        let k = (steps - 1) as nat;
                        match substituted(alias.ty, s, al, open.push(last.name), k) {
                            Ok(t) => expanded(t, al, open.push(last.name), k),
                            Err(e) => Err(e),
                        }
                    },
                    Err(e) => Err(e),
                }
            },
            None => match last.args {
                ArgsT::Angle(args) => if steps == 0 {
                    Err(AliasErrorT::OutOfSteps)
                } else {
                    match substituted_args(
                        args,
                        no_subst(),
                        al,
                        open,
                        (steps - 1) as nat,
                        args.len() as int,
                    ) {
                        Ok(x) => Ok(TypeT::Path(with_args(p, ArgsT::Angle(x)))),
                        Err(e) => Err(e),
                    }
                },
                _ => Ok(TypeT::Path(p)),
            },
        }
    }
}

/// A path with the arguments of its last name substituted.
pub open spec fn substituted_path(
    p: PathT,
    s: SubstT,
    al: Seq<AliasT>,
    open: Seq<Seq<char>>,
    steps: nat,
) -> Result<PathT, AliasErrorT>
    decreases steps, 0int,
{
    if p.segments.len() == 0 {
        Ok(p)
    } else {
        match p.segments.last().args {
            ArgsT::Angle(args) => if steps == 0 {
                Err(AliasErrorT::OutOfSteps)
            } else {
                match substituted_args(
                    args,
                    s,
                    al,
                    open,
                    (steps - 1) as nat,
                    args.len() as int,
                ) {
                    Ok(x) => Ok(with_args(p, ArgsT::Angle(x))),
                    Err(e) => Err(e),
                }
            },
            _ => Ok(p),
        }
    }
}

/// A type with parameters substituted and aliases expanded.
pub open spec fn substituted(
    t: TypeT,
    s: SubstT,
    al: Seq<AliasT>,
    open: Seq<Seq<char>>,
    steps: nat,
) -> Result<TypeT, AliasErrorT>
    decreases steps, 0int,
{
    if steps == 0 {
        Err(AliasErrorT::OutOfSteps)
    } else {
        let k = (steps - 1) as nat;
        match t {
            TypeT::Path(p) => match param_type(p, s) {
                Some(r) => expanded(r, al, open, k),
                None => match substituted_path(p, s, al, open, k) {
                    Ok(q) => expanded(TypeT::Path(q), al, open, k),
                    Err(e) => Err(e),
                },
            },
            TypeT::Wrap(w, e) => match substituted(*e, s, al, open, k) {
                Ok(x) => Ok(TypeT::Wrap(w, Box::new(x))),
                Err(e) => Err(e),
            },
            TypeT::Tuple(l) => match substituted_list(l, s, al, open, k, l.len() as int) {
                Ok(x) => Ok(TypeT::Tuple(x)),
                Err(e) => Err(e),
            },
            TypeT::Array(e, n) => match substituted(*e, s, al, open, k) {
                Ok(x) => Ok(TypeT::Array(Box::new(x), fill_expr(n, s.consts))),
                Err(e) => Err(e),
            },
            TypeT::Other(_) => Ok(t),
        }
    }
}

/// The type that a path stands for among the parameters.
pub open spec fn param_type(p: PathT, s: SubstT) -> Option<TypeT> {
    match single_name(p) {
        Some(n) => lookup(s.types, n, s.types.len() as int),
        None => None,
    }
}

/// The first `n` types with parameters substituted and aliases expanded.
pub open spec fn substituted_list(
    l: Seq<TypeT>,
    s: SubstT,
    al: Seq<AliasT>,
    open: Seq<Seq<char>>,
    steps: nat,
    n: int,
) -> Result<Seq<TypeT>, AliasErrorT>
    decreases steps, n,
{
    if n <= 0 || n > l.len() {
        Ok(seq![])
    } else {
        match substituted_list(l, s, al, open, steps, n - 1) {
            Ok(x) => if steps == 0 {
                Err(AliasErrorT::OutOfSteps)
            } else {
                match substituted(l[n - 1], s, al, open, (steps - 1) as nat) {
                    Ok(y) => Ok(x.push(y)),
                    Err(e) => Err(e),
                }
            },
            Err(e) => Err(e),
        }
    }
}

/// A constant as a generic argument: a path is an argument that looks like a
/// type.
pub open spec fn const_arg(e: ExprT) -> ArgT {
    match e {
        ExprT::Path(p) => ArgT::Type(TypeT::Path(p)),
        _ => ArgT::Const(e),
    }
}

/// The constant that a generic argument names.
pub open spec fn named_const(a: ArgT, s: SubstT) -> Option<ExprT> {
    match a {
        ArgT::Type(TypeT::Path(p)) => const_for(p, s.consts),
        _ => None,
    }
}

/// A generic argument with parameters substituted and aliases expanded.
pub open spec fn substituted_arg(
    a: ArgT,
    s: SubstT,
    al: Seq<AliasT>,
    open: Seq<Seq<char>>,
    steps: nat,
) -> Result<ArgT, AliasErrorT>
    decreases steps, 0int,
{
    match named_const(a, s) {
        Some(e) => Ok(const_arg(e)),
        None => match a {
            ArgT::Type(t) => if steps == 0 {
                Err(AliasErrorT::OutOfSteps)
            } else {
                match substituted(t, s, al, open, (steps - 1) as nat) {
                    Ok(x) => Ok(ArgT::Type(x)),
                    Err(e) => Err(e),
                }
            },
            ArgT::Const(e) => Ok(ArgT::Const(fill_expr(e, s.consts))),
            ArgT::Other(_) => Ok(a),
        },
    }
}

/// The first `n` generic arguments with parameters substituted and aliases
/// expanded.
pub open spec fn substituted_args(
    l: Seq<ArgT>,
    s: SubstT,
    al: Seq<AliasT>,
    open: Seq<Seq<char>>,
    steps: nat,
    n: int,
) -> Result<Seq<ArgT>, AliasErrorT>
    decreases steps, n,
{
    if n <= 0 || n > l.len() {
        Ok(seq![])
    } else {
        match substituted_args(l, s, al, open, steps, n - 1) {
            Ok(x) => if steps == 0 {
                Err(AliasErrorT::OutOfSteps)
            } else {
                match substituted_arg(l[n - 1], s, al, open, (steps - 1) as nat) {
                    Ok(y) => Ok(x.push(y)),
                    Err(e) => Err(e),
                }
            },
            Err(e) => Err(e),
        }
    }
}

// ---------------------------------------------------------------------------
// Expanding
// ---------------------------------------------------------------------------

/// A result is the one that is meant.
pub open spec fn gives<T: View>(r: Result<T, AliasError>, s: Result<T::V, AliasErrorT>) -> bool {
    match s {
        Ok(x) => r is Ok && r->Ok_0@ == x,
        Err(e) => r is Err && r->Err_0@ == e,
    }
}

fn find_alias_named<'a>(s: &'a Vec<Alias>, name: &str) -> (r: Option<&'a Alias>)
    ensures
        match r {
            Some(a) => find_alias(aliases_view(s@), name@, s@.len() as int) == Some(a@),
            None => find_alias(aliases_view(s@), name@, s@.len() as int) is None,
        },
{
    let ghost l = aliases_view(s@);
    let mut i: usize = s.len();
    while i > 0
        invariant
            i <= s@.len(),
            l == aliases_view(s@),
            find_alias(l, name@, s@.len() as int) == find_alias(l, name@, i as int),
        decreases i,
    {
        i = i - 1;
        assert(l[i as int] == s@[i as int]@);
        if same_text(s[i].name.as_str(), name) {
            return Some(&s[i]);
        }
    }
    None
}

fn formals_of<'a>(s: &'a Vec<Formal>) -> (r: Vec<&'a Formal>)
    ensures
        r@.len() == formals(formals_view(s@), s@.len() as int).len(),
        forall|i: int|
            0 <= i < r@.len() ==> (#[trigger] r@[i])@ == formals(
                formals_view(s@),
                s@.len() as int,
            )[i],
{
    let ghost l = formals_view(s@);
    let mut out: Vec<&'a Formal> = Vec::new();
    let mut i: usize = 0;
    while i < s.len()
        invariant
            i <= s@.len(),
            l == formals_view(s@),
            out@.len() == formals(l, i as int).len(),
            forall|j: int| 0 <= j < out@.len() ==> (#[trigger] out@[j])@ == formals(l, i as int)[j],
        decreases s@.len() - i,
    {
        assert(l[i as int] == s@[i as int]@);
        match &s[i] {
            Formal::Lifetime(_) => {},
            _ => {
                out.push(&s[i]);
            },
        }
        i = i + 1;
    }
    out
}

proof fn lemma_bound_error(name: Seq<char>, f: Seq<FormalT>, a: Seq<ArgT>, k: int, n: int)
    requires
        0 <= k <= n,
        bound(name, f, a, k) is Err,
    ensures
        bound(name, f, a, n) == bound(name, f, a, k),
    decreases n,
{
    if k < n {
        lemma_bound_error(name, f, a, k, n - 1);
    }
}

impl AliasSubstitution {
    /// Nothing is substituted.
    pub fn new() -> (s: AliasSubstitution)
        ensures
            s@ == no_subst(),
    {
        let s = AliasSubstitution { types: Vec::new(), consts: Vec::new() };
        assert(s@ =~= no_subst());
        s
    }

    fn add_type(&mut self, name: String, ty: TypeTree)
        ensures
            final(self)@ == (SubstT {
                types: old(self)@.types.push((name@, ty@)),
                consts: old(self)@.consts,
            }),
    {
        self.types.push((name, ty));
        assert(self@ =~= SubstT {
            types: old(self)@.types.push((name@, ty@)),
            consts: old(self)@.consts,
        });
    }

    fn add_const(&mut self, name: String, e: ExprTree)
        ensures
            final(self)@ == (SubstT {
                types: old(self)@.types,
                consts: old(self)@.consts.push((name@, e@)),
            }),
    {
        self.consts.push((name, e));
        assert(self@ =~= SubstT {
            types: old(self)@.types,
            consts: old(self)@.consts.push((name@, e@)),
        });
    }
}

/// Match the arguments of an alias with its parameters.
pub fn build_alias_substitution(alias: &Alias, args: &ArgsTree) -> (r: Result<
    AliasSubstitution,
    AliasError,
>)
    ensures
        gives(r, substitution(alias@, args@)),
{
    let f = formals_of(&alias.params);
    let ghost fs = formals(alias@.params, alias@.params.len() as int);
    let none: Vec<ArgTree> = Vec::new();
    let a: &Vec<ArgTree> = match args {
        ArgsTree::Angle(v) => v,
        ArgsTree::Absent => &none,
        ArgsTree::Parenthesized(_) => {
            return Err(AliasError::Parenthesized(alias.name.clone()));
        },
    };
    let ghost av = arg_views(a@);
    proof {
        assert(arg_views(none@) =~= seq![]);
    }
    if f.len() != a.len() {
        return Err(AliasError::WrongCount(alias.name.clone(), f.len(), a.len()));
    }
    let n: usize = f.len();
    let mut s = AliasSubstitution::new();
    let mut i: usize = 0;
    while i < n
        invariant
            i <= n,
            n == f@.len(),
            n == a@.len(),
            n == fs.len(),
            av == arg_views(a@),
            forall|j: int| 0 <= j < f@.len() ==> (#[trigger] f@[j])@ == fs[j],
            substitution(alias@, args@) == bound(alias@.name, fs, av, n as int),
            bound(alias@.name, fs, av, i as int) == Ok::<SubstT, AliasErrorT>(s@),
        decreases n - i,
    {
        proof {
            if bound(alias@.name, fs, av, i + 1) is Err {
                lemma_bound_error(alias@.name, fs, av, i + 1, n as int);
            }
            assert(av[i as int] == a@[i as int]@);
            assert(f@[i as int]@ == fs[i as int]);
        }
        match f[i] {
            Formal::Type(p) => match &a[i] {
                ArgTree::Type(t) => s.add_type(p.clone(), t.duplicate()),
                _ => {
                    let got = a[i].duplicate();
                    return Err(AliasError::ExpectedType(alias.name.clone(), p.clone(), got));
                },
            },
            Formal::Const(p) => match &a[i] {
                ArgTree::Const(e) => s.add_const(p.clone(), e.duplicate()),
                ArgTree::Type(TypeTree::Path(path)) => s.add_const(
                    p.clone(),
                    ExprTree::Path(path.duplicate()),
                ),
                _ => {
                    let got = a[i].duplicate();
                    return Err(AliasError::ExpectedConst(alias.name.clone(), p.clone(), got));
                },
            },
            Formal::Lifetime(_) => {},
        }
        i = i + 1;
    }
    Ok(s)
}

fn opened(open: &Vec<String>, name: &String) -> (r: Vec<String>)
    ensures
        meta::texts(r@) == meta::texts(open@).push(name@),
{
    let mut r: Vec<String> = Vec::new();
    let mut i: usize = 0;
    assert(meta::texts(r@) =~= meta::texts(open@).take(0));
    while i < open.len()
        invariant
            i <= open@.len(),
            meta::texts(r@) == meta::texts(open@).take(i as int),
        decreases open@.len() - i,
    {
        let ghost before = r@;
        r.push(open[i].clone());
        assert(meta::texts(r@) =~= meta::texts(before).push(open@[i as int]@));
        assert(meta::texts(open@).take(i as int).push(open@[i as int]@) =~= meta::texts(open@).take(
            i + 1,
        ));
        i = i + 1;
    }
    let ghost before = r@;
    r.push(name.clone());
    assert(meta::texts(open@).take(open@.len() as int) =~= meta::texts(open@));
    assert(meta::texts(r@) =~= meta::texts(before).push(name@));
    r
}

fn path_with_args(p: &PathTree, args: Vec<ArgTree>) -> (r: PathTree)
    requires
        p@.segments.len() > 0,
    ensures
        r@ == with_args(p@, ArgsT::Angle(arg_views(args@))),
{
    let ghost av = arg_views(args@);
    let mut segments = copy_segments(&p.segments);
    let ghost l = segments@;
    proof {
        assert(segments_view(l) == segments_view(p.segments@));
        assert(segments_view(l).len() == l.len());
    }
    let n: usize = segments.len();
    let name = p.segments[n - 1].name.clone();
    let s = SegmentTree { name, args: ArgsTree::Angle(args) };
    segments.set(n - 1, s);
    proof {
        assert(p@.segments.last() == p.segments@[n - 1]@);
        assert(segments_view(segments@) =~= with_args(p@, ArgsT::Angle(av)).segments) by {
            assert forall|i: int| 0 <= i < n implies segments_view(segments@)[i] == with_args(
                p@,
                ArgsT::Angle(av),
            ).segments[i] by {
                if i < n - 1 {
                    assert(segments_view(l)[i] == l[i]@);
                }
            }
        }
    }
    PathTree { qself: copy_qself(&p.qself), leading: p.leading, segments }
}

/// Expand the aliases in a type, while the aliases in `open` are being
/// expanded.
fn normalize_type_aliases_inner(
    ty: &TypeTree,
    aliases: &Vec<Alias>,
    open: &Vec<String>,
    steps: u64,
) -> (r: Result<TypeTree, AliasError>)
    ensures
        gives(r, expanded(ty@, aliases_view(aliases@), meta::texts(open@), steps as nat)),
    decreases steps, 0int,
{
    if open.len() > MAX_ALIAS_EXPANSION_DEPTH {
        return Err(AliasError::TooDeep);
    }
    if steps == 0 {
        return Err(AliasError::OutOfSteps);
    }
    let k: u64 = steps - 1;
    match ty {
        TypeTree::Path(p) => normalize_path_type(p, aliases, open, k),
        TypeTree::Wrap(w, e) => match normalize_type_aliases_inner(e, aliases, open, k) {
            Ok(x) => Ok(TypeTree::Wrap(*w, Box::new(x))),
            Err(e) => Err(e),
        },
        TypeTree::Tuple(v) => match normalize_list(v, aliases, open, k) {
            Ok(x) => Ok(TypeTree::Tuple(x)),
            Err(e) => Err(e),
        },
        TypeTree::Array(e, n) => match normalize_type_aliases_inner(e, aliases, open, k) {
            Ok(x) => Ok(TypeTree::Array(Box::new(x), n.duplicate())),
            Err(e) => Err(e),
        },
        TypeTree::Other(w) => Ok(TypeTree::Other(w.duplicate())),
    }
}

proof fn lemma_list_error(
    s: Seq<TypeT>,
    al: Seq<AliasT>,
    open: Seq<Seq<char>>,
    steps: nat,
    k: int,
    n: int,
)
    requires
        0 <= k <= n <= s.len(),
        expanded_list(s, al, open, steps, k) is Err,
    ensures
        expanded_list(s, al, open, steps, n) == expanded_list(s, al, open, steps, k),
    decreases n,
{
    if k < n {
        lemma_list_error(s, al, open, steps, k, n - 1);
    }
}

fn normalize_list(v: &Vec<TypeTree>, aliases: &Vec<Alias>, open: &Vec<String>, steps: u64) -> (r:
    Result<Vec<TypeTree>, AliasError>)
    ensures
        match expanded_list(
            types_view(v@),
            aliases_view(aliases@),
            meta::texts(open@),
            steps as nat,
            v@.len() as int,
        ) {
            Ok(x) => r is Ok && types_view(r->Ok_0@) == x,
            Err(e) => r is Err && r->Err_0@ == e,
        },
    decreases steps, 1int,
{
    let ghost l = types_view(v@);
    let ghost al = aliases_view(aliases@);
    let ghost o = meta::texts(open@);
    let mut out: Vec<TypeTree> = Vec::new();
    let n: usize = v.len();
    let mut i: usize = 0;
    assert(types_view(out@) =~= seq![]);
    while i < n
        invariant
            i <= n,
            n == v@.len(),
            l == types_view(v@),
            al == aliases_view(aliases@),
            o == meta::texts(open@),
            expanded_list(l, al, o, steps as nat, i as int) == Ok::<Seq<TypeT>, AliasErrorT>(
                types_view(out@),
            ),
        decreases n - i,
    {
        proof {
            if expanded_list(l, al, o, steps as nat, i + 1) is Err {
                lemma_list_error(l, al, o, steps as nat, i + 1, n as int);
            }
            assert(l[i as int] == v@[i as int]@);
        }
        if steps == 0 {
            return Err(AliasError::OutOfSteps);
        }
        let x = normalize_type_aliases_inner(&v[i], aliases, open, steps - 1)?;
        let ghost before = out@;
        out.push(x);
        assert(types_view(out@) =~= types_view(before).push(x@));
        i = i + 1;
    }
    Ok(out)
}

fn normalize_path_type(p: &PathTree, aliases: &Vec<Alias>, open: &Vec<String>, steps: u64) -> (r:
    Result<TypeTree, AliasError>)
    ensures
        gives(r, expanded_path(p@, aliases_view(aliases@), meta::texts(open@), steps as nat)),
    decreases steps, 0int,
{
    let n: usize = p.segments.len();
    if n == 0 {
        return Ok(TypeTree::Path(p.duplicate()));
    }
    let last = &p.segments[n - 1];
    assert(p@.segments.last() == last@);
    match find_alias_named(aliases, last.name.as_str()) {
        Some(alias) => {
            if has_text(open, last.name.as_str()) {
                return Err(AliasError::Recursive(last.name.clone()));
            }
            let s = build_alias_substitution(alias, &last.args)?;
            if steps == 0 {
                return Err(AliasError::OutOfSteps);
            }
            let inner = opened(open, &last.name);
            let t = substitute_type(&alias.ty, &s, aliases, &inner, steps - 1)?;
            normalize_type_aliases_inner(&t, aliases, &inner, steps - 1)
        },
        None => match &last.args {
            ArgsTree::Angle(args) => {
                if steps == 0 {
                    return Err(AliasError::OutOfSteps);
                }
                let none = AliasSubstitution::new();
                match substitute_args(args, &none, aliases, open, steps - 1) {
                    Ok(x) => Ok(TypeTree::Path(path_with_args(p, x))),
                    Err(e) => Err(e),
                }
            },
            _ => Ok(TypeTree::Path(p.duplicate())),
        },
    }
}

fn substitute_path(
    p: &PathTree,
    s: &AliasSubstitution,
    aliases: &Vec<Alias>,
    open: &Vec<String>,
    steps: u64,
) -> (r: Result<PathTree, AliasError>)
    ensures
        gives(
            r,
            substituted_path(p@, s@, aliases_view(aliases@), meta::texts(open@), steps as nat),
        ),
    decreases steps, 0int,
{
    let n: usize = p.segments.len();
    if n == 0 {
        return Ok(p.duplicate());
    }
    let last = &p.segments[n - 1];
    assert(p@.segments.last() == last@);
    match &last.args {
        ArgsTree::Angle(args) => {
            if steps == 0 {
                return Err(AliasError::OutOfSteps);
            }
            match substitute_args(args, s, aliases, open, steps - 1) {
                Ok(x) => Ok(path_with_args(p, x)),
                Err(e) => Err(e),
            }
        },
        _ => Ok(p.duplicate()),
    }
}

fn substitute_type(
    ty: &TypeTree,
    s: &AliasSubstitution,
    aliases: &Vec<Alias>,
    open: &Vec<String>,
    steps: u64,
) -> (r: Result<TypeTree, AliasError>)
    ensures
        gives(
            r,
            substituted(ty@, s@, aliases_view(aliases@), meta::texts(open@), steps as nat),
        ),
    decreases steps, 0int,
{
    if steps == 0 {
        return Err(AliasError::OutOfSteps);
    }
    let k: u64 = steps - 1;
    match ty {
        TypeTree::Path(p) => {
            let named: Option<&TypeTree> = match p.single_name() {
                Some(n) => find_type(&s.types, n.as_str()),
                None => None,
            };
            match named {
                Some(t) => normalize_type_aliases_inner(t, aliases, open, k),
                None => {
                    let q = substitute_path(p, s, aliases, open, k)?;
                    normalize_type_aliases_inner(&TypeTree::Path(q), aliases, open, k)
                },
            }
        },
        TypeTree::Wrap(w, e) => match substitute_type(e, s, aliases, open, k) {
            Ok(x) => Ok(TypeTree::Wrap(*w, Box::new(x))),
            Err(e) => Err(e),
        },
        TypeTree::Tuple(v) => match substitute_list(v, s, aliases, open, k) {
            Ok(x) => Ok(TypeTree::Tuple(x)),
            Err(e) => Err(e),
        },
        TypeTree::Array(e, n) => match substitute_type(e, s, aliases, open, k) {
            Ok(x) => Ok(TypeTree::Array(Box::new(x), n.fill(&s.consts))),
            Err(e) => Err(e),
        },
        TypeTree::Other(w) => Ok(TypeTree::Other(w.duplicate())),
    }
}

proof fn lemma_substituted_error(
    l: Seq<TypeT>,
    s: SubstT,
    al: Seq<AliasT>,
    open: Seq<Seq<char>>,
    steps: nat,
    k: int,
    n: int,
)
    requires
        0 <= k <= n <= l.len(),
        substituted_list(l, s, al, open, steps, k) is Err,
    ensures
        substituted_list(l, s, al, open, steps, n) == substituted_list(l, s, al, open, steps, k),
    decreases n,
{
    if k < n {
        lemma_substituted_error(l, s, al, open, steps, k, n - 1);
    }
}

fn substitute_list(
    v: &Vec<TypeTree>,
    s: &AliasSubstitution,
    aliases: &Vec<Alias>,
    open: &Vec<String>,
    steps: u64,
) -> (r: Result<Vec<TypeTree>, AliasError>)
    ensures
        match substituted_list(
            types_view(v@),
            s@,
            aliases_view(aliases@),
            meta::texts(open@),
            steps as nat,
            v@.len() as int,
        ) {
            Ok(x) => r is Ok && types_view(r->Ok_0@) == x,
            Err(e) => r is Err && r->Err_0@ == e,
        },
    decreases steps, 1int,
{
    let ghost l = types_view(v@);
    let ghost al = aliases_view(aliases@);
    let ghost o = meta::texts(open@);
    let mut out: Vec<TypeTree> = Vec::new();
    let n: usize = v.len();
    let mut i: usize = 0;
    assert(types_view(out@) =~= seq![]);
    while i < n
        invariant
            i <= n,
            n == v@.len(),
            l == types_view(v@),
            al == aliases_view(aliases@),
            o == meta::texts(open@),
            substituted_list(l, s@, al, o, steps as nat, i as int) == Ok::<
                Seq<TypeT>,
                AliasErrorT,
            >(types_view(out@)),
        decreases n - i,
    {
        proof {
            if substituted_list(l, s@, al, o, steps as nat, i + 1) is Err {
                lemma_substituted_error(l, s@, al, o, steps as nat, i + 1, n as int);
            }
            assert(l[i as int] == v@[i as int]@);
        }
        if steps == 0 {
            return Err(AliasError::OutOfSteps);
        }
        let x = substitute_type(&v[i], s, aliases, open, steps - 1)?;
        let ghost before = out@;
        out.push(x);
        assert(types_view(out@) =~= types_view(before).push(x@));
        i = i + 1;
    }
    Ok(out)
}

fn arg_of_const(e: &ExprTree) -> (r: ArgTree)
    ensures
        r@ == const_arg(e@),
{
    match e {
        ExprTree::Path(p) => ArgTree::Type(TypeTree::Path(p.duplicate())),
        _ => ArgTree::Const(e.duplicate()),
    }
}

fn substitute_generic_arg(
    a: &ArgTree,
    s: &AliasSubstitution,
    aliases: &Vec<Alias>,
    open: &Vec<String>,
    steps: u64,
) -> (r: Result<ArgTree, AliasError>)
    ensures
        gives(
            r,
            substituted_arg(a@, s@, aliases_view(aliases@), meta::texts(open@), steps as nat),
        ),
    decreases steps, 0int,
{
    let named: Option<&ExprTree> = match a {
        ArgTree::Type(TypeTree::Path(p)) => p.const_for(&s.consts),
        _ => None,
    };
    match named {
        Some(e) => {
            return Ok(arg_of_const(e));
        },
        None => {},
    }
    match a {
        ArgTree::Type(t) => {
            if steps == 0 {
                return Err(AliasError::OutOfSteps);
            }
            match substitute_type(t, s, aliases, open, steps - 1) {
                Ok(x) => Ok(ArgTree::Type(x)),
                Err(e) => Err(e),
            }
        },
        ArgTree::Const(e) => Ok(ArgTree::Const(e.fill(&s.consts))),
        ArgTree::Other(w) => Ok(ArgTree::Other(w.duplicate())),
    }
}

proof fn lemma_args_error(
    l: Seq<ArgT>,
    s: SubstT,
    al: Seq<AliasT>,
    open: Seq<Seq<char>>,
    steps: nat,
    k: int,
    n: int,
)
    requires
        0 <= k <= n <= l.len(),
        substituted_args(l, s, al, open, steps, k) is Err,
    ensures
        substituted_args(l, s, al, open, steps, n) == substituted_args(l, s, al, open, steps, k),
    decreases n,
{
    if k < n {
        lemma_args_error(l, s, al, open, steps, k, n - 1);
    }
}

fn substitute_args(
    v: &Vec<ArgTree>,
    s: &AliasSubstitution,
    aliases: &Vec<Alias>,
    open: &Vec<String>,
    steps: u64,
) -> (r: Result<Vec<ArgTree>, AliasError>)
    ensures
        match substituted_args(
            arg_views(v@),
            s@,
            aliases_view(aliases@),
            meta::texts(open@),
            steps as nat,
            v@.len() as int,
        ) {
            Ok(x) => r is Ok && arg_views(r->Ok_0@) == x,
            Err(e) => r is Err && r->Err_0@ == e,
        },
    decreases steps, 1int,
{
    let ghost l = arg_views(v@);
    let ghost al = aliases_view(aliases@);
    let ghost o = meta::texts(open@);
    let mut out: Vec<ArgTree> = Vec::new();
    let n: usize = v.len();
    let mut i: usize = 0;
    assert(arg_views(out@) =~= seq![]);
    while i < n
        invariant
            i <= n,
            n == v@.len(),
            l == arg_views(v@),
            al == aliases_view(aliases@),
            o == meta::texts(open@),
            substituted_args(l, s@, al, o, steps as nat, i as int) == Ok::<
                Seq<ArgT>,
                AliasErrorT,
            >(arg_views(out@)),
        decreases n - i,
    {
        proof {
            if substituted_args(l, s@, al, o, steps as nat, i + 1) is Err {
                lemma_args_error(l, s@, al, o, steps as nat, i + 1, n as int);
            }
            assert(l[i as int] == v@[i as int]@);
        }
        if steps == 0 {
            return Err(AliasError::OutOfSteps);
        }
        let x = substitute_generic_arg(&v[i], s, aliases, open, steps - 1)?;
        let ghost before = out@;
        out.push(x);
        assert(arg_views(out@) =~= arg_views(before).push(x@));
        i = i + 1;
    }
    Ok(out)
}

/// The number of steps that expanding a type may nest.
pub const MAX_STEPS: u64 = 0xFFFF_FFFF_FFFF_FFFF;

/// Expand all known aliases in a type.
pub fn normalize_type_aliases(ty: &TypeTree, aliases: &Vec<Alias>) -> (r: Result<
    TypeTree,
    AliasError,
>)
    ensures
        gives(r, expanded(ty@, aliases_view(aliases@), seq![], MAX_STEPS as nat)),
{
    let open: Vec<String> = Vec::new();
    assert(meta::texts(open@) =~= seq![]);
    normalize_type_aliases_inner(ty, aliases, &open, MAX_STEPS)
}

/// The first `n` of some parameter types with their aliases expanded.
pub open spec fn expanded_params(s: Seq<TypeT>, al: Seq<AliasT>, n: int) -> Result<
    Seq<TypeT>,
    AliasErrorT,
>
    decreases n,
{
    if n <= 0 || n > s.len() {
        Ok(seq![])
    } else {
        match expanded_params(s, al, n - 1) {
            Ok(l) => match expanded(s[n - 1], al, seq![], MAX_STEPS as nat) {
                Ok(x) => Ok(l.push(x)),
                Err(e) => Err(e),
            },
            Err(e) => Err(e),
        }
    }
}

proof fn lemma_params_error(s: Seq<TypeT>, al: Seq<AliasT>, k: int, n: int)
    requires
        0 <= k <= n <= s.len(),
        expanded_params(s, al, k) is Err,
    ensures
        expanded_params(s, al, n) == expanded_params(s, al, k),
    decreases n,
{
    if k < n {
        lemma_params_error(s, al, k, n - 1);
    }
}

/// Expand the aliases in the types of a function's parameters.
pub fn normalize_item_fn_param_type_aliases(params: &Vec<TypeTree>, aliases: &Vec<Alias>) -> (r:
    Result<Vec<TypeTree>, AliasError>)
    ensures
        match expanded_params(types_view(params@), aliases_view(aliases@), params@.len() as int) {
            Ok(x) => r is Ok && types_view(r->Ok_0@) == x,
            Err(e) => r is Err && r->Err_0@ == e,
        },
{
    let ghost l = types_view(params@);
    let ghost al = aliases_view(aliases@);
    let mut out: Vec<TypeTree> = Vec::new();
    let n: usize = params.len();
    let mut i: usize = 0;
    assert(types_view(out@) =~= seq![]);
    while i < n
        invariant
            i <= n,
            n == params@.len(),
            l == types_view(params@),
            al == aliases_view(aliases@),
            expanded_params(l, al, i as int) == Ok::<Seq<TypeT>, AliasErrorT>(types_view(out@)),
        decreases n - i,
    {
        proof {
            if expanded_params(l, al, i + 1) is Err {
                lemma_params_error(l, al, i + 1, n as int);
            }
            assert(l[i as int] == params@[i as int]@);
        }
        let x = normalize_type_aliases(&params[i], aliases)?;
        let ghost before = out@;
        out.push(x);
        assert(types_view(out@) =~= types_view(before).push(x@));
        i = i + 1;
    }
    Ok(out)
}

/// An item of a module: an alias, or anything else.
pub enum ModuleItem {
    Alias(Alias),
    Other,
}

/// The aliases among the first `n` items, in order.
pub open spec fn aliases_among(s: Seq<ModuleItem>, n: int) -> Seq<AliasT>
    decreases n,
{
    if n <= 0 || n > s.len() {
        seq![]
    } else {
        match s[n - 1] {
            ModuleItem::Alias(a) => aliases_among(s, n - 1).push(a@),
            ModuleItem::Other => aliases_among(s, n - 1),
        }
    }
}

/// The aliases of a module; those of modules inside it are not among them. Of
/// aliases with the same name the last counts.
pub fn collect_type_aliases(items: Vec<ModuleItem>) -> (r: Vec<Alias>)
    ensures
        aliases_view(r@) == aliases_among(items@, items@.len() as int),
{
    let ghost all = items@;
    let mut out: Vec<Alias> = Vec::new();
    assert(aliases_view(out@) =~= seq![]);
    for item in it: items
        invariant
            it.seq() == all,
            aliases_view(out@) == aliases_among(all, it.index() as int),
    {
        let ghost before = out@;
        match item {
            ModuleItem::Alias(a) => {
                out.push(a);
                assert(aliases_view(out@) =~= aliases_view(before).push(a@));
            },
            ModuleItem::Other => {},
        }
    }
    out
}

impl AliasError {
    /// The message of an error. The words of a wrong argument are given.
    pub fn message(&self, got: &str) -> (r: String)
        ensures
            r@ == error_text(self@, got@),
    {
        match self {
            AliasError::TooDeep => {
                "type alias expansion exceeded recursion limit".to_owned()
            },
            AliasError::OutOfSteps => {
                "type alias expansion exceeded recursion limit".to_owned()
            },
            AliasError::Recursive(s) => {
                let mut r: String = "recursive type alias expansion involving `".to_owned();
                r.append(s.as_str());
                r.append("`");
                r
            },
            AliasError::Parenthesized(s) => {
                let mut r: String = "type alias `".to_owned();
                r.append(s.as_str());
                r.append("` uses unsupported parenthesized generic arguments");
                r
            },
            AliasError::WrongCount(s, a, b) => {
                let mut r: String = "type alias `".to_owned();
                r.append(s.as_str());
                r.append("` expects ");
                r.append(number_text(*a as u64).as_str());
                r.append(" generic argument(s), got ");
                r.append(number_text(*b as u64).as_str());
                r
            },
            AliasError::ExpectedType(s, p, _) => {
                let mut r: String = "type alias `".to_owned();
                r.append(s.as_str());
                r.append("` expected type argument for `");
                r.append(p.as_str());
                r.append("`, got `");
                r.append(got);
                r.append("`");
                r
            },
            AliasError::ExpectedConst(s, p, _) => {
                let mut r: String = "type alias `".to_owned();
                r.append(s.as_str());
                r.append("` expected const argument for `");
                r.append(p.as_str());
                r.append("`, got `");
                r.append(got);
                r.append("`");
                r
            },
        }
    }
}

/// The message of an error.
pub open spec fn error_text(e: AliasErrorT, got: Seq<char>) -> Seq<char> {
    match e {
        AliasErrorT::TooDeep => "type alias expansion exceeded recursion limit"@,
        AliasErrorT::OutOfSteps => "type alias expansion exceeded recursion limit"@,
        AliasErrorT::Recursive(s) => "recursive type alias expansion involving `"@ + s + "`"@,
        AliasErrorT::Parenthesized(s) => "type alias `"@ + s
            + "` uses unsupported parenthesized generic arguments"@,
        AliasErrorT::WrongCount(s, a, b) => "type alias `"@ + s + "` expects "@
            + text::decimal_text(a as int) + " generic argument(s), got "@ + text::decimal_text(
            b as int,
        ),
        AliasErrorT::ExpectedType(s, p, _) => "type alias `"@ + s + "` expected type argument for `"@
            + p + "`, got `"@ + got + "`"@,
        AliasErrorT::ExpectedConst(s, p, _) => "type alias `"@ + s
            + "` expected const argument for `"@ + p + "`, got `"@ + got + "`"@,
    }
}

// ---------------------------------------------------------------------------
// Steps
// ---------------------------------------------------------------------------

/// Whether something was decided within the steps that were allowed.
pub open spec fn decided<T>(r: Result<T, AliasErrorT>) -> bool {
    r != Err::<T, AliasErrorT>(AliasErrorT::OutOfSteps)
}

/// The number of steps does not matter: what was decided within some steps is
/// decided the same way within more.
pub proof fn lemma_more_steps(
    t: TypeT,
    al: Seq<AliasT>,
    open: Seq<Seq<char>>,
    steps: nat,
    more: nat,
)
    requires
        steps <= more,
        decided(expanded(t, al, open, steps)),
    ensures
        expanded(t, al, open, more) == expanded(t, al, open, steps),
    decreases more - steps,
{
    if steps < more {
        lemma_step_more(t, al, open, steps);
        lemma_more_steps(t, al, open, steps + 1, more);
    }
}

proof fn lemma_step_more(t: TypeT, al: Seq<AliasT>, open: Seq<Seq<char>>, steps: nat)
    ensures
        decided(expanded(t, al, open, steps)) ==> expanded(t, al, open, steps + 1) == expanded(
            t,
            al,
            open,
            steps,
        ),
    decreases steps, 0int,
{
    if steps > 0 {
        let k = (steps - 1) as nat;
        match t {
            TypeT::Path(p) => lemma_path_more(p, al, open, k),
            TypeT::Wrap(_, e) => lemma_step_more(*e, al, open, k),
            TypeT::Tuple(s) => lemma_list_more(s, al, open, k, s.len() as int),
            TypeT::Array(e, _) => lemma_step_more(*e, al, open, k),
            TypeT::Other(_) => {},
        }
    }
}

proof fn lemma_list_more(
    s: Seq<TypeT>,
    al: Seq<AliasT>,
    open: Seq<Seq<char>>,
    steps: nat,
    n: int,
)
    ensures
        decided(expanded_list(s, al, open, steps, n)) ==> expanded_list(s, al, open, steps + 1, n)
            == expanded_list(s, al, open, steps, n),
    decreases steps, n,
{
    if 0 < n <= s.len() {
        lemma_list_more(s, al, open, steps, n - 1);
        if steps > 0 {
            lemma_step_more(s[n - 1], al, open, (steps - 1) as nat);
        }
    }
}

proof fn lemma_path_more(p: PathT, al: Seq<AliasT>, open: Seq<Seq<char>>, steps: nat)
    ensures
        decided(expanded_path(p, al, open, steps)) ==> expanded_path(p, al, open, steps + 1)
            == expanded_path(p, al, open, steps),
    decreases steps, 0int,
{
    if p.segments.len() > 0 && steps > 0 {
        let k = (steps - 1) as nat;
        let last = p.segments.last();
        match find_alias(al, last.name, al.len() as int) {
            Some(alias) => match substitution(alias, last.args) {
                Ok(s) => {
                    let inner = open.push(last.name);
                    lemma_substituted_more(alias.ty, s, al, inner, k);
                    match substituted(alias.ty, s, al, inner, k) {
                        Ok(t) => lemma_step_more(t, al, inner, k),
                        Err(_) => {},
                    }
                },
                Err(_) => {},
            },
            None => match last.args {
                ArgsT::Angle(args) => lemma_args_more(
                    args,
                    no_subst(),
                    al,
                    open,
                    k,
                    args.len() as int,
                ),
                _ => {},
            },
        }
    }
}

proof fn lemma_substituted_path_more(
    p: PathT,
    s: SubstT,
    al: Seq<AliasT>,
    open: Seq<Seq<char>>,
    steps: nat,
)
    ensures
        decided(substituted_path(p, s, al, open, steps)) ==> substituted_path(
            p,
            s,
            al,
            open,
            steps + 1,
        ) == substituted_path(p, s, al, open, steps),
    decreases steps, 0int,
{
    if p.segments.len() > 0 && steps > 0 {
        match p.segments.last().args {
            ArgsT::Angle(args) => lemma_args_more(
                args,
                s,
                al,
                open,
                (steps - 1) as nat,
                args.len() as int,
            ),
            _ => {},
        }
    }
}

proof fn lemma_substituted_more(
    t: TypeT,
    s: SubstT,
    al: Seq<AliasT>,
    open: Seq<Seq<char>>,
    steps: nat,
)
    ensures
        decided(substituted(t, s, al, open, steps)) ==> substituted(t, s, al, open, steps + 1)
            == substituted(t, s, al, open, steps),
    decreases steps, 0int,
{
    if steps > 0 {
        let k = (steps - 1) as nat;
        match t {
            TypeT::Path(p) => match param_type(p, s) {
                Some(r) => lemma_step_more(r, al, open, k),
                None => {
                    lemma_substituted_path_more(p, s, al, open, k);
                    match substituted_path(p, s, al, open, k) {
                        Ok(q) => lemma_step_more(TypeT::Path(q), al, open, k),
                        Err(_) => {},
                    }
                },
            },
            TypeT::Wrap(_, e) => lemma_substituted_more(*e, s, al, open, k),
            TypeT::Tuple(l) => lemma_substituted_list_more(l, s, al, open, k, l.len() as int),
            TypeT::Array(e, _) => lemma_substituted_more(*e, s, al, open, k),
            TypeT::Other(_) => {},
        }
    }
}

proof fn lemma_substituted_list_more(
    l: Seq<TypeT>,
    s: SubstT,
    al: Seq<AliasT>,
    open: Seq<Seq<char>>,
    steps: nat,
    n: int,
)
    ensures
        decided(substituted_list(l, s, al, open, steps, n)) ==> substituted_list(
            l,
            s,
            al,
            open,
            steps + 1,
            n,
        ) == substituted_list(l, s, al, open, steps, n),
    decreases steps, n,
{
    if 0 < n <= l.len() {
        lemma_substituted_list_more(l, s, al, open, steps, n - 1);
        if steps > 0 {
            lemma_substituted_more(l[n - 1], s, al, open, (steps - 1) as nat);
        }
    }
}

proof fn lemma_arg_more(
    a: ArgT,
    s: SubstT,
    al: Seq<AliasT>,
    open: Seq<Seq<char>>,
    steps: nat,
)
    ensures
        decided(substituted_arg(a, s, al, open, steps)) ==> substituted_arg(
            a,
            s,
            al,
            open,
            steps + 1,
        ) == substituted_arg(a, s, al, open, steps),
    decreases steps, 0int,
{
    if steps > 0 {
        match a {
            ArgT::Type(t) => lemma_substituted_more(t, s, al, open, (steps - 1) as nat),
            _ => {},
        }
    }
}

proof fn lemma_args_more(
    l: Seq<ArgT>,
    s: SubstT,
    al: Seq<AliasT>,
    open: Seq<Seq<char>>,
    steps: nat,
    n: int,
)
    ensures
        decided(substituted_args(l, s, al, open, steps, n)) ==> substituted_args(
            l,
            s,
            al,
            open,
            steps + 1,
            n,
        ) == substituted_args(l, s, al, open, steps, n),
    decreases steps, n,
{
    if 0 < n <= l.len() {
        lemma_args_more(l, s, al, open, steps, n - 1);
        if steps > 0 {
            lemma_arg_more(l[n - 1], s, al, open, (steps - 1) as nat);
        }
    }
}

} // verus!
