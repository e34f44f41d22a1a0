//! The part of Rust syntax that the front end's rules look at.
use vstd::prelude::*;

verus! {

/// A literal. Numbers keep their decimal digits.
pub enum Lit {
    Bool(bool),
    Int(String),
    Float(String),
    Str(String),
    Other,
}

/// A prefix operator.
#[derive(Clone, Copy, Debug, PartialEq, Eq, Structural)]
pub enum UnOp {
    Neg,
    Not,
    Deref,
}

/// One segment of a path. The tokens of its arguments come with it in words; there are
/// none where it has no arguments.
pub struct Segment {
    pub ident: String,
    pub arguments: PathArgs,
    pub words: String,
}

/// The arguments of a path segment.
pub enum PathArgs {
    Absent,
    Angle(Vec<GenericArg>),
    Parenthesized,
}

/// A generic argument.
pub enum GenericArg {
    Type(Type),
    Const(Expr),
    Lifetime(String),
    Other,
}

/// The type that a qualified path starts from, in words, and how many of the path's
/// segments name the trait.
pub struct QSelf {
    pub ty: String,
    pub position: usize,
}

/// A path, with whether it starts with a separator.
pub struct Path {
    pub qself: Option<QSelf>,
    pub leading: bool,
    pub segments: Vec<Segment>,
}

/// A statement: an expression, or anything else.
pub enum Stmt {
    Expr(Expr),
    Other,
}

/// An expression. Forms that no rule looks into are kept as their text.
pub enum Expr {
    Path(Path),
    Lit(Lit),
    Unary(UnOp, Box<Expr>),
    Binary(Box<Expr>, Box<Expr>),
    Assign(Box<Expr>, Box<Expr>),
    Call(Box<Expr>, Vec<Expr>),
    MethodCall(Box<Expr>, String, Vec<Expr>),
    Field(Box<Expr>, String),
    Index(Box<Expr>, Box<Expr>),
    Paren(Box<Expr>),
    Reference(Box<Expr>),
    Block(Vec<Stmt>),
    If(Box<Expr>, Vec<Stmt>, Option<Box<Expr>>),
    Tuple(Vec<Expr>),
    Array(Vec<Expr>),
    Repeat(Box<Expr>, Box<Expr>),
    Closure(Box<Closure>),
    Other(String),
}

/// A pattern: a plain name, a name with a type, or anything else.
pub enum Pat {
    Ident(String),
    Typed(String, Type),
    Other,
}

/// A closure expression.
pub struct Closure {
    pub inputs: Vec<Pat>,
    pub body: Expr,
    pub is_async: bool,
    pub is_move: bool,
}

/// A type. Forms that no rule looks into are kept as their text.
pub enum Type {
    Path(Path),
    Reference(bool, Box<Type>),
    Ptr(bool, Box<Type>),
    Tuple(Vec<Type>),
    Array(Box<Type>, Box<Expr>),
    Slice(Box<Type>),
    Paren(Box<Type>),
    Group(Box<Type>),
    Other(String),
}

/// The contents of an attribute: a path, a path with arguments, or a name and a
/// value. Arguments that are not a list of such contents are absent.
pub enum Meta {
    Path(Path),
    List(Path, Option<Vec<Meta>>),
    NameValue(Path, Expr),
}

/// A generic parameter.
pub enum GenericParam {
    Type(String),
    Const(String, Type),
    Lifetime(String),
}

/// A parameter of a function: the receiver, or a pattern with its type.
pub enum FnArg {
    Receiver,
    Typed(Pat, Type),
}

/// A function's signature; no output type means the unit type.
pub struct Signature {
    pub ident: String,
    pub generics: Vec<GenericParam>,
    pub inputs: Vec<FnArg>,
    pub output: Option<Type>,
    pub is_unsafe: bool,
}

/// A function.
pub struct ItemFn {
    pub attrs: Vec<Meta>,
    pub sig: Signature,
}

/// A constant.
pub struct ItemConst {
    pub ident: String,
    pub ty: Type,
    pub expr: Expr,
}

} // verus!
