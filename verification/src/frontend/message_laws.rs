//! What refusals say, and what the contents of the frontend's values hold.
use vstd::prelude::*;
use crate::frontend::aliases::{Alias, AliasError, AliasErrorT, AliasSubstitution, Formal, FormalT};
use crate::frontend::aliases;
use crate::frontend::entry::{ConstantError, GenericVars, KernelError, KernelErrorV};
use crate::frontend::entry;
use crate::frontend::frames::{CallFrame, FrameV, SourceLocation, SourceV};
use crate::frontend::hints::{Hint, HintError, HintErrorV};
use crate::frontend::hints;
use crate::frontend::items::CGAParameter;
use crate::frontend::obligations;
use crate::frontend::statics::{GlobalInfo, StaticError};
use crate::frontend::statics;
use crate::frontend::typing::{TypingError, VarKind};
use crate::frontend::typing;
use crate::frontend::validate::{EntryError, EntryErrorV, ParamProblem, ParamProblemV};
use crate::ir::fmt;
use crate::text;

verus! {

// ---------------------------------------------------------------------------
// Words
// ---------------------------------------------------------------------------

/// What is wrong with hints, in words: a hint is named by its key, a key as it was
/// written.
pub proof fn lemma_hint_words(key: Seq<char>, h: Hint, n: usize, i: int, detail: Seq<char>)
    ensures
        hints::hint_words(HintErrorV::AlreadySet(h), detail) == (match h {
            Hint::NumCtaInCga => "num_cta_in_cga"@,
            Hint::Occupancy => "occupancy"@,
            Hint::MaxDivisibility => "max_divisibility"@,
            Hint::NumWorkerWarpsPerCta => "num_worker_warps_per_cta"@,
        }) + " hint has already been set"@,
        hints::hint_words(HintErrorV::NotLiteral, detail)
            == "expected a literal value for optimization hint"@,
        hints::hint_words(HintErrorV::NotInteger, detail)
            == "expected an integer literal for optimization hint"@,
        hints::hint_words(HintErrorV::BadInteger, detail) == "Failed to parse int hint: "@ + detail,
        hints::hint_words(HintErrorV::NotAssignment, detail)
            == "expected an assignment expression in optimization hints"@,
        hints::hint_words(HintErrorV::KeyNotPath, detail)
            == "Expected path expression on LHS of optimization hints assignment."@,
        hints::hint_words(HintErrorV::KeySegments(n), detail)
            == "Expected single-segment path in optimization hints key, got "@ + text::decimal_text(
            n as int,
        ) + " segments."@,
        hints::hint_words(HintErrorV::NotTuple, detail)
            == "expected a tuple expression for optimization hints"@,
        hints::hint_words(HintErrorV::UnexpectedHint(i), detail)
            == "Unexpected optimization hint "@ + detail + "."@,
        hints::hint_words(HintErrorV::ArchNotTuple, detail)
            == "expected a tuple expression for architecture-specific optimization hints"@,
        hints::hint_words(HintErrorV::PerOpHint(key), detail) == "'"@ + key
            + "' is a per-op hint and cannot be set at the entry level. Use it as a parameter on individual load/store operations instead."@,
        hints::hint_words(HintErrorV::UnknownKey(key), detail)
            == "Unexpected optimization hint key '"@ + key + "'."@,
        hints::hint_words(HintErrorV::DuplicateArch(key), detail)
            == "Duplicate optimization hint key '"@ + key + "'."@,
{
}

/// What is wrong with an alias, in words: the alias comes first, then the parameter,
/// then what stood in its place; of two counts, the expected one comes first.
pub proof fn lemma_alias_words(e: AliasErrorT, got: Seq<char>)
    ensures
        match e {
            AliasErrorT::TooDeep | AliasErrorT::OutOfSteps => aliases::error_text(e, got)
                == "type alias expansion exceeded recursion limit"@,
            AliasErrorT::Recursive(s) => aliases::error_text(e, got)
                == "recursive type alias expansion involving `"@ + s + "`"@,
            AliasErrorT::Parenthesized(s) => aliases::error_text(e, got) == "type alias `"@ + s
                + "` uses unsupported parenthesized generic arguments"@,
            AliasErrorT::WrongCount(s, expected, found) => aliases::error_text(e, got)
                == "type alias `"@ + s + "` expects "@ + text::decimal_text(expected as int)
                + " generic argument(s), got "@ + text::decimal_text(found as int),
            AliasErrorT::ExpectedType(s, p, _) => aliases::error_text(e, got) == "type alias `"@ + s
                + "` expected type argument for `"@ + p + "`, got `"@ + got + "`"@,
            AliasErrorT::ExpectedConst(s, p, _) => aliases::error_text(e, got) == "type alias `"@
                + s + "` expected const argument for `"@ + p + "`, got `"@ + got + "`"@,
        },
{
}

/// Why a kernel is refused, in words. What was found elsewhere speaks for itself.
pub proof fn lemma_kernel_words<E>(e: KernelErrorV<E>)
    ensures
        match e {
            KernelErrorV::UndefinedModule(s) => entry::error_words(e) == Some(
                "Undefined module: "@ + s,
            ),
            KernelErrorV::UndefinedFunction(s) => entry::error_words(e) == Some(
                "Undefined function: "@ + s,
            ),
            KernelErrorV::MissingEntry(s) => entry::error_words(e) == Some(
                "function `"@ + s + "` is missing a required `#[entry(...)]` attribute"@,
            ),
            KernelErrorV::NotUnsafe => entry::error_words(e) == Some(
                "kernel must be declared `unsafe` when `unchecked_accesses` is enabled"@,
            ),
            KernelErrorV::NameTaken(s) => entry::error_words(e) == Some(
                "Entry point namespace collision: "@ + s,
            ),
            KernelErrorV::Analysis(_) | KernelErrorV::Hints(_) | KernelErrorV::Generics(_)
            | KernelErrorV::EntryPoint(_) => entry::error_words(e) is None,
        },
{
}

/// Why a constant is refused, in words: the lower bound comes before the upper one.
pub proof fn lemma_constant_words(low: int, high: int, element: Seq<char>)
    ensures
        entry::constant_text(ConstantError::NotExact, low, high, element)
            == "expected a compile-time constant, but got a value with bounds ["@
            + fmt::signed_text(low) + ", "@ + fmt::signed_text(high) + "]"@,
        entry::constant_text(ConstantError::NotElement, low, high, element)
            == "expected a scalar element type"@,
        entry::constant_text(ConstantError::NoName, low, high, element)
            == "failed to compile constant value"@,
        entry::constant_text(ConstantError::Unsupported, low, high, element)
            == "unsupported scalar type for constant: "@ + element,
{
}

/// A check names its left side first, and of a side the tensor before the axis.
pub proof fn lemma_causes(
    a: Seq<char>,
    a_axis: usize,
    b: Seq<char>,
    b_axis: usize,
    tile: i32,
    what: Seq<char>,
    remedy: Seq<char>,
)
    ensures
        obligations::eq_cause(a, a_axis, b, b_axis) == ("dim("@ + a + ", "@ + text::decimal_text(
            a_axis as int,
        ) + ")"@) + " == "@ + ("dim("@ + b + ", "@ + text::decimal_text(b_axis as int) + ")"@),
        obligations::le_cause(a, a_axis, b, b_axis, tile) == ("ceil("@ + ("dim("@ + a + ", "@
            + text::decimal_text(a_axis as int) + ")"@) + "/"@ + text::decimal_text(tile as int)
            + ")"@) + " <= "@ + ("ceil("@ + ("dim("@ + b + ", "@ + text::decimal_text(b_axis as int)
            + ")"@) + "/"@ + text::decimal_text(tile as int) + ")"@),
        obligations::denial(what, remedy) == "`deny_in_kernel_checks`: "@ + what
            + " could not be discharged at compile time or hoisted to launch, so it would be emitted in the kernel and cost device registers. "@
            + remedy + ". Or drop the flag."@,
{
}

/// What is wrong with an entry attribute, in words.
pub proof fn lemma_entry_words(e: EntryErrorV, reason: Seq<char>)
    ensures
        match e {
            EntryErrorV::Malformed => e.words(reason) == "malformed `#[entry(..)]` arguments: "@
                + reason,
            EntryErrorV::NotPair => e.words(reason)
                == "`#[entry(..)]` arguments must be `key = value` pairs or bare keys"@,
            EntryErrorV::UnknownKey(k) => e.words(reason) == "unknown `#[entry]` key `"@ + k
                + "`; expected one of `print_ir`, `dump_mlir_dir`, `unchecked_accesses`, `deny_in_kernel_checks`, `preconditions`, `optimization_hints`"@,
            EntryErrorV::RequiresValue(k) => e.words(reason) == "`"@ + k + "` requires a value (`"@
                + k + " = ...`)"@,
            EntryErrorV::ExpectsBool(k) => e.words(reason) == "`"@ + k
                + "` expects a boolean literal (`true` or `false`)"@,
            EntryErrorV::ExpectsString(k) => e.words(reason) == "`"@ + k
                + "` expects a string literal"@,
        },
{
}

/// What is wrong with a parameter, in words.
pub proof fn lemma_param_words(p: ParamProblemV, ty: Seq<char>)
    ensures
        match p {
            ParamProblemV::Unsupported => p.words(ty) == "Not a supported parameter type."@,
            ParamProblemV::MappedByReference => p.words(ty)
                == "MappedPartitionMut parameters are passed by value; use `mut z: MappedPartitionMut<...>`, not `&mut MappedPartitionMut<...>`."@,
            ParamProblemV::ReferenceTo(n) => p.words(ty) == "References to `"@ + n
                + "` as parameters are not supported. If this is a type alias for `Tensor`, define the alias in the same `#[cutile::module]` as the entry function; imported Tensor aliases are not supported by launcher generation."@,
            ParamProblemV::OwnedTensor => p.words(ty)
                == "Tensors cannot be moved into kernel functions. &mut Tensor corresponds to a partitioned tensor argument (e.g. x.partition([...])), and &Tensor corresponds to a tensor reference argument (e.g. Arc::new(x) or x.into())."@,
            ParamProblemV::NotParameter => p.words(ty) == ty
                + " is not a supported parameter type."@,
        },
{
}

/// Why a static item is refused, in words.
pub proof fn lemma_static_words(element: Seq<char>)
    ensures
        statics::static_text(StaticError::Mutable, element)
            == "`Global` declarations should use immutable `static`; mutability is provided by `Global` methods"@,
        statics::static_text(StaticError::NotGlobal, element)
            == "only `static NAME: Global<A, { [] }>` items are supported inside `#[cutile::module]`; use `const` for compile-time constants"@,
        statics::static_text(StaticError::NoElementType, element)
            == "`Global` requires an atomic type: `Global<AtomicI32, { [] }>`"@,
        statics::static_text(StaticError::NotAtomic, element)
            == "`Global` requires a supported sealed Atomic type (AtomicI32, AtomicU32, AtomicI64, AtomicU64, AtomicF32, or AtomicF64)"@,
        statics::static_text(StaticError::CompileElement, element)
            == "failed to compile `Global` element type"@,
        statics::static_text(StaticError::DetermineElement, element)
            == "failed to determine `Global` element type"@,
        statics::static_text(StaticError::NoShape, element)
            == "`Global` requires a static shape: `Global<A, { [] }>`"@,
        statics::static_text(StaticError::Shaped, element)
            == "shaped `Global` statics are not supported yet; use `Global<A, { [] }>`"@,
        statics::static_text(StaticError::UnsupportedElement, element)
            == "unsupported Global element type `"@ + element + "`"@,
        statics::static_text(StaticError::Initializer, element)
            == "`Global` static initializer must be `Global::new(value)`"@,
        statics::static_text(StaticError::NotScalar, element)
            == "`Global::new` currently requires a scalar literal or module-level scalar const initializer"@,
{
}

/// Why something has no type, in words.
pub proof fn lemma_typing_words<E>(e: TypingError<E>, tokens: Seq<char>)
    ensures
        match e {
            TypingError::Elsewhere(_) => typing::typing_text(e, tokens) is None,
            TypingError::NoParam(_) => typing::typing_text(e, tokens) == Some(
                "unable to compile parameter type `"@ + tokens + "`"@,
            ),
            TypingError::NoVariable(k) => typing::typing_text(e, tokens) == Some(
                "unable to compile const generic "@ + (match k {
                    VarKind::I32 => "i32"@,
                    VarKind::Bool => "bool"@,
                    VarKind::Array => "array"@,
                }) + " type"@,
            ),
            TypingError::NoArgument(_) => typing::typing_text(e, tokens) == Some(
                "Failed to compile argument: "@ + text::quoted(tokens),
            ),
        },
{
}

// ---------------------------------------------------------------------------
// Contents
// ---------------------------------------------------------------------------

/// The contents of an error keep its kind and what it names.
pub proof fn lemma_errors<E>(a: AliasError, k: KernelError<E>, h: HintError, e: EntryError, p: ParamProblem)
    ensures
        match a {
            AliasError::TooDeep => a@ is TooDeep,
            AliasError::OutOfSteps => a@ is OutOfSteps,
            AliasError::Recursive(s) => a@ == AliasErrorT::Recursive(s@),
            AliasError::Parenthesized(s) => a@ == AliasErrorT::Parenthesized(s@),
            AliasError::WrongCount(s, x, y) => a@ == AliasErrorT::WrongCount(
                s@,
                x as nat,
                y as nat,
            ),
            AliasError::ExpectedType(s, n, x) => a@ == AliasErrorT::ExpectedType(s@, n@, x@),
            AliasError::ExpectedConst(s, n, x) => a@ == AliasErrorT::ExpectedConst(s@, n@, x@),
        },
        match k {
            KernelError::UndefinedModule(s) => k@ == KernelErrorV::<E>::UndefinedModule(s@),
            KernelError::UndefinedFunction(s) => k@ == KernelErrorV::<E>::UndefinedFunction(s@),
            KernelError::MissingEntry(s) => k@ == KernelErrorV::<E>::MissingEntry(s@),
            KernelError::Analysis(x) => k@ == KernelErrorV::Analysis(x),
            KernelError::NotUnsafe => k@ is NotUnsafe,
            KernelError::Hints(x) => k@ == KernelErrorV::<E>::Hints(x@),
            KernelError::Generics(x) => k@ == KernelErrorV::Generics(x),
            KernelError::EntryPoint(x) => k@ == KernelErrorV::EntryPoint(x),
            KernelError::NameTaken(s) => k@ == KernelErrorV::<E>::NameTaken(s@),
        },
        match h {
            HintError::AlreadySet(x) => h@ == HintErrorV::AlreadySet(x),
            HintError::NotLiteral => h@ is NotLiteral,
            HintError::NotInteger => h@ is NotInteger,
            HintError::BadInteger => h@ is BadInteger,
            HintError::NotAssignment => h@ is NotAssignment,
            HintError::KeyNotPath => h@ is KeyNotPath,
            HintError::KeySegments(n) => h@ == HintErrorV::KeySegments(n),
            HintError::NotTuple => h@ is NotTuple,
            HintError::UnexpectedHint(i) => h@ == HintErrorV::UnexpectedHint(i as int),
            HintError::ArchNotTuple => h@ is ArchNotTuple,
            HintError::PerOpHint(s) => h@ == HintErrorV::PerOpHint(s@),
            HintError::UnknownKey(s) => h@ == HintErrorV::UnknownKey(s@),
            HintError::DuplicateArch(s) => h@ == HintErrorV::DuplicateArch(s@),
        },
        match e {
            EntryError::Malformed => e@ is Malformed,
            EntryError::NotPair => e@ is NotPair,
            EntryError::UnknownKey(s) => e@ == EntryErrorV::UnknownKey(s@),
            EntryError::RequiresValue(s) => e@ == EntryErrorV::RequiresValue(s@),
            EntryError::ExpectsBool(s) => e@ == EntryErrorV::ExpectsBool(s@),
            EntryError::ExpectsString(s) => e@ == EntryErrorV::ExpectsString(s@),
        },
        match p {
            ParamProblem::Unsupported => p@ is Unsupported,
            ParamProblem::MappedByReference => p@ is MappedByReference,
            ParamProblem::ReferenceTo(s) => p@ == ParamProblemV::ReferenceTo(s@),
            ParamProblem::OwnedTensor => p@ is OwnedTensor,
            ParamProblem::NotParameter => p@ is NotParameter,
        },
{
}

/// The contents of places, frames, aliases, parameters and globals hold their fields.
pub proof fn lemma_values(
    s: SourceLocation,
    f: CallFrame,
    p: Formal,
    a: Alias,
    b: AliasSubstitution,
    c: CGAParameter,
    g: GlobalInfo,
)
    ensures
        match s {
            SourceLocation::Unknown => s@ is Unknown,
            SourceLocation::At { file, line, column } => s@ matches SourceV::At(x, y, z) && x
                == file@ && y == line && z == column,
        },
        match f {
            CallFrame::Opaque { caller } => f@ == FrameV::Opaque(caller@),
            CallFrame::Transparent { caller, callee_scope } => f@ matches FrameV::Transparent(x, y)
                && x == caller@ && (y is Some <==> callee_scope is Some) && (y is Some
                ==> y->Some_0 == callee_scope->Some_0@),
        },
        match p {
            Formal::Type(n) => p@ == FormalT::Type(n@),
            Formal::Const(n) => p@ == FormalT::Const(n@),
            Formal::Lifetime(n) => p@ == FormalT::Lifetime(n@),
        },
        a@.name == a.name@,
        a@.params == aliases::formals_view(a.params@),
        a@.ty == a.ty@,
        b@.types == aliases::named_view(b.types@),
        b@.consts == aliases::consts_view(b.consts@),
        c@.name == c.name@,
        c@.element_type == c.element_type@,
        c@.length == c.length,
        g@.symbol == g.symbol@,
        g@.element_ty == g.element_ty@,
        g@.element_name == g.element_name@,
        g@.shape == g.shape@,
{
}

/// The contents of generic variables hold their names and values.
pub proof fn lemma_variables(v: GenericVars, i: int)
    requires
        0 <= i,
    ensures
        v@.others.len() == v.others@.len(),
        i < v.others@.len() ==> v@.others[i] == v.others@[i]@,
        v@.inst_i32.len() == v.inst_i32@.len(),
        i < v.inst_i32@.len() ==> v@.inst_i32[i] == (v.inst_i32@[i].0@, v.inst_i32@[i].1),
        v@.inst_bool.len() == v.inst_bool@.len(),
        i < v.inst_bool@.len() ==> v@.inst_bool[i] == (v.inst_bool@[i].0@, v.inst_bool@[i].1),
{
}

} // verus!
