//! What holds of every layout: no attribute is held twice, and operands come at
//! once or in groups.
use vstd::prelude::*;
use crate::bytecode::body_writer;
use crate::bytecode::layout::{AttrName, Step};
use crate::bytecode::layout;
use crate::bytecode::opcode::Opcode;

verus! {

// ---------------------------------------------------------------------------
// Names and layouts
// ---------------------------------------------------------------------------

/// A number that tells the names of attributes apart.
spec fn mark(s: Seq<char>) -> int {
    ((s.len() * 200 + s[0] as int) * 200 + s[1] as int) * 200 + (if s.len() == 14 {
        s[11] as int
    } else {
        0
    })
}

spec fn name_mark(n: AttrName) -> int {
    match n {
        AttrName::RoundingMode => 108582200,
        AttrName::FastAcc => 68099400,
        AttrName::NumElem => 68423400,
        AttrName::Alignment => 75901600,
        AttrName::Global => 52141600,
        AttrName::Overflow => 68463600,
        AttrName::Signedness => 84621000,
        AttrName::Dim => 28021000,
        AttrName::Permutation => 92500200,
        AttrName::Message => 60380200,
        AttrName::Predicate => 76502800,
        AttrName::ComparisonPredicate => 163982200,
        AttrName::ComparisonOrdering => 155982200,
        AttrName::Value => 44739400,
        AttrName::Rounding => 68582200,
        AttrName::SignednessLhs => 116621108,
        AttrName::SignednessRhs => 116621114,
        AttrName::Name => 36419400,
        AttrName::UnsignedCmp => 100702000,
        AttrName::Identities => 84220000,
        AttrName::Reverse => 60580200,
        AttrName::OperandSegmentSizes => 156462400,
        AttrName::FlushToZero => 108101600,
        AttrName::PropagateNan => 108502800,
        AttrName::Constant => 67982200,
        AttrName::SymName => 68624200,
        AttrName::SymbolVisibility => 140624200,
        AttrName::Producer => 68502800,
        AttrName::Str => 28623200,
        AttrName::MemoryOrderingSemantics => 204380200,
        AttrName::MemoryScope => 100380200,
        AttrName::Mode => 36382200,
        AttrName::OptimizationHints => 148462400,
        AttrName::FunctionType => 108103400,
        AttrName::ArgAttrs => 75902800,
        AttrName::ResAttrs => 76580200,
        AttrName::DiName => 60021000,
    }
}

proof fn lemma_name_mark(n: AttrName)
    ensures
        mark(layout::name_text(n)) == name_mark(n),
{
    match n {
        AttrName::RoundingMode => reveal_strlit("rounding_mode"),
        AttrName::FastAcc => reveal_strlit("fast_acc"),
        AttrName::NumElem => reveal_strlit("num_elem"),
        AttrName::Alignment => reveal_strlit("alignment"),
        AttrName::Global => reveal_strlit("global"),
        AttrName::Overflow => reveal_strlit("overflow"),
        AttrName::Signedness => reveal_strlit("signedness"),
        AttrName::Dim => reveal_strlit("dim"),
        AttrName::Permutation => reveal_strlit("permutation"),
        AttrName::Message => reveal_strlit("message"),
        AttrName::Predicate => reveal_strlit("predicate"),
        AttrName::ComparisonPredicate => reveal_strlit("comparison_predicate"),
        AttrName::ComparisonOrdering => reveal_strlit("comparison_ordering"),
        AttrName::Value => reveal_strlit("value"),
        AttrName::Rounding => reveal_strlit("rounding"),
        AttrName::SignednessLhs => reveal_strlit("signedness_lhs"),
        AttrName::SignednessRhs => reveal_strlit("signedness_rhs"),
        AttrName::Name => reveal_strlit("name"),
        AttrName::UnsignedCmp => reveal_strlit("unsigned_cmp"),
        AttrName::Identities => reveal_strlit("identities"),
        AttrName::Reverse => reveal_strlit("reverse"),
        AttrName::OperandSegmentSizes => reveal_strlit("operandSegmentSizes"),
        AttrName::FlushToZero => reveal_strlit("flush_to_zero"),
        AttrName::PropagateNan => reveal_strlit("propagate_nan"),
        AttrName::Constant => reveal_strlit("constant"),
        AttrName::SymName => reveal_strlit("sym_name"),
        AttrName::SymbolVisibility => reveal_strlit("symbol_visibility"),
        AttrName::Producer => reveal_strlit("producer"),
        AttrName::Str => reveal_strlit("str"),
        AttrName::MemoryOrderingSemantics => reveal_strlit("memory_ordering_semantics"),
        AttrName::MemoryScope => reveal_strlit("memory_scope"),
        AttrName::Mode => reveal_strlit("mode"),
        AttrName::OptimizationHints => reveal_strlit("optimization_hints"),
        AttrName::FunctionType => reveal_strlit("function_type"),
        AttrName::ArgAttrs => reveal_strlit("arg_attrs"),
        AttrName::ResAttrs => reveal_strlit("res_attrs"),
        AttrName::DiName => reveal_strlit("di_name"),
    }
}

/// Different attributes have different names.
pub proof fn lemma_names_differ(a: AttrName, b: AttrName)
    ensures
        layout::name_text(a) == layout::name_text(b) ==> a == b,
{
    lemma_name_mark(a);
    lemma_name_mark(b);
}

/// The names of integers that may be left out are not empty.
pub proof fn lemma_name_filled(n: AttrName)
    requires
        has_default(n),
    ensures
        layout::name_text(n).len() > 0,
{
    reveal_strlit("rounding_mode");
    reveal_strlit("overflow");
    reveal_strlit("symbol_visibility");
}

/// The attribute that a part of a body holds.
pub open spec fn step_name(step: Step) -> Option<AttrName> {
    match step {
        Step::Int(n) => Some(n),
        Step::IntOr(n, _) => Some(n),
        Step::IntIf(_, n) => Some(n),
        Step::BoolByte(n) => Some(n),
        Step::I32s(n) => Some(n),
        Step::Str(n) => Some(n),
        Step::StrIf(_, n) => Some(n),
        Step::TypeRef(n) => Some(n),
        Step::Tagged(n) => Some(n),
        Step::Array(n) => Some(n),
        Step::HintsIf(_) => Some(AttrName::OptimizationHints),
        Step::HintsFirstIf(_) => Some(AttrName::OptimizationHints),
        Step::DictIf(_, n) => Some(n),
        Step::FlagBool(_, n) => Some(n),
        Step::FlagInt(_, n) => Some(n),
        Step::Constant => Some(AttrName::Value),
        Step::GlobalValue => Some(AttrName::Value),
        Step::Segments => Some(AttrName::OperandSegmentSizes),
        _ => None,
    }
}

/// Whether a part of a body is all of the operands.
pub open spec fn is_operands(step: Step) -> bool {
    step is Operands || step is OperandsCounted
}

/// No attribute is held twice.
pub open spec fn names_apart(steps: Seq<Step>) -> bool {
    forall|i: int, j: int|
        0 <= i < j < steps.len() && step_name(#[trigger] steps[i]) is Some ==> step_name(steps[i])
            != step_name(#[trigger] steps[j])
}

/// Operands come at once, or in groups whose sizes come last.
pub open spec fn operands_apart(steps: Seq<Step>) -> bool {
    &&& forall|i: int, j: int|
        0 <= i < j < steps.len() && is_operands(#[trigger] steps[i]) ==> !is_operands(
            #[trigger] steps[j],
        )
    &&& forall|i: int, j: int|
        0 <= i < steps.len() && 0 <= j < steps.len() && is_operands(#[trigger] steps[i])
            ==> !body_writer::is_group(#[trigger] steps[j]) && !(steps[j] is Segments)
    &&& forall|i: int|
        0 <= i < steps.len() && body_writer::is_group(#[trigger] steps[i]) ==> steps.last() is Segments
    &&& forall|i: int|
        0 <= i < steps.len() && #[trigger] steps[i] is Segments ==> i == steps.len() - 1
}

/// The order in which layouts hold attributes.
pub open spec fn name_rank(n: AttrName) -> int {
    match n {
        AttrName::RoundingMode => 9,
        AttrName::FastAcc => 0,
        AttrName::NumElem => 1,
        AttrName::Alignment => 23,
        AttrName::Global => 24,
        AttrName::Overflow => 2,
        AttrName::Signedness => 8,
        AttrName::Dim => 3,
        AttrName::Permutation => 4,
        AttrName::Message => 5,
        AttrName::Predicate => 6,
        AttrName::ComparisonPredicate => 7,
        AttrName::ComparisonOrdering => 10,
        AttrName::Value => 22,
        AttrName::Rounding => 11,
        AttrName::SignednessLhs => 12,
        AttrName::SignednessRhs => 13,
        AttrName::Name => 14,
        AttrName::UnsignedCmp => 15,
        AttrName::Identities => 17,
        AttrName::Reverse => 16,
        AttrName::OperandSegmentSizes => 35,
        AttrName::FlushToZero => 19,
        AttrName::PropagateNan => 18,
        AttrName::Constant => 20,
        AttrName::SymName => 21,
        AttrName::SymbolVisibility => 25,
        AttrName::Producer => 26,
        AttrName::Str => 27,
        AttrName::MemoryOrderingSemantics => 28,
        AttrName::MemoryScope => 29,
        AttrName::Mode => 30,
        AttrName::OptimizationHints => 34,
        AttrName::FunctionType => 31,
        AttrName::ArgAttrs => 32,
        AttrName::ResAttrs => 33,
        AttrName::DiName => 36,
    }
}

/// Behind the last attribute among the first `k` parts.
pub open spec fn rank_bound(steps: Seq<Step>, k: int) -> int
    decreases k,
{
    if k <= 0 {
        0
    } else {
        match step_name(steps[k - 1]) {
            Some(n) => name_rank(n) + 1,
            None => rank_bound(steps, k - 1),
        }
    }
}

/// The first `k` parts hold attributes in order.
pub open spec fn names_grow(steps: Seq<Step>, k: int) -> bool
    decreases k,
{
    k <= 0 || (names_grow(steps, k - 1) && (match step_name(steps[k - 1]) {
        Some(n) => name_rank(n) >= rank_bound(steps, k - 1),
        None => true,
    }))
}

proof fn lemma_no_names(steps: Seq<Step>, k: int)
    requires
        0 <= k <= steps.len(),
        forall|i: int| 0 <= i < steps.len() ==> step_name(#[trigger] steps[i]) is None,
    ensures
        names_grow(steps, k),
    decreases k,
{
    if k > 0 {
        lemma_no_names(steps, k - 1);
    }
}

#[verifier::rlimit(100)]
#[verifier::spinoff_prover]
proof fn lemma_names_grow_1(op: Opcode, v13_3: bool)
    requires
        op is Exp || op is MmaF || op is Alloca || op is NegI || op is TanH,
    ensures
        names_grow(layout::layout(op, v13_3), layout::layout(op, v13_3).len() as int),
{
    reveal(layout::layout);
    reveal_with_fuel(names_grow, 12);
    reveal_with_fuel(rank_bound, 12);
}

#[verifier::rlimit(100)]
#[verifier::spinoff_prover]
proof fn lemma_names_grow_2(op: Opcode, v13_3: bool)
    requires
        op is AddI || op is MulI || op is SubI || op is ShLI || op is TruncI
            || op is ShRI || op is MaxI || op is MinI || op is RemI || op is ExtI
            || op is Cat,
    ensures
        names_grow(layout::layout(op, v13_3), layout::layout(op, v13_3).len() as int),
{
    reveal(layout::layout);
    reveal_with_fuel(names_grow, 12);
    reveal_with_fuel(rank_bound, 12);
}

#[verifier::rlimit(100)]
#[verifier::spinoff_prover]
proof fn lemma_names_grow_3(op: Opcode, v13_3: bool)
    requires
        op is Permute || op is Assert || op is Assume || op is CmpF
            || op is CmpI,
    ensures
        names_grow(layout::layout(op, v13_3), layout::layout(op, v13_3).len() as int),
{
    reveal(layout::layout);
    reveal_with_fuel(names_grow, 12);
    reveal_with_fuel(rank_bound, 12);
}

#[verifier::rlimit(100)]
#[verifier::spinoff_prover]
proof fn lemma_names_grow_4(op: Opcode, v13_3: bool)
    requires
        op is Constant || op is DivI || op is FToF || op is FToI || op is IToF
            || op is MmaI,
    ensures
        names_grow(layout::layout(op, v13_3), layout::layout(op, v13_3).len() as int),
{
    reveal(layout::layout);
    reveal_with_fuel(names_grow, 12);
    reveal_with_fuel(rank_bound, 12);
}

#[verifier::rlimit(100)]
#[verifier::spinoff_prover]
proof fn lemma_names_grow_5(op: Opcode, v13_3: bool)
    requires
        op is GetGlobal || op is For || op is Reduce || op is Scan
            || op is MakeTensorView,
    ensures
        names_grow(layout::layout(op, v13_3), layout::layout(op, v13_3).len() as int),
{
    reveal(layout::layout);
    reveal_with_fuel(names_grow, 12);
    reveal_with_fuel(rank_bound, 12);
}

#[verifier::rlimit(100)]
#[verifier::spinoff_prover]
proof fn lemma_names_grow_6(op: Opcode, v13_3: bool)
    requires
        op is AddF || op is DivF || op is MulF || op is SubF || op is Fma
            || op is Sqrt || op is Exp2 || op is Rsqrt || op is MaxF || op is MinF,
    ensures
        names_grow(layout::layout(op, v13_3), layout::layout(op, v13_3).len() as int),
{
    reveal(layout::layout);
    reveal_with_fuel(names_grow, 12);
    reveal_with_fuel(rank_bound, 12);
}

#[verifier::rlimit(100)]
#[verifier::spinoff_prover]
proof fn lemma_names_grow_7(op: Opcode, v13_3: bool)
    requires
        op is Global || op is Module || op is Print || op is AtomicCAS
            || op is AtomicRMW,
    ensures
        names_grow(layout::layout(op, v13_3), layout::layout(op, v13_3).len() as int),
{
    reveal(layout::layout);
    reveal_with_fuel(names_grow, 12);
    reveal_with_fuel(rank_bound, 12);
}

#[verifier::rlimit(100)]
#[verifier::spinoff_prover]
proof fn lemma_names_grow_8(op: Opcode, v13_3: bool)
    requires
        op is AtomicRedViewTko || op is LoadPtrTko || op is LoadViewTko
            || op is StorePtrTko || op is StoreViewTko,
    ensures
        names_grow(layout::layout(op, v13_3), layout::layout(op, v13_3).len() as int),
{
    reveal(layout::layout);
    reveal_with_fuel(names_grow, 12);
    reveal_with_fuel(rank_bound, 12);
}

#[verifier::rlimit(100)]
#[verifier::spinoff_prover]
proof fn lemma_names_grow_9(op: Opcode, v13_3: bool)
    requires
        op is Entry,
    ensures
        names_grow(layout::layout(op, v13_3), layout::layout(op, v13_3).len() as int),
{
    reveal(layout::layout);
    reveal_with_fuel(names_grow, 12);
    reveal_with_fuel(rank_bound, 12);
}

#[verifier::spinoff_prover]
proof fn lemma_unnamed(op: Opcode, v13_3: bool)
    requires
        op is AbsF || op is AbsI || op is Bitcast || op is Broadcast
            || op is Ceil || op is Cos || op is CosH || op is Floor
            || op is IntToPtr || op is Log || op is Log2
            || op is MakeGatherScatterView || op is MakeStridedView || op is NegF
            || op is Pack || op is PtrToInt || op is PtrToPtr || op is Reshape
            || op is Sin || op is SinH || op is Tan || op is Unpack
            || op is MakePartitionView || op is AndI || op is Atan2 || op is MulhiI
            || op is Offset || op is OrI || op is Pow || op is RemF || op is XOrI
            || op is Select || op is MmaFScaled || op is Iota || op is MakeToken
            || op is GetNumTileBlocks || op is GetTileBlockId || op is JoinTokens
            || op is Break || op is Continue || op is Return || op is Yield
            || op is Extract || op is Loop || op is GetIndexSpaceShape
            || op is GetTensorShape || op is If,
    ensures
        names_grow(layout::layout(op, v13_3), layout::layout(op, v13_3).len() as int),
{
    reveal(layout::layout);
    lemma_no_names(layout::layout(op, v13_3), layout::layout(op, v13_3).len() as int);
}

proof fn lemma_names_grow(op: Opcode, v13_3: bool)
    ensures
        names_grow(layout::layout(op, v13_3), layout::layout(op, v13_3).len() as int),
{
    match op {
        Opcode::Exp | Opcode::MmaF | Opcode::Alloca | Opcode::NegI | Opcode::TanH => lemma_names_grow_1(op, v13_3),
        Opcode::AddI | Opcode::MulI | Opcode::SubI | Opcode::ShLI | Opcode::TruncI | Opcode::ShRI | Opcode::MaxI | Opcode::MinI | Opcode::RemI | Opcode::ExtI | Opcode::Cat => lemma_names_grow_2(op, v13_3),
        Opcode::Permute | Opcode::Assert | Opcode::Assume | Opcode::CmpF | Opcode::CmpI => lemma_names_grow_3(op, v13_3),
        Opcode::Constant | Opcode::DivI | Opcode::FToF | Opcode::FToI | Opcode::IToF | Opcode::MmaI => lemma_names_grow_4(op, v13_3),
        Opcode::GetGlobal | Opcode::For | Opcode::Reduce | Opcode::Scan | Opcode::MakeTensorView => lemma_names_grow_5(op, v13_3),
        Opcode::AddF | Opcode::DivF | Opcode::MulF | Opcode::SubF | Opcode::Fma | Opcode::Sqrt | Opcode::Exp2 | Opcode::Rsqrt | Opcode::MaxF | Opcode::MinF => lemma_names_grow_6(op, v13_3),
        Opcode::Global | Opcode::Module | Opcode::Print | Opcode::AtomicCAS | Opcode::AtomicRMW => lemma_names_grow_7(op, v13_3),
        Opcode::AtomicRedViewTko | Opcode::LoadPtrTko | Opcode::LoadViewTko | Opcode::StorePtrTko | Opcode::StoreViewTko => lemma_names_grow_8(op, v13_3),
        Opcode::Entry => lemma_names_grow_9(op, v13_3),
        _ => lemma_unnamed(op, v13_3),
    }
}

proof fn lemma_rank_bound(steps: Seq<Step>, i: int, k: int)
    requires
        0 <= i < k <= steps.len(),
        names_grow(steps, k),
    ensures
        names_grow(steps, i),
        step_name(steps[i]) matches Some(n) ==> name_rank(n) < rank_bound(steps, k),
    decreases k,
{
    if i < k - 1 {
        lemma_rank_bound(steps, i, k - 1);
    }
}

/// No attribute is held twice.
pub proof fn lemma_names_apart(op: Opcode, v13_3: bool)
    ensures
        names_apart(layout::layout(op, v13_3)),
{
    let steps = layout::layout(op, v13_3);
    lemma_names_grow(op, v13_3);
    assert forall|i: int, j: int|
        0 <= i < j < steps.len() && step_name(#[trigger] steps[i]) is Some implies step_name(
        steps[i],
    ) != step_name(#[trigger] steps[j]) by {
        lemma_rank_bound(steps, j, steps.len() as int);
        lemma_grow_part(steps, j + 1, steps.len() as int);
        lemma_rank_bound(steps, i, j);
    }
}

proof fn lemma_grow_part(steps: Seq<Step>, i: int, k: int)
    requires
        0 <= i <= k <= steps.len(),
        names_grow(steps, k),
    ensures
        names_grow(steps, i),
    decreases k,
{
    if i < k {
        lemma_grow_part(steps, i, k - 1);
    }
}

/// Operands come at once, or in groups whose sizes come last.
#[verifier::rlimit(100)]
#[verifier::spinoff_prover]
pub proof fn lemma_operands_apart(op: Opcode, v13_3: bool)
    ensures
        operands_apart(layout::layout(op, v13_3)),
{
    reveal(layout::layout);
}

/// The body of an operation starts with its results: as many as the operation
/// always has, or a count of them. Only the atomic reduction through a view has a
/// count although its number of results is fixed.
#[verifier::spinoff_prover]
pub proof fn lemma_results_first(op: Opcode, v13_3: bool)
    requires
        op != Opcode::AtomicRedViewTko,
    ensures
        layout::layout(op, v13_3).len() > 0,
        match op.spec_fixed_result_count() {
            Some(n) => layout::layout(op, v13_3)[0] matches Step::Results(k) && k == n,
            None => layout::layout(op, v13_3)[0] is ResultsCounted,
        },
{
    reveal(layout::layout);
}

/// Whether an integer that may be left out has this name.
pub open spec fn has_default(n: AttrName) -> bool {
    n is RoundingMode || n is Overflow || n is SymbolVisibility
}

/// The integers that may be left out.
#[verifier::spinoff_prover]
pub proof fn lemma_defaults(op: Opcode, v13_3: bool)
    ensures
        forall|i: int|
            0 <= i < layout::layout(op, v13_3).len() ==> (#[trigger] layout::layout(
                op,
                v13_3,
            )[i] matches Step::IntOr(n, _) ==> has_default(n)),
{
    reveal(layout::layout);
}

} // verus!
