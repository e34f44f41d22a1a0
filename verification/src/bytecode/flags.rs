//! The flags of operation bodies: what the writer sets, the reader finds.
use vstd::prelude::*;
use crate::bytecode::body;
use crate::bytecode::body_writer;
use crate::bytecode::layout::Step;
use crate::bytecode::layout;
use crate::bytecode::node::OpN;
use crate::bytecode::opcode::Opcode;

verus! {

/// Whether the flags are among the first `k` parts.
pub open spec fn flags_seen(steps: Seq<Step>, k: int) -> bool
    decreases k,
{
    k > 0 && (flags_seen(steps, k - 1) || steps[k - 1] is Flags)
}

/// Whether result types are among the first `k` parts.
pub open spec fn results_seen(steps: Seq<Step>, k: int) -> bool
    decreases k,
{
    k > 0 && (results_seen(steps, k - 1) || steps[k - 1] is Results || steps[k - 1] is ResultsCounted)
}

/// Twice the last mask among the first `k` parts.
pub open spec fn mask_bound(steps: Seq<Step>, k: int) -> int
    decreases k,
{
    if k <= 0 {
        1
    } else if body_writer::mask_of(steps[k - 1]) != 0 {
        2 * body_writer::mask_of(steps[k - 1])
    } else {
        mask_bound(steps, k - 1)
    }
}

/// Whether a mask is one of the bits in use.
pub open spec fn is_bit(m: u8) -> bool {
    m == 1 || m == 2 || m == 4 || m == 8 || m == 16
}

/// Whether a part of a body depends on a flag.
pub open spec fn is_conditional(step: Step) -> bool {
    match step {
        Step::IntIf(_, _) => true,
        Step::StrIf(_, _) => true,
        Step::HintsIf(_) => true,
        Step::HintsFirstIf(_) => true,
        Step::DictIf(_, _) => true,
        Step::FlagBool(_, _) => true,
        Step::FlagInt(_, _) => true,
        Step::GroupIf(_) => true,
        _ => false,
    }
}

/// Masks grow along the first `k` parts, behind the flags.
pub open spec fn masks_grow(steps: Seq<Step>, k: int) -> bool
    decreases k,
{
    k <= 0 || {
        let m = body_writer::mask_of(steps[k - 1]);
        masks_grow(steps, k - 1) && (!is_conditional(steps[k - 1]) || (is_bit(m) && m >= mask_bound(
            steps,
            k - 1,
        ) && flags_seen(steps, k - 1)))
    }
}

/// What holds of every layout.
pub open spec fn sound_layout(steps: Seq<Step>) -> bool {
    masks_grow(steps, steps.len() as int) && results_seen(steps, steps.len() as int)
}

proof fn lemma_no_masks(steps: Seq<Step>, k: int)
    requires
        0 <= k <= steps.len(),
        forall|i: int|
            0 <= i < steps.len() ==> !is_conditional(#[trigger] steps[i]),
    ensures
        masks_grow(steps, k),
    decreases k,
{
    if k > 0 {
        lemma_no_masks(steps, k - 1);
    }
}

proof fn lemma_results_stay(steps: Seq<Step>, j: int, k: int)
    requires
        0 <= j <= k,
        results_seen(steps, j),
    ensures
        results_seen(steps, k),
    decreases k,
{
    if j < k {
        lemma_results_stay(steps, j, k - 1);
    }
}

/// Every layout starts with result types, and its masks are growing bits behind
/// the flags.
#[verifier::rlimit(100)]
pub proof fn lemma_layout(op: Opcode, v13_3: bool)
    ensures
        sound_layout(layout::layout(op, v13_3)),
{
    reveal(layout::layout);
    let steps = layout::layout(op, v13_3);
    lemma_results_stay(steps, 1, steps.len() as int);
    if (forall|i: int| 0 <= i < steps.len() ==> !is_conditional(#[trigger] steps[i])) {
        lemma_no_masks(steps, steps.len() as int);
    } else {
        reveal_with_fuel(masks_grow, 12);
        reveal_with_fuel(mask_bound, 12);
        reveal_with_fuel(flags_seen, 12);
    }
}

proof fn lemma_flags_bounded(op: OpN, steps: Seq<Step>, k: int)
    requires
        k >= 0,
        masks_grow(steps, k),
    ensures
        0 <= body_writer::flags_of(op, steps, k) < mask_bound(steps, k),
        mask_bound(steps, k) <= 32,
    decreases k,
{
    if k > 0 {
        lemma_flags_bounded(op, steps, k - 1);
    }
}

proof fn lemma_bounds_grow(steps: Seq<Step>, j: int, k: int)
    requires
        0 <= j <= k,
        masks_grow(steps, k),
    ensures
        masks_grow(steps, j),
        mask_bound(steps, j) <= mask_bound(steps, k),
    decreases k,
{
    if j < k {
        lemma_bounds_grow(steps, j, k - 1);
    }
}

proof fn lemma_higher_bit(x: int, m: u8, n: u8)
    requires
        x >= 0,
        is_bit(m),
        is_bit(n),
        n >= 2 * m,
    ensures
        ((x + n) / m as int) % 2 == (x / m as int) % 2,
{
    if m == 1 {
        assert(n == 2 || n == 4 || n == 8 || n == 16);
    } else if m == 2 {
        assert(n == 4 || n == 8 || n == 16);
    } else if m == 4 {
        assert(n == 8 || n == 16);
    } else {
        assert(m == 8 && n == 16);
    }
}

proof fn lemma_own_bit(x: int, m: u8)
    requires
        is_bit(m),
        0 <= x < m,
    ensures
        (x / m as int) % 2 == 0,
        ((x + m) / m as int) % 2 == 1,
{
    if m == 1 {
        assert((x + 1) / 1 == 1);
    } else if m == 2 {
        assert(x / 2 == 0 && (x + 2) / 2 == 1);
    } else if m == 4 {
        assert(x / 4 == 0 && (x + 4) / 4 == 1);
    } else if m == 8 {
        assert(x / 8 == 0 && (x + 8) / 8 == 1);
    } else {
        assert(x / 16 == 0 && (x + 16) / 16 == 1);
    }
}

proof fn lemma_flag_stays(op: OpN, steps: Seq<Step>, i: int, k: int)
    requires
        0 <= i < k,
        masks_grow(steps, k),
        body_writer::mask_of(steps[i]) != 0,
    ensures
        (body_writer::flags_of(op, steps, k) / body_writer::mask_of(steps[i]) as int) % 2 == (
        if body_writer::is_present(op, steps[i], body_writer::groups_before(steps, i)) {
            1int
        } else {
            0
        }),
    decreases k,
{
    let m = body_writer::mask_of(steps[i]);
    lemma_bounds_grow(steps, i, k);
    lemma_bounds_grow(steps, i + 1, k);
    if i == k - 1 {
        lemma_flags_bounded(op, steps, i);
        let low = body_writer::flags_of(op, steps, i);
        lemma_own_bit(low, m);
    } else {
        lemma_flag_stays(op, steps, i, k - 1);
        lemma_flags_bounded(op, steps, k - 1);
        let n = body_writer::mask_of(steps[k - 1]);
        lemma_bounds_grow(steps, i + 1, k - 1);
        if n != 0 {
            lemma_higher_bit(body_writer::flags_of(op, steps, k - 1), m, n);
        }
    }
}

/// A flag is set exactly where the part that it announces is there.
pub proof fn lemma_flag_set(op: OpN, steps: Seq<Step>, i: int)
    requires
        0 <= i < steps.len(),
        masks_grow(steps, steps.len() as int),
        is_conditional(steps[i]),
    ensures
        body_writer::mask_of(steps[i]) != 0,
        body::flag_set(
            body_writer::flags_of(op, steps, steps.len() as int) as u64,
            body_writer::mask_of(steps[i]),
        ) == body_writer::is_present(op, steps[i], body_writer::groups_before(steps, i)),
        flags_seen(steps, i),
{
    lemma_bounds_grow(steps, i + 1, steps.len() as int);
    lemma_flag_stays(op, steps, i, steps.len() as int);
    lemma_flags_bounded(op, steps, steps.len() as int);
}

} // verus!
