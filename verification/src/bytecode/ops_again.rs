//! Operations that were read are written the same way again.
use vstd::prelude::*;
use crate::bytecode::again;
use crate::bytecode::attr_writer;
use crate::bytecode::attrs::TablesV;
use crate::bytecode::attrs;
use crate::bytecode::body::BodyV;
use crate::bytecode::body;
use crate::bytecode::body_roundtrip;
use crate::bytecode::body_writer;
use crate::bytecode::collect::CollectV;
use crate::bytecode::collect;
use crate::bytecode::flags;
use crate::bytecode::layout::Step;
use crate::bytecode::layout;
use crate::bytecode::layout_facts;
use crate::bytecode::node::{BlockN, OpN};
use crate::bytecode::wire;
use crate::ir::attr::AttrV;
use crate::ir::attr;
use crate::ir::location::ScopeV;
use crate::ir::types::TypeV;

verus! {

// ---------------------------------------------------------------------------
// Attributes of what is read back
// ---------------------------------------------------------------------------

/// Looking for a name in a list with one more attribute.
pub proof fn lemma_find_push(s: Seq<(Seq<char>, AttrV)>, x: (Seq<char>, AttrV), name: Seq<char>)
    ensures
        body_writer::find_attr(s.push(x), name) == (match body_writer::find_attr(s, name) {
            Some(a) => Some(a),
            None => if x.0 == name {
                Some(x.1)
            } else {
                None
            },
        }),
{
    lemma_find_prefix(s, x, name, s.len() as int);
}

proof fn lemma_find_prefix(s: Seq<(Seq<char>, AttrV)>, x: (Seq<char>, AttrV), name: Seq<char>, n: int)
    requires
        0 <= n <= s.len(),
    ensures
        body_writer::find_attr_in(s.push(x), name, n) == body_writer::find_attr_in(s, name, n),
    decreases n,
{
    if n > 0 {
        lemma_find_prefix(s, x, name, n - 1);
    }
}

proof fn lemma_find_front(s: Seq<(Seq<char>, AttrV)>, x: (Seq<char>, AttrV), name: Seq<char>, n: int)
    requires
        0 <= n <= s.len(),
    ensures
        body_writer::find_attr_in(seq![x] + s, name, n + 1) == (if x.0 == name {
            Some(x.1)
        } else {
            body_writer::find_attr_in(s, name, n)
        }),
    decreases n,
{
    let l = seq![x] + s;
    if n > 0 {
        lemma_find_front(s, x, name, n - 1);
        assert(l[n] == s[n - 1]);
    } else {
        assert(l[0] == x);
        assert(body_writer::find_attr_in(l, name, 0) is None);
    }
}

/// The attribute that is read back of a part of a body.
pub open spec fn added(op: OpN, t: TablesV, step: Step, b: BodyV) -> Option<AttrV> {
    let present = body_writer::is_present(op, step, 0);
    match step {
        Step::Int(name) => Some(attr::i32_attr(body_writer::int_value(op, name))),
        Step::IntOr(name, default) => if body_roundtrip::int_or(op, name, default) != default
            || t.strings.contains(layout::name_text(name)) {
            Some(
                attr::i32_attr(
                    wire::i64_of_pattern(body_roundtrip::int_or(op, name, default) as int),
                ),
            )
        } else {
            None
        },
        Step::IntIf(_, name) => if present {
            Some(attr::i32_attr(body_writer::int_value(op, name)))
        } else {
            None
        },
        Step::BoolByte(name) => Some(AttrV::Bool(body_writer::bool_value(op, name))),
        Step::I32s(name) => Some(AttrV::DenseI32(body_writer::i32s_value(op, name))),
        Step::Str(name) => Some(AttrV::Str(body_writer::str_value(op, name))),
        Step::StrIf(_, name) => if present {
            Some(AttrV::Str(body_writer::str_value(op, name)))
        } else {
            None
        },
        Step::TypeRef(name) => Some(AttrV::Type(body_writer::type_value(op, name))),
        Step::Tagged(name) => Some(attr_writer::normal_attr(body_writer::any_value(op, name))),
        Step::Array(name) => Some(
            attr_writer::normal_attr(AttrV::Array(body_writer::list_value(op, name))),
        ),
        Step::HintsIf(_) => if present {
            Some(attr_writer::normal_attr(AttrV::Hints(body_writer::hints_value(op))))
        } else {
            None
        },
        Step::HintsFirstIf(_) => if present {
            Some(attr_writer::normal_attr(AttrV::Hints(body_writer::hints_value(op))))
        } else {
            None
        },
        Step::DictIf(_, name) => if present {
            Some(attr_writer::normal_attr(AttrV::Dict(body_writer::dict_value(op, name))))
        } else {
            None
        },
        Step::FlagBool(_, _) => if present {
            Some(AttrV::Bool(true))
        } else {
            None
        },
        Step::FlagInt(_, _) => if present {
            Some(attr::i32_attr(1))
        } else {
            None
        },
        Step::Constant => Some(
            AttrV::Dense(attrs::dense_of(body::first_result(b), body_writer::data_value(op))),
        ),
        Step::GlobalValue => Some(
            AttrV::Dense(attrs::dense_of(TypeV::Token, body_writer::data_value(op))),
        ),
        Step::Segments => Some(body::segments_attr(b.sizes)),
        _ => None,
    }
}

/// A part of a body adds its attribute under its name.
proof fn lemma_added(op: OpN, t: TablesV, step: Step, b: BodyV, name: Seq<char>)
    requires
        !body::is_value_step(step),
        !body_writer::is_regions(step),
        body_writer::find_attr(b.attributes, name) is Some ==> (layout_facts::step_name(
            step,
        ) matches Some(n) ==> layout::name_text(n) != name),
    ensures
        ({
            let d = body_roundtrip::read_attr_step(op, t, step, b);
            let own = layout_facts::step_name(step) matches Some(n) && layout::name_text(n) == name;
            &&& body_writer::find_attr(d.attributes, name) == (if own {
                added(op, t, step, b)
            } else {
                body_writer::find_attr(b.attributes, name)
            })
            &&& d.operands == b.operands
            &&& d.result_types == b.result_types
            &&& d.regions == b.regions
            &&& d.sizes == b.sizes
        }),
{
    match layout_facts::step_name(step) {
        Some(n) => match added(op, t, step, b) {
            Some(a) => {
                let x = (layout::name_text(n), a);
                lemma_find_push(b.attributes, x, name);
                lemma_find_front(b.attributes, x, name, b.attributes.len() as int);
            },
            None => {},
        },
        None => {},
    }
}

/// What is read back of the first `k` parts of a body.
pub open spec fn read_part(
    op: OpN,
    t: TablesV,
    v13_3: bool,
    scope: Option<ScopeV>,
    k: int,
) -> BodyV {
    body_roundtrip::read_steps(op, t, v13_3, scope, layout::layout(op.opcode, v13_3), k)
}

/// The attribute of part `i` is found under its name.
pub proof fn lemma_found(op: OpN, t: TablesV, v13_3: bool, scope: Option<ScopeV>, i: int, k: int)
    requires
        0 <= i < layout::layout(op.opcode, v13_3).len(),
        0 <= k <= layout::layout(op.opcode, v13_3).len(),
        layout_facts::step_name(layout::layout(op.opcode, v13_3)[i]) is Some,
    ensures
        body_writer::find_attr(
            read_part(op, t, v13_3, scope, k).attributes,
            layout::name_text(layout_facts::step_name(layout::layout(op.opcode, v13_3)[i])->0),
        ) == (if k <= i {
            None
        } else {
            added(
                op,
                t,
                layout::layout(op.opcode, v13_3)[i],
                read_part(op, t, v13_3, scope, i),
            )
        }),
    decreases k,
{
    let steps = layout::layout(op.opcode, v13_3);
    let n = layout_facts::step_name(steps[i])->0;
    let name = layout::name_text(n);
    if k > 0 {
        lemma_found(op, t, v13_3, scope, i, k - 1);
        let b = read_part(op, t, v13_3, scope, k - 1);
        let step = steps[k - 1];
        layout_facts::lemma_names_apart(op.opcode, v13_3);
        if !body_writer::is_regions(step) && !body::is_value_step(step) {
            match layout_facts::step_name(step) {
                Some(x) => {
                    layout_facts::lemma_names_differ(x, n);
                    if k - 1 < i {
                        assert(layout_facts::step_name(steps[k - 1]) != layout_facts::step_name(
                            steps[i],
                        ));
                    } else if i < k - 1 {
                        assert(layout_facts::step_name(steps[i]) != layout_facts::step_name(
                            steps[k - 1],
                        ));
                    }
                },
                None => {},
            }
            lemma_added(op, t, step, b, name);
        }
    }
}

// ---------------------------------------------------------------------------
// Results, regions and operands of what is read back
// ---------------------------------------------------------------------------

proof fn lemma_results_read(op: OpN, t: TablesV, v13_3: bool, scope: Option<ScopeV>, k: int)
    requires
        0 <= k <= layout::layout(op.opcode, v13_3).len(),
        flags::results_seen(layout::layout(op.opcode, v13_3), k),
    ensures
        read_part(op, t, v13_3, scope, k).result_types == op.result_types,
    decreases k,
{
    let steps = layout::layout(op.opcode, v13_3);
    let b = read_part(op, t, v13_3, scope, k - 1);
    if flags::results_seen(steps, k - 1) {
        lemma_results_read(op, t, v13_3, scope, k - 1);
    }
}

/// The regions that are read back.
pub proof fn lemma_regions_read(op: OpN, t: TablesV, v13_3: bool, scope: Option<ScopeV>, i: int, k: int)
    requires
        0 <= i < k <= layout::layout(op.opcode, v13_3).len(),
        body_writer::is_regions(layout::layout(op.opcode, v13_3)[i]),
    ensures
        read_part(op, t, v13_3, scope, k).regions == body_roundtrip::read_regions(
            op.regions,
            t,
            v13_3,
            scope,
            op.regions.len() as int,
        ),
    decreases k,
{
    if i < k - 1 {
        lemma_regions_read(op, t, v13_3, scope, i, k - 1);
    }
}

proof fn lemma_operands_read(op: OpN, t: TablesV, v13_3: bool, scope: Option<ScopeV>, i: int, k: int)
    requires
        0 <= i < layout::layout(op.opcode, v13_3).len(),
        0 <= k <= layout::layout(op.opcode, v13_3).len(),
        layout_facts::is_operands(layout::layout(op.opcode, v13_3)[i]),
    ensures
        read_part(op, t, v13_3, scope, k).operands == (if k <= i {
            seq![]
        } else {
            op.operands
        }),
    decreases k,
{
    let steps = layout::layout(op.opcode, v13_3);
    layout_facts::lemma_operands_apart(op.opcode, v13_3);
    if k > 0 {
        lemma_operands_read(op, t, v13_3, scope, i, k - 1);
        let b = read_part(op, t, v13_3, scope, k - 1);
        assert(seq![] + op.operands =~= op.operands);
        assert(!body_writer::is_group(steps[k - 1]));
        if k - 1 < i {
            assert(is_not_operands(steps, k - 1, i));
        } else if i < k - 1 {
            assert(is_not_operands(steps, i, k - 1));
        }
    }
}

/// One of two parts at most is all of the operands.
spec fn is_not_operands(steps: Seq<Step>, i: int, j: int) -> bool {
    layout_facts::is_operands(steps[i]) ==> !layout_facts::is_operands(steps[j])
}

/// The operand groups that are read back.
proof fn lemma_groups_read(op: OpN, t: TablesV, v13_3: bool, scope: Option<ScopeV>, k: int)
    requires
        0 <= k <= layout::layout(op.opcode, v13_3).len(),
        body_writer::check_steps(op, layout::layout(op.opcode, v13_3), k) is None,
        forall|i: int|
            0 <= i < k ==> !layout_facts::is_operands(
                #[trigger] layout::layout(op.opcode, v13_3)[i],
            ),
    ensures
        ({
            let b = read_part(op, t, v13_3, scope, k);
            let g = body_writer::groups_before(layout::layout(op.opcode, v13_3), k);
            &&& g >= 0
            &&& b.sizes.len() == g
            &&& forall|j: int| 0 <= j < g ==> #[trigger] b.sizes[j] == body_writer::group_size(op, j)
            &&& 0 <= body_writer::group_start(op, g) <= op.operands.len()
            &&& b.operands == op.operands.take(body_writer::group_start(op, g))
        }),
    decreases k,
{
    let steps = layout::layout(op.opcode, v13_3);
    if k > 0 {
        lemma_groups_read(op, t, v13_3, scope, k - 1);
        let b = read_part(op, t, v13_3, scope, k - 1);
        let g = body_writer::groups_before(steps, k - 1);
        assert(!layout_facts::is_operands(steps[k - 1]));
        if body_writer::is_group(steps[k - 1]) {
            let s = body_writer::group_operands(op, g);
            let start = body_writer::group_start(op, g);
            let size = body_writer::group_size(op, g);
            assert(body_writer::group_start(op, g + 1) == start + size);
            assert(s.len() == size);
            assert(op.operands.take(start) + s =~= op.operands.take(start + size));
            assert(op.operands.len() >= s.len());
        }
    } else {
        assert(op.operands.take(0) =~= seq![]);
    }
}

// ---------------------------------------------------------------------------
// Parts of a body
// ---------------------------------------------------------------------------

/// The attribute that part `i` of a body holds, in what is read back.
proof fn lemma_read_attr(op: OpN, t: TablesV, v13_3: bool, scope: Option<ScopeV>, i: int)
    requires
        0 <= i < layout::layout(op.opcode, v13_3).len(),
    ensures
        layout_facts::step_name(layout::layout(op.opcode, v13_3)[i]) matches Some(n)
            ==> body_writer::op_attr(body_roundtrip::read_op(op, t, v13_3, scope), n) == added(
            op,
            t,
            layout::layout(op.opcode, v13_3)[i],
            read_part(op, t, v13_3, scope, i),
        ),
{
    let steps = layout::layout(op.opcode, v13_3);
    if layout_facts::step_name(steps[i]) is Some {
        lemma_found(op, t, v13_3, scope, i, steps.len() as int);
    }
}

proof fn lemma_more_groups(steps: Seq<Step>, i: int, k: int)
    requires
        0 <= i <= k,
    ensures
        0 <= body_writer::groups_before(steps, i) <= body_writer::groups_before(steps, k),
    decreases k,
{
    if i < k {
        lemma_more_groups(steps, i, k - 1);
    } else if i > 0 {
        lemma_more_groups(steps, i - 1, i - 1);
    }
}

/// The groups of two operations have the same sizes.
pub open spec fn same_groups(op: OpN, q: OpN, g: int) -> bool {
    &&& q.operands == op.operands
    &&& forall|j: int|
        0 <= j < g ==> #[trigger] body_writer::group_size(q, j) == body_writer::group_size(op, j)
}

proof fn lemma_same_start(op: OpN, q: OpN, g: int, j: int)
    requires
        same_groups(op, q, g),
        0 <= j <= g,
    ensures
        body_writer::group_start(q, j) == body_writer::group_start(op, j),
    decreases j,
{
    if j > 0 {
        lemma_same_start(op, q, g, j - 1);
        assert(body_writer::group_size(q, j - 1) == body_writer::group_size(op, j - 1));
    }
}

/// Operand groups are read back.
proof fn lemma_groups_again(op: OpN, t: TablesV, v13_3: bool, scope: Option<ScopeV>, i: int)
    requires
        0 <= i < layout::layout(op.opcode, v13_3).len(),
        body_writer::is_group(layout::layout(op.opcode, v13_3)[i]) || layout::layout(
            op.opcode,
            v13_3,
        )[i] is Segments,
        body_writer::check_steps(
            op,
            layout::layout(op.opcode, v13_3),
            layout::layout(op.opcode, v13_3).len() as int,
        ) is None,
    ensures
        same_groups(
            op,
            body_roundtrip::read_op(op, t, v13_3, scope),
            body_writer::groups_before(
                layout::layout(op.opcode, v13_3),
                layout::layout(op.opcode, v13_3).len() as int,
            ),
        ),
{
    let steps = layout::layout(op.opcode, v13_3);
    let n = steps.len() as int;
    let q = body_roundtrip::read_op(op, t, v13_3, scope);
    layout_facts::lemma_operands_apart(op.opcode, v13_3);
    assert(steps.last() is Segments);
    assert forall|j: int| 0 <= j < n implies !layout_facts::is_operands(#[trigger] steps[j]) by {
        assert(steps[n - 1] is Segments);
    }
    body_writer::lemma_check_part(op, steps, n - 1, n);
    lemma_groups_read(op, t, v13_3, scope, n - 1);
    lemma_groups_read(op, t, v13_3, scope, n);
    lemma_read_attr(op, t, v13_3, scope, n - 1);
    let b = read_part(op, t, v13_3, scope, n - 1);
    let g = body_writer::groups_before(steps, n - 1);
    assert(op.operands.take(op.operands.len() as int) =~= op.operands);
    assert(steps[n - 1] is Segments);
    assert(body_writer::check_step(op, steps[n - 1], g) is None);
    assert forall|j: int| 0 <= j < g implies #[trigger] body_writer::group_size(q, j)
        == body_writer::group_size(op, j) by {
        assert(b.sizes[j] == body_writer::group_size(op, j));
    }
}

proof fn lemma_pattern(x: u64)
    ensures
        wire::i64_pattern(wire::i64_of_pattern(x as int)) == x,
{
}

proof fn lemma_pattern_back(v: i64)
    ensures
        0 <= wire::i64_pattern(v) <= u64::MAX,
        wire::i64_of_pattern(wire::i64_pattern(v)) == v,
{
}

/// A part of a body that holds an attribute asks for the same and has the same
/// bytes.
proof fn lemma_attr_step_again(
    op: OpN,
    q: OpN,
    t0: TablesV,
    step: Step,
    b: BodyV,
    u: TablesV,
    t: TablesV,
    c: int,
)
    requires
        !body::is_value_step(step),
        !(step is Segments),
        body_writer::check_step(op, step, 0) is None,
        layout_facts::step_name(step) matches Some(n) ==> body_writer::op_attr(q, n) == added(
            op,
            t0,
            step,
            b,
        ),
    ensures
        collect::collect_step(u, q, step) == collect::collect_step(u, op, step),
        body_writer::step_consts(q, step) == body_writer::step_consts(op, step),
        body_writer::is_present(q, step, 0) == body_writer::is_present(op, step, 0),
        body_writer::attr_step_bytes(q, t, c, step) == body_writer::attr_step_bytes(op, t, c, step),
        !body_writer::is_regions(step) ==> body_writer::check_step(q, step, 0) is None,
{
    match step {
        Step::IntOr(name, default) => {
            lemma_pattern(body_roundtrip::int_or(op, name, default));
            match body_writer::op_attr(op, name) {
                Some(AttrV::Integer(v, _)) => lemma_pattern_back(v),
                _ => {},
            }
        },
        Step::Tagged(name) => again::lemma_attr_again(body_writer::any_value(op, name), u, t, c),
        Step::Array(name) => {
            let s = body_writer::list_value(op, name);
            again::lemma_list_again(s, u, t, c, s.len() as int);
        },
        Step::HintsIf(_) => {
            let s = body_writer::hints_value(op);
            again::lemma_hints_again(s, u, t, c, s.len() as int);
        },
        Step::HintsFirstIf(_) => {
            let s = body_writer::hints_value(op);
            again::lemma_hints_again(s, u, t, c, s.len() as int);
        },
        Step::DictIf(_, name) => {
            let s = body_writer::dict_value(op, name);
            again::lemma_dict_again(s, u, t, c, s.len() as int);
        },
        _ => {},
    }
}

/// Any part of a body aside from regions.
proof fn lemma_part_again(op: OpN, t0: TablesV, v13_3: bool, scope: Option<ScopeV>, i: int)
    requires
        0 <= i < layout::layout(op.opcode, v13_3).len(),
        !body_writer::is_regions(layout::layout(op.opcode, v13_3)[i]),
        body_writer::check_steps(
            op,
            layout::layout(op.opcode, v13_3),
            layout::layout(op.opcode, v13_3).len() as int,
        ) is None,
    ensures
        ({
            let q = body_roundtrip::read_op(op, t0, v13_3, scope);
            let steps = layout::layout(op.opcode, v13_3);
            let step = steps[i];
            let g = body_writer::groups_before(steps, i);
            &&& body_writer::check_step(op, step, g) is None
            &&& body_writer::check_step(q, step, g) is None
            &&& body_writer::is_present(q, step, g) == body_writer::is_present(op, step, g)
            &&& step is Results || step is ResultsCounted ==> q.result_types == op.result_types
            &&& layout_facts::is_operands(step) ==> q.operands == op.operands
            &&& body_writer::is_group(step) ==> body_writer::group_size(q, g)
                == body_writer::group_size(op, g) && body_writer::group_operands(q, g)
                == body_writer::group_operands(op, g)
        }),
{
    let q = body_roundtrip::read_op(op, t0, v13_3, scope);
    let steps = layout::layout(op.opcode, v13_3);
    let n = steps.len() as int;
    let step = steps[i];
    let g = body_writer::groups_before(steps, i);
    body_writer::lemma_check_part(op, steps, i + 1, n);
    flags::lemma_layout(op.opcode, v13_3);
    lemma_results_read(op, t0, v13_3, scope, n);
    if layout_facts::is_operands(step) {
        lemma_operands_read(op, t0, v13_3, scope, i, n);
    } else if body_writer::is_group(step) || step is Segments {
        lemma_groups_again(op, t0, v13_3, scope, i);
        let all = body_writer::groups_before(steps, n);
        lemma_more_groups(steps, i, i);
        lemma_more_groups(steps, i, n);
        lemma_same_start(op, q, all, g);
        if body_writer::is_group(step) {
            lemma_more_groups(steps, i + 1, n);
            assert(body_writer::group_size(q, g) == body_writer::group_size(op, g));
        }
    } else if !body::is_value_step(step) {
        lemma_read_attr(op, t0, v13_3, scope, i);
        body_writer::lemma_check_any_group(op, step, g);
        body_writer::lemma_check_any_group(q, step, g);
        let b = read_part(op, t0, v13_3, scope, i);
        lemma_attr_step_again(op, q, t0, step, b, t0, t0, 0);
    }
}

/// The flags are the same.
proof fn lemma_flags_again(op: OpN, t0: TablesV, v13_3: bool, scope: Option<ScopeV>, k: int)
    requires
        0 <= k <= layout::layout(op.opcode, v13_3).len(),
        body_writer::check_steps(
            op,
            layout::layout(op.opcode, v13_3),
            layout::layout(op.opcode, v13_3).len() as int,
        ) is None,
    ensures
        body_writer::flags_of(
            body_roundtrip::read_op(op, t0, v13_3, scope),
            layout::layout(op.opcode, v13_3),
            k,
        ) == body_writer::flags_of(op, layout::layout(op.opcode, v13_3), k),
    decreases k,
{
    let steps = layout::layout(op.opcode, v13_3);
    if k > 0 {
        lemma_flags_again(op, t0, v13_3, scope, k - 1);
        if !body_writer::is_regions(steps[k - 1]) {
            lemma_part_again(op, t0, v13_3, scope, k - 1);
        }
    }
}

/// A part of a body aside from regions asks for the same and has the same bytes.
proof fn lemma_plain_part_again(
    op: OpN,
    t0: TablesV,
    v13_3: bool,
    scope: Option<ScopeV>,
    i: int,
    u: TablesV,
    t: TablesV,
    c: int,
)
    requires
        0 <= i < layout::layout(op.opcode, v13_3).len(),
        !body_writer::is_regions(layout::layout(op.opcode, v13_3)[i]),
        body_writer::check_steps(
            op,
            layout::layout(op.opcode, v13_3),
            layout::layout(op.opcode, v13_3).len() as int,
        ) is None,
    ensures
        ({
            let q = body_roundtrip::read_op(op, t0, v13_3, scope);
            let steps = layout::layout(op.opcode, v13_3);
            let step = steps[i];
            &&& collect::collect_step(u, q, step) == collect::collect_step(u, op, step)
            &&& body_writer::step_consts(q, step) == body_writer::step_consts(op, step)
            &&& body_writer::check_step(q, step, body_writer::groups_before(steps, i)) is None
            &&& body::is_value_step(step) ==> body_writer::value_step_bytes(q, t, steps, i)
                == body_writer::value_step_bytes(op, t, steps, i)
            &&& !body::is_value_step(step) ==> body_writer::attr_step_bytes(q, t, c, step)
                == body_writer::attr_step_bytes(op, t, c, step)
        }),
{
    let q = body_roundtrip::read_op(op, t0, v13_3, scope);
    let steps = layout::layout(op.opcode, v13_3);
    let step = steps[i];
    let g = body_writer::groups_before(steps, i);
    lemma_part_again(op, t0, v13_3, scope, i);
    lemma_flags_again(op, t0, v13_3, scope, steps.len() as int);
    if !body::is_value_step(step) && !(step is Segments) {
        lemma_read_attr(op, t0, v13_3, scope, i);
        body_writer::lemma_check_any_group(op, step, g);
        let b = read_part(op, t0, v13_3, scope, i);
        lemma_attr_step_again(op, q, t0, step, b, u, t, c);
    }
}

// ---------------------------------------------------------------------------
// Operations, blocks and regions
// ---------------------------------------------------------------------------

/// What has been collected is sound, and the scope of the function is known.
pub open spec fn ready(s: CollectV, scope: Option<ScopeV>) -> bool {
    collect::collect_wf(s) && again::scope_held(collect::pool(s), scope, s.scope)
}

proof fn lemma_ready(s: CollectV, u: CollectV, c: Seq<Seq<u8>>, scope: Option<ScopeV>)
    requires
        ready(s, scope),
        collect::collected(s, u, c),
    ensures
        ready(u, scope),
{
    again::lemma_scope_held(collect::pool(s), scope, s.scope, collect::pool(u));
}

/// Reading keeps lists in order.
proof fn lemma_read_ops(ops: Seq<OpN>, t: TablesV, v13_3: bool, scope: Option<ScopeV>, n: int)
    requires
        0 <= n <= ops.len(),
    ensures
        body_roundtrip::read_ops(ops, t, v13_3, scope, n).len() == n,
        forall|i: int|
            0 <= i < n ==> #[trigger] body_roundtrip::read_ops(ops, t, v13_3, scope, n)[i]
                == body_roundtrip::read_op(ops[i], t, v13_3, scope),
    decreases n,
{
    if n > 0 {
        lemma_read_ops(ops, t, v13_3, scope, n - 1);
    }
}

proof fn lemma_read_blocks(bs: Seq<BlockN>, t: TablesV, v13_3: bool, scope: Option<ScopeV>, n: int)
    requires
        0 <= n <= bs.len(),
    ensures
        body_roundtrip::read_blocks(bs, t, v13_3, scope, n).len() == n,
        forall|i: int|
            0 <= i < n ==> #[trigger] body_roundtrip::read_blocks(bs, t, v13_3, scope, n)[i]
                == body_roundtrip::read_block(bs[i], t, v13_3, scope),
    decreases n,
{
    if n > 0 {
        lemma_read_blocks(bs, t, v13_3, scope, n - 1);
    }
}

proof fn lemma_read_regions(
    rs: Seq<Seq<BlockN>>,
    t: TablesV,
    v13_3: bool,
    scope: Option<ScopeV>,
    n: int,
)
    requires
        0 <= n <= rs.len(),
    ensures
        body_roundtrip::read_regions(rs, t, v13_3, scope, n).len() == n,
        forall|i: int|
            0 <= i < n ==> #[trigger] body_roundtrip::read_regions(rs, t, v13_3, scope, n)[i]
                == body_roundtrip::read_blocks(rs[i], t, v13_3, scope, rs[i].len() as int),
    decreases n,
{
    if n > 0 {
        lemma_read_regions(rs, t, v13_3, scope, n - 1);
    }
}

/// Two operations ask for the same and have the same bytes.
#[verifier::opaque]
pub open spec fn same_op(op: OpN, q: OpN, v13_3: bool, s: CollectV, t: TablesV, c: int) -> bool {
    &&& body_writer::check_op(q, v13_3) is None
    &&& collect::collect_op(s, q, v13_3) == collect::collect_op(s, op, v13_3)
    &&& body_writer::op_consts(q, v13_3) == body_writer::op_consts(op, v13_3)
    &&& body_writer::op_bytes(q, t, v13_3, c) == body_writer::op_bytes(op, t, v13_3, c)
}

/// The first `n` of two lists of operations ask for the same and have the same
/// bytes.
#[verifier::opaque]
pub open spec fn same_ops(
    ops: Seq<OpN>,
    q: Seq<OpN>,
    v13_3: bool,
    s: CollectV,
    t: TablesV,
    c: int,
    n: int,
) -> bool {
    &&& q.len() == ops.len()
    &&& body_writer::check_ops(q, v13_3, n) is None
    &&& collect::collect_ops(s, q, v13_3, n) == collect::collect_ops(s, ops, v13_3, n)
    &&& body_writer::ops_consts(q, v13_3, n) == body_writer::ops_consts(ops, v13_3, n)
    &&& body_writer::ops_bytes(q, t, v13_3, c, n) == body_writer::ops_bytes(ops, t, v13_3, c, n)
}

/// The first `n` of two lists of blocks ask for the same and have the same
/// bytes.
#[verifier::opaque]
pub open spec fn same_blocks(
    bs: Seq<BlockN>,
    q: Seq<BlockN>,
    v13_3: bool,
    s: CollectV,
    t: TablesV,
    c: int,
    n: int,
) -> bool {
    &&& q.len() == bs.len()
    &&& body_writer::check_blocks(q, v13_3, n) is None
    &&& collect::collect_blocks(s, q, v13_3, n) == collect::collect_blocks(s, bs, v13_3, n)
    &&& body_writer::blocks_consts(q, v13_3, n) == body_writer::blocks_consts(bs, v13_3, n)
    &&& body_writer::blocks_bytes(q, t, v13_3, c, n) == body_writer::blocks_bytes(bs, t, v13_3, c, n)
}

/// The first `n` of two lists of regions ask for the same and have the same
/// bytes.
#[verifier::opaque]
pub open spec fn same_regions(
    rs: Seq<Seq<BlockN>>,
    q: Seq<Seq<BlockN>>,
    v13_3: bool,
    s: CollectV,
    t: TablesV,
    c: int,
    n: int,
) -> bool {
    &&& q.len() == rs.len()
    &&& body_writer::check_regions(q, v13_3, n) is None
    &&& collect::collect_regions(s, q, v13_3, n) == collect::collect_regions(s, rs, v13_3, n)
    &&& body_writer::regions_consts(q, v13_3, n) == body_writer::regions_consts(rs, v13_3, n)
    &&& body_writer::regions_bytes(q, t, v13_3, c, n) == body_writer::regions_bytes(
        rs,
        t,
        v13_3,
        c,
        n,
    )
}

/// The first `k` parts of two operations ask for the same and have the same
/// bytes.
#[verifier::opaque]
pub open spec fn same_parts(
    op: OpN,
    q: OpN,
    v13_3: bool,
    s: CollectV,
    t: TablesV,
    c: int,
    k: int,
) -> bool {
    let steps = layout::layout(op.opcode, v13_3);
    &&& body_writer::check_steps(q, steps, k) is None
    &&& collect::collect_steps(s, q, v13_3, steps, k) == collect::collect_steps(
        s,
        op,
        v13_3,
        steps,
        k,
    )
    &&& body_writer::steps_consts(q, v13_3, steps, k) == body_writer::steps_consts(
        op,
        v13_3,
        steps,
        k,
    )
    &&& body_writer::steps_bytes(q, t, v13_3, c, steps, k) == body_writer::steps_bytes(
        op,
        t,
        v13_3,
        c,
        steps,
        k,
    )
}

proof fn lemma_no_parts(op: OpN, q: OpN, v13_3: bool, s: CollectV, t: TablesV, c: int)
    ensures
        same_parts(op, q, v13_3, s, t, c, 0),
{
    reveal(same_parts);
}

/// One more part, which is not made of regions.
proof fn lemma_next_plain_part(
    op: OpN,
    t0: TablesV,
    v13_3: bool,
    scope: Option<ScopeV>,
    s: CollectV,
    t: TablesV,
    c: int,
    k: int,
)
    requires
        0 < k <= layout::layout(op.opcode, v13_3).len(),
        !body_writer::is_regions(layout::layout(op.opcode, v13_3)[k - 1]),
        body_writer::check_steps(
            op,
            layout::layout(op.opcode, v13_3),
            layout::layout(op.opcode, v13_3).len() as int,
        ) is None,
        same_parts(
            op,
            body_roundtrip::read_op(op, t0, v13_3, scope),
            v13_3,
            s,
            t,
            c,
            k - 1,
        ),
    ensures
        same_parts(op, body_roundtrip::read_op(op, t0, v13_3, scope), v13_3, s, t, c, k),
{
    reveal(same_parts);
    let steps = layout::layout(op.opcode, v13_3);
    let u = collect::collect_steps(s, op, v13_3, steps, k - 1);
    let at = c + body_writer::steps_consts(op, v13_3, steps, k - 1).len();
    lemma_plain_part_again(op, t0, v13_3, scope, k - 1, u.t, t, at);
}

/// One more part, which is made of regions.
proof fn lemma_next_regions_part(
    op: OpN,
    t0: TablesV,
    v13_3: bool,
    scope: Option<ScopeV>,
    s: CollectV,
    t: TablesV,
    c: int,
    k: int,
)
    requires
        0 < k <= layout::layout(op.opcode, v13_3).len(),
        body_writer::is_regions(layout::layout(op.opcode, v13_3)[k - 1]),
        body_writer::check_steps(op, layout::layout(op.opcode, v13_3), k) is None,
        same_parts(
            op,
            body_roundtrip::read_op(op, t0, v13_3, scope),
            v13_3,
            s,
            t,
            c,
            k - 1,
        ),
        same_regions(
            op.regions,
            body_roundtrip::read_regions(op.regions, t0, v13_3, scope, op.regions.len() as int),
            v13_3,
            collect::collect_steps(s, op, v13_3, layout::layout(op.opcode, v13_3), k - 1),
            t,
            c + body_writer::steps_consts(
                op,
                v13_3,
                layout::layout(op.opcode, v13_3),
                k - 1,
            ).len(),
            op.regions.len() as int,
        ),
    ensures
        same_parts(op, body_roundtrip::read_op(op, t0, v13_3, scope), v13_3, s, t, c, k),
{
    reveal(same_parts);
    reveal(same_regions);
    let steps = layout::layout(op.opcode, v13_3);
    lemma_regions_read(op, t0, v13_3, scope, k - 1, steps.len() as int);
}

/// The parts of an operation that was read.
proof fn lemma_parts_again(
    op: OpN,
    t0: TablesV,
    v13_3: bool,
    scope: Option<ScopeV>,
    s: CollectV,
    t: TablesV,
    c: int,
    k: int,
)
    requires
        0 <= k <= layout::layout(op.opcode, v13_3).len(),
        body_writer::check_steps(
            op,
            layout::layout(op.opcode, v13_3),
            layout::layout(op.opcode, v13_3).len() as int,
        ) is None,
        body_writer::check_regions(op.regions, v13_3, op.regions.len() as int) is None,
        ready(s, scope),
    ensures
        same_parts(op, body_roundtrip::read_op(op, t0, v13_3, scope), v13_3, s, t, c, k),
    decreases op, 0int, k,
{
    let steps = layout::layout(op.opcode, v13_3);
    if k > 0 {
        lemma_parts_again(op, t0, v13_3, scope, s, t, c, k - 1);
        if body_writer::is_regions(steps[k - 1]) {
            let u = collect::collect_steps(s, op, v13_3, steps, k - 1);
            let consts = body_writer::steps_consts(op, v13_3, steps, k - 1);
            body_writer::lemma_check_part(op, steps, k - 1, steps.len() as int);
            body_writer::lemma_check_part(op, steps, k, steps.len() as int);
            collect::lemma_collect_steps(s, op, v13_3, steps, k - 1);
            lemma_ready(s, u, consts, scope);
            lemma_regions_again(
                op.regions,
                t0,
                v13_3,
                scope,
                u,
                t,
                c + consts.len(),
                op.regions.len() as int,
            );
            lemma_next_regions_part(op, t0, v13_3, scope, s, t, c, k);
        } else {
            lemma_next_plain_part(op, t0, v13_3, scope, s, t, c, k);
        }
    } else {
        lemma_no_parts(op, body_roundtrip::read_op(op, t0, v13_3, scope), v13_3, s, t, c);
    }
}

/// An operation that was read asks for the same and has the same bytes.
proof fn lemma_op_again(
    op: OpN,
    t0: TablesV,
    v13_3: bool,
    scope: Option<ScopeV>,
    s: CollectV,
    t: TablesV,
    c: int,
)
    requires
        body_writer::check_op(op, v13_3) is None,
        ready(s, scope),
    ensures
        same_op(op, body_roundtrip::read_op(op, t0, v13_3, scope), v13_3, s, t, c),
    decreases op, 1int, 0int,
{
    let steps = layout::layout(op.opcode, v13_3);
    let q = body_roundtrip::read_op(op, t0, v13_3, scope);
    let u = collect::record_location(s, op.location);
    collect::lemma_record_location(s, op.location);
    lemma_ready(s, u, seq![], scope);
    lemma_parts_again(op, t0, v13_3, scope, u, t, c, steps.len() as int);
    lemma_checked_again(op, t0, v13_3, scope, s, t, c);
    assert(collect::record_location(s, q.location) == u) by {
        again::lemma_location_again(collect::pool(s), s.scope, scope, op.location);
    }
    reveal(same_parts);
    reveal(same_op);
}

/// The regions of an operation that was read can be written.
proof fn lemma_checked_again(
    op: OpN,
    t0: TablesV,
    v13_3: bool,
    scope: Option<ScopeV>,
    s: CollectV,
    t: TablesV,
    c: int,
)
    requires
        body_writer::check_op(op, v13_3) is None,
        ready(s, scope),
    ensures
        ({
            let rs = body_roundtrip::read_op(op, t0, v13_3, scope).regions;
            body_writer::check_regions(rs, v13_3, rs.len() as int) is None
        }),
    decreases op, 0int, 0int,
{
    let steps = layout::layout(op.opcode, v13_3);
    lemma_regions_again(op.regions, t0, v13_3, scope, s, t, c, op.regions.len() as int);
    reveal(same_regions);
    lemma_some_regions(op, t0, v13_3, scope, steps.len() as int);
}

/// The regions that are read back are all of them or none.
proof fn lemma_some_regions(op: OpN, t0: TablesV, v13_3: bool, scope: Option<ScopeV>, k: int)
    requires
        0 <= k <= layout::layout(op.opcode, v13_3).len(),
    ensures
        ({
            let rs = read_part(op, t0, v13_3, scope, k).regions;
            rs == body_roundtrip::read_regions(op.regions, t0, v13_3, scope, op.regions.len() as int)
                || rs.len() == 0
        }),
    decreases k,
{
    if k > 0 {
        lemma_some_regions(op, t0, v13_3, scope, k - 1);
    }
}

proof fn lemma_next_op(
    ops: Seq<OpN>,
    q: Seq<OpN>,
    v13_3: bool,
    s: CollectV,
    t: TablesV,
    c: int,
    n: int,
)
    requires
        0 < n <= ops.len(),
        same_ops(ops, q, v13_3, s, t, c, n - 1),
        same_op(
            ops[n - 1],
            q[n - 1],
            v13_3,
            collect::collect_ops(s, ops, v13_3, n - 1),
            t,
            c + body_writer::ops_consts(ops, v13_3, n - 1).len(),
        ),
    ensures
        same_ops(ops, q, v13_3, s, t, c, n),
{
    reveal(same_ops);
    reveal(same_op);
}

/// Operations that were read ask for the same and have the same bytes.
pub proof fn lemma_ops_again(
    ops: Seq<OpN>,
    t0: TablesV,
    v13_3: bool,
    scope: Option<ScopeV>,
    s: CollectV,
    t: TablesV,
    c: int,
    n: int,
)
    requires
        0 <= n <= ops.len(),
        body_writer::check_ops(ops, v13_3, n) is None,
        ready(s, scope),
    ensures
        same_ops(
            ops,
            body_roundtrip::read_ops(ops, t0, v13_3, scope, ops.len() as int),
            v13_3,
            s,
            t,
            c,
            n,
        ),
    decreases ops, 0int, n,
{
    let q = body_roundtrip::read_ops(ops, t0, v13_3, scope, ops.len() as int);
    lemma_read_ops(ops, t0, v13_3, scope, ops.len() as int);
    if n > 0 {
        lemma_ops_again(ops, t0, v13_3, scope, s, t, c, n - 1);
        let u = collect::collect_ops(s, ops, v13_3, n - 1);
        let consts = body_writer::ops_consts(ops, v13_3, n - 1);
        collect::lemma_collect_ops(s, ops, v13_3, n - 1);
        lemma_ready(s, u, consts, scope);
        lemma_op_again(ops[n - 1], t0, v13_3, scope, u, t, c + consts.len());
        assert(q[n - 1] == body_roundtrip::read_op(ops[n - 1], t0, v13_3, scope));
        lemma_next_op(ops, q, v13_3, s, t, c, n);
    } else {
        reveal(same_ops);
    }
}

proof fn lemma_next_block(
    bs: Seq<BlockN>,
    q: Seq<BlockN>,
    v13_3: bool,
    s: CollectV,
    t: TablesV,
    c: int,
    n: int,
)
    requires
        0 < n <= bs.len(),
        same_blocks(bs, q, v13_3, s, t, c, n - 1),
        q[n - 1].arg_types == bs[n - 1].arg_types,
        same_ops(
            bs[n - 1].ops,
            q[n - 1].ops,
            v13_3,
            block_start(s, bs, v13_3, n),
            t,
            c + body_writer::blocks_consts(bs, v13_3, n - 1).len(),
            bs[n - 1].ops.len() as int,
        ),
    ensures
        same_blocks(bs, q, v13_3, s, t, c, n),
{
    reveal(same_blocks);
    reveal(same_ops);
    let at = c + body_writer::blocks_consts(bs, v13_3, n - 1).len();
    assert(body_writer::block_bytes(q[n - 1], t, v13_3, at) == body_writer::block_bytes(
        bs[n - 1],
        t,
        v13_3,
        at,
    ));
}

/// What has been collected when the operations of block `n - 1` start.
spec fn block_start(s: CollectV, bs: Seq<BlockN>, v13_3: bool, n: int) -> CollectV {
    let u = collect::collect_blocks(s, bs, v13_3, n - 1);
    CollectV { t: collect::with_types(u.t, bs[n - 1].arg_types), ..u }
}

proof fn lemma_block_start(
    s: CollectV,
    bs: Seq<BlockN>,
    v13_3: bool,
    scope: Option<ScopeV>,
    n: int,
)
    requires
        0 < n <= bs.len(),
        ready(s, scope),
        body_writer::check_blocks(bs, v13_3, n - 1) is None,
    ensures
        ready(block_start(s, bs, v13_3, n), scope),
{
    let u = collect::collect_blocks(s, bs, v13_3, n - 1);
    let w = block_start(s, bs, v13_3, n);
    collect::lemma_collect_blocks(s, bs, v13_3, n - 1);
    lemma_ready(s, u, body_writer::blocks_consts(bs, v13_3, n - 1), scope);
    collect::lemma_with_types(u.t, bs[n - 1].arg_types);
    assert(u.t.constants + seq![] =~= u.t.constants);
    collect::lemma_table_step(u, w.t, seq![]);
    lemma_ready(u, w, seq![], scope);
}

proof fn lemma_blocks_again(
    bs: Seq<BlockN>,
    t0: TablesV,
    v13_3: bool,
    scope: Option<ScopeV>,
    s: CollectV,
    t: TablesV,
    c: int,
    n: int,
)
    requires
        0 <= n <= bs.len(),
        body_writer::check_blocks(bs, v13_3, n) is None,
        ready(s, scope),
    ensures
        same_blocks(
            bs,
            body_roundtrip::read_blocks(bs, t0, v13_3, scope, bs.len() as int),
            v13_3,
            s,
            t,
            c,
            n,
        ),
    decreases bs, 0int, n,
{
    let q = body_roundtrip::read_blocks(bs, t0, v13_3, scope, bs.len() as int);
    lemma_read_blocks(bs, t0, v13_3, scope, bs.len() as int);
    if n > 0 {
        let b = bs[n - 1];
        lemma_blocks_again(bs, t0, v13_3, scope, s, t, c, n - 1);
        lemma_block_start(s, bs, v13_3, scope, n);
        lemma_ops_again(
            b.ops,
            t0,
            v13_3,
            scope,
            block_start(s, bs, v13_3, n),
            t,
            c + body_writer::blocks_consts(bs, v13_3, n - 1).len(),
            b.ops.len() as int,
        );
        assert(q[n - 1] == body_roundtrip::read_block(b, t0, v13_3, scope));
        lemma_next_block(bs, q, v13_3, s, t, c, n);
    } else {
        reveal(same_blocks);
    }
}

proof fn lemma_next_region(
    rs: Seq<Seq<BlockN>>,
    q: Seq<Seq<BlockN>>,
    v13_3: bool,
    s: CollectV,
    t: TablesV,
    c: int,
    n: int,
)
    requires
        0 < n <= rs.len(),
        same_regions(rs, q, v13_3, s, t, c, n - 1),
        same_blocks(
            rs[n - 1],
            q[n - 1],
            v13_3,
            collect::collect_regions(s, rs, v13_3, n - 1),
            t,
            c + body_writer::regions_consts(rs, v13_3, n - 1).len(),
            rs[n - 1].len() as int,
        ),
    ensures
        same_regions(rs, q, v13_3, s, t, c, n),
{
    reveal(same_regions);
    reveal(same_blocks);
}

proof fn lemma_regions_again(
    rs: Seq<Seq<BlockN>>,
    t0: TablesV,
    v13_3: bool,
    scope: Option<ScopeV>,
    s: CollectV,
    t: TablesV,
    c: int,
    n: int,
)
    requires
        0 <= n <= rs.len(),
        body_writer::check_regions(rs, v13_3, n) is None,
        ready(s, scope),
    ensures
        same_regions(
            rs,
            body_roundtrip::read_regions(rs, t0, v13_3, scope, rs.len() as int),
            v13_3,
            s,
            t,
            c,
            n,
        ),
    decreases rs, 0int, n,
{
    let q = body_roundtrip::read_regions(rs, t0, v13_3, scope, rs.len() as int);
    lemma_read_regions(rs, t0, v13_3, scope, rs.len() as int);
    if n > 0 {
        lemma_regions_again(rs, t0, v13_3, scope, s, t, c, n - 1);
        let u = collect::collect_regions(s, rs, v13_3, n - 1);
        let consts = body_writer::regions_consts(rs, v13_3, n - 1);
        collect::lemma_collect_regions(s, rs, v13_3, n - 1);
        lemma_ready(s, u, consts, scope);
        lemma_blocks_again(
            rs[n - 1],
            t0,
            v13_3,
            scope,
            u,
            t,
            c + consts.len(),
            rs[n - 1].len() as int,
        );
        assert(q[n - 1] == body_roundtrip::read_blocks(
            rs[n - 1],
            t0,
            v13_3,
            scope,
            rs[n - 1].len() as int,
        ));
        lemma_next_region(rs, q, v13_3, s, t, c, n);
    } else {
        reveal(same_regions);
    }
}

// ---------------------------------------------------------------------------
// Scoping
// ---------------------------------------------------------------------------

/// The operands that are read back are operands of the operation.
proof fn lemma_operands_scoped(
    op: OpN,
    t0: TablesV,
    v13_3: bool,
    scope: Option<ScopeV>,
    next: int,
    k: int,
)
    requires
        0 <= k <= layout::layout(op.opcode, v13_3).len(),
        body_writer::check_steps(op, layout::layout(op.opcode, v13_3), k) is None,
        forall|i: int| 0 <= i < op.operands.len() ==> #[trigger] op.operands[i] < next,
    ensures
        forall|i: int|
            0 <= i < read_part(op, t0, v13_3, scope, k).operands.len() ==> #[trigger] read_part(
                op,
                t0,
                v13_3,
                scope,
                k,
            ).operands[i] < next,
    decreases k,
{
    let steps = layout::layout(op.opcode, v13_3);
    if k > 0 {
        lemma_operands_scoped(op, t0, v13_3, scope, next, k - 1);
        let b = read_part(op, t0, v13_3, scope, k - 1);
        let g = body_writer::groups_before(steps, k - 1);
        if body_writer::is_group(steps[k - 1]) {
            lemma_starts_counted(op, steps, k - 1);
            let s = body_writer::group_operands(op, g);
            assert forall|i: int| 0 <= i < s.len() implies #[trigger] s[i] < next by {
                assert(s[i] == op.operands[body_writer::group_start(op, g) + i]);
            }
        } else if !body_writer::is_regions(steps[k - 1]) && !body::is_value_step(steps[k - 1]) {
            assert(body_roundtrip::read_attr_step(op, t0, steps[k - 1], b).operands == b.operands);
        }
    }
}

/// Groups that can be written start behind the operands in front of them.
proof fn lemma_starts_counted(op: OpN, steps: Seq<Step>, k: int)
    requires
        k >= 0,
        body_writer::check_steps(op, steps, k) is None,
    ensures
        body_writer::group_start(op, body_writer::groups_before(steps, k)) >= 0,
        body_writer::groups_before(steps, k) >= 0,
    decreases k,
{
    if k > 0 {
        lemma_starts_counted(op, steps, k - 1);
        let g = body_writer::groups_before(steps, k - 1);
        if body_writer::is_group(steps[k - 1]) {
            assert(body_writer::group_start(op, g + 1) == body_writer::group_start(op, g)
                + body_writer::group_size(op, g));
        }
    }
}

/// An operation that was read refers to values that are defined.
proof fn lemma_op_scoped(op: OpN, t0: TablesV, v13_3: bool, scope: Option<ScopeV>, next: int)
    requires
        body_writer::check_op(op, v13_3) is None,
        body_roundtrip::scoped_op(op, next),
    ensures
        body_roundtrip::scoped_op(body_roundtrip::read_op(op, t0, v13_3, scope), next),
        body_roundtrip::read_op(op, t0, v13_3, scope).result_types == op.result_types,
    decreases op, 1int,
{
    let steps = layout::layout(op.opcode, v13_3);
    let q = body_roundtrip::read_op(op, t0, v13_3, scope);
    let n = steps.len() as int;
    flags::lemma_layout(op.opcode, v13_3);
    lemma_results_read(op, t0, v13_3, scope, n);
    lemma_operands_scoped(op, t0, v13_3, scope, next, n);
    lemma_some_regions(op, t0, v13_3, scope, n);
    lemma_regions_scoped(op.regions, t0, v13_3, scope, next, op.regions.len() as int);
    lemma_read_regions(op.regions, t0, v13_3, scope, op.regions.len() as int);
    assert(q.operands == read_part(op, t0, v13_3, scope, n).operands);
    assert(body_roundtrip::scoped_regions(q.regions, next, q.regions.len() as int));
}

/// Operations that were read refer to values that are defined.
pub proof fn lemma_ops_scoped(
    ops: Seq<OpN>,
    t0: TablesV,
    v13_3: bool,
    scope: Option<ScopeV>,
    next: int,
    n: int,
)
    requires
        0 <= n <= ops.len(),
        body_writer::check_ops(ops, v13_3, n) is None,
        body_roundtrip::scoped_ops(ops, next, n),
    ensures
        ({
            let q = body_roundtrip::read_ops(ops, t0, v13_3, scope, ops.len() as int);
            &&& q.len() == ops.len()
            &&& body_roundtrip::scoped_ops(q, next, n)
            &&& body_roundtrip::next_after(q, next, n) == body_roundtrip::next_after(ops, next, n)
        }),
    decreases ops, n,
{
    let q = body_roundtrip::read_ops(ops, t0, v13_3, scope, ops.len() as int);
    lemma_read_ops(ops, t0, v13_3, scope, ops.len() as int);
    if n > 0 {
        lemma_ops_scoped(ops, t0, v13_3, scope, next, n - 1);
        assert(q[n - 1] == body_roundtrip::read_op(ops[n - 1], t0, v13_3, scope));
        lemma_op_scoped(
            ops[n - 1],
            t0,
            v13_3,
            scope,
            body_roundtrip::next_after(ops, next, n - 1),
        );
    }
}

proof fn lemma_blocks_scoped(
    bs: Seq<BlockN>,
    t0: TablesV,
    v13_3: bool,
    scope: Option<ScopeV>,
    next: int,
    n: int,
)
    requires
        0 <= n <= bs.len(),
        body_writer::check_blocks(bs, v13_3, n) is None,
        body_roundtrip::scoped_blocks(bs, next, n),
    ensures
        body_roundtrip::scoped_blocks(
            body_roundtrip::read_blocks(bs, t0, v13_3, scope, bs.len() as int),
            next,
            n,
        ),
    decreases bs, n,
{
    let q = body_roundtrip::read_blocks(bs, t0, v13_3, scope, bs.len() as int);
    lemma_read_blocks(bs, t0, v13_3, scope, bs.len() as int);
    if n > 0 {
        let b = bs[n - 1];
        lemma_blocks_scoped(bs, t0, v13_3, scope, next, n - 1);
        assert(q[n - 1] == body_roundtrip::read_block(b, t0, v13_3, scope));
        lemma_ops_scoped(
            b.ops,
            t0,
            v13_3,
            scope,
            next + b.arg_types.len(),
            b.ops.len() as int,
        );
    }
}

proof fn lemma_regions_scoped(
    rs: Seq<Seq<BlockN>>,
    t0: TablesV,
    v13_3: bool,
    scope: Option<ScopeV>,
    next: int,
    n: int,
)
    requires
        0 <= n <= rs.len(),
        body_writer::check_regions(rs, v13_3, n) is None,
        body_roundtrip::scoped_regions(rs, next, n),
    ensures
        body_roundtrip::scoped_regions(
            body_roundtrip::read_regions(rs, t0, v13_3, scope, rs.len() as int),
            next,
            n,
        ),
    decreases rs, n,
{
    let q = body_roundtrip::read_regions(rs, t0, v13_3, scope, rs.len() as int);
    lemma_read_regions(rs, t0, v13_3, scope, rs.len() as int);
    if n > 0 {
        lemma_regions_scoped(rs, t0, v13_3, scope, next, n - 1);
        lemma_blocks_scoped(rs[n - 1], t0, v13_3, scope, next, rs[n - 1].len() as int);
        lemma_read_blocks(rs[n - 1], t0, v13_3, scope, rs[n - 1].len() as int);
        assert(q[n - 1] == body_roundtrip::read_blocks(
            rs[n - 1],
            t0,
            v13_3,
            scope,
            rs[n - 1].len() as int,
        ));
    }
}

} // verus!
