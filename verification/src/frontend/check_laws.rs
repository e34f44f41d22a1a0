//! What launch checks mean: the comparisons that a placed obligation leaves to the
//! launch are enough for it, and no stricter.
use vstd::prelude::*;
use crate::frontend::obligations::{Atom, KernelParams, LaunchCheck, Predicate, Resolution};
use crate::frontend::obligations;

verus! {

/// The extents of a launch: of whole tensors, and of the pieces that work items see, by
/// parameter and axis.
pub struct Extents {
    pub dim: spec_fn(usize, usize) -> int,
    pub view: spec_fn(usize, usize) -> int,
}

/// How many tiles of a size an extent takes, the last of which may be partial.
pub open spec fn tiles(extent: int, tile: int) -> int {
    (extent + tile - 1) / tile
}

/// The number that an atom stands for at a launch.
pub open spec fn value(a: Atom, x: Extents) -> int {
    match a {
        Atom::Dim { param, axis } => (x.dim)(param, axis),
        Atom::TileCount { param, axis, tile } => tiles((x.dim)(param, axis), tile as int),
        Atom::ViewExtent { param, axis } => (x.view)(param, axis),
    }
}

/// Whether a predicate is true of a launch.
pub open spec fn holds(p: Predicate, x: Extents) -> bool {
    match p {
        Predicate::Equal(a, b) => value(a, x) == value(b, x),
        Predicate::AtMost(a, b) => value(a, x) <= value(b, x),
    }
}

/// Whether a launch passes every check.
pub open spec fn passes(checks: Seq<LaunchCheck>, x: Extents) -> bool {
    forall|i: int| 0 <= i < checks.len() ==> holds((#[trigger] checks[i]).predicate, x)
}

/// What is settled while compiling is true of a launch.
pub open spec fn settles_truly<F: Fn(Predicate) -> Resolution>(resolve: F, x: Extents) -> bool {
    forall|p: Predicate, r: Resolution| #[trigger]
        call_ensures(resolve, (p,), r) && r == Resolution::Jit ==> holds(p, x)
}

/// Every tile of one axis is a tile of another: an index that stays below the number of
/// tiles of the first stays below that of the second.
pub open spec fn walk_inside(p: usize, a_axis: usize, q: usize, b_axis: usize, tile: int, x: Extents) -> bool {
    forall|i: int|
        0 <= i < tiles((x.dim)(p, a_axis), tile) ==> #[trigger] within(
            i,
            tiles((x.dim)(q, b_axis), tile),
        )
}

/// An index is below a bound.
pub open spec fn within(i: int, bound: int) -> bool {
    0 <= i < bound
}

/// Predicates that come down to the same comparison are true of the same launches.
pub proof fn lemma_same_compare(p: Predicate, q: Predicate, x: Extents)
    requires
        obligations::same_compare(p, q),
    ensures
        holds(p, x) == holds(q, x),
{
}

/// What was placed is true of every launch that passes the checks, as long as what was
/// settled while compiling is. Checks that were there stay, and where the predicate is
/// true no check is failed that passed before.
pub proof fn lemma_placed(
    before: Seq<LaunchCheck>,
    p: Predicate,
    cause: Seq<char>,
    r: Resolution,
    placed: bool,
    after: Seq<LaunchCheck>,
    x: Extents,
)
    requires
        obligations::lowered(before, p, cause, r, placed, after),
        r == Resolution::Jit ==> holds(p, x),
    ensures
        placed && passes(after, x) ==> holds(p, x),
        passes(after, x) ==> passes(before, x),
        passes(before, x) && holds(p, x) ==> passes(after, x),
        placed <==> r != Resolution::Device,
        r != Resolution::Launch ==> after == before,
{
    if r == Resolution::Launch {
        if obligations::checked(before, p) {
            let i = choose|i: int|
                0 <= i < before.len() && obligations::same_compare(
                    #[trigger] before[i].predicate,
                    p,
                );
            lemma_same_compare(before[i].predicate, p, x);
        } else {
            assert(after[before.len() as int].predicate == p);
            assert forall|i: int| 0 <= i < before.len() implies after[i] == #[trigger] before[i] by {
                assert(after.drop_last()[i] == before[i]);
            }
            if passes(after, x) {
                assert forall|i: int| 0 <= i < before.len() implies holds(
                    (#[trigger] before[i]).predicate,
                    x,
                ) by {
                    assert(holds(after[i].predicate, x));
                }
            }
            if passes(before, x) && holds(p, x) {
                assert forall|i: int| 0 <= i < after.len() implies holds(
                    (#[trigger] after[i]).predicate,
                    x,
                ) by {
                    if i < before.len() {
                        assert(holds(before[i].predicate, x));
                    }
                }
            }
        }
    }
}

/// The comparison of extents says that the axes are equally long.
pub proof fn lemma_equal_extents(
    params: KernelParams,
    a: Seq<char>,
    a_axis: usize,
    b: Seq<char>,
    b_axis: usize,
    x: Extents,
)
    ensures
        match params.equal_extents(a, a_axis, b, b_axis) {
            Some(p) => {
                &&& params.index_of(a) is Some
                &&& params.index_of(b) is Some
                &&& holds(p, x) <==> (x.dim)(params.index_of(a)->Some_0, a_axis) == (x.dim)(
                    params.index_of(b)->Some_0,
                    b_axis,
                )
            },
            None => params.index_of(a) is None || params.index_of(b) is None,
        },
{
}

/// The comparison of numbers of tiles is true exactly where every tile of the first axis
/// is a tile of the second.
pub proof fn lemma_fewer_tiles(
    params: KernelParams,
    a: Seq<char>,
    a_axis: usize,
    b: Seq<char>,
    b_axis: usize,
    tile: i32,
    x: Extents,
)
    requires
        tile >= 1,
        params.index_of(a) is Some,
        params.index_of(b) is Some,
        (x.dim)(params.index_of(a)->Some_0, a_axis) >= 0,
        (x.dim)(params.index_of(b)->Some_0, b_axis) >= 0,
    ensures
        params.fewer_tiles(a, a_axis, b, b_axis, tile) matches Some(p) && (holds(p, x)
            <==> walk_inside(
            params.index_of(a)->Some_0,
            a_axis,
            params.index_of(b)->Some_0,
            b_axis,
            tile as int,
            x,
        )),
{
    let m = tiles((x.dim)(params.index_of(a)->Some_0, a_axis), tile as int);
    let n = tiles((x.dim)(params.index_of(b)->Some_0, b_axis), tile as int);
    vstd::arithmetic::div_mod::lemma_div_pos_is_pos(
        (x.dim)(params.index_of(b)->Some_0, b_axis) + tile - 1,
        tile as int,
    );
    if m > n {
        assert(!within(m - 1, n));
    }
}

/// Equal extents take equally many tiles.
proof fn lemma_equal_walk(p: usize, a_axis: usize, q: usize, b_axis: usize, tile: int, x: Extents)
    requires
        (x.dim)(p, a_axis) == (x.dim)(q, b_axis),
    ensures
        walk_inside(p, a_axis, q, b_axis, tile, x),
{
}

/// A placed bound keeps the walk inside: at every launch that passes the checks, an index
/// drawn from the tiles of the first axis is one of the tiles of the second.
pub proof fn lemma_walk_sound<F: Fn(Predicate) -> Resolution>(
    params: KernelParams,
    relocate: bool,
    a: Seq<char>,
    a_axis: usize,
    b: Seq<char>,
    b_axis: usize,
    tile: i32,
    resolve: F,
    before: Seq<LaunchCheck>,
    placed: bool,
    after: Seq<LaunchCheck>,
    x: Extents,
)
    requires
        obligations::bound_placed(
            params,
            relocate,
            a,
            a_axis,
            b,
            b_axis,
            tile,
            resolve,
            before,
            placed,
            after,
        ),
        settles_truly(resolve, x),
        placed,
        passes(after, x),
    ensures
        params.index_of(a) is Some,
        params.index_of(b) is Some,
        walk_inside(
            params.index_of(a)->Some_0,
            a_axis,
            params.index_of(b)->Some_0,
            b_axis,
            tile as int,
            x,
        ),
{
    let p = params.index_of(a)->Some_0;
    let q = params.index_of(b)->Some_0;
    let eq = params.equal_extents(a, a_axis, b, b_axis)->Some_0;
    let e = choose|e: Resolution| #[trigger]
        call_ensures(resolve, (eq,), e) && if e == Resolution::Jit {
            placed && after == before
        } else if !relocate || tile < 1 {
            !placed && after == before
        } else {
            let le = params.fewer_tiles(a, a_axis, b, b_axis, tile)->Some_0;
            exists|r: Resolution| #[trigger]
                call_ensures(resolve, (le,), r) && obligations::lowered(
                    before,
                    le,
                    obligations::le_cause(a, a_axis, b, b_axis, tile),
                    r,
                    placed,
                    after,
                )
        };
    if e == Resolution::Jit {
        assert(holds(eq, x));
        lemma_equal_walk(p, a_axis, q, b_axis, tile as int, x);
    } else {
        let le = params.fewer_tiles(a, a_axis, b, b_axis, tile)->Some_0;
        let r = choose|r: Resolution| #[trigger]
            call_ensures(resolve, (le,), r) && obligations::lowered(
                before,
                le,
                obligations::le_cause(a, a_axis, b, b_axis, tile),
                r,
                placed,
                after,
            );
        lemma_placed(before, le, obligations::le_cause(a, a_axis, b, b_axis, tile), r, placed, after, x);
        assert(holds(le, x));
        assert(tiles((x.dim)(p, a_axis), tile as int) <= tiles((x.dim)(q, b_axis), tile as int));
    }
}

/// A parameter is found by its name: the last that has it.
pub proof fn lemma_index(params: KernelParams, name: Seq<char>)
    ensures
        match params.index_of(name) {
            Some(i) => {
                &&& i < params.names@.len()
                &&& params.names@[i as int] matches Some(s) && s@ == name
                &&& forall|j: int|
                    i < j < params.names@.len() ==> !((#[trigger] params.names@[j]) matches Some(s)
                        && s@ == name)
            },
            None => forall|j: int|
                0 <= j < params.names@.len() ==> !((#[trigger] params.names@[j]) matches Some(s)
                    && s@ == name),
        },
{
    assert(params.names.len() == params.names@.len());
    lemma_position(params.names@, name, params.names@.len() as int);
}

proof fn lemma_position(names: Seq<Option<String>>, name: Seq<char>, n: int)
    requires
        0 <= n <= names.len() <= usize::MAX,
    ensures
        match obligations::position(names, name, n) {
            Some(i) => {
                &&& i < n
                &&& names[i as int] matches Some(s) && s@ == name
                &&& forall|j: int| i < j < n ==> !((#[trigger] names[j]) matches Some(s) && s@ == name)
            },
            None => forall|j: int| 0 <= j < n ==> !((#[trigger] names[j]) matches Some(s) && s@ == name),
        },
    decreases n,
{
    if n > 0 {
        lemma_position(names, name, n - 1);
    }
}

/// The extent of a partition's axis is one that the signature writes out.
pub proof fn lemma_declared(
    params: KernelParams,
    name: Seq<char>,
    dim_map: Seq<i32>,
    axis: int,
    p: usize,
    shape: Vec<i32>,
)
    requires
        params.index_of(name) == Some(p),
        p < params.shapes@.len(),
        params.shapes@[p as int] == Some(shape),
        0 <= axis < dim_map.len(),
        0 <= dim_map[axis] < shape@.len(),
    ensures
        params.declared(Some(name), dim_map, axis) == (if shape@[dim_map[axis] as int] < 0 {
            None
        } else {
            Some(shape@[dim_map[axis] as int])
        }),
{
}

} // verus!
