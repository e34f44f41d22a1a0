//! Where safety checks go: settled while compiling, moved to the launch, or
//! left in the kernel.
use vstd::prelude::*;
use crate::frontend::check_laws::Extents;
use crate::frontend::check_laws;
use crate::text::{number_text, same_text};
use crate::text;

verus! {

/// A number that the host knows before the launch.
#[derive(Clone, Copy, Debug, PartialEq, Eq, Structural)]
pub enum Atom {
    /// The extent of a whole tensor.
    Dim { param: usize, axis: usize },
    /// How many tiles an extent takes.
    TileCount { param: usize, axis: usize, tile: i32 },
    /// The extent of the piece that a work item sees.
    ViewExtent { param: usize, axis: usize },
}

/// What has to hold.
#[derive(Clone, Copy, Debug, PartialEq, Eq, Structural)]
pub enum Predicate {
    Equal(Atom, Atom),
    AtMost(Atom, Atom),
}

/// A check that the host makes at each launch.
#[derive(Debug)]
pub struct LaunchCheck {
    pub predicate: Predicate,
    pub cause: String,
}

/// Where an obligation was resolved.
#[derive(Clone, Copy, Debug, PartialEq, Eq, Structural)]
pub enum Resolution {
    /// Settled while compiling.
    Jit,
    /// To be checked at the launch.
    Launch,
    /// To be checked in the kernel.
    Device,
}

/// Counts of where bounds checks ended up.
#[derive(Clone, Copy, Debug, PartialEq, Eq, Structural)]
pub struct CheckHoistStats {
    pub discharged: u32,
    pub hoisted: u32,
    pub in_place: u32,
}

impl Default for CheckHoistStats {
    fn default() -> (s: CheckHoistStats)
        ensures
            s == (CheckHoistStats { discharged: 0, hoisted: 0, in_place: 0 }),
    {
        CheckHoistStats { discharged: 0, hoisted: 0, in_place: 0 }
    }
}

/// What the rules know of a kernel's parameters.
pub struct KernelParams {
    /// The parameters' names; one that is not a plain name has none.
    pub names: Vec<Option<String>>,
    /// Whether each is mutable.
    pub is_mutable: Vec<bool>,
    /// The declared shape of each that is a tensor.
    pub shapes: Vec<Option<Vec<i32>>>,
}

/// Whether a parameter has this name.
pub open spec fn named(p: Option<String>, name: Seq<char>) -> bool {
    match p {
        Some(s) => s@ == name,
        None => false,
    }
}

/// The last of the first `n` parameters with this name.
pub open spec fn position(names: Seq<Option<String>>, name: Seq<char>, n: int) -> Option<usize>
    decreases n,
{
    if n <= 0 {
        None
    } else if named(names[n - 1], name) {
        Some((n - 1) as usize)
    } else {
        position(names, name, n - 1)
    }
}

impl KernelParams {
    /// The position of the parameter with a name.
    pub open spec fn index_of(&self, name: Seq<char>) -> Option<usize> {
        position(self.names@, name, self.names@.len() as int)
    }

    /// The position of the parameter with a name.
    pub fn param_index(&self, name: &str) -> (r: Option<usize>)
        ensures
            r == self.index_of(name@),
    {
        let mut i: usize = self.names.len();
        while i > 0
            invariant
                i <= self.names@.len(),
                self.index_of(name@) == position(self.names@, name@, i as int),
            decreases i,
        {
            match &self.names[i - 1] {
                Some(s) => {
                    if same_text(s.as_str(), name) {
                        return Some(i - 1);
                    }
                },
                None => {},
            }
            i = i - 1;
        }
        None
    }

    /// Whether a parameter is mutable; one that is not there is taken to be.
    pub open spec fn mutable(&self, param: usize) -> bool {
        param < self.is_mutable@.len() ==> self.is_mutable@[param as int]
    }

    /// A parameter's extent as the kernel sees it: the whole tensor's, or that
    /// of the piece where the parameter is mutable.
    pub open spec fn extent(&self, param: usize, axis: usize) -> Atom {
        if self.mutable(param) {
            Atom::ViewExtent { param, axis }
        } else {
            Atom::Dim { param, axis }
        }
    }

    /// A parameter's extent as the kernel sees it.
    pub fn extent_atom(&self, param: usize, axis: usize) -> (a: Atom)
        ensures
            a == self.extent(param, axis),
    {
        if param >= self.is_mutable.len() || self.is_mutable[param] {
            Atom::ViewExtent { param, axis }
        } else {
            Atom::Dim { param, axis }
        }
    }

    /// The position of a tensor parameter that the kernel sees whole: only of
    /// those do declared facts speak.
    pub fn root_framed_param(&self, tensor: &str) -> (r: Option<usize>)
        ensures
            r == (match self.index_of(tensor@) {
                Some(p) => if self.mutable(p) {
                    None
                } else {
                    Some(p)
                },
                None => None,
            }),
    {
        match self.param_index(tensor) {
            Some(p) => match self.extent_atom(p, 0) {
                Atom::Dim { .. } => Some(p),
                _ => None,
            },
            None => None,
        }
    }

    /// The extent that a partition's axis has by the declared shape of the
    /// tensor that it comes from: none where the axis is not mapped, the tensor
    /// is not a parameter, or the shape leaves it open.
    pub open spec fn declared(&self, origin: Option<Seq<char>>, dim_map: Seq<i32>, axis: int) -> Option<
        i32,
    > {
        if 0 <= axis < dim_map.len() && dim_map[axis] >= 0 {
            match origin {
                Some(name) => match self.index_of(name) {
                    Some(p) => if p < self.shapes@.len() {
                        match self.shapes@[p as int] {
                            Some(shape) => if dim_map[axis] < shape@.len()
                                && shape@[dim_map[axis] as int] >= 0 {
                                Some(shape@[dim_map[axis] as int])
                            } else {
                                None
                            },
                            None => None,
                        }
                    } else {
                        None
                    },
                    None => None,
                },
                None => None,
            }
        } else {
            None
        }
    }

    /// The extent that a partition's axis has by the declared shape of the
    /// tensor that it comes from.
    pub fn declared_view_extent(&self, origin: Option<&str>, dim_map: &Vec<i32>, axis: usize) -> (r:
        Option<i32>)
        ensures
            r == self.declared(
                match origin {
                    Some(s) => Some(s@),
                    None => None,
                },
                dim_map@,
                axis as int,
            ),
    {
        if axis >= dim_map.len() || dim_map[axis] < 0 {
            return None;
        }
        let tensor_axis: usize = dim_map[axis] as usize;
        let name = match origin {
            Some(name) => name,
            None => {
                return None;
            },
        };
        let p: usize = match self.param_index(name) {
            Some(p) => p,
            None => {
                return None;
            },
        };
        if p >= self.shapes.len() {
            return None;
        }
        match &self.shapes[p] {
            Some(shape) => {
                if tensor_axis < shape.len() && shape[tensor_axis] >= 0 {
                    Some(shape[tensor_axis])
                } else {
                    None
                }
            },
            None => None,
        }
    }

    /// What the axes of a parameter's shape are called: one that has a name
    /// keeps it, the others are the parameter's extents.
    pub fn label_param_extents(&self, origin: Option<&str>, dims: &mut Vec<Option<Atom>>)
        ensures
            final(dims)@.len() == old(dims)@.len(),
            match origin {
                None => final(dims)@ == old(dims)@,
                Some(name) => match self.index_of(name@) {
                    None => final(dims)@ == old(dims)@,
                    Some(p) => forall|i: int|
                        0 <= i < old(dims)@.len() ==> #[trigger] final(dims)@[i] == (
                        match old(dims)@[i] {
                            Some(a) => Some(a),
                            None => Some(self.extent(p, i as usize)),
                        }),
                },
            },
    {
        let name = match origin {
            Some(name) => name,
            None => {
                return ;
            },
        };
        let p: usize = match self.param_index(name) {
            Some(p) => p,
            None => {
                return ;
            },
        };
        let ghost before = dims@;
        let n: usize = dims.len();
        let mut i: usize = 0;
        while i < n
            invariant
                n == before.len(),
                dims@.len() == n,
                i <= n,
                forall|j: int|
                    0 <= j < i ==> #[trigger] dims@[j] == (match before[j] {
                        Some(a) => Some(a),
                        None => Some(self.extent(p, j as usize)),
                    }),
                forall|j: int| i <= j < n ==> #[trigger] dims@[j] == before[j],
            decreases n - i,
        {
            if dims[i].is_none() {
                dims.set(i, Some(self.extent_atom(p, i)));
            }
            i = i + 1;
        }
    }

    /// That two extents are equal, where both belong to parameters.
    pub open spec fn equal_extents(
        &self,
        a: Seq<char>,
        a_axis: usize,
        b: Seq<char>,
        b_axis: usize,
    ) -> Option<Predicate> {
        match (self.index_of(a), self.index_of(b)) {
            (Some(p), Some(q)) => Some(
                Predicate::Equal(
                    Atom::Dim { param: p, axis: a_axis },
                    Atom::Dim { param: q, axis: b_axis },
                ),
            ),
            _ => None,
        }
    }

    /// That one axis takes at most as many tiles as another, where both belong
    /// to parameters.
    pub open spec fn fewer_tiles(
        &self,
        a: Seq<char>,
        a_axis: usize,
        b: Seq<char>,
        b_axis: usize,
        tile: i32,
    ) -> Option<Predicate> {
        match (self.index_of(a), self.index_of(b)) {
            (Some(p), Some(q)) => Some(
                Predicate::AtMost(
                    Atom::TileCount { param: p, axis: a_axis, tile },
                    Atom::TileCount { param: q, axis: b_axis, tile },
                ),
            ),
            _ => None,
        }
    }

    /// That two extents are equal, where both belong to parameters.
    pub fn dim_eq(&self, a: &str, a_axis: usize, b: &str, b_axis: usize) -> (r: Option<Predicate>)
        ensures
            r == self.equal_extents(a@, a_axis, b@, b_axis),
    {
        match (self.param_index(a), self.param_index(b)) {
            (Some(p), Some(q)) => Some(
                Predicate::Equal(
                    Atom::Dim { param: p, axis: a_axis },
                    Atom::Dim { param: q, axis: b_axis },
                ),
            ),
            _ => None,
        }
    }
}

/// Two predicates come down to the same comparison: they are the same, or equalities with
/// their sides exchanged.
pub open spec fn same_compare(p: Predicate, q: Predicate) -> bool {
    p == q || match (p, q) {
        (Predicate::Equal(a, b), Predicate::Equal(c, d)) => a == d && b == c,
        _ => false,
    }
}

impl Predicate {
    /// Whether two predicates come down to the same comparison.
    pub fn same_compare(self, other: Predicate) -> (b: bool)
        ensures
            b == same_compare(self, other),
    {
        match (self, other) {
            (Predicate::Equal(a, b), Predicate::Equal(c, d)) => (a == c && b == d) || (a == d && b
                == c),
            _ => self == other,
        }
    }
}

/// Whether one of the checks makes the comparison of this predicate.
pub open spec fn checked(checks: Seq<LaunchCheck>, p: Predicate) -> bool {
    exists|i: int| 0 <= i < checks.len() && same_compare(#[trigger] checks[i].predicate, p)
}

/// No comparison is made twice.
pub open spec fn distinct_checks(checks: Seq<LaunchCheck>) -> bool {
    forall|i: int, j: int|
        0 <= i < j < checks.len() ==> !same_compare(
            (#[trigger] checks[i]).predicate,
            (#[trigger] checks[j]).predicate,
        )
}

/// How an obligation that was resolved changes the launch checks.
pub open spec fn lowered(
    before: Seq<LaunchCheck>,
    p: Predicate,
    cause: Seq<char>,
    r: Resolution,
    placed: bool,
    after: Seq<LaunchCheck>,
) -> bool {
    match r {
        Resolution::Jit => placed && after == before,
        Resolution::Device => !placed && after == before,
        Resolution::Launch => placed && if checked(before, p) {
            after == before
        } else {
            &&& after.len() == before.len() + 1
            &&& after.drop_last() == before
            &&& after.last().predicate == p
            &&& after.last().cause@ == cause
        },
    }
}

/// Place an obligation by where it was resolved: nothing is left to do, or the
/// launch checks it, once for each comparison, or the kernel has to. The result
/// says whether the kernel is free of it.
pub fn lower_obligation(
    predicate: Predicate,
    cause: String,
    resolution: Resolution,
    checks: &mut Vec<LaunchCheck>,
) -> (placed: bool)
    ensures
        lowered(old(checks)@, predicate, cause@, resolution, placed, final(checks)@),
        distinct_checks(old(checks)@) ==> distinct_checks(final(checks)@),
{
    match resolution {
        Resolution::Jit => true,
        Resolution::Device => false,
        Resolution::Launch => {
            let mut i: usize = 0;
            while i < checks.len()
                invariant
                    i <= checks@.len(),
                    checks@ == old(checks)@,
                    forall|j: int|
                        0 <= j < i ==> !same_compare((#[trigger] checks@[j]).predicate, predicate),
                    resolution == Resolution::Launch,
                decreases checks@.len() - i,
            {
                if checks[i].predicate.same_compare(predicate) {
                    assert(same_compare(checks@[i as int].predicate, predicate));
                    assert(checked(checks@, predicate));
                    return true;
                }
                i = i + 1;
            }
            let ghost before = checks@;
            checks.push(LaunchCheck { predicate, cause });
            assert(checks@.drop_last() =~= before);
            true
        },
    }
}

/// The words for an extent.
pub open spec fn dim_text(tensor: Seq<char>, axis: usize) -> Seq<char> {
    "dim("@ + tensor + ", "@ + text::decimal_text(axis as int) + ")"@
}

fn dim_string(tensor: &str, axis: usize) -> (r: String)
    ensures
        r@ == dim_text(tensor@, axis),
{
    let mut s: String = "dim(".to_owned();
    s.append(tensor);
    s.append(", ");
    s.append(number_text(axis as u64).as_str());
    s.append(")");
    s
}

/// The words for a number of tiles.
pub open spec fn tiles_text(tensor: Seq<char>, axis: usize, tile: i32) -> Seq<char> {
    "ceil("@ + dim_text(tensor, axis) + "/"@ + text::decimal_text(tile as int) + ")"@
}

fn tiles_string(tensor: &str, axis: usize, tile: i32) -> (r: String)
    requires
        tile >= 0,
    ensures
        r@ == tiles_text(tensor@, axis, tile),
{
    let mut s: String = "ceil(".to_owned();
    s.append(dim_string(tensor, axis).as_str());
    s.append("/");
    s.append(number_text(tile as u64).as_str());
    s.append(")");
    s
}

/// Why two extents are compared.
pub open spec fn eq_cause(a: Seq<char>, a_axis: usize, b: Seq<char>, b_axis: usize) -> Seq<char> {
    dim_text(a, a_axis) + " == "@ + dim_text(b, b_axis)
}

/// Why two numbers of tiles are compared.
pub open spec fn le_cause(
    a: Seq<char>,
    a_axis: usize,
    b: Seq<char>,
    b_axis: usize,
    tile: i32,
) -> Seq<char> {
    tiles_text(a, a_axis, tile) + " <= "@ + tiles_text(b, b_axis, tile)
}

/// Place the equality of two extents; `resolve` says where it is resolved.
/// What does not belong to parameters stays in the kernel.
pub fn resolve_dim_eq<F: Fn(Predicate) -> Resolution>(
    params: &KernelParams,
    a: &str,
    a_axis: usize,
    b: &str,
    b_axis: usize,
    resolve: F,
    checks: &mut Vec<LaunchCheck>,
) -> (placed: bool)
    requires
        forall|p: Predicate| #[trigger] call_requires(resolve, (p,)),
    ensures
        match params.equal_extents(a@, a_axis, b@, b_axis) {
            None => !placed && final(checks)@ == old(checks)@,
            Some(p) => exists|r: Resolution| #[trigger]
                call_ensures(resolve, (p,), r) && lowered(
                    old(checks)@,
                    p,
                    eq_cause(a@, a_axis, b@, b_axis),
                    r,
                    placed,
                    final(checks)@,
                ),
        },
        distinct_checks(old(checks)@) ==> distinct_checks(final(checks)@),
        forall|x: Extents|
            placed && check_laws::settles_truly(resolve, x) && #[trigger] check_laws::passes(
                final(checks)@,
                x,
            ) ==> (x.dim)(params.index_of(a@)->Some_0, a_axis) == (x.dim)(
                params.index_of(b@)->Some_0,
                b_axis,
            ),
{
    match params.dim_eq(a, a_axis, b, b_axis) {
        None => false,
        Some(p) => {
            let mut cause = dim_string(a, a_axis);
            cause.append(" == ");
            cause.append(dim_string(b, b_axis).as_str());
            let r = resolve(p);
            let ghost before = checks@;
            let placed = lower_obligation(p, cause, r, checks);
            assert forall|x: Extents|
                placed && check_laws::settles_truly(resolve, x) && #[trigger] check_laws::passes(
                    checks@,
                    x,
                ) implies (x.dim)(params.index_of(a@)->Some_0, a_axis) == (x.dim)(
                params.index_of(b@)->Some_0,
                b_axis,
            ) by {
                assert(call_ensures(resolve, (p,), r));
                check_laws::lemma_placed(before, p, cause@, r, placed, checks@, x);
            }
            placed
        },
    }
}

/// How the bound on a walk over tiles is placed: a declared equality settles it; else,
/// where checks may move to the launch, the numbers of tiles are compared there.
pub open spec fn bound_placed<F: Fn(Predicate) -> Resolution>(
    params: KernelParams,
    relocate_to_launch: bool,
    a: Seq<char>,
    a_axis: usize,
    b: Seq<char>,
    b_axis: usize,
    tile: i32,
    resolve: F,
    before: Seq<LaunchCheck>,
    placed: bool,
    after: Seq<LaunchCheck>,
) -> bool {
    match params.equal_extents(a, a_axis, b, b_axis) {
        None => !placed && after == before,
        Some(eq) => exists|e: Resolution| #[trigger]
            call_ensures(resolve, (eq,), e) && if e == Resolution::Jit {
                placed && after == before
            } else if !relocate_to_launch || tile < 1 {
                !placed && after == before
            } else {
                let le = params.fewer_tiles(a, a_axis, b, b_axis, tile)->Some_0;
                exists|r: Resolution| #[trigger]
                    call_ensures(resolve, (le,), r) && lowered(
                        before,
                        le,
                        le_cause(a, a_axis, b, b_axis, tile),
                        r,
                        placed,
                        after,
                    )
            },
    }
}

/// Place the bound on a walk over tiles. A declared equality settles it; else,
/// where checks may move to the launch, the numbers of tiles are compared
/// there. What does not belong to parameters stays in the kernel.
pub fn resolve_dim_le<F: Fn(Predicate) -> Resolution>(
    params: &KernelParams,
    relocate_to_launch: bool,
    a: &str,
    a_axis: usize,
    b: &str,
    b_axis: usize,
    tile: i32,
    resolve: F,
    checks: &mut Vec<LaunchCheck>,
) -> (placed: bool)
    requires
        forall|p: Predicate| #[trigger] call_requires(resolve, (p,)),
    ensures
        bound_placed(
            *params,
            relocate_to_launch,
            a@,
            a_axis,
            b@,
            b_axis,
            tile,
            resolve,
            old(checks)@,
            placed,
            final(checks)@,
        ),
        distinct_checks(old(checks)@) ==> distinct_checks(final(checks)@),
        forall|x: Extents|
            placed && check_laws::settles_truly(resolve, x) && #[trigger] check_laws::passes(
                final(checks)@,
                x,
            ) ==> check_laws::walk_inside(
                params.index_of(a@)->Some_0,
                a_axis,
                params.index_of(b@)->Some_0,
                b_axis,
                tile as int,
                x,
            ),
{
    let ghost before = checks@;
    let (p, q) = match (params.param_index(a), params.param_index(b)) {
        (Some(p), Some(q)) => (p, q),
        _ => {
            return false;
        },
    };
    let eq = Predicate::Equal(
        Atom::Dim { param: p, axis: a_axis },
        Atom::Dim { param: q, axis: b_axis },
    );
    let e = resolve(eq);
    assert(call_ensures(resolve, (eq,), e));
    if e == Resolution::Jit {
        assert forall|x: Extents|
            check_laws::settles_truly(resolve, x) && #[trigger] check_laws::passes(
                checks@,
                x,
            ) implies check_laws::walk_inside(p, a_axis, q, b_axis, tile as int, x) by {
            assert(check_laws::holds(eq, x));
        }
        return true;
    }
    if !relocate_to_launch || tile < 1 {
        return false;
    }
    let le = Predicate::AtMost(
        Atom::TileCount { param: p, axis: a_axis, tile },
        Atom::TileCount { param: q, axis: b_axis, tile },
    );
    let mut cause = tiles_string(a, a_axis, tile);
    cause.append(" <= ");
    cause.append(tiles_string(b, b_axis, tile).as_str());
    let r = resolve(le);
    assert(call_ensures(resolve, (le,), r));
    let placed = lower_obligation(le, cause, r, checks);
    assert forall|x: Extents|
        placed && check_laws::settles_truly(resolve, x) && #[trigger] check_laws::passes(
            checks@,
            x,
        ) implies check_laws::walk_inside(p, a_axis, q, b_axis, tile as int, x) by {
        check_laws::lemma_walk_sound(
            *params,
            relocate_to_launch,
            a@,
            a_axis,
            b@,
            b_axis,
            tile,
            resolve,
            before,
            placed,
            checks@,
            x,
        );
    }
    placed
}

/// Why a check may not stay in the kernel.
pub open spec fn denial(what: Seq<char>, remedy: Seq<char>) -> Seq<char> {
    "`deny_in_kernel_checks`: "@ + what
        + " could not be discharged at compile time or hoisted to launch, so it would be emitted in the kernel and cost device registers. "@
        + remedy + ". Or drop the flag."@
}

/// The policy for a check that the compiler is about to leave in the kernel.
pub fn deny_residual_check(deny: bool, what: &str, remedy: &str) -> (r: Result<(), String>)
    ensures
        r is Ok <==> !deny,
        r is Err ==> r->Err_0@ == denial(what@, remedy@),
{
    if !deny {
        return Ok(());
    }
    let mut s: String = "`deny_in_kernel_checks`: ".to_owned();
    s.append(what);
    s.append(
        " could not be discharged at compile time or hoisted to launch, so it would be emitted in the kernel and cost device registers. ",
    );
    s.append(remedy);
    s.append(". Or drop the flag.");
    Err(s)
}

/// A declared fact speaks of whole tensors: it never equals a statement on a
/// piece, so no fact about a mutable parameter settles a check on its piece.
pub proof fn lemma_frames_apart(params: KernelParams, param: usize, axis: usize, p: usize, x: usize)
    ensures
        params.mutable(param) ==> params.extent(param, axis) != (Atom::Dim { param: p, axis: x }),
        !params.mutable(param) ==> params.extent(param, axis) == (Atom::Dim { param, axis }),
{
}

} // verus!
