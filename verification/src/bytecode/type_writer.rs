//! Interning of types and the encoding of the type table.
use vstd::prelude::*;
use crate::bytecode::encoding::EncodingWriter;
use crate::bytecode::enums::BytecodeVersion;
use crate::bytecode::table;
use crate::bytecode::types::{
    TAG_FUNC, TAG_GATHER_SCATTER_VIEW, TAG_PARTITION_VIEW, TAG_POINTER, TAG_STRIDED_VIEW,
    TAG_TENSOR_VIEW, TAG_TILE, TAG_TOKEN,
};
use crate::bytecode::types as wire_types;
use crate::bytecode::wire;
use crate::error::{ReadError, Subject, WriteError};
use crate::ir::attr;
use crate::ir::types::{
    GatherScatterViewType, PaddingValue, PartitionViewType, PointerType, ScalarType, StridedViewType, TensorViewType, TensorViewV, TileElementType, Type,
    TypeV,
};
use crate::ir::types;

verus! {

// ---------------------------------------------------------------------------
// Interning
// ---------------------------------------------------------------------------

/// `l` with `t` added where it is not there yet.
pub open spec fn intern_leaf(l: Seq<TypeV>, t: TypeV) -> Seq<TypeV> {
    if l.contains(t) {
        l
    } else {
        l.push(t)
    }
}

/// `l` with a pointer type added behind its pointee.
pub open spec fn intern_pointer(l: Seq<TypeV>, s: ScalarType) -> Seq<TypeV> {
    if l.contains(TypeV::Pointer(s)) {
        l
    } else {
        intern_leaf(l, TypeV::Scalar(s)).push(TypeV::Pointer(s))
    }
}

/// `l` with a tensor view type added behind its element type.
pub open spec fn intern_tensor_view(l: Seq<TypeV>, tv: TensorViewV) -> Seq<TypeV> {
    if l.contains(TypeV::TensorView(tv)) {
        l
    } else {
        intern_leaf(l, TypeV::Scalar(tv.element_type)).push(TypeV::TensorView(tv))
    }
}

/// `l` with the types added that `t` refers to.
pub open spec fn intern_deps(l: Seq<TypeV>, t: TypeV) -> Seq<TypeV>
    decreases t, 1int,
{
    match t {
        TypeV::Scalar(_) => l,
        TypeV::Token => l,
        TypeV::Pointer(s) => intern_leaf(l, TypeV::Scalar(s)),
        TypeV::Tile(_, TileElementType::Scalar(s)) => intern_leaf(l, TypeV::Scalar(s)),
        TypeV::Tile(_, TileElementType::Pointer(p)) => intern_pointer(l, p.pointee),
        TypeV::TensorView(tv) => intern_leaf(l, TypeV::Scalar(tv.element_type)),
        TypeV::PartitionView(_, tv, _, _) => intern_tensor_view(l, tv),
        TypeV::GatherScatterView(_, tv, _, _) => intern_tensor_view(l, tv),
        TypeV::StridedView(_, _, tv, _, _) => intern_tensor_view(l, tv),
        TypeV::Func(inputs, results) => intern_types(
            intern_types(l, inputs, inputs.len() as int),
            results,
            results.len() as int,
        ),
    }
}

/// `l` with `t` added behind the types that it refers to.
pub open spec fn intern_type(l: Seq<TypeV>, t: TypeV) -> Seq<TypeV>
    decreases t, 2int,
{
    if l.contains(t) {
        l
    } else {
        intern_deps(l, t).push(t)
    }
}

/// `l` with the first `n` of the types `s` added in order.
pub open spec fn intern_types(l: Seq<TypeV>, s: Seq<TypeV>, n: int) -> Seq<TypeV>
    decreases s, n,
{
    if n <= 0 || n > s.len() {
        l
    } else {
        intern_type(intern_types(l, s, n - 1), s[n - 1])
    }
}

/// Every type that `t` refers to is in `l`.
pub open spec fn deps_in(l: Seq<TypeV>, t: TypeV) -> bool {
    match t {
        TypeV::Scalar(_) => true,
        TypeV::Token => true,
        TypeV::Pointer(s) => l.contains(TypeV::Scalar(s)),
        TypeV::Tile(_, TileElementType::Scalar(s)) => l.contains(TypeV::Scalar(s)),
        TypeV::Tile(_, TileElementType::Pointer(p)) => l.contains(TypeV::Pointer(p.pointee)),
        TypeV::TensorView(tv) => l.contains(TypeV::Scalar(tv.element_type)),
        TypeV::PartitionView(_, tv, _, _) => l.contains(TypeV::TensorView(tv)),
        TypeV::GatherScatterView(_, tv, _, _) => l.contains(TypeV::TensorView(tv)),
        TypeV::StridedView(_, _, tv, _, _) => l.contains(TypeV::TensorView(tv)),
        TypeV::Func(inputs, results) => all_in(l, inputs) && all_in(l, results),
    }
}

/// Every type of `s` is in `l`.
pub open spec fn all_in(l: Seq<TypeV>, s: Seq<TypeV>) -> bool {
    forall|i: int| 0 <= i < s.len() ==> l.contains(#[trigger] s[i])
}

/// A type table: nothing occurs twice, and every entry comes behind the
/// entries that it refers to.
pub open spec fn closed_table(l: Seq<TypeV>) -> bool {
    &&& l.no_duplicates()
    &&& forall|i: int| 0 <= i < l.len() ==> #[trigger] deps_in(l.take(i), l[i])
}

/// `m` continues `l`.
pub open spec fn extends(l: Seq<TypeV>, m: Seq<TypeV>) -> bool {
    l.len() <= m.len() && m.take(l.len() as int) == l
}

/// A table continues itself, and continuing twice continues.
pub proof fn lemma_extends(l: Seq<TypeV>, m: Seq<TypeV>, n: Seq<TypeV>)
    ensures
        extends(l, l),
        extends(l, m) && extends(m, n) ==> extends(l, n),
{
    assert(l.take(l.len() as int) =~= l);
    if extends(l, m) && extends(m, n) {
        assert(n.take(l.len() as int) =~= m.take(l.len() as int));
    }
}

proof fn lemma_deps_mono(l: Seq<TypeV>, m: Seq<TypeV>, t: TypeV)
    requires
        extends(l, m),
        deps_in(l, t),
    ensures
        deps_in(m, t),
{
    lemma_contains_mono_all(l, m);
}

pub proof fn lemma_contains_mono_all(l: Seq<TypeV>, m: Seq<TypeV>)
    requires
        extends(l, m),
    ensures
        forall|t: TypeV| #[trigger] l.contains(t) ==> m.contains(t),
{
    assert forall|t: TypeV| #[trigger] l.contains(t) implies m.contains(t) by {
        let i = choose|i: int| 0 <= i < l.len() && l[i] == t;
        assert(m.take(l.len() as int)[i] == t);
        assert(m[i] == t);
    }
}

proof fn lemma_extends_trans(a: Seq<TypeV>, b: Seq<TypeV>, c: Seq<TypeV>)
    requires
        extends(a, b),
        extends(b, c),
    ensures
        extends(a, c),
{
    assert(c.take(a.len() as int) =~= c.take(b.len() as int).take(a.len() as int));
}

/// Appending a new type whose references are present keeps a table closed.
proof fn lemma_push_closed(l: Seq<TypeV>, t: TypeV)
    requires
        closed_table(l),
        !l.contains(t),
        deps_in(l, t),
    ensures
        closed_table(l.push(t)),
        extends(l, l.push(t)),
        l.push(t).contains(t),
{
    let m = l.push(t);
    assert(m.take(l.len() as int) =~= l);
    assert(m[l.len() as int] == t);
    assert forall|i: int| 0 <= i < m.len() implies #[trigger] deps_in(m.take(i), m[i]) by {
        if i < l.len() {
            assert(m.take(i) =~= l.take(i));
            assert(deps_in(l.take(i), l[i]));
        }
    }
    assert forall|i: int, j: int| 0 <= i < m.len() && 0 <= j < m.len() && i != j implies m[i]
        != m[j] by {
        if i == l.len() && j < l.len() {
            assert(l[j] == m[j]);
        }
        if j == l.len() && i < l.len() {
            assert(l[i] == m[i]);
        }
    }
}

proof fn lemma_intern_leaf(l: Seq<TypeV>, t: TypeV)
    requires
        closed_table(l),
        t is Scalar || t is Token,
    ensures
        closed_table(intern_leaf(l, t)),
        extends(l, intern_leaf(l, t)),
        intern_leaf(l, t).contains(t),
{
    if !l.contains(t) {
        lemma_push_closed(l, t);
    } else {
        assert(l.take(l.len() as int) =~= l);
    }
}

/// How far a type stands above the scalars: interning a type only brings in
/// types below it.
pub open spec fn rank(t: TypeV) -> int {
    match t {
        TypeV::Scalar(_) => 0,
        TypeV::Token => 0,
        TypeV::Pointer(_) => 1,
        TypeV::TensorView(_) => 1,
        TypeV::Func(_, _) => 3,
        _ => 2,
    }
}

proof fn lemma_intern_pointer(l: Seq<TypeV>, s: ScalarType)
    requires
        closed_table(l),
    ensures
        closed_table(intern_pointer(l, s)),
        extends(l, intern_pointer(l, s)),
        intern_pointer(l, s).contains(TypeV::Pointer(s)),
        forall|t: TypeV|
            #![trigger intern_pointer(l, s).contains(t)]
            intern_pointer(l, s).contains(t) ==> l.contains(t) || rank(t) <= 1,
{
    if !l.contains(TypeV::Pointer(s)) {
        let m = intern_leaf(l, TypeV::Scalar(s));
        lemma_intern_leaf(l, TypeV::Scalar(s));
        assert(!m.contains(TypeV::Pointer(s))) by {
            if m.contains(TypeV::Pointer(s)) {
                let i = choose|i: int| 0 <= i < m.len() && m[i] == TypeV::Pointer(s);
                assert(i < l.len());
                assert(l[i] == m[i]);
            }
        }
        lemma_push_closed(m, TypeV::Pointer(s));
        lemma_extends_trans(l, m, m.push(TypeV::Pointer(s)));
        let k = m.push(TypeV::Pointer(s));
        assert forall|t: TypeV|
            #![trigger k.contains(t)]
            k.contains(t) implies l.contains(t) || rank(t) <= 1 by {
            let i = choose|i: int| 0 <= i < k.len() && k[i] == t;
            if i < l.len() {
                assert(k.take(l.len() as int)[i] == l[i]);
            }
        }
    } else {
        assert(l.take(l.len() as int) =~= l);
    }
}

proof fn lemma_intern_tensor_view(l: Seq<TypeV>, tv: TensorViewV)
    requires
        closed_table(l),
    ensures
        closed_table(intern_tensor_view(l, tv)),
        extends(l, intern_tensor_view(l, tv)),
        intern_tensor_view(l, tv).contains(TypeV::TensorView(tv)),
        forall|t: TypeV|
            #![trigger intern_tensor_view(l, tv).contains(t)]
            intern_tensor_view(l, tv).contains(t) ==> l.contains(t) || rank(t) <= 1,
{
    let w = TypeV::TensorView(tv);
    if !l.contains(w) {
        let m = intern_leaf(l, TypeV::Scalar(tv.element_type));
        lemma_intern_leaf(l, TypeV::Scalar(tv.element_type));
        assert(!m.contains(w)) by {
            if m.contains(w) {
                let i = choose|i: int| 0 <= i < m.len() && m[i] == w;
                assert(i < l.len());
                assert(l[i] == m[i]);
            }
        }
        lemma_push_closed(m, w);
        lemma_extends_trans(l, m, m.push(w));
        let k = m.push(w);
        assert forall|t: TypeV|
            #![trigger k.contains(t)]
            k.contains(t) implies l.contains(t) || rank(t) <= 1 by {
            let i = choose|i: int| 0 <= i < k.len() && k[i] == t;
            if i < l.len() {
                assert(k.take(l.len() as int)[i] == l[i]);
            }
        }
    } else {
        assert(l.take(l.len() as int) =~= l);
    }
}

/// How deeply function types nest.
pub open spec fn func_depth(t: TypeV) -> nat
    decreases t,
{
    match t {
        TypeV::Func(inputs, results) => 1 + max_depth(inputs, inputs.len() as int) + max_depth(
            results,
            results.len() as int,
        ),
        _ => 0,
    }
}

/// The sum of the nesting depths of the first `n` types.
pub open spec fn max_depth(s: Seq<TypeV>, n: int) -> nat
    decreases s, n,
{
    if n <= 0 || n > s.len() {
        0
    } else {
        max_depth(s, n - 1) + func_depth(s[n - 1])
    }
}

proof fn lemma_max_depth(s: Seq<TypeV>, i: int, n: int)
    requires
        0 <= i < n <= s.len(),
    ensures
        func_depth(s[i]) <= max_depth(s, n),
    decreases n,
{
    if i < n - 1 {
        lemma_max_depth(s, i, n - 1);
    }
}

/// Interning keeps a table closed, only appends, and puts the type in.
pub proof fn lemma_intern_type(l: Seq<TypeV>, t: TypeV)
    requires
        closed_table(l),
    ensures
        closed_table(intern_type(l, t)),
        extends(l, intern_type(l, t)),
        intern_type(l, t).contains(t),
        deps_in(intern_type(l, t), t),
        forall|u: TypeV|
            #![trigger intern_type(l, t).contains(u)]
            intern_type(l, t).contains(u) ==> l.contains(u) || u == t || rank(u) < rank(t)
                || func_depth(u) < func_depth(t),
    decreases t, 2int,
{
    if l.contains(t) {
        assert(l.take(l.len() as int) =~= l);
        let i = choose|i: int| 0 <= i < l.len() && l[i] == t;
        assert(deps_in(l.take(i), l[i]));
        assert(extends(l.take(i), l)) by {
            assert(l.take(l.take(i).len() as int) =~= l.take(i));
        }
        lemma_deps_mono(l.take(i), l, t);
    } else {
        let m = intern_deps(l, t);
        lemma_intern_deps(l, t);
        assert(!m.contains(t));
        lemma_push_closed(m, t);
        lemma_extends_trans(l, m, m.push(t));
        lemma_deps_mono(m, m.push(t), t);
        let k = m.push(t);
        assert forall|u: TypeV|
            #![trigger k.contains(u)]
            k.contains(u) implies l.contains(u) || u == t || rank(u) < rank(t) || func_depth(u)
            < func_depth(t) by {
            let i = choose|i: int| 0 <= i < k.len() && k[i] == u;
            if i < m.len() {
                assert(m[i] == u);
                assert(m.contains(u));
            }
        }
    }
}

/// Interning the references of a type keeps a table closed, only appends, puts
/// the references in, and does not put in the type itself.
proof fn lemma_intern_deps(l: Seq<TypeV>, t: TypeV)
    requires
        closed_table(l),
    ensures
        closed_table(intern_deps(l, t)),
        extends(l, intern_deps(l, t)),
        deps_in(intern_deps(l, t), t),
        forall|u: TypeV|
            #![trigger intern_deps(l, t).contains(u)]
            intern_deps(l, t).contains(u) ==> l.contains(u) || rank(u) < rank(t) || func_depth(u)
                < func_depth(t),
    decreases t, 1int,
{
    let m = intern_deps(l, t);
    match t {
        TypeV::Scalar(_) | TypeV::Token => {
            assert(l.take(l.len() as int) =~= l);
        },
        TypeV::Pointer(s) | TypeV::Tile(_, TileElementType::Scalar(s)) => {
            lemma_intern_leaf(l, TypeV::Scalar(s));
            lemma_leaf_new(l, TypeV::Scalar(s));
        },
        TypeV::TensorView(tv) => {
            lemma_intern_leaf(l, TypeV::Scalar(tv.element_type));
            lemma_leaf_new(l, TypeV::Scalar(tv.element_type));
        },
        TypeV::Tile(_, TileElementType::Pointer(p)) => {
            lemma_intern_pointer(l, p.pointee);
        },
        TypeV::PartitionView(_, tv, _, _) => {
            lemma_intern_tensor_view(l, tv);
        },
        TypeV::GatherScatterView(_, tv, _, _) => {
            lemma_intern_tensor_view(l, tv);
        },
        TypeV::StridedView(_, _, tv, _, _) => {
            lemma_intern_tensor_view(l, tv);
        },
        TypeV::Func(inputs, results) => {
            let a = intern_types(l, inputs, inputs.len() as int);
            lemma_intern_types(l, inputs, inputs.len() as int);
            lemma_intern_types(a, results, results.len() as int);
            lemma_extends_trans(l, a, m);
            lemma_contains_mono_all(a, m);
            assert forall|u: TypeV|
                #![trigger m.contains(u)]
                m.contains(u) implies l.contains(u) || rank(u) < rank(t) || func_depth(u)
                < func_depth(t) by {
                if !l.contains(u) {
                    if a.contains(u) {
                        assert(rank(u) < 3 || func_depth(u) <= max_depth(
                            inputs,
                            inputs.len() as int,
                        ));
                    } else {
                        assert(rank(u) < 3 || func_depth(u) <= max_depth(
                            results,
                            results.len() as int,
                        ));
                    }
                }
            }
        },
    }
}

proof fn lemma_leaf_new(l: Seq<TypeV>, t: TypeV)
    requires
        rank(t) == 0,
    ensures
        forall|u: TypeV|
            #![trigger intern_leaf(l, t).contains(u)]
            intern_leaf(l, t).contains(u) ==> l.contains(u) || rank(u) == 0,
{
    let k = intern_leaf(l, t);
    assert forall|u: TypeV|
        #![trigger k.contains(u)]
        k.contains(u) implies l.contains(u) || rank(u) == 0 by {
        let i = choose|i: int| 0 <= i < k.len() && k[i] == u;
        if i < l.len() {
            assert(l[i] == u);
        }
    }
}

/// Interning several types keeps a table closed, only appends, and puts them
/// all in.
pub proof fn lemma_intern_types(l: Seq<TypeV>, s: Seq<TypeV>, n: int)
    requires
        closed_table(l),
        0 <= n <= s.len(),
    ensures
        closed_table(intern_types(l, s, n)),
        extends(l, intern_types(l, s, n)),
        forall|i: int| 0 <= i < n ==> intern_types(l, s, n).contains(#[trigger] s[i]),
        forall|u: TypeV|
            #![trigger intern_types(l, s, n).contains(u)]
            intern_types(l, s, n).contains(u) ==> l.contains(u) || rank(u) < 3 || func_depth(u)
                <= max_depth(s, n),
    decreases s, n,
{
    if n > 0 {
        let m = intern_types(l, s, n - 1);
        let k = intern_types(l, s, n);
        lemma_intern_types(l, s, n - 1);
        lemma_intern_type(m, s[n - 1]);
        lemma_extends_trans(l, m, k);
        lemma_contains_mono_all(m, k);
        assert forall|u: TypeV|
            #![trigger k.contains(u)]
            k.contains(u) implies l.contains(u) || rank(u) < 3 || func_depth(u) <= max_depth(
            s,
            n,
        ) by {
            if m.contains(u) {
            } else {
                assert(u == s[n - 1] || rank(u) < rank(s[n - 1]) || func_depth(u) < func_depth(
                    s[n - 1],
                ));
            }
        }
    } else {
        assert(l.take(l.len() as int) =~= l);
    }
}

// ---------------------------------------------------------------------------
// The type manager
// ---------------------------------------------------------------------------

/// Types in the order in which they were first seen, each behind the types
/// that it refers to.
pub struct TypeManager {
    list: Vec<Type>,
}

impl View for TypeManager {
    type V = Seq<TypeV>;

    closed spec fn view(&self) -> Seq<TypeV> {
        types::types_view(self.list@)
    }
}

impl TypeManager {
    /// The table is closed.
    pub open spec fn wf(&self) -> bool {
        closed_table(self@)
    }

    /// No types.
    pub fn new() -> (m: TypeManager)
        ensures
            m.wf(),
            m@ == Seq::<TypeV>::empty(),
    {
        let m = TypeManager { list: Vec::new() };
        assert(m@ =~= Seq::<TypeV>::empty());
        m
    }

    /// The number of types.
    pub fn len(&self) -> (n: usize)
        ensures
            n == self@.len(),
    {
        self.list.len()
    }

    /// Where a type stands, if it is there.
    pub fn find(&self, ty: &Type) -> (r: Option<usize>)
        requires
            self.wf(),
        ensures
            match r {
                Some(i) => self@.contains(ty@) && i == self@.index_of(ty@) && i < self@.len()
                    && self@[i as int] == ty@,
                None => !self@.contains(ty@),
            },
    {
        let mut i: usize = 0;
        while i < self.list.len()
            invariant
                self.wf(),
                i <= self.list@.len(),
                forall|j: int| 0 <= j < i ==> #[trigger] self@[j] != ty@,
            decreases self.list.len() - i,
        {
            if self.list[i].same(ty) {
                proof {
                    assert(self@[i as int] == ty@);
                    lemma_index_of(self@, i as int);
                }
                return Some(i);
            }
            i = i + 1;
        }
        None
    }

    fn push(&mut self, ty: Type)
        ensures
            final(self)@ == old(self)@.push(ty@),
    {
        proof {
            attr::lemma_types_view_push(self.list@, ty);
        }
        self.list.push(ty);
    }

    /// Add a type that refers to no other.
    fn insert_leaf(&mut self, ty: Type)
        requires
            old(self).wf(),
            ty@ is Scalar || ty@ is Token,
        ensures
            final(self).wf(),
            final(self)@ == intern_leaf(old(self)@, ty@),
    {
        proof {
            lemma_intern_leaf(self@, ty@);
        }
        if self.find(&ty).is_none() {
            self.push(ty);
        }
    }

    fn insert_pointer(&mut self, p: PointerType)
        requires
            old(self).wf(),
        ensures
            final(self).wf(),
            final(self)@ == intern_pointer(old(self)@, p.pointee),
    {
        proof {
            lemma_intern_pointer(self@, p.pointee);
        }
        let ty: Type = Type::Pointer(p);
        if self.find(&ty).is_none() {
            self.insert_leaf(Type::Scalar(p.pointee));
            self.push(ty);
        }
    }

    fn insert_tensor_view(&mut self, tv: &TensorViewType)
        requires
            old(self).wf(),
        ensures
            final(self).wf(),
            final(self)@ == intern_tensor_view(old(self)@, tv@),
    {
        proof {
            lemma_intern_tensor_view(self@, tv@);
        }
        let ty: Type = Type::TensorView(tv.duplicate());
        if self.find(&ty).is_none() {
            self.insert_leaf(Type::Scalar(tv.element_type));
            self.push(ty);
        }
    }

    /// Add a type behind the types that it refers to, unless it is there, and
    /// say where it stands.
    pub fn get_or_insert(&mut self, ty: &Type) -> (idx: u64)
        requires
            old(self).wf(),
        ensures
            final(self).wf(),
            final(self)@ == intern_type(old(self)@, ty@),
            extends(old(self)@, final(self)@),
            final(self)@.contains(ty@),
            idx == final(self)@.index_of(ty@),
            idx < final(self)@.len(),
        decreases *ty, 2int,
    {
        proof {
            lemma_intern_type(self@, ty@);
        }
        match self.find(ty) {
            Some(i) => i as u64,
            None => {
                self.register_deps(ty);
                let idx: u64 = self.list.len() as u64;
                self.push(ty.duplicate());
                proof {
                    lemma_index_of(self@, idx as int);
                }
                idx
            },
        }
    }

    /// Add the types that a type refers to.
    fn register_deps(&mut self, ty: &Type)
        requires
            old(self).wf(),
        ensures
            final(self).wf(),
            final(self)@ == intern_deps(old(self)@, ty@),
        decreases *ty, 1int,
    {
        proof {
            lemma_intern_deps(self@, ty@);
        }
        match ty {
            Type::Scalar(_) => {},
            Type::Token => {},
            Type::Pointer(p) => {
                self.insert_leaf(Type::Scalar(p.pointee));
            },
            Type::Tile(t) => match t.element_type {
                TileElementType::Scalar(s) => {
                    self.insert_leaf(Type::Scalar(s));
                },
                TileElementType::Pointer(p) => {
                    self.insert_pointer(p);
                },
            },
            Type::TensorView(tv) => {
                self.insert_leaf(Type::Scalar(tv.element_type));
            },
            Type::PartitionView(pv) => {
                self.insert_tensor_view(&pv.tensor_view);
            },
            Type::GatherScatterView(gv) => {
                self.insert_tensor_view(&gv.tensor_view);
            },
            Type::StridedView(sv) => {
                self.insert_tensor_view(&sv.tensor_view);
            },
            Type::Func(f) => {
                self.insert_all(&f.inputs);
                self.insert_all(&f.results);
            },
        }
    }

    /// Add several types in order.
    pub fn insert_all(&mut self, tys: &Vec<Type>)
        requires
            old(self).wf(),
        ensures
            final(self).wf(),
            extends(old(self)@, final(self)@),
            final(self)@ == intern_types(
                old(self)@,
                types::types_view(tys@),
                tys@.len() as int,
            ),
        decreases tys@, 0int,
    {
        let mut i: usize = 0;
        let ghost s = types::types_view(tys@);
        assert(self@.take(self@.len() as int) =~= self@);
        while i < tys.len()
            invariant
                i <= tys.len(),
                self.wf(),
                s == types::types_view(tys@),
                extends(old(self)@, self@),
                self@ == intern_types(old(self)@, s, i as int),
            decreases tys.len() - i,
        {
            let ghost before = self@;
            self.get_or_insert(&tys[i]);
            proof {
                lemma_extends_trans(old(self)@, before, self@);
            }
            i = i + 1;
        }
    }

    /// The type at position `i`.
    pub fn get(&self, i: usize) -> (t: &Type)
        requires
            i < self@.len(),
        ensures
            t@ == self@[i as int],
    {
        &self.list[i]
    }
}

/// In a table without repetitions, a type stands only in one place.
proof fn lemma_index_of(l: Seq<TypeV>, i: int)
    requires
        l.no_duplicates(),
        0 <= i < l.len(),
    ensures
        l.contains(l[i]),
        l.index_of(l[i]) == i,
{
    let j = l.index_of(l[i]);
    assert(0 <= j < l.len() && l[j] == l[i]);
}

// ---------------------------------------------------------------------------
// Encoding
// ---------------------------------------------------------------------------

/// A reference to a type of the table.
pub open spec fn ref_bytes(l: Seq<TypeV>, t: TypeV) -> Seq<u8> {
    wire::varint_bytes(l.index_of(t) as u64)
}

/// References to the first `n` of the types `s`.
pub open spec fn refs_bytes(l: Seq<TypeV>, s: Seq<TypeV>, n: int) -> Seq<u8>
    decreases n,
{
    if n <= 0 {
        seq![]
    } else {
        refs_bytes(l, s, n - 1) + ref_bytes(l, s[n - 1])
    }
}

/// The flag byte that announces a padding value.
pub open spec fn padding_flag(p: Option<PaddingValue>) -> Seq<u8> {
    wire::varint_bytes(if p is Some { 1 } else { 0 })
}

/// A padding byte where there is one.
pub open spec fn padding_code(p: Option<PaddingValue>) -> Seq<u8> {
    match p {
        Some(v) => seq![v.spec_code()],
        None => seq![],
    }
}

/// A padding value behind its presence byte.
pub open spec fn old_padding_code(p: Option<PaddingValue>) -> Seq<u8> {
    match p {
        Some(v) => seq![1u8] + wire::varint_bytes(v.spec_code() as u64),
        None => seq![0u8],
    }
}

/// Tile shape, tensor view reference and dimension map.
pub open spec fn partition_core_bytes(
    l: Seq<TypeV>,
    shape: Seq<i32>,
    tv: TensorViewV,
    dims: Seq<i32>,
) -> Seq<u8> {
    wire::i32_array_bytes(shape) + ref_bytes(l, TypeV::TensorView(tv)) + wire::i32_array_bytes(dims)
}

/// The type of a tile's elements.
pub open spec fn element_type(e: TileElementType) -> TypeV {
    match e {
        TileElementType::Scalar(s) => TypeV::Scalar(s),
        TileElementType::Pointer(p) => TypeV::Pointer(p.pointee),
    }
}

/// What follows the tag in the entry of a type; references go to the table `l`.
pub open spec fn type_body(t: TypeV, l: Seq<TypeV>, v13_3: bool) -> Seq<u8> {
    match t {
        TypeV::Scalar(_) => seq![],
        TypeV::Token => seq![],
        TypeV::Pointer(s) => ref_bytes(l, TypeV::Scalar(s)),
        TypeV::Tile(shape, e) => ref_bytes(l, element_type(e)) + wire::i64_array_bytes(shape),
        TypeV::TensorView(tv) => ref_bytes(l, TypeV::Scalar(tv.element_type))
            + wire::i64_array_bytes(tv.shape) + wire::i64_array_bytes(tv.strides),
        TypeV::PartitionView(shape, tv, dims, pad) => if v13_3 {
            padding_flag(pad) + partition_core_bytes(l, shape, tv, dims) + padding_code(pad)
        } else {
            partition_core_bytes(l, shape, tv, dims) + old_padding_code(pad)
        },
        TypeV::GatherScatterView(shape, tv, dim, pad) => padding_flag(pad) + wire::i32_array_bytes(
            shape,
        ) + ref_bytes(l, TypeV::TensorView(tv)) + wire::varint_bytes(
            wire::i64_pattern(dim as i64) as u64,
        ) + padding_code(pad),
        TypeV::StridedView(shape, strides, tv, dims, pad) => padding_flag(pad)
            + wire::i32_array_bytes(shape) + partition_core_bytes(l, strides, tv, dims)
            + padding_code(pad),
        TypeV::Func(inputs, results) => wire::varint_bytes(inputs.len() as u64) + refs_bytes(
            l,
            inputs,
            inputs.len() as int,
        ) + wire::varint_bytes(results.len() as u64) + refs_bytes(
            l,
            results,
            results.len() as int,
        ),
    }
}

/// The tag of a type.
pub open spec fn type_tag(t: TypeV) -> u8 {
    match t {
        TypeV::Scalar(s) => wire_types::scalar_tag(s),
        TypeV::Pointer(_) => TAG_POINTER,
        TypeV::Tile(_, _) => TAG_TILE,
        TypeV::TensorView(_) => TAG_TENSOR_VIEW,
        TypeV::PartitionView(_, _, _, _) => TAG_PARTITION_VIEW,
        TypeV::GatherScatterView(_, _, _, _) => TAG_GATHER_SCATTER_VIEW,
        TypeV::StridedView(_, _, _, _, _) => TAG_STRIDED_VIEW,
        TypeV::Func(_, _) => TAG_FUNC,
        TypeV::Token => TAG_TOKEN,
    }
}

/// The entry of a type; references go to the table `l`.
pub open spec fn type_bytes(t: TypeV, l: Seq<TypeV>, version: BytecodeVersion) -> Seq<u8> {
    wire::varint_bytes(type_tag(t) as u64) + type_body(t, l, version.spec_v13_3())
}

/// Write a reference to a type of the table.
pub fn write_ref(w: &mut EncodingWriter, types: &TypeManager, ty: &Type)
    requires
        types.wf(),
        types@.contains(ty@),
    ensures
        final(w)@ == old(w)@ + ref_bytes(types@, ty@),
{
    match types.find(ty) {
        Some(i) => {
            w.write_varint(i as u64);
        },
        None => {},
    }
}

/// Write references to types of the table, behind their number.
fn write_ref_list(w: &mut EncodingWriter, types: &TypeManager, tys: &Vec<Type>)
    requires
        types.wf(),
        forall|i: int|
            0 <= i < tys@.len() ==> types@.contains(#[trigger] types::types_view(tys@)[i]),
    ensures
        final(w)@ == old(w)@ + wire::varint_bytes(tys@.len() as u64) + refs_bytes(
            types@,
            types::types_view(tys@),
            tys@.len() as int,
        ),
{
    w.write_varint(tys.len() as u64);
    let ghost start = w@;
    let ghost s = types::types_view(tys@);
    let mut i: usize = 0;
    assert(w@ =~= start + refs_bytes(types@, s, 0));
    while i < tys.len()
        invariant
            i <= tys.len(),
            types.wf(),
            s == types::types_view(tys@),
            forall|i: int| 0 <= i < tys@.len() ==> types@.contains(#[trigger] s[i]),
            w@ == start + refs_bytes(types@, s, i as int),
        decreases tys.len() - i,
    {
        assert(types@.contains(s[i as int]));
        write_ref(w, types, &tys[i]);
        i = i + 1;
        assert(w@ =~= start + refs_bytes(types@, s, i as int));
    }
}

/// Write tile shape, tensor view reference and dimension map.
fn write_partition_core(
    w: &mut EncodingWriter,
    types: &TypeManager,
    shape: &Vec<i32>,
    tensor_view: &TensorViewType,
    dims: &Vec<i32>,
)
    requires
        types.wf(),
        types@.contains(TypeV::TensorView(tensor_view@)),
    ensures
        final(w)@ == old(w)@ + partition_core_bytes(types@, shape@, tensor_view@, dims@),
{
    w.write_le_var_size_i32(shape.as_slice());
    let tv: Type = Type::TensorView(tensor_view.duplicate());
    write_ref(w, types, &tv);
    w.write_le_var_size_i32(dims.as_slice());
    assert(w@ =~= old(w)@ + partition_core_bytes(types@, shape@, tensor_view@, dims@));
}

fn write_padding_flag(w: &mut EncodingWriter, pad: Option<PaddingValue>)
    ensures
        final(w)@ == old(w)@ + padding_flag(pad),
{
    w.write_varint(if pad.is_some() { 1 } else { 0 });
}

fn write_padding_code(w: &mut EncodingWriter, pad: Option<PaddingValue>)
    ensures
        final(w)@ == old(w)@ + padding_code(pad),
{
    match pad {
        Some(v) => {
            w.write_byte(v.code());
            assert(w@ =~= old(w)@ + padding_code(pad));
        },
        None => {
            assert(w@ =~= old(w)@ + padding_code(pad));
        },
    }
}

/// Write what follows the tag of a partition view.
fn write_partition_view(
    pv: &PartitionViewType,
    types: &TypeManager,
    w: &mut EncodingWriter,
    version: BytecodeVersion,
)
    requires
        types.wf(),
        types@.contains(TypeV::TensorView(pv.tensor_view@)),
    ensures
        final(w)@ == old(w)@ + type_body(
            TypeV::PartitionView(pv.tile_shape@, pv.tensor_view@, pv.dim_map@, pv.padding_value),
            types@,
            version.spec_v13_3(),
        ),
{
    let ghost start = w@;
    if version.is_v13_3() {
        write_padding_flag(w, pv.padding_value);
        write_partition_core(w, types, &pv.tile_shape, &pv.tensor_view, &pv.dim_map);
        write_padding_code(w, pv.padding_value);
        assert(w@ =~= start + (padding_flag(pv.padding_value) + partition_core_bytes(
            types@,
            pv.tile_shape@,
            pv.tensor_view@,
            pv.dim_map@,
        ) + padding_code(pv.padding_value)));
    } else {
        write_partition_core(w, types, &pv.tile_shape, &pv.tensor_view, &pv.dim_map);
        match pv.padding_value {
            Some(v) => {
                w.write_byte(1);
                w.write_varint(v.code() as u64);
            },
            None => {
                w.write_byte(0);
            },
        }
        assert(w@ =~= start + (partition_core_bytes(
            types@,
            pv.tile_shape@,
            pv.tensor_view@,
            pv.dim_map@,
        ) + old_padding_code(pv.padding_value)));
    }
}

/// Write what follows the tag of a gather/scatter view.
fn write_gather_view(gv: &GatherScatterViewType, types: &TypeManager, w: &mut EncodingWriter)
    requires
        types.wf(),
        types@.contains(TypeV::TensorView(gv.tensor_view@)),
    ensures
        final(w)@ == old(w)@ + (padding_flag(gv.padding_value) + wire::i32_array_bytes(
            gv.tile_shape@,
        ) + ref_bytes(types@, TypeV::TensorView(gv.tensor_view@)) + wire::varint_bytes(
            wire::i64_pattern(gv.sparse_dim as i64) as u64,
        ) + padding_code(gv.padding_value)),
{
    let ghost start = w@;
    write_padding_flag(w, gv.padding_value);
    w.write_le_var_size_i32(gv.tile_shape.as_slice());
    let tv: Type = Type::TensorView(gv.tensor_view.duplicate());
    write_ref(w, types, &tv);
    let dim: u64 = if gv.sparse_dim < 0 {
        (gv.sparse_dim as i128 + 0x1_0000_0000_0000_0000) as u64
    } else {
        gv.sparse_dim as u64
    };
    w.write_varint(dim);
    write_padding_code(w, gv.padding_value);
    assert(w@ =~= start + (padding_flag(gv.padding_value) + wire::i32_array_bytes(gv.tile_shape@)
        + ref_bytes(types@, TypeV::TensorView(gv.tensor_view@)) + wire::varint_bytes(
        wire::i64_pattern(gv.sparse_dim as i64) as u64,
    ) + padding_code(gv.padding_value)));
}

/// Write what follows the tag of a strided view.
fn write_strided_view(sv: &StridedViewType, types: &TypeManager, w: &mut EncodingWriter)
    requires
        types.wf(),
        types@.contains(TypeV::TensorView(sv.tensor_view@)),
    ensures
        final(w)@ == old(w)@ + (padding_flag(sv.padding_value) + wire::i32_array_bytes(
            sv.tile_shape@,
        ) + partition_core_bytes(types@, sv.traversal_strides@, sv.tensor_view@, sv.dim_map@)
            + padding_code(sv.padding_value)),
{
    let ghost start = w@;
    write_padding_flag(w, sv.padding_value);
    w.write_le_var_size_i32(sv.tile_shape.as_slice());
    write_partition_core(w, types, &sv.traversal_strides, &sv.tensor_view, &sv.dim_map);
    write_padding_code(w, sv.padding_value);
    assert(w@ =~= start + (padding_flag(sv.padding_value) + wire::i32_array_bytes(sv.tile_shape@)
        + partition_core_bytes(types@, sv.traversal_strides@, sv.tensor_view@, sv.dim_map@)
        + padding_code(sv.padding_value)));
}

/// Write what follows the tag of a type.
fn write_type_body(
    ty: &Type,
    types: &TypeManager,
    w: &mut EncodingWriter,
    version: BytecodeVersion,
)
    requires
        types.wf(),
        deps_in(types@, ty@),
    ensures
        final(w)@ == old(w)@ + type_body(ty@, types@, version.spec_v13_3()),
{
    let ghost start = w@;
    let ghost l = types@;
    match ty {
        Type::Scalar(_) | Type::Token => {
            assert(w@ =~= start + Seq::<u8>::empty());
        },
        Type::Pointer(p) => {
            write_ref(w, types, &Type::Scalar(p.pointee));
        },
        Type::Tile(t) => {
            let elem: Type = match t.element_type {
                TileElementType::Scalar(s) => Type::Scalar(s),
                TileElementType::Pointer(p) => Type::Pointer(p),
            };
            write_ref(w, types, &elem);
            w.write_le_var_size_i64(t.shape.as_slice());
            assert(w@ =~= start + (ref_bytes(l, element_type(t.element_type))
                + wire::i64_array_bytes(t.shape@)));
        },
        Type::TensorView(tv) => {
            write_ref(w, types, &Type::Scalar(tv.element_type));
            w.write_le_var_size_i64(tv.shape.as_slice());
            w.write_le_var_size_i64(tv.strides.as_slice());
            assert(w@ =~= start + (ref_bytes(l, TypeV::Scalar(tv.element_type))
                + wire::i64_array_bytes(tv.shape@) + wire::i64_array_bytes(tv.strides@)));
        },
        Type::PartitionView(pv) => {
            write_partition_view(pv, types, w, version);
        },
        Type::GatherScatterView(gv) => {
            write_gather_view(gv, types, w);
        },
        Type::StridedView(sv) => {
            write_strided_view(sv, types, w);
        },
        Type::Func(f) => {
            let ghost ins = types::types_view(f.inputs@);
            let ghost outs = types::types_view(f.results@);
            proof {
                assert(ty@ == TypeV::Func(ins, outs));
                assert(deps_in(l, TypeV::Func(ins, outs)));
                assert(ins.len() == f.inputs@.len() && outs.len() == f.results@.len());
                assert(all_in(l, ins) && all_in(l, outs));
            }
            write_ref_list(w, types, &f.inputs);
            write_ref_list(w, types, &f.results);
            assert(w@ =~= start + (wire::varint_bytes(ins.len() as u64) + refs_bytes(
                l,
                ins,
                ins.len() as int,
            ) + wire::varint_bytes(outs.len() as u64) + refs_bytes(l, outs, outs.len() as int)));
        },
    }
}

/// Write the entry of a type whose references are all in the table.
pub fn serialize_type(
    ty: &Type,
    types: &TypeManager,
    w: &mut EncodingWriter,
    version: BytecodeVersion,
)
    requires
        types.wf(),
        deps_in(types@, ty@),
    ensures
        final(w)@ == old(w)@ + type_bytes(ty@, types@, version),
{
    let tag: u8 = match ty {
        Type::Scalar(s) => s.type_tag(),
        Type::Pointer(_) => TAG_POINTER,
        Type::Tile(_) => TAG_TILE,
        Type::TensorView(_) => TAG_TENSOR_VIEW,
        Type::PartitionView(_) => TAG_PARTITION_VIEW,
        Type::GatherScatterView(_) => TAG_GATHER_SCATTER_VIEW,
        Type::StridedView(_) => TAG_STRIDED_VIEW,
        Type::Func(_) => TAG_FUNC,
        Type::Token => TAG_TOKEN,
    };
    w.write_varint(tag as u64);
    write_type_body(ty, types, w, version);
    assert(w@ =~= old(w)@ + type_bytes(ty@, types@, version));
}

// ---------------------------------------------------------------------------
// The type section
// ---------------------------------------------------------------------------

/// The entries of the first `n` types of a table.
pub open spec fn type_entries(l: Seq<TypeV>, version: BytecodeVersion, n: int) -> Seq<Seq<u8>> {
    Seq::new(if n > 0 { n as nat } else { 0 }, |i: int| type_bytes(l[i], l, version))
}

/// Encode a type table. Tables whose entries exceed the range of the offsets
/// are an error.
pub fn type_section_bytes(types: &TypeManager, version: BytecodeVersion) -> (res: Result<
    EncodingWriter,
    WriteError,
>)
    requires
        types.wf(),
    ensures
        ({
            let entries = type_entries(types@, version, types@.len() as int);
            match res {
                Ok(w) => w@ == table::table_bytes(entries, 4) && table::concat(entries).len()
                    < wire::pow256(4),
                Err(e) => e == WriteError::SectionTooLarge && table::concat(entries).len()
                    >= wire::pow256(4),
            }
        }),
{
    let n: usize = types.len();
    let mut entries: Vec<Vec<u8>> = Vec::new();
    let mut i: usize = 0;
    assert(table::byte_views(entries@) =~= type_entries(types@, version, 0));
    while i < n
        invariant
            i <= n,
            n == types@.len(),
            types.wf(),
            table::byte_views(entries@) == type_entries(types@, version, i as int),
        decreases n - i,
    {
        let mut w = EncodingWriter::new();
        proof {
            assert(deps_in(types@.take(i as int), types@[i as int]));
            assert(extends(types@.take(i as int), types@)) by {
                assert(types@.take(types@.take(i as int).len() as int) =~= types@.take(i as int));
            }
            lemma_deps_mono(types@.take(i as int), types@, types@[i as int]);
        }
        serialize_type(types.get(i), types, &mut w, version);
        let bytes: Vec<u8> = w.into_bytes();
        assert(bytes@ =~= type_bytes(types@[i as int], types@, version));
        let ghost before = table::byte_views(entries@);
        entries.push(bytes);
        i = i + 1;
        assert(table::byte_views(entries@) =~= before.push(bytes@));
        assert(table::byte_views(entries@) =~= type_entries(types@, version, i as int));
    }
    table::write_offset_table(&entries, 4)
}

// ---------------------------------------------------------------------------
// Reading back what was written
// ---------------------------------------------------------------------------

/// Every array of a type is short enough for its count.
pub open spec fn short_arrays(t: TypeV) -> bool {
    match t {
        TypeV::Tile(shape, _) => shape.len() <= u32::MAX,
        TypeV::TensorView(tv) => tv.shape.len() <= u32::MAX && tv.strides.len() <= u32::MAX,
        TypeV::PartitionView(a, _, b, _) => a.len() <= u32::MAX && b.len() <= u32::MAX,
        TypeV::GatherScatterView(a, _, _, _) => a.len() <= u32::MAX,
        TypeV::StridedView(a, b, _, c, _) => a.len() <= u32::MAX && b.len() <= u32::MAX && c.len()
            <= u32::MAX,
        TypeV::Func(a, b) => a.len() <= u32::MAX && b.len() <= u32::MAX,
        _ => true,
    }
}

/// A table `l` of which the first `k` entries were read.
spec fn read_so_far(l: Seq<TypeV>, k: int) -> bool {
    &&& l.no_duplicates()
    &&& 0 <= k <= l.len()
    &&& l.len() <= u32::MAX
}

proof fn lemma_ref_holds(d: Seq<u8>, p: int, l: Seq<TypeV>, k: int, t: TypeV, what: Subject)
    requires
        read_so_far(l, k),
        l.take(k).contains(t),
        wire::holds_at(d, p, ref_bytes(l, t)),
    ensures
        wire_types::type_ref_at(d, p, l.take(k), what) == Ok::<(TypeV, int), ReadError>(
            (t, p + ref_bytes(l, t).len()),
        ),
{
    let j = choose|j: int| 0 <= j < l.take(k).len() && l.take(k)[j] == t;
    assert(l[j] == t);
    lemma_index_of(l, j);
    wire::lemma_varint_holds(d, p, j as u64);
}

proof fn lemma_refs_hold(
    d: Seq<u8>,
    p: int,
    l: Seq<TypeV>,
    k: int,
    s: Seq<TypeV>,
    n: int,
    what: Subject,
)
    requires
        read_so_far(l, k),
        0 <= n <= s.len(),
        forall|i: int| 0 <= i < s.len() ==> l.take(k).contains(#[trigger] s[i]),
        wire::holds_at(d, p, refs_bytes(l, s, n)),
    ensures
        wire_types::type_refs_at(d, p, l.take(k), what, n) == Ok::<(Seq<TypeV>, int), ReadError>(
            (s.take(n), p + refs_bytes(l, s, n).len()),
        ),
    decreases n,
{
    if n > 0 {
        let init = refs_bytes(l, s, n - 1);
        wire::lemma_holds_split(d, p, init, ref_bytes(l, s[n - 1]));
        lemma_refs_hold(d, p, l, k, s, n - 1, what);
        lemma_ref_holds(d, p + init.len(), l, k, s[n - 1], what);
        assert(s.take(n) =~= s.take(n - 1).push(s[n - 1]));
    } else {
        assert(s.take(n) =~= seq![]);
    }
}

proof fn lemma_type_list_holds(
    d: Seq<u8>,
    p: int,
    l: Seq<TypeV>,
    k: int,
    s: Seq<TypeV>,
    what: Subject,
)
    requires
        read_so_far(l, k),
        s.len() <= u32::MAX,
        forall|i: int| 0 <= i < s.len() ==> l.take(k).contains(#[trigger] s[i]),
        wire::holds_at(
            d,
            p,
            wire::varint_bytes(s.len() as u64) + refs_bytes(l, s, s.len() as int),
        ),
    ensures
        wire_types::type_list_at(d, p, l.take(k), what) == Ok::<(Seq<TypeV>, int), ReadError>(
            (
                s,
                p + wire::varint_bytes(s.len() as u64).len() + refs_bytes(
                    l,
                    s,
                    s.len() as int,
                ).len(),
            ),
        ),
{
    let n = wire::varint_bytes(s.len() as u64);
    wire::lemma_holds_split(d, p, n, refs_bytes(l, s, s.len() as int));
    wire::lemma_count_holds(d, p, s.len() as int, what);
    lemma_refs_hold(d, p + n.len(), l, k, s, s.len() as int, what);
    assert(s.take(s.len() as int) =~= s);
}

proof fn lemma_padding_code_holds(d: Seq<u8>, p: int, pad: Option<PaddingValue>)
    requires
        wire::holds_at(d, p, padding_code(pad)),
    ensures
        wire_types::padding_byte_at(d, p, pad is Some) == Ok::<
            (Option<PaddingValue>, int),
            ReadError,
        >((pad, p + padding_code(pad).len())),
{
    if pad is Some {
        wire::lemma_byte_holds(d, p, pad->Some_0.spec_code());
    }
}

proof fn lemma_old_padding_holds(d: Seq<u8>, p: int, pad: Option<PaddingValue>)
    requires
        wire::holds_at(d, p, old_padding_code(pad)),
    ensures
        wire_types::old_padding_at(d, p) == Ok::<(Option<PaddingValue>, int), ReadError>(
            (pad, p + old_padding_code(pad).len()),
        ),
{
    match pad {
        Some(v) => {
            wire::lemma_holds_split(d, p, seq![1u8], wire::varint_bytes(v.spec_code() as u64));
            wire::lemma_byte_holds(d, p, 1);
            wire::lemma_varint_holds(d, p + 1, v.spec_code() as u64);
        },
        None => {
            wire::lemma_byte_holds(d, p, 0);
        },
    }
}

proof fn lemma_partition_core_holds(
    d: Seq<u8>,
    p: int,
    l: Seq<TypeV>,
    k: int,
    shape: Seq<i32>,
    tv: TensorViewV,
    dims: Seq<i32>,
)
    requires
        read_so_far(l, k),
        l.take(k).contains(TypeV::TensorView(tv)),
        shape.len() <= u32::MAX,
        dims.len() <= u32::MAX,
        wire::holds_at(d, p, partition_core_bytes(l, shape, tv, dims)),
    ensures
        wire_types::partition_core_at(d, p, l.take(k)) == Ok::<
            ((Seq<i32>, TensorViewV, Seq<i32>), int),
            ReadError,
        >(((shape, tv, dims), p + partition_core_bytes(l, shape, tv, dims).len())),
{
    let x = wire::i32_array_bytes(shape);
    let r = ref_bytes(l, TypeV::TensorView(tv));
    let y = wire::i32_array_bytes(dims);
    wire::lemma_holds_split(d, p, x + r, y);
    wire::lemma_holds_split(d, p, x, r);
    wire::lemma_i32_array_holds(d, p, shape);
    lemma_ref_holds(d, p + x.len(), l, k, TypeV::TensorView(tv), Subject::ViewTensorView);
    wire::lemma_i32_array_holds(d, p + (x + r).len(), dims);
}

/// The entry of a partition view reads back.
proof fn lemma_partition_view_holds(
    d: Seq<u8>,
    p: int,
    l: Seq<TypeV>,
    k: int,
    t: TypeV,
    v13_3: bool,
)
    requires
        read_so_far(l, k),
        t is PartitionView,
        deps_in(l.take(k), t),
        short_arrays(t),
        wire::holds_at(d, p, type_body(t, l, v13_3)),
    ensures
        wire_types::partition_view_at(d, p, l.take(k), v13_3) == Ok::<(TypeV, int), ReadError>(
            (t, p + type_body(t, l, v13_3).len()),
        ),
{
    if let TypeV::PartitionView(shape, tv, dims, pad) = t {
        let c = partition_core_bytes(l, shape, tv, dims);
        if v13_3 {
            let f = padding_flag(pad);
            let b = padding_code(pad);
            wire::lemma_holds_split(d, p, f + c, b);
            wire::lemma_holds_split(d, p, f, c);
            wire::lemma_varint_holds(d, p, if pad is Some { 1 } else { 0 });
            lemma_partition_core_holds(d, p + f.len(), l, k, shape, tv, dims);
            lemma_padding_code_holds(d, p + (f + c).len(), pad);
        } else {
            wire::lemma_holds_split(d, p, c, old_padding_code(pad));
            lemma_partition_core_holds(d, p, l, k, shape, tv, dims);
            lemma_old_padding_holds(d, p + c.len(), pad);
        }
    }
}

/// The entry of a gather/scatter view reads back.
proof fn lemma_gather_view_holds(d: Seq<u8>, p: int, l: Seq<TypeV>, k: int, t: TypeV, v13_3: bool)
    requires
        read_so_far(l, k),
        t is GatherScatterView,
        deps_in(l.take(k), t),
        short_arrays(t),
        wire::holds_at(d, p, type_body(t, l, v13_3)),
    ensures
        wire_types::gather_view_at(d, p, l.take(k)) == Ok::<(TypeV, int), ReadError>(
            (t, p + type_body(t, l, v13_3).len()),
        ),
{
    if let TypeV::GatherScatterView(shape, tv, dim, pad) = t {
        let f = padding_flag(pad);
        let x = wire::i32_array_bytes(shape);
        let r = ref_bytes(l, TypeV::TensorView(tv));
        let dv = wire::i64_pattern(dim as i64) as u64;
        let m = wire::varint_bytes(dv);
        let b = padding_code(pad);
        wire::lemma_holds_split(d, p, f + x + r + m, b);
        wire::lemma_holds_split(d, p, f + x + r, m);
        wire::lemma_holds_split(d, p, f + x, r);
        wire::lemma_holds_split(d, p, f, x);
        wire::lemma_varint_holds(d, p, if pad is Some { 1 } else { 0 });
        wire::lemma_i32_array_holds(d, p + f.len(), shape);
        lemma_ref_holds(d, p + (f + x).len(), l, k, TypeV::TensorView(tv), Subject::ViewTensorView);
        wire::lemma_varint_holds(d, p + (f + x + r).len(), dv);
        lemma_padding_code_holds(d, p + (f + x + r + m).len(), pad);
        assert(wire::i32_of_pattern(dv as int % 0x1_0000_0000) == dim);
    }
}

/// The entry of a strided view reads back.
proof fn lemma_strided_view_holds(d: Seq<u8>, p: int, l: Seq<TypeV>, k: int, t: TypeV, v13_3: bool)
    requires
        read_so_far(l, k),
        t is StridedView,
        deps_in(l.take(k), t),
        short_arrays(t),
        wire::holds_at(d, p, type_body(t, l, v13_3)),
    ensures
        wire_types::strided_view_at(d, p, l.take(k)) == Ok::<(TypeV, int), ReadError>(
            (t, p + type_body(t, l, v13_3).len()),
        ),
{
    if let TypeV::StridedView(shape, strides, tv, dims, pad) = t {
        let f = padding_flag(pad);
        let x = wire::i32_array_bytes(shape);
        let c = partition_core_bytes(l, strides, tv, dims);
        let b = padding_code(pad);
        wire::lemma_holds_split(d, p, f + x + c, b);
        wire::lemma_holds_split(d, p, f + x, c);
        wire::lemma_holds_split(d, p, f, x);
        wire::lemma_varint_holds(d, p, if pad is Some { 1 } else { 0 });
        wire::lemma_i32_array_holds(d, p + f.len(), shape);
        lemma_partition_core_holds(d, p + (f + x).len(), l, k, strides, tv, dims);
        lemma_padding_code_holds(d, p + (f + x + c).len(), pad);
    }
}

/// The entry of a function type reads back.
proof fn lemma_func_type_holds(d: Seq<u8>, p: int, l: Seq<TypeV>, k: int, t: TypeV, v13_3: bool)
    requires
        read_so_far(l, k),
        t is Func,
        deps_in(l.take(k), t),
        short_arrays(t),
        wire::holds_at(d, p, type_body(t, l, v13_3)),
    ensures
        wire_types::func_type_at(d, p, l.take(k)) == Ok::<(TypeV, int), ReadError>(
            (t, p + type_body(t, l, v13_3).len()),
        ),
{
    if let TypeV::Func(ins, outs) = t {
        let x = wire::varint_bytes(ins.len() as u64) + refs_bytes(l, ins, ins.len() as int);
        let y = wire::varint_bytes(outs.len() as u64) + refs_bytes(l, outs, outs.len() as int);
        assert(type_body(t, l, v13_3) =~= x + y);
        wire::lemma_holds_split(d, p, x, y);
        lemma_type_list_holds(d, p, l, k, ins, Subject::FuncInput);
        lemma_type_list_holds(d, p + x.len(), l, k, outs, Subject::FuncResult);
    }
}

/// The entry of a pointer, tile or tensor view reads back.
proof fn lemma_element_type_holds(
    d: Seq<u8>,
    p: int,
    l: Seq<TypeV>,
    k: int,
    t: TypeV,
    v13_3: bool,
)
    requires
        read_so_far(l, k),
        deps_in(l.take(k), t),
        short_arrays(t),
        wire::holds_at(d, p, type_body(t, l, v13_3)),
    ensures
        t is Pointer ==> wire_types::pointer_at(d, p, l.take(k)) == Ok::<(TypeV, int), ReadError>(
            (t, p + type_body(t, l, v13_3).len()),
        ),
        t is Tile ==> wire_types::tile_at(d, p, l.take(k)) == Ok::<(TypeV, int), ReadError>(
            (t, p + type_body(t, l, v13_3).len()),
        ),
        t is TensorView ==> wire_types::tensor_view_at(d, p, l.take(k)) == Ok::<
            (TypeV, int),
            ReadError,
        >((t, p + type_body(t, l, v13_3).len())),
{
    match t {
        TypeV::Pointer(s) => {
            lemma_ref_holds(d, p, l, k, TypeV::Scalar(s), Subject::Pointee);
        },
        TypeV::Tile(shape, el) => {
            let r = ref_bytes(l, element_type(el));
            wire::lemma_holds_split(d, p, r, wire::i64_array_bytes(shape));
            lemma_ref_holds(d, p, l, k, element_type(el), Subject::TileElement);
            wire::lemma_i64_array_holds(d, p + r.len(), shape);
        },
        TypeV::TensorView(tv) => {
            let r = ref_bytes(l, TypeV::Scalar(tv.element_type));
            let x = wire::i64_array_bytes(tv.shape);
            wire::lemma_holds_split(d, p, r + x, wire::i64_array_bytes(tv.strides));
            wire::lemma_holds_split(d, p, r, x);
            lemma_ref_holds(d, p, l, k, TypeV::Scalar(tv.element_type), Subject::TensorViewElement);
            wire::lemma_i64_array_holds(d, p + r.len(), tv.shape);
            wire::lemma_i64_array_holds(d, p + (r + x).len(), tv.strides);
        },
        _ => {},
    }
}

/// Reading the entry of a type gives the type back, provided that the types it
/// refers to are among the first `k` entries of the table.
pub proof fn lemma_type_entry_holds(
    d: Seq<u8>,
    p: int,
    l: Seq<TypeV>,
    k: int,
    t: TypeV,
    version: BytecodeVersion,
)
    requires
        l.no_duplicates(),
        0 <= k <= l.len() <= u32::MAX,
        deps_in(l.take(k), t),
        short_arrays(t),
        wire::holds_at(d, p, type_bytes(t, l, version)),
    ensures
        wire_types::type_entry_at(d, p, l.take(k), version) == Ok::<(TypeV, int), ReadError>(
            (t, p + type_bytes(t, l, version).len()),
        ),
{
    let v = version.spec_v13_3();
    let g = wire::varint_bytes(type_tag(t) as u64);
    wire::lemma_holds_split(d, p, g, type_body(t, l, v));
    wire::lemma_varint_holds(d, p, type_tag(t) as u64);
    assert((type_tag(t) as u64 % 256) as u8 == type_tag(t));
    assert(type_bytes(t, l, version).len() == g.len() + type_body(t, l, v).len());
    let q = p + g.len();
    match t {
        TypeV::Scalar(s) => {
            wire_types::lemma_scalar_tag_round_trip(s);
        },
        TypeV::Token => {},
        TypeV::PartitionView(_, _, _, _) => {
            lemma_partition_view_holds(d, q, l, k, t, v);
        },
        TypeV::GatherScatterView(_, _, _, _) => {
            lemma_gather_view_holds(d, q, l, k, t, v);
        },
        TypeV::StridedView(_, _, _, _, _) => {
            lemma_strided_view_holds(d, q, l, k, t, v);
        },
        TypeV::Func(_, _) => {
            lemma_func_type_holds(d, q, l, k, t, v);
        },
        _ => {
            lemma_element_type_holds(d, q, l, k, t, v);
        },
    }
}

proof fn lemma_types_of_entries_round_trip(l: Seq<TypeV>, version: BytecodeVersion, n: int)
    requires
        closed_table(l),
        0 <= n <= l.len() <= u32::MAX,
        forall|i: int| 0 <= i < l.len() ==> short_arrays(#[trigger] l[i]),
    ensures
        wire_types::types_of_entries(type_entries(l, version, l.len() as int), version, n) == Ok::<
            Seq<TypeV>,
            ReadError,
        >(l.take(n)),
    decreases n,
{
    let entries = type_entries(l, version, l.len() as int);
    if n > 0 {
        lemma_types_of_entries_round_trip(l, version, n - 1);
        assert(deps_in(l.take(n - 1), l[n - 1]));
        wire::lemma_holds_whole(entries[n - 1]);
        lemma_type_entry_holds(entries[n - 1], 0, l, n - 1, l[n - 1], version);
        assert(l.take(n) =~= l.take(n - 1).push(l[n - 1]));
    } else {
        assert(l.take(n) =~= seq![]);
    }
}

/// Reading the type section of a table gives the table back, in every
/// version.
pub proof fn lemma_type_section_round_trip(l: Seq<TypeV>, version: BytecodeVersion)
    requires
        closed_table(l),
        l.len() <= u32::MAX,
        forall|i: int| 0 <= i < l.len() ==> short_arrays(#[trigger] l[i]),
        table::concat(type_entries(l, version, l.len() as int)).len() < wire::pow256(4),
    ensures
        wire_types::type_section(
            Some(table::table_bytes(type_entries(l, version, l.len() as int), 4)),
            version,
        ) == Ok::<Seq<TypeV>, ReadError>(l),
{
    let entries = type_entries(l, version, l.len() as int);
    table::lemma_table_round_trip(entries, Subject::Type, 4);
    lemma_types_of_entries_round_trip(l, version, l.len() as int);
    assert(l.take(l.len() as int) =~= l);
}

} // verus!
