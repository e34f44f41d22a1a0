//! Attributes of operations.
use vstd::prelude::*;
use crate::ir::types::{ScalarType, Type, TypeV};
use crate::ir::types;

verus! {

/// Raw constant data with its type.
pub struct DenseElements {
    pub element_type: Type,
    pub shape: Vec<i64>,
    pub data: Vec<u8>,
}

/// A divisibility predicate.
#[derive(Clone, Copy, Debug, PartialEq, Eq, Structural)]
pub struct DivBy {
    pub divisor: u64,
    pub every: Option<i64>,
    pub along: Option<i64>,
}

/// A predicate on equal elements.
pub struct SameElements {
    pub values: Vec<i64>,
}

/// A bounds predicate.
#[derive(Clone, Copy, Debug, PartialEq, Eq, Structural)]
pub struct Bounded {
    pub lb: Option<i64>,
    pub ub: Option<i64>,
}

/// Optimization hints: a dictionary per architecture.
pub struct OptimizationHints {
    pub entries: Vec<(String, Vec<(String, Attribute)>)>,
}

/// An attribute. A floating point value is held as the bit pattern of the
/// format that its type names.
pub enum Attribute {
    Integer(i64, Type),
    Float(u64, Type),
    Bool(bool),
    Type(Type),
    String(String),
    Array(Vec<Attribute>),
    DenseElements(DenseElements),
    DenseI32Array(Vec<i32>),
    DivBy(DivBy),
    SameElements(SameElements),
    Dictionary(Vec<(String, Attribute)>),
    OptimizationHints(OptimizationHints),
    Bounded(Bounded),
}

/// The contents of raw constant data.
#[verifier::ext_equal]
pub struct DenseV {
    pub element_type: TypeV,
    pub shape: Seq<i64>,
    pub data: Seq<u8>,
}

/// The contents of an attribute.
#[verifier::ext_equal]
pub enum AttrV {
    Integer(i64, TypeV),
    Float(u64, TypeV),
    Bool(bool),
    Type(TypeV),
    Str(Seq<char>),
    Array(Seq<AttrV>),
    Dense(DenseV),
    DenseI32(Seq<i32>),
    DivBy(DivBy),
    Same(Seq<i64>),
    Dict(Seq<(Seq<char>, AttrV)>),
    Hints(Seq<(Seq<char>, Seq<(Seq<char>, AttrV)>)>),
    Bounded(Bounded),
}

/// The contents of an attribute.
pub open spec fn attr_view(a: Attribute) -> AttrV
    decreases a,
{
    match a {
        Attribute::Integer(v, t) => AttrV::Integer(v, t@),
        Attribute::Float(v, t) => AttrV::Float(v, t@),
        Attribute::Bool(b) => AttrV::Bool(b),
        Attribute::Type(t) => AttrV::Type(t@),
        Attribute::String(s) => AttrV::Str(s@),
        Attribute::Array(v) => AttrV::Array(attrs_view(v@)),
        Attribute::DenseElements(d) => AttrV::Dense(d@),
        Attribute::DenseI32Array(v) => AttrV::DenseI32(v@),
        Attribute::DivBy(d) => AttrV::DivBy(d),
        Attribute::SameElements(s) => AttrV::Same(s.values@),
        Attribute::Dictionary(v) => AttrV::Dict(dict_view(v@)),
        Attribute::OptimizationHints(h) => AttrV::Hints(hints_view(h.entries@)),
        Attribute::Bounded(b) => AttrV::Bounded(b),
    }
}

/// The contents of a sequence of attributes.
pub open spec fn attrs_view(s: Seq<Attribute>) -> Seq<AttrV>
    decreases s,
{
    Seq::new(
        s.len(),
        |i: int|
            if 0 <= i < s.len() {
                attr_view(s[i])
            } else {
                AttrV::Bool(false)
            },
    )
}

/// The contents of a named attribute list.
pub open spec fn dict_view(s: Seq<(String, Attribute)>) -> Seq<(Seq<char>, AttrV)>
    decreases s,
{
    Seq::new(
        s.len(),
        |i: int|
            if 0 <= i < s.len() {
                (s[i].0@, attr_view(s[i].1))
            } else {
                (Seq::empty(), AttrV::Bool(false))
            },
    )
}

/// The contents of hints by architecture.
pub open spec fn hints_view(s: Seq<(String, Vec<(String, Attribute)>)>) -> Seq<
    (Seq<char>, Seq<(Seq<char>, AttrV)>),
>
    decreases s,
{
    Seq::new(
        s.len(),
        |i: int|
            if 0 <= i < s.len() {
                (s[i].0@, dict_view(s[i].1@))
            } else {
                (Seq::empty(), Seq::empty())
            },
    )
}

impl View for DenseElements {
    type V = DenseV;

    open spec fn view(&self) -> DenseV {
        DenseV { element_type: self.element_type@, shape: self.shape@, data: self.data@ }
    }
}

impl View for Attribute {
    type V = AttrV;

    open spec fn view(&self) -> AttrV {
        attr_view(*self)
    }
}

/// The 32-bit integer attribute with value `v`.
pub open spec fn i32_attr(v: i64) -> AttrV {
    AttrV::Integer(v, TypeV::Scalar(ScalarType::I32))
}

impl Attribute {
    /// The 32-bit integer attribute with value `v`.
    pub fn i32(v: i64) -> (r: Attribute)
        ensures
            r@ == i32_attr(v),
    {
        Attribute::Integer(v, Type::Scalar(ScalarType::I32))
    }
}

/// Appending to a named attribute list appends to its contents.
pub broadcast proof fn lemma_dict_view_push(s: Seq<(String, Attribute)>, x: (String, Attribute))
    ensures
        #[trigger] dict_view(s.push(x)) == dict_view(s).push((x.0@, x.1@)),
{
    assert(dict_view(s.push(x)) =~= dict_view(s).push((x.0@, x.1@)));
}

/// Appending to a list of attributes appends to its contents.
pub broadcast proof fn lemma_attrs_view_push(s: Seq<Attribute>, x: Attribute)
    ensures
        #[trigger] attrs_view(s.push(x)) == attrs_view(s).push(x@),
{
    assert(attrs_view(s.push(x)) =~= attrs_view(s).push(x@));
}

/// Appending to hints by architecture appends to their contents.
pub broadcast proof fn lemma_hints_view_push(
    s: Seq<(String, Vec<(String, Attribute)>)>,
    x: (String, Vec<(String, Attribute)>),
)
    ensures
        #[trigger] hints_view(s.push(x)) == hints_view(s).push((x.0@, dict_view(x.1@))),
{
    assert(hints_view(s.push(x)) =~= hints_view(s).push((x.0@, dict_view(x.1@))));
}

/// Appending to a list of types appends to its contents.
pub broadcast proof fn lemma_types_view_push(s: Seq<Type>, x: Type)
    ensures
        #[trigger] types::types_view(s.push(x)) == types::types_view(s).push(x@),
{
    assert(types::types_view(s.push(x)) =~= types::types_view(s).push(x@));
}

pub broadcast group group_view_push {
    lemma_dict_view_push,
    lemma_attrs_view_push,
    lemma_hints_view_push,
    lemma_types_view_push,
}

fn duplicate_attrs(v: &Vec<Attribute>) -> (r: Vec<Attribute>)
    ensures
        attrs_view(r@) == attrs_view(v@),
    decreases v@,
{
    let mut out: Vec<Attribute> = Vec::new();
    let mut i: usize = 0;
    assert(attrs_view(out@) =~= attrs_view(v@).take(0));
    while i < v.len()
        invariant
            i <= v@.len(),
            attrs_view(out@) == attrs_view(v@).take(i as int),
        decreases v@.len() - i,
    {
        let a = v[i].duplicate();
        proof {
            lemma_attrs_view_push(out@, a);
        }
        out.push(a);
        assert(attrs_view(v@).take(i + 1) =~= attrs_view(v@).take(i as int).push(
            attrs_view(v@)[i as int],
        ));
        i = i + 1;
    }
    assert(attrs_view(v@).take(i as int) =~= attrs_view(v@));
    out
}

/// A copy of a named attribute list.
pub fn duplicate_dict(v: &Vec<(String, Attribute)>) -> (r: Vec<(String, Attribute)>)
    ensures
        dict_view(r@) == dict_view(v@),
    decreases v@,
{
    let mut out: Vec<(String, Attribute)> = Vec::new();
    let mut i: usize = 0;
    assert(dict_view(out@) =~= dict_view(v@).take(0));
    while i < v.len()
        invariant
            i <= v@.len(),
            dict_view(out@) == dict_view(v@).take(i as int),
        decreases v@.len() - i,
    {
        let entry: (String, Attribute) = (v[i].0.clone(), v[i].1.duplicate());
        proof {
            lemma_dict_view_push(out@, entry);
        }
        out.push(entry);
        assert(dict_view(v@).take(i + 1) =~= dict_view(v@).take(i as int).push(
            dict_view(v@)[i as int],
        ));
        i = i + 1;
    }
    assert(dict_view(v@).take(i as int) =~= dict_view(v@));
    out
}

fn duplicate_hints(v: &Vec<(String, Vec<(String, Attribute)>)>) -> (r: Vec<
    (String, Vec<(String, Attribute)>),
>)
    ensures
        hints_view(r@) == hints_view(v@),
    decreases v@,
{
    let mut out: Vec<(String, Vec<(String, Attribute)>)> = Vec::new();
    let mut i: usize = 0;
    assert(hints_view(out@) =~= hints_view(v@).take(0));
    while i < v.len()
        invariant
            i <= v@.len(),
            hints_view(out@) == hints_view(v@).take(i as int),
        decreases v@.len() - i,
    {
        let entry: (String, Vec<(String, Attribute)>) = (v[i].0.clone(), duplicate_dict(&v[i].1));
        proof {
            lemma_hints_view_push(out@, entry);
        }
        out.push(entry);
        assert(hints_view(v@).take(i + 1) =~= hints_view(v@).take(i as int).push(
            hints_view(v@)[i as int],
        ));
        i = i + 1;
    }
    assert(hints_view(v@).take(i as int) =~= hints_view(v@));
    out
}

/// A copy of some bytes.
fn duplicate_data(v: &Vec<u8>) -> (r: Vec<u8>)
    ensures
        r@ == v@,
{
    let mut out: Vec<u8> = Vec::new();
    out.extend_from_slice(v.as_slice());
    assert(out@ =~= v@);
    out
}

impl DenseElements {
    /// A copy.
    pub fn duplicate(&self) -> (r: DenseElements)
        ensures
            r@ == self@,
    {
        DenseElements {
            element_type: self.element_type.duplicate(),
            shape: types::copy_i64s(&self.shape),
            data: duplicate_data(&self.data),
        }
    }
}

impl Attribute {
    /// A copy.
    pub fn duplicate(&self) -> (r: Attribute)
        ensures
            r@ == self@,
        decreases *self,
    {
        match self {
            Attribute::Integer(v, t) => Attribute::Integer(*v, t.duplicate()),
            Attribute::Float(v, t) => Attribute::Float(*v, t.duplicate()),
            Attribute::Bool(b) => Attribute::Bool(*b),
            Attribute::Type(t) => Attribute::Type(t.duplicate()),
            Attribute::String(s) => Attribute::String(s.clone()),
            Attribute::Array(v) => Attribute::Array(duplicate_attrs(v)),
            Attribute::DenseElements(d) => Attribute::DenseElements(d.duplicate()),
            Attribute::DenseI32Array(v) => Attribute::DenseI32Array(types::copy_i32s(v)),
            Attribute::DivBy(d) => Attribute::DivBy(*d),
            Attribute::SameElements(s) => Attribute::SameElements(
                SameElements { values: types::copy_i64s(&s.values) },
            ),
            Attribute::Dictionary(v) => Attribute::Dictionary(duplicate_dict(v)),
            Attribute::OptimizationHints(h) => Attribute::OptimizationHints(
                OptimizationHints { entries: duplicate_hints(&h.entries) },
            ),
            Attribute::Bounded(b) => Attribute::Bounded(*b),
        }
    }
}

} // verus!
