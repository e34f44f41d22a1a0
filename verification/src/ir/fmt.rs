//! Types and attributes as text.
use vstd::prelude::*;
use crate::ir::attr::{AttrV, Attribute};
use crate::ir::attr;
use crate::ir::types::{
    PaddingValue,
    ScalarType,
    TensorViewType,
    TensorViewV,
    TileElementType,
    Type,
    TypeV,
};
use crate::ir::types;
use crate::text::{number_text, quoted_text};
use crate::text;

verus! {

// ---------------------------------------------------------------------------
// Numbers
// ---------------------------------------------------------------------------

/// A number with its sign.
pub open spec fn signed_text(n: int) -> Seq<char> {
    if n < 0 {
        "-"@ + text::decimal_text(-n)
    } else {
        text::decimal_text(n)
    }
}

/// A number with its sign.
pub fn format_signed(n: i64) -> (r: String)
    ensures
        r@ == signed_text(n as int),
{
    if n < 0 {
        let m: u64 = (-(n + 1)) as u64 + 1;
        let mut s: String = "-".to_owned();
        s.append(number_text(m).as_str());
        s
    } else {
        number_text(n as u64)
    }
}

/// The first `n` of some numbers, separated by commas.
pub open spec fn numbers_text(s: Seq<int>, n: int) -> Seq<char>
    decreases n,
{
    if n <= 0 {
        seq![]
    } else if n == 1 {
        signed_text(s[0])
    } else {
        numbers_text(s, n - 1) + ", "@ + signed_text(s[n - 1])
    }
}

/// The first `n` extents of a shape, each with a cross behind it.
pub open spec fn extents_text(s: Seq<int>, n: int) -> Seq<char>
    decreases n,
{
    if n <= 0 {
        seq![]
    } else {
        extents_text(s, n - 1) + signed_text(s[n - 1]) + "x"@
    }
}

/// 64-bit numbers as mathematical ones.
pub open spec fn longs(s: Seq<i64>) -> Seq<int> {
    Seq::new(s.len(), |i: int| s[i] as int)
}

/// 32-bit numbers as mathematical ones.
pub open spec fn ints(s: Seq<i32>) -> Seq<int> {
    Seq::new(s.len(), |i: int| s[i] as int)
}

fn format_longs(s: &Vec<i64>) -> (r: String)
    ensures
        r@ == numbers_text(longs(s@), s@.len() as int),
{
    let ghost l = longs(s@);
    let mut r: String = String::new();
    let mut i: usize = 0;
    while i < s.len()
        invariant
            i <= s@.len(),
            l == longs(s@),
            r@ == numbers_text(l, i as int),
        decreases s@.len() - i,
    {
        let t = format_signed(s[i]);
        if i == 0 {
            r = t;
        } else {
            r.append(", ");
            r.append(t.as_str());
        }
        i = i + 1;
    }
    r
}

/// Some numbers, separated by commas.
pub fn format_ints(s: &Vec<i32>) -> (r: String)
    ensures
        r@ == numbers_text(ints(s@), s@.len() as int),
{
    let ghost l = ints(s@);
    let mut r: String = String::new();
    let mut i: usize = 0;
    while i < s.len()
        invariant
            i <= s@.len(),
            l == ints(s@),
            r@ == numbers_text(l, i as int),
        decreases s@.len() - i,
    {
        let t = format_signed(s[i] as i64);
        if i == 0 {
            r = t;
        } else {
            r.append(", ");
            r.append(t.as_str());
        }
        i = i + 1;
    }
    r
}

fn format_extents(s: &Vec<i64>) -> (r: String)
    ensures
        r@ == extents_text(longs(s@), s@.len() as int),
{
    let ghost l = longs(s@);
    let mut r: String = String::new();
    let mut i: usize = 0;
    while i < s.len()
        invariant
            i <= s@.len(),
            l == longs(s@),
            r@ == extents_text(l, i as int),
        decreases s@.len() - i,
    {
        let t = format_signed(s[i]);
        r.append(t.as_str());
        r.append("x");
        i = i + 1;
    }
    r
}

// ---------------------------------------------------------------------------
// Types
// ---------------------------------------------------------------------------

/// The name of a scalar type.
pub open spec fn scalar_text(s: ScalarType) -> Seq<char> {
    match s {
        ScalarType::I1 => "i1"@,
        ScalarType::I4 => "i4"@,
        ScalarType::I8 => "i8"@,
        ScalarType::I16 => "i16"@,
        ScalarType::I32 => "i32"@,
        ScalarType::I64 => "i64"@,
        ScalarType::F16 => "f16"@,
        ScalarType::BF16 => "bf16"@,
        ScalarType::F32 => "f32"@,
        ScalarType::TF32 => "tf32"@,
        ScalarType::F64 => "f64"@,
        ScalarType::F8E4M3FN => "f8E4M3FN"@,
        ScalarType::F8E5M2 => "f8E5M2"@,
        ScalarType::F8E8M0FNU => "f8E8M0FNU"@,
        ScalarType::F4E2M1FN => "f4E2M1FN"@,
    }
}

/// The name of a scalar type.
pub fn format_scalar(s: ScalarType) -> (r: &'static str)
    ensures
        r@ == scalar_text(s),
{
    match s {
        ScalarType::I1 => "i1",
        ScalarType::I4 => "i4",
        ScalarType::I8 => "i8",
        ScalarType::I16 => "i16",
        ScalarType::I32 => "i32",
        ScalarType::I64 => "i64",
        ScalarType::F16 => "f16",
        ScalarType::BF16 => "bf16",
        ScalarType::F32 => "f32",
        ScalarType::TF32 => "tf32",
        ScalarType::F64 => "f64",
        ScalarType::F8E4M3FN => "f8E4M3FN",
        ScalarType::F8E5M2 => "f8E5M2",
        ScalarType::F8E8M0FNU => "f8E8M0FNU",
        ScalarType::F4E2M1FN => "f4E2M1FN",
    }
}

/// A pointer to scalars.
pub open spec fn pointer_text(s: ScalarType) -> Seq<char> {
    "ptr<"@ + scalar_text(s) + ">"@
}

fn format_pointer(s: ScalarType) -> (r: String)
    ensures
        r@ == pointer_text(s),
{
    let mut r: String = "ptr<".to_owned();
    r.append(format_scalar(s));
    r.append(">");
    r
}

/// The element of a tile.
pub open spec fn element_text(e: TileElementType) -> Seq<char> {
    match e {
        TileElementType::Scalar(s) => scalar_text(s),
        TileElementType::Pointer(p) => pointer_text(p.pointee),
    }
}

fn format_element(e: TileElementType) -> (r: String)
    ensures
        r@ == element_text(e),
{
    match e {
        TileElementType::Scalar(s) => format_scalar(s).to_owned(),
        TileElementType::Pointer(p) => format_pointer(p.pointee),
    }
}

/// What an element outside a view reads as, where that is said.
pub open spec fn padding_text(p: Option<PaddingValue>) -> Seq<char> {
    match p {
        None => ""@,
        Some(PaddingValue::Zero) => ", padding=zero"@,
        Some(PaddingValue::NegZero) => ", padding=neg_zero"@,
        Some(PaddingValue::Nan) => ", padding=nan"@,
        Some(PaddingValue::PosInf) => ", padding=pos_inf"@,
        Some(PaddingValue::NegInf) => ", padding=neg_inf"@,
    }
}

fn format_padding(p: Option<PaddingValue>) -> (r: &'static str)
    ensures
        r@ == padding_text(p),
{
    match p {
        None => "",
        Some(PaddingValue::Zero) => ", padding=zero",
        Some(PaddingValue::NegZero) => ", padding=neg_zero",
        Some(PaddingValue::Nan) => ", padding=nan",
        Some(PaddingValue::PosInf) => ", padding=pos_inf",
        Some(PaddingValue::NegInf) => ", padding=neg_inf",
    }
}

/// A tensor view.
pub open spec fn view_text(v: TensorViewV) -> Seq<char> {
    "tensor_view<"@ + extents_text(longs(v.shape), v.shape.len() as int) + scalar_text(
        v.element_type,
    ) + ", strides=["@ + numbers_text(longs(v.strides), v.strides.len() as int) + "]>"@
}

fn format_view(v: &TensorViewType) -> (r: String)
    ensures
        r@ == view_text(v@),
{
    let mut r: String = "tensor_view<".to_owned();
    r.append(format_extents(&v.shape).as_str());
    r.append(format_scalar(v.element_type));
    r.append(", strides=[");
    r.append(format_longs(&v.strides).as_str());
    r.append("]>");
    r
}

/// A type.
pub open spec fn type_text(t: TypeV) -> Seq<char>
    decreases t, 0int,
{
    match t {
        TypeV::Scalar(s) => scalar_text(s),
        TypeV::Pointer(s) => pointer_text(s),
        TypeV::Tile(shape, e) => "tile<"@ + extents_text(longs(shape), shape.len() as int)
            + element_text(e) + ">"@,
        TypeV::TensorView(v) => view_text(v),
        TypeV::PartitionView(tile, v, map, pad) => "partition_view<tile=("@ + numbers_text(
            ints(tile),
            tile.len() as int,
        ) + "), "@ + view_text(v) + ", dim_map=["@ + numbers_text(ints(map), map.len() as int)
            + "]"@ + padding_text(pad) + ">"@,
        TypeV::GatherScatterView(tile, v, dim, pad) => "gather_scatter_view<tile=("@ + numbers_text(
            ints(tile),
            tile.len() as int,
        ) + "), "@ + view_text(v) + ", sparse_dim="@ + signed_text(dim as int) + padding_text(pad)
            + ">"@,
        TypeV::StridedView(tile, steps, v, map, pad) => "strided_view<tile=("@ + numbers_text(
            ints(tile),
            tile.len() as int,
        ) + "), traversal_strides=["@ + numbers_text(ints(steps), steps.len() as int) + "], "@
            + view_text(v) + ", dim_map=["@ + numbers_text(ints(map), map.len() as int) + "]"@
            + padding_text(pad) + ">"@,
        TypeV::Func(inputs, results) => "("@ + types_text(inputs, inputs.len() as int) + ") -> ("@
            + types_text(results, results.len() as int) + ")"@,
        TypeV::Token => "token"@,
    }
}

/// The first `n` of some types, separated by commas.
pub open spec fn types_text(s: Seq<TypeV>, n: int) -> Seq<char>
    decreases s, n,
{
    if n <= 0 || n > s.len() {
        seq![]
    } else if n == 1 {
        type_text(s[0])
    } else {
        types_text(s, n - 1) + ", "@ + type_text(s[n - 1])
    }
}

/// A type.
pub fn format_type(t: &Type) -> (r: String)
    ensures
        r@ == type_text(t@),
    decreases t, 0int,
{
    match t {
        Type::Scalar(s) => format_scalar(*s).to_owned(),
        Type::Pointer(p) => format_pointer(p.pointee),
        Type::Tile(t) => {
            let mut r: String = "tile<".to_owned();
            r.append(format_extents(&t.shape).as_str());
            r.append(format_element(t.element_type).as_str());
            r.append(">");
            r
        },
        Type::TensorView(v) => format_view(v),
        Type::PartitionView(v) => {
            let mut r: String = "partition_view<tile=(".to_owned();
            r.append(format_ints(&v.tile_shape).as_str());
            r.append("), ");
            r.append(format_view(&v.tensor_view).as_str());
            r.append(", dim_map=[");
            r.append(format_ints(&v.dim_map).as_str());
            r.append("]");
            r.append(format_padding(v.padding_value));
            r.append(">");
            r
        },
        Type::GatherScatterView(v) => {
            let mut r: String = "gather_scatter_view<tile=(".to_owned();
            r.append(format_ints(&v.tile_shape).as_str());
            r.append("), ");
            r.append(format_view(&v.tensor_view).as_str());
            r.append(", sparse_dim=");
            r.append(format_signed(v.sparse_dim as i64).as_str());
            r.append(format_padding(v.padding_value));
            r.append(">");
            r
        },
        Type::StridedView(v) => {
            let mut r: String = "strided_view<tile=(".to_owned();
            r.append(format_ints(&v.tile_shape).as_str());
            r.append("), traversal_strides=[");
            r.append(format_ints(&v.traversal_strides).as_str());
            r.append("], ");
            r.append(format_view(&v.tensor_view).as_str());
            r.append(", dim_map=[");
            r.append(format_ints(&v.dim_map).as_str());
            r.append("]");
            r.append(format_padding(v.padding_value));
            r.append(">");
            r
        },
        Type::Func(f) => {
            let mut r: String = "(".to_owned();
            r.append(format_types(&f.inputs).as_str());
            r.append(") -> (");
            r.append(format_types(&f.results).as_str());
            r.append(")");
            assert(t@ == TypeV::Func(
                types::types_view(f.inputs@),
                types::types_view(f.results@),
            ));
            r
        },
        Type::Token => "token".to_owned(),
    }
}

fn format_types(s: &Vec<Type>) -> (r: String)
    ensures
        r@ == types_text(types::types_view(s@), s@.len() as int),
    decreases s, s@.len(),
{
    let ghost l = types::types_view(s@);
    let mut r: String = String::new();
    let mut i: usize = 0;
    while i < s.len()
        invariant
            i <= s@.len(),
            l == types::types_view(s@),
            r@ == types_text(l, i as int),
        decreases s@.len() - i,
    {
        let t = format_type(&s[i]);
        assert(l[i as int] == s@[i as int]@);
        if i == 0 {
            r = t;
        } else {
            r.append(", ");
            r.append(t.as_str());
        }
        i = i + 1;
    }
    r
}

// ---------------------------------------------------------------------------
// Attributes
// ---------------------------------------------------------------------------

/// A truth value.
pub open spec fn bool_text(b: bool) -> Seq<char> {
    if b {
        "true"@
    } else {
        "false"@
    }
}

/// A truth value.
pub fn format_bool(b: bool) -> (r: &'static str)
    ensures
        r@ == bool_text(b),
{
    if b {
        "true"
    } else {
        "false"
    }
}

/// A bound that may be absent.
pub open spec fn option_text(v: Option<i64>) -> Seq<char> {
    match v {
        Some(n) => signed_text(n as int),
        None => "?"@,
    }
}

fn format_option(v: Option<i64>) -> (r: String)
    ensures
        r@ == option_text(v),
{
    match v {
        Some(n) => format_signed(n),
        None => "?".to_owned(),
    }
}

/// An attribute. A floating point value shows its bit pattern.
pub open spec fn attr_text(a: AttrV) -> Seq<char>
    decreases a, 0int,
{
    match a {
        AttrV::Integer(v, t) => signed_text(v as int) + " : "@ + type_text(t),
        AttrV::Float(v, t) => "bits "@ + text::decimal_text(v as int) + " : "@ + type_text(t),
        AttrV::Bool(b) => bool_text(b),
        AttrV::Type(t) => type_text(t),
        AttrV::Str(s) => text::quoted(s),
        AttrV::Array(s) => "["@ + attrs_text(s, s.len() as int) + "]"@,
        AttrV::Dense(d) => "dense<"@ + text::decimal_text(d.data.len() as int) + " bytes> : "@
            + type_text(d.element_type),
        AttrV::DenseI32(s) => "array<i32: "@ + numbers_text(ints(s), s.len() as int) + ">"@,
        AttrV::DivBy(d) => "div_by<"@ + text::decimal_text(d.divisor as int) + ", every "@
            + option_text(d.every) + ", along "@ + option_text(d.along) + ">"@,
        AttrV::Same(s) => "same_elements<"@ + numbers_text(longs(s), s.len() as int) + ">"@,
        AttrV::Dict(s) => "{"@ + dict_text(s, s.len() as int) + "}"@,
        AttrV::Hints(s) => "optimization_hints<"@ + hints_text(s, s.len() as int) + ">"@,
        AttrV::Bounded(b) => "bounded<"@ + option_text(b.lb) + ", "@ + option_text(b.ub) + ">"@,
    }
}

/// The first `n` of some attributes, separated by commas.
pub open spec fn attrs_text(s: Seq<AttrV>, n: int) -> Seq<char>
    decreases s, n,
{
    if n <= 0 || n > s.len() {
        seq![]
    } else {
        attrs_text(s, n - 1) + (if n == 1 {
            ""@
        } else {
            ", "@
        }) + attr_text(s[n - 1])
    }
}

/// The first `n` of some named attributes, separated by commas.
pub open spec fn dict_text(s: Seq<(Seq<char>, AttrV)>, n: int) -> Seq<char>
    decreases s, n,
{
    if n <= 0 || n > s.len() {
        seq![]
    } else {
        dict_text(s, n - 1) + (if n == 1 {
            ""@
        } else {
            ", "@
        }) + s[n - 1].0 + " = "@ + attr_text(s[n - 1].1)
    }
}

/// The hints for the first `n` architectures, separated by commas.
pub open spec fn hints_text(s: Seq<(Seq<char>, Seq<(Seq<char>, AttrV)>)>, n: int) -> Seq<char>
    decreases s, n,
{
    if n <= 0 || n > s.len() {
        seq![]
    } else {
        hints_text(s, n - 1) + (if n == 1 {
            ""@
        } else {
            ", "@
        }) + s[n - 1].0 + " = {"@ + dict_text(s[n - 1].1, s[n - 1].1.len() as int) + "}"@
    }
}

fn comma(first: bool) -> (r: &'static str)
    ensures
        r@ == (if first {
            ""@
        } else {
            ", "@
        }),
{
    if first {
        ""
    } else {
        ", "
    }
}

/// An attribute.
pub fn format_attr(a: &Attribute) -> (r: String)
    ensures
        r@ == attr_text(a@),
    decreases a, 0int,
{
    match a {
        Attribute::Integer(v, t) => {
            let mut r = format_signed(*v);
            r.append(" : ");
            r.append(format_type(t).as_str());
            r
        },
        Attribute::Float(v, t) => {
            let mut r: String = "bits ".to_owned();
            r.append(number_text(*v).as_str());
            r.append(" : ");
            r.append(format_type(t).as_str());
            r
        },
        Attribute::Bool(b) => format_bool(*b).to_owned(),
        Attribute::Type(t) => format_type(t),
        Attribute::String(s) => quoted_text(s.as_str()),
        Attribute::Array(v) => {
            let mut r: String = "[".to_owned();
            r.append(format_attrs(v).as_str());
            r.append("]");
            r
        },
        Attribute::DenseElements(d) => {
            let mut r: String = "dense<".to_owned();
            r.append(number_text(d.data.len() as u64).as_str());
            r.append(" bytes> : ");
            r.append(format_type(&d.element_type).as_str());
            r
        },
        Attribute::DenseI32Array(v) => {
            let mut r: String = "array<i32: ".to_owned();
            r.append(format_ints(v).as_str());
            r.append(">");
            r
        },
        Attribute::DivBy(d) => {
            let mut r: String = "div_by<".to_owned();
            r.append(number_text(d.divisor).as_str());
            r.append(", every ");
            r.append(format_option(d.every).as_str());
            r.append(", along ");
            r.append(format_option(d.along).as_str());
            r.append(">");
            r
        },
        Attribute::SameElements(s) => {
            let mut r: String = "same_elements<".to_owned();
            r.append(format_longs(&s.values).as_str());
            r.append(">");
            r
        },
        Attribute::Dictionary(v) => {
            let mut r: String = "{".to_owned();
            r.append(format_dict(v).as_str());
            r.append("}");
            r
        },
        Attribute::OptimizationHints(h) => {
            let mut r: String = "optimization_hints<".to_owned();
            r.append(format_hints(&h.entries).as_str());
            r.append(">");
            r
        },
        Attribute::Bounded(b) => {
            let mut r: String = "bounded<".to_owned();
            r.append(format_option(b.lb).as_str());
            r.append(", ");
            r.append(format_option(b.ub).as_str());
            r.append(">");
            r
        },
    }
}

fn format_attrs(v: &Vec<Attribute>) -> (r: String)
    ensures
        r@ == attrs_text(attr::attrs_view(v@), v@.len() as int),
    decreases v, v@.len(),
{
    let ghost l = attr::attrs_view(v@);
    let mut r: String = String::new();
    let mut i: usize = 0;
    while i < v.len()
        invariant
            i <= v@.len(),
            l == attr::attrs_view(v@),
            r@ == attrs_text(l, i as int),
        decreases v@.len() - i,
    {
        let t = format_attr(&v[i]);
        assert(l[i as int] == v@[i as int]@);
        r.append(comma(i == 0));
        r.append(t.as_str());
        i = i + 1;
    }
    r
}

fn format_dict(v: &Vec<(String, Attribute)>) -> (r: String)
    ensures
        r@ == dict_text(attr::dict_view(v@), v@.len() as int),
    decreases v, v@.len(),
{
    let ghost l = attr::dict_view(v@);
    let mut r: String = String::new();
    let mut i: usize = 0;
    while i < v.len()
        invariant
            i <= v@.len(),
            l == attr::dict_view(v@),
            r@ == dict_text(l, i as int),
        decreases v@.len() - i,
    {
        let t = format_attr(&v[i].1);
        assert(l[i as int] == (v@[i as int].0@, v@[i as int].1@));
        r.append(comma(i == 0));
        r.append(v[i].0.as_str());
        r.append(" = ");
        r.append(t.as_str());
        i = i + 1;
    }
    r
}

fn format_hints(v: &Vec<(String, Vec<(String, Attribute)>)>) -> (r: String)
    ensures
        r@ == hints_text(attr::hints_view(v@), v@.len() as int),
    decreases v, v@.len(),
{
    let ghost l = attr::hints_view(v@);
    let mut r: String = String::new();
    let mut i: usize = 0;
    while i < v.len()
        invariant
            i <= v@.len(),
            l == attr::hints_view(v@),
            r@ == hints_text(l, i as int),
        decreases v@.len() - i,
    {
        let t = format_dict(&v[i].1);
        assert(l[i as int] == (v@[i as int].0@, attr::dict_view(v@[i as int].1@)));
        r.append(comma(i == 0));
        r.append(v[i].0.as_str());
        r.append(" = {");
        r.append(t.as_str());
        r.append("}");
        i = i + 1;
    }
    r
}

} // verus!
