//! Types of tile IR values.
use vstd::prelude::*;

verus! {

/// Scalar element types.
#[derive(Clone, Copy, Debug, PartialEq, Eq, Hash, Structural)]
pub enum ScalarType {
    I1,
    I4,
    I8,
    I16,
    I32,
    I64,
    F16,
    BF16,
    F32,
    TF32,
    F64,
    F8E4M3FN,
    F8E5M2,
    F8E8M0FNU,
    F4E2M1FN,
}

/// What an out-of-bounds element of a view reads as.
#[derive(Clone, Copy, Debug, PartialEq, Eq, Hash, Structural)]
pub enum PaddingValue {
    Zero,
    NegZero,
    Nan,
    PosInf,
    NegInf,
}

impl PaddingValue {
    /// The byte that stands for this value.
    pub open spec fn spec_code(self) -> u8 {
        match self {
            PaddingValue::Zero => 0,
            PaddingValue::NegZero => 1,
            PaddingValue::Nan => 2,
            PaddingValue::PosInf => 3,
            PaddingValue::NegInf => 4,
        }
    }

    /// The byte that stands for this value.
    pub fn code(self) -> (r: u8)
        ensures
            r == self.spec_code(),
    {
        match self {
            PaddingValue::Zero => 0,
            PaddingValue::NegZero => 1,
            PaddingValue::Nan => 2,
            PaddingValue::PosInf => 3,
            PaddingValue::NegInf => 4,
        }
    }

    /// The value that a byte stands for.
    pub open spec fn spec_from_u8(b: u8) -> Option<PaddingValue> {
        if b == 0 {
            Some(PaddingValue::Zero)
        } else if b == 1 {
            Some(PaddingValue::NegZero)
        } else if b == 2 {
            Some(PaddingValue::Nan)
        } else if b == 3 {
            Some(PaddingValue::PosInf)
        } else if b == 4 {
            Some(PaddingValue::NegInf)
        } else {
            None
        }
    }

    /// The value that a byte stands for.
    pub fn from_u8(b: u8) -> (r: Option<PaddingValue>)
        ensures
            r == PaddingValue::spec_from_u8(b),
    {
        match b {
            0 => Some(PaddingValue::Zero),
            1 => Some(PaddingValue::NegZero),
            2 => Some(PaddingValue::Nan),
            3 => Some(PaddingValue::PosInf),
            4 => Some(PaddingValue::NegInf),
            _ => None,
        }
    }
}

/// A pointer to a scalar.
#[derive(Clone, Copy, Debug, PartialEq, Eq, Hash, Structural)]
pub struct PointerType {
    pub pointee: ScalarType,
}

/// The element type of a tile.
#[derive(Clone, Copy, Debug, PartialEq, Eq, Hash, Structural)]
pub enum TileElementType {
    Scalar(ScalarType),
    Pointer(PointerType),
}

/// A tile of elements.
pub struct TileType {
    pub shape: Vec<i64>,
    pub element_type: TileElementType,
}

/// A view of memory as a strided tensor.
pub struct TensorViewType {
    pub element_type: ScalarType,
    pub shape: Vec<i64>,
    pub strides: Vec<i64>,
}

/// A tensor view cut into equal tiles.
pub struct PartitionViewType {
    pub tile_shape: Vec<i32>,
    pub tensor_view: TensorViewType,
    pub dim_map: Vec<i32>,
    pub padding_value: Option<PaddingValue>,
}

/// A tensor view with one sparsely indexed dimension.
pub struct GatherScatterViewType {
    pub tile_shape: Vec<i32>,
    pub tensor_view: TensorViewType,
    pub sparse_dim: i32,
    pub padding_value: Option<PaddingValue>,
}

/// A tensor view traversed with strides.
pub struct StridedViewType {
    pub tile_shape: Vec<i32>,
    pub traversal_strides: Vec<i32>,
    pub tensor_view: TensorViewType,
    pub dim_map: Vec<i32>,
    pub padding_value: Option<PaddingValue>,
}

/// A function signature.
pub struct FuncType {
    pub inputs: Vec<Type>,
    pub results: Vec<Type>,
}

/// A type.
pub enum Type {
    Scalar(ScalarType),
    Pointer(PointerType),
    Tile(TileType),
    TensorView(TensorViewType),
    PartitionView(PartitionViewType),
    GatherScatterView(GatherScatterViewType),
    StridedView(StridedViewType),
    Func(FuncType),
    Token,
}

/// The contents of a tensor view type.
#[verifier::ext_equal]
pub struct TensorViewV {
    pub element_type: ScalarType,
    pub shape: Seq<i64>,
    pub strides: Seq<i64>,
}

/// The contents of a type.
#[verifier::ext_equal]
pub enum TypeV {
    Scalar(ScalarType),
    Pointer(ScalarType),
    Tile(Seq<i64>, TileElementType),
    TensorView(TensorViewV),
    PartitionView(Seq<i32>, TensorViewV, Seq<i32>, Option<PaddingValue>),
    GatherScatterView(Seq<i32>, TensorViewV, i32, Option<PaddingValue>),
    StridedView(Seq<i32>, Seq<i32>, TensorViewV, Seq<i32>, Option<PaddingValue>),
    Func(Seq<TypeV>, Seq<TypeV>),
    Token,
}

/// The contents of a type.
pub open spec fn type_view(t: Type) -> TypeV
    decreases t,
{
    match t {
        Type::Scalar(s) => TypeV::Scalar(s),
        Type::Pointer(p) => TypeV::Pointer(p.pointee),
        Type::Tile(t) => TypeV::Tile(t.shape@, t.element_type),
        Type::TensorView(v) => TypeV::TensorView(v@),
        Type::PartitionView(v) => TypeV::PartitionView(
            v.tile_shape@,
            v.tensor_view@,
            v.dim_map@,
            v.padding_value,
        ),
        Type::GatherScatterView(v) => TypeV::GatherScatterView(
            v.tile_shape@,
            v.tensor_view@,
            v.sparse_dim,
            v.padding_value,
        ),
        Type::StridedView(v) => TypeV::StridedView(
            v.tile_shape@,
            v.traversal_strides@,
            v.tensor_view@,
            v.dim_map@,
            v.padding_value,
        ),
        Type::Func(f) => TypeV::Func(types_view(f.inputs@), types_view(f.results@)),
        Type::Token => TypeV::Token,
    }
}

/// The contents of a sequence of types.
pub open spec fn types_view(s: Seq<Type>) -> Seq<TypeV>
    decreases s,
{
    Seq::new(
        s.len(),
        |i: int|
            if 0 <= i < s.len() {
                type_view(s[i])
            } else {
                TypeV::Token
            },
    )
}

impl View for TensorViewType {
    type V = TensorViewV;

    open spec fn view(&self) -> TensorViewV {
        TensorViewV { element_type: self.element_type, shape: self.shape@, strides: self.strides@ }
    }
}

impl View for Type {
    type V = TypeV;

    open spec fn view(&self) -> TypeV {
        type_view(*self)
    }
}

/// A copy of a vector of integers.
pub fn copy_i64s(v: &Vec<i64>) -> (r: Vec<i64>)
    ensures
        r@ == v@,
{
    let mut r: Vec<i64> = Vec::new();
    let mut i: usize = 0;
    while i < v.len()
        invariant
            i <= v.len(),
            r@ == v@.take(i as int),
        decreases v.len() - i,
    {
        r.push(v[i]);
        i = i + 1;
        assert(r@ =~= v@.take(i as int));
    }
    assert(r@ =~= v@);
    r
}

/// A copy of a vector of integers.
pub fn copy_i32s(v: &Vec<i32>) -> (r: Vec<i32>)
    ensures
        r@ == v@,
{
    let mut r: Vec<i32> = Vec::new();
    let mut i: usize = 0;
    while i < v.len()
        invariant
            i <= v.len(),
            r@ == v@.take(i as int),
        decreases v.len() - i,
    {
        r.push(v[i]);
        i = i + 1;
        assert(r@ =~= v@.take(i as int));
    }
    assert(r@ =~= v@);
    r
}

/// Whether two vectors hold the same integers.
pub fn same_i64s(a: &Vec<i64>, b: &Vec<i64>) -> (r: bool)
    ensures
        r == (a@ == b@),
{
    if a.len() != b.len() {
        return false;
    }
    let mut i: usize = 0;
    while i < a.len()
        invariant
            a.len() == b.len(),
            i <= a.len(),
            forall|j: int| 0 <= j < i ==> a@[j] == b@[j],
        decreases a.len() - i,
    {
        if a[i] != b[i] {
            return false;
        }
        i = i + 1;
    }
    assert(a@ =~= b@);
    true
}

/// Whether two vectors hold the same integers.
pub fn same_i32s(a: &Vec<i32>, b: &Vec<i32>) -> (r: bool)
    ensures
        r == (a@ == b@),
{
    if a.len() != b.len() {
        return false;
    }
    let mut i: usize = 0;
    while i < a.len()
        invariant
            a.len() == b.len(),
            i <= a.len(),
            forall|j: int| 0 <= j < i ==> a@[j] == b@[j],
        decreases a.len() - i,
    {
        if a[i] != b[i] {
            return false;
        }
        i = i + 1;
    }
    assert(a@ =~= b@);
    true
}

impl TensorViewType {
    /// A copy.
    pub fn duplicate(&self) -> (r: TensorViewType)
        ensures
            r@ == self@,
    {
        TensorViewType {
            element_type: self.element_type,
            shape: copy_i64s(&self.shape),
            strides: copy_i64s(&self.strides),
        }
    }

    /// Whether two tensor views are the same.
    pub fn same(&self, other: &TensorViewType) -> (r: bool)
        ensures
            r == (self@ == other@),
    {
        self.element_type == other.element_type && same_i64s(&self.shape, &other.shape)
            && same_i64s(&self.strides, &other.strides)
    }
}

impl Type {
    /// A copy.
    pub fn duplicate(&self) -> (r: Type)
        ensures
            r@ == self@,
        decreases *self,
    {
        match self {
            Type::Scalar(s) => Type::Scalar(*s),
            Type::Pointer(p) => Type::Pointer(*p),
            Type::Tile(t) => Type::Tile(
                TileType { shape: copy_i64s(&t.shape), element_type: t.element_type },
            ),
            Type::TensorView(v) => Type::TensorView(v.duplicate()),
            Type::PartitionView(v) => Type::PartitionView(
                PartitionViewType {
                    tile_shape: copy_i32s(&v.tile_shape),
                    tensor_view: v.tensor_view.duplicate(),
                    dim_map: copy_i32s(&v.dim_map),
                    padding_value: v.padding_value,
                },
            ),
            Type::GatherScatterView(v) => Type::GatherScatterView(
                GatherScatterViewType {
                    tile_shape: copy_i32s(&v.tile_shape),
                    tensor_view: v.tensor_view.duplicate(),
                    sparse_dim: v.sparse_dim,
                    padding_value: v.padding_value,
                },
            ),
            Type::StridedView(v) => Type::StridedView(
                StridedViewType {
                    tile_shape: copy_i32s(&v.tile_shape),
                    traversal_strides: copy_i32s(&v.traversal_strides),
                    tensor_view: v.tensor_view.duplicate(),
                    dim_map: copy_i32s(&v.dim_map),
                    padding_value: v.padding_value,
                },
            ),
            Type::Func(f) => {
                let inputs: Vec<Type> = duplicate_types(&f.inputs);
                let results: Vec<Type> = duplicate_types(&f.results);
                Type::Func(FuncType { inputs, results })
            },
            Type::Token => Type::Token,
        }
    }

    /// Whether two types are the same.
    pub fn same(&self, other: &Type) -> (r: bool)
        ensures
            r == (self@ == other@),
        decreases *self,
    {
        match (self, other) {
            (Type::Scalar(a), Type::Scalar(b)) => *a == *b,
            (Type::Pointer(a), Type::Pointer(b)) => a.pointee == b.pointee,
            (Type::Tile(a), Type::Tile(b)) => a.element_type == b.element_type && same_i64s(
                &a.shape,
                &b.shape,
            ),
            (Type::TensorView(a), Type::TensorView(b)) => a.same(b),
            (Type::PartitionView(a), Type::PartitionView(b)) => same_i32s(
                &a.tile_shape,
                &b.tile_shape,
            ) && a.tensor_view.same(&b.tensor_view) && same_i32s(&a.dim_map, &b.dim_map)
                && a.padding_value == b.padding_value,
            (Type::GatherScatterView(a), Type::GatherScatterView(b)) => same_i32s(
                &a.tile_shape,
                &b.tile_shape,
            ) && a.tensor_view.same(&b.tensor_view) && a.sparse_dim == b.sparse_dim
                && a.padding_value == b.padding_value,
            (Type::StridedView(a), Type::StridedView(b)) => same_i32s(
                &a.tile_shape,
                &b.tile_shape,
            ) && same_i32s(&a.traversal_strides, &b.traversal_strides) && a.tensor_view.same(
                &b.tensor_view,
            ) && same_i32s(&a.dim_map, &b.dim_map) && a.padding_value == b.padding_value,
            (Type::Func(a), Type::Func(b)) => {
                same_types(&a.inputs, &b.inputs) && same_types(&a.results, &b.results)
            },
            (Type::Token, Type::Token) => true,
            _ => false,
        }
    }

    /// The shape of a tile type, empty for any other type.
    pub fn tile_shape(&self) -> (r: Vec<i64>)
        ensures
            r@ == tile_shape_of(self@),
    {
        match self {
            Type::Tile(t) => copy_i64s(&t.shape),
            _ => {
                let r: Vec<i64> = Vec::new();
                assert(r@ =~= tile_shape_of(self@));
                r
            },
        }
    }
}

/// Copies of types.
pub fn duplicate_types(v: &Vec<Type>) -> (r: Vec<Type>)
    ensures
        types_view(r@) == types_view(v@),
    decreases v@,
{
    let mut r: Vec<Type> = Vec::new();
    let mut i: usize = 0;
    assert(types_view(r@) =~= types_view(v@).take(0));
    while i < v.len()
        invariant
            i <= v.len(),
            r.len() == i,
            forall|j: int| 0 <= j < i ==> (#[trigger] r@[j])@ == v@[j]@,
        decreases v.len() - i,
    {
        let t: Type = v[i].duplicate();
        r.push(t);
        i = i + 1;
    }
    assert(types_view(r@) =~= types_view(v@));
    r
}

/// Whether two vectors hold the same types.
pub fn same_types(a: &Vec<Type>, b: &Vec<Type>) -> (r: bool)
    ensures
        r == (types_view(a@) == types_view(b@)),
    decreases a@,
{
    if a.len() != b.len() {
        assert(types_view(a@).len() != types_view(b@).len());
        return false;
    }
    let mut i: usize = 0;
    while i < a.len()
        invariant
            a.len() == b.len(),
            i <= a.len(),
            forall|j: int| 0 <= j < i ==> types_view(a@)[j] == types_view(b@)[j],
        decreases a.len() - i,
    {
        if !a[i].same(&b[i]) {
            assert(types_view(a@)[i as int] != types_view(b@)[i as int]);
            return false;
        }
        i = i + 1;
    }
    assert(types_view(a@) =~= types_view(b@));
    true
}

/// The shape of a tile type, empty for any other type.
pub open spec fn tile_shape_of(t: TypeV) -> Seq<i64> {
    match t {
        TypeV::Tile(shape, _) => shape,
        _ => Seq::empty(),
    }
}

} // verus!
