//! The type table: interning of types, their encoding and its inverse.
use vstd::prelude::*;
use crate::bytecode::encoding::EncodingReader;
use crate::bytecode::enums::BytecodeVersion;
use crate::bytecode::table;
use crate::bytecode::wire;
use crate::error::{ReadError, Subject};
use crate::ir::attr;
use crate::ir::types::{
    FuncType, GatherScatterViewType, PaddingValue, PartitionViewType, PointerType, ScalarType,
    StridedViewType, TensorViewType, TensorViewV, TileElementType, TileType, Type, TypeV,
};
use crate::ir::types;

verus! {

// ---------------------------------------------------------------------------
// Tags
// ---------------------------------------------------------------------------

pub const TAG_POINTER: u8 = 12;

pub const TAG_TILE: u8 = 13;

pub const TAG_TENSOR_VIEW: u8 = 14;

pub const TAG_PARTITION_VIEW: u8 = 15;

pub const TAG_FUNC: u8 = 16;

pub const TAG_TOKEN: u8 = 17;

pub const TAG_GATHER_SCATTER_VIEW: u8 = 21;

pub const TAG_STRIDED_VIEW: u8 = 22;

/// The tag of a scalar type.
pub open spec fn scalar_tag(s: ScalarType) -> u8 {
    match s {
        ScalarType::I1 => 0,
        ScalarType::I8 => 1,
        ScalarType::I16 => 2,
        ScalarType::I32 => 3,
        ScalarType::I64 => 4,
        ScalarType::F16 => 5,
        ScalarType::BF16 => 6,
        ScalarType::F32 => 7,
        ScalarType::TF32 => 8,
        ScalarType::F64 => 9,
        ScalarType::F8E4M3FN => 10,
        ScalarType::F8E5M2 => 11,
        ScalarType::F8E8M0FNU => 18,
        ScalarType::F4E2M1FN => 19,
        ScalarType::I4 => 20,
    }
}

/// The scalar type with the given tag.
pub open spec fn scalar_of_tag(t: u8) -> Option<ScalarType> {
    if t == 0 {
        Some(ScalarType::I1)
    } else if t == 1 {
        Some(ScalarType::I8)
    } else if t == 2 {
        Some(ScalarType::I16)
    } else if t == 3 {
        Some(ScalarType::I32)
    } else if t == 4 {
        Some(ScalarType::I64)
    } else if t == 5 {
        Some(ScalarType::F16)
    } else if t == 6 {
        Some(ScalarType::BF16)
    } else if t == 7 {
        Some(ScalarType::F32)
    } else if t == 8 {
        Some(ScalarType::TF32)
    } else if t == 9 {
        Some(ScalarType::F64)
    } else if t == 10 {
        Some(ScalarType::F8E4M3FN)
    } else if t == 11 {
        Some(ScalarType::F8E5M2)
    } else if t == 18 {
        Some(ScalarType::F8E8M0FNU)
    } else if t == 19 {
        Some(ScalarType::F4E2M1FN)
    } else if t == 20 {
        Some(ScalarType::I4)
    } else {
        None
    }
}

impl ScalarType {
    /// The tag of this type.
    pub fn type_tag(self) -> (r: u8)
        ensures
            r == scalar_tag(self),
    {
        match self {
            ScalarType::I1 => 0,
            ScalarType::I8 => 1,
            ScalarType::I16 => 2,
            ScalarType::I32 => 3,
            ScalarType::I64 => 4,
            ScalarType::F16 => 5,
            ScalarType::BF16 => 6,
            ScalarType::F32 => 7,
            ScalarType::TF32 => 8,
            ScalarType::F64 => 9,
            ScalarType::F8E4M3FN => 10,
            ScalarType::F8E5M2 => 11,
            ScalarType::F8E8M0FNU => 18,
            ScalarType::F4E2M1FN => 19,
            ScalarType::I4 => 20,
        }
    }

    /// The scalar type with the given tag.
    pub fn from_tag(t: u8) -> (r: Option<ScalarType>)
        ensures
            r == scalar_of_tag(t),
    {
        match t {
            0 => Some(ScalarType::I1),
            1 => Some(ScalarType::I8),
            2 => Some(ScalarType::I16),
            3 => Some(ScalarType::I32),
            4 => Some(ScalarType::I64),
            5 => Some(ScalarType::F16),
            6 => Some(ScalarType::BF16),
            7 => Some(ScalarType::F32),
            8 => Some(ScalarType::TF32),
            9 => Some(ScalarType::F64),
            10 => Some(ScalarType::F8E4M3FN),
            11 => Some(ScalarType::F8E5M2),
            18 => Some(ScalarType::F8E8M0FNU),
            19 => Some(ScalarType::F4E2M1FN),
            20 => Some(ScalarType::I4),
            _ => None,
        }
    }
}

/// Scalar tags are read back as the scalar they stand for.
pub proof fn lemma_scalar_tag_round_trip(s: ScalarType)
    ensures
        scalar_of_tag(scalar_tag(s)) == Some(s),
{
}

// ---------------------------------------------------------------------------
// Meaning of a table entry
// ---------------------------------------------------------------------------

/// The entry that an index refers to.
pub open spec fn lookup<T>(s: Seq<T>, idx: u64, what: Subject) -> Result<T, ReadError> {
    match wire::capped(idx, what) {
        Ok(i) => if i < s.len() {
            Ok(s[i])
        } else {
            Err(ReadError::IndexOutOfRange(what, idx))
        },
        Err(e) => Err(e),
    }
}

/// A type reference at position `p`: an index into the types decoded so far.
pub open spec fn type_ref_at(d: Seq<u8>, p: int, prev: Seq<TypeV>, what: Subject) -> Result<
    (TypeV, int),
    ReadError,
> {
    match wire::varint_at(d, p) {
        Ok((i, q)) => match lookup(prev, i, what) {
            Ok(t) => Ok((t, q)),
            Err(e) => Err(e),
        },
        Err(e) => Err(e),
    }
}

/// `n` type references at position `p`.
pub open spec fn type_refs_at(
    d: Seq<u8>,
    p: int,
    prev: Seq<TypeV>,
    what: Subject,
    n: int,
) -> Result<(Seq<TypeV>, int), ReadError>
    decreases n,
{
    if n <= 0 {
        Ok((seq![], p))
    } else {
        match type_refs_at(d, p, prev, what, n - 1) {
            Ok((s, q)) => match type_ref_at(d, q, prev, what) {
                Ok((t, q2)) => Ok((s.push(t), q2)),
                Err(e) => Err(e),
            },
            Err(e) => Err(e),
        }
    }
}

/// A counted list of type references at position `p`.
pub open spec fn type_list_at(d: Seq<u8>, p: int, prev: Seq<TypeV>, what: Subject) -> Result<
    (Seq<TypeV>, int),
    ReadError,
> {
    match wire::count_at(d, p, what) {
        Ok((n, q)) => type_refs_at(d, q, prev, what, n),
        Err(e) => Err(e),
    }
}

/// A reference to a tensor view at position `p`.
pub open spec fn tensor_view_ref_at(d: Seq<u8>, p: int, prev: Seq<TypeV>) -> Result<
    (TensorViewV, int),
    ReadError,
> {
    match type_ref_at(d, p, prev, Subject::ViewTensorView) {
        Ok((TypeV::TensorView(tv), q)) => Ok((tv, q)),
        Ok(_) => Err(ReadError::WrongTypeKind(Subject::ViewTensorView)),
        Err(e) => Err(e),
    }
}

/// The padding value that a byte stands for.
pub open spec fn padding_of(b: u8) -> Result<PaddingValue, ReadError> {
    match PaddingValue::spec_from_u8(b) {
        Some(v) => Ok(v),
        None => Err(ReadError::InvalidPaddingValue(b)),
    }
}

/// A padding byte at position `p` where one is present.
pub open spec fn padding_byte_at(d: Seq<u8>, p: int, present: bool) -> Result<
    (Option<PaddingValue>, int),
    ReadError,
> {
    if !present {
        Ok((None, p))
    } else {
        match wire::byte_at(d, p) {
            Ok((b, q)) => match padding_of(b) {
                Ok(v) => Ok((Some(v), q)),
                Err(e) => Err(e),
            },
            Err(e) => Err(e),
        }
    }
}

/// A padding value behind its presence byte, as versions before 13.3 have it.
pub open spec fn old_padding_at(d: Seq<u8>, p: int) -> Result<
    (Option<PaddingValue>, int),
    ReadError,
> {
    match wire::byte_at(d, p) {
        Ok((has, q)) => if has == 0 {
            Ok((None, q))
        } else {
            match wire::varint_at(d, q) {
                Ok((c, q2)) => match padding_of((c % 256) as u8) {
                    Ok(v) => Ok((Some(v), q2)),
                    Err(e) => Err(e),
                },
                Err(e) => Err(e),
            }
        },
        Err(e) => Err(e),
    }
}

/// The body of a pointer entry.
pub open spec fn pointer_at(d: Seq<u8>, p: int, prev: Seq<TypeV>) -> Result<
    (TypeV, int),
    ReadError,
> {
    match type_ref_at(d, p, prev, Subject::Pointee) {
        Ok((TypeV::Scalar(s), q)) => Ok((TypeV::Pointer(s), q)),
        Ok(_) => Err(ReadError::WrongTypeKind(Subject::Pointee)),
        Err(e) => Err(e),
    }
}

/// The tile element that a type is.
pub open spec fn tile_element(t: TypeV) -> Option<TileElementType> {
    match t {
        TypeV::Scalar(s) => Some(TileElementType::Scalar(s)),
        TypeV::Pointer(s) => Some(TileElementType::Pointer(PointerType { pointee: s })),
        _ => None,
    }
}

/// The body of a tile entry.
pub open spec fn tile_at(d: Seq<u8>, p: int, prev: Seq<TypeV>) -> Result<(TypeV, int), ReadError> {
    match type_ref_at(d, p, prev, Subject::TileElement) {
        Ok((t, q)) => match tile_element(t) {
            Some(e) => match wire::i64_array_at(d, q) {
                Ok((shape, q2)) => Ok((TypeV::Tile(shape, e), q2)),
                Err(e) => Err(e),
            },
            None => Err(ReadError::WrongTypeKind(Subject::TileElement)),
        },
        Err(e) => Err(e),
    }
}

/// The body of a tensor view entry.
pub open spec fn tensor_view_at(d: Seq<u8>, p: int, prev: Seq<TypeV>) -> Result<
    (TypeV, int),
    ReadError,
> {
    match type_ref_at(d, p, prev, Subject::TensorViewElement) {
        Ok((TypeV::Scalar(s), q)) => match wire::i64_array_at(d, q) {
            Ok((shape, q2)) => match wire::i64_array_at(d, q2) {
                Ok((strides, q3)) => Ok(
                    (TypeV::TensorView(TensorViewV { element_type: s, shape, strides }), q3),
                ),
                Err(e) => Err(e),
            },
            Err(e) => Err(e),
        },
        Ok(_) => Err(ReadError::WrongTypeKind(Subject::TensorViewElement)),
        Err(e) => Err(e),
    }
}

/// Tile shape, tensor view and dimension map of a partition view.
pub open spec fn partition_core_at(d: Seq<u8>, p: int, prev: Seq<TypeV>) -> Result<
    ((Seq<i32>, TensorViewV, Seq<i32>), int),
    ReadError,
> {
    match wire::i32_array_at(d, p) {
        Ok((shape, q)) => match tensor_view_ref_at(d, q, prev) {
            Ok((tv, q2)) => match wire::i32_array_at(d, q2) {
                Ok((dims, q3)) => Ok(((shape, tv, dims), q3)),
                Err(e) => Err(e),
            },
            Err(e) => Err(e),
        },
        Err(e) => Err(e),
    }
}

/// The body of a partition view entry.
pub open spec fn partition_view_at(d: Seq<u8>, p: int, prev: Seq<TypeV>, v13_3: bool) -> Result<
    (TypeV, int),
    ReadError,
> {
    if v13_3 {
        match wire::varint_at(d, p) {
            Ok((flags, q)) => match partition_core_at(d, q, prev) {
                Ok(((shape, tv, dims), q2)) => match padding_byte_at(d, q2, flags % 2 == 1) {
                    Ok((pad, q3)) => Ok((TypeV::PartitionView(shape, tv, dims, pad), q3)),
                    Err(e) => Err(e),
                },
                Err(e) => Err(e),
            },
            Err(e) => Err(e),
        }
    } else {
        match partition_core_at(d, p, prev) {
            Ok(((shape, tv, dims), q2)) => match old_padding_at(d, q2) {
                Ok((pad, q3)) => Ok((TypeV::PartitionView(shape, tv, dims, pad), q3)),
                Err(e) => Err(e),
            },
            Err(e) => Err(e),
        }
    }
}

/// The body of a gather/scatter view entry.
pub open spec fn gather_view_at(d: Seq<u8>, p: int, prev: Seq<TypeV>) -> Result<
    (TypeV, int),
    ReadError,
> {
    match wire::varint_at(d, p) {
        Ok((flags, q)) => match wire::i32_array_at(d, q) {
            Ok((shape, q2)) => match tensor_view_ref_at(d, q2, prev) {
                Ok((tv, q3)) => match wire::varint_at(d, q3) {
                    Ok((dim, q4)) => match padding_byte_at(d, q4, flags % 2 == 1) {
                        Ok((pad, q5)) => Ok(
                            (
                                TypeV::GatherScatterView(
                                    shape,
                                    tv,
                                    wire::i32_of_pattern(dim as int % 0x1_0000_0000),
                                    pad,
                                ),
                                q5,
                            ),
                        ),
                        Err(e) => Err(e),
                    },
                    Err(e) => Err(e),
                },
                Err(e) => Err(e),
            },
            Err(e) => Err(e),
        },
        Err(e) => Err(e),
    }
}

/// The body of a strided view entry.
pub open spec fn strided_view_at(d: Seq<u8>, p: int, prev: Seq<TypeV>) -> Result<
    (TypeV, int),
    ReadError,
> {
    match wire::varint_at(d, p) {
        Ok((flags, q)) => match wire::i32_array_at(d, q) {
            Ok((shape, q2)) => match partition_core_at(d, q2, prev) {
                Ok(((strides, tv, dims), q3)) => match padding_byte_at(d, q3, flags % 2 == 1) {
                    Ok((pad, q4)) => Ok((TypeV::StridedView(shape, strides, tv, dims, pad), q4)),
                    Err(e) => Err(e),
                },
                Err(e) => Err(e),
            },
            Err(e) => Err(e),
        },
        Err(e) => Err(e),
    }
}

/// The body of a function type entry.
pub open spec fn func_type_at(d: Seq<u8>, p: int, prev: Seq<TypeV>) -> Result<
    (TypeV, int),
    ReadError,
> {
    match type_list_at(d, p, prev, Subject::FuncInput) {
        Ok((inputs, q)) => match type_list_at(d, q, prev, Subject::FuncResult) {
            Ok((results, q2)) => Ok((TypeV::Func(inputs, results), q2)),
            Err(e) => Err(e),
        },
        Err(e) => Err(e),
    }
}

/// The type table entry at position `p`; `prev` holds the entries before it.
pub open spec fn type_entry_at(
    d: Seq<u8>,
    p: int,
    prev: Seq<TypeV>,
    version: BytecodeVersion,
) -> Result<(TypeV, int), ReadError> {
    match wire::varint_at(d, p) {
        Ok((tag, q)) => {
            let t = (tag % 256) as u8;
            match scalar_of_tag(t) {
                Some(s) => Ok((TypeV::Scalar(s), q)),
                None => if t == TAG_TOKEN {
                    Ok((TypeV::Token, q))
                } else if t == TAG_POINTER {
                    pointer_at(d, q, prev)
                } else if t == TAG_TILE {
                    tile_at(d, q, prev)
                } else if t == TAG_TENSOR_VIEW {
                    tensor_view_at(d, q, prev)
                } else if t == TAG_PARTITION_VIEW {
                    partition_view_at(d, q, prev, version.spec_v13_3())
                } else if t == TAG_GATHER_SCATTER_VIEW {
                    gather_view_at(d, q, prev)
                } else if t == TAG_STRIDED_VIEW {
                    strided_view_at(d, q, prev)
                } else if t == TAG_FUNC {
                    func_type_at(d, q, prev)
                } else {
                    Err(ReadError::UnknownTypeTag(t))
                },
            }
        },
        Err(e) => Err(e),
    }
}

/// The types of the first `n` table entries.
pub open spec fn types_of_entries(
    entries: Seq<Seq<u8>>,
    version: BytecodeVersion,
    n: int,
) -> Result<Seq<TypeV>, ReadError>
    decreases n,
{
    if n <= 0 {
        Ok(seq![])
    } else {
        match types_of_entries(entries, version, n - 1) {
            Ok(prev) => match type_entry_at(entries[n - 1], 0, prev, version) {
                Ok((t, q)) => if q != entries[n - 1].len() {
                    Err(ReadError::TrailingBytes(Subject::Type, (n - 1) as u64))
                } else {
                    Ok(prev.push(t))
                },
                Err(e) => Err(e),
            },
            Err(e) => Err(e),
        }
    }
}

/// The types of a type section, none where the section is absent.
pub open spec fn type_section(payload: Option<Seq<u8>>, version: BytecodeVersion) -> Result<
    Seq<TypeV>,
    ReadError,
> {
    match payload {
        None => Ok(seq![]),
        Some(d) => match table::table_at(d, Subject::Type, 4) {
            Ok(entries) => types_of_entries(entries, version, entries.len() as int),
            Err(e) => Err(e),
        },
    }
}

// ---------------------------------------------------------------------------
// Reading
// ---------------------------------------------------------------------------

/// The type that an index refers to.
pub fn lookup_type(list: &Vec<Type>, idx: u64, what: Subject) -> (res: Result<&Type, ReadError>)
    ensures
        match lookup(types::types_view(list@), idx, what) {
            Ok(t) => res is Ok && res->Ok_0@ == t,
            Err(e) => res == Err::<&Type, ReadError>(e),
        },
{
    if idx > 0xFFFF_FFFF {
        return Err(ReadError::CountOutOfRange(what, idx));
    }
    if idx as usize >= list.len() {
        return Err(ReadError::IndexOutOfRange(what, idx));
    }
    Ok(&list[idx as usize])
}

/// Read a type reference.
pub fn read_type_ref<'b>(r: &mut EncodingReader, prev: &'b Vec<Type>, what: Subject) -> (res: Result<
    &'b Type,
    ReadError,
>)
    requires
        old(r).wf(),
    ensures
        final(r).wf(),
        res is Ok ==> final(r).at() > old(r).at(),
        final(r).bytes() == old(r).bytes(),
        final(r).at() >= old(r).at(),
        match type_ref_at(old(r).bytes(), old(r).at(), types::types_view(prev@), what) {
            Ok((t, q)) => res is Ok && res->Ok_0@ == t && final(r).at() == q,
            Err(e) => res == Err::<&'b Type, ReadError>(e),
        },
{
    let idx: u64 = r.read_varint()?;
    lookup_type(prev, idx, what)
}

pub proof fn lemma_type_refs_error(
    d: Seq<u8>,
    p: int,
    prev: Seq<TypeV>,
    what: Subject,
    k: int,
    n: int,
)
    requires
        0 <= k <= n,
        type_refs_at(d, p, prev, what, k) is Err,
    ensures
        type_refs_at(d, p, prev, what, n) == type_refs_at(d, p, prev, what, k),
    decreases n,
{
    if n > k {
        lemma_type_refs_error(d, p, prev, what, k, n - 1);
    }
}

/// Read a counted list of type references.
fn read_type_list(r: &mut EncodingReader, prev: &Vec<Type>, what: Subject) -> (res: Result<
    Vec<Type>,
    ReadError,
>)
    requires
        old(r).wf(),
    ensures
        final(r).wf(),
        final(r).bytes() == old(r).bytes(),
        final(r).at() >= old(r).at(),
        match type_list_at(old(r).bytes(), old(r).at(), types::types_view(prev@), what) {
            Ok((s, q)) => res is Ok && types::types_view(res->Ok_0@) == s && final(r).at() == q,
            Err(e) => res == Err::<Vec<Type>, ReadError>(e),
        },
{
    let n: usize = r.read_count(what)?;
    let ghost d = r.bytes();
    let ghost q0 = r.at();
    let ghost pv = types::types_view(prev@);
    let mut out: Vec<Type> = Vec::new();
    let mut i: usize = 0;
    assert(types::types_view(out@) =~= seq![]);
    while i < n
        invariant
            i <= n,
            r.wf(),
            r.bytes() == d,
            r.at() >= old(r).at(),
            d == old(r).bytes(),
            pv == types::types_view(prev@),
            type_list_at(d, old(r).at(), pv, what) == type_refs_at(d, q0, pv, what, n as int),
            type_refs_at(d, q0, pv, what, i as int) == Ok::<(Seq<TypeV>, int), ReadError>(
                (types::types_view(out@), r.at()),
            ),
        decreases n - i,
    {
        proof {
            if type_refs_at(d, q0, pv, what, i + 1) is Err {
                lemma_type_refs_error(d, q0, pv, what, i + 1, n as int);
            }
        }
        let t: &Type = read_type_ref(r, prev, what)?;
        let c: Type = t.duplicate();
        proof {
            attr::lemma_types_view_push(out@, c);
        }
        out.push(c);
        i = i + 1;
    }
    Ok(out)
}

/// Read a reference to a tensor view.
fn read_tensor_view_ref(r: &mut EncodingReader, prev: &Vec<Type>) -> (res: Result<
    TensorViewType,
    ReadError,
>)
    requires
        old(r).wf(),
    ensures
        final(r).wf(),
        final(r).bytes() == old(r).bytes(),
        final(r).at() >= old(r).at(),
        match tensor_view_ref_at(old(r).bytes(), old(r).at(), types::types_view(prev@)) {
            Ok((t, q)) => res is Ok && res->Ok_0@ == t && final(r).at() == q,
            Err(e) => res == Err::<TensorViewType, ReadError>(e),
        },
{
    match read_type_ref(r, prev, Subject::ViewTensorView)? {
        Type::TensorView(tv) => Ok(tv.duplicate()),
        _ => Err(ReadError::WrongTypeKind(Subject::ViewTensorView)),
    }
}

/// The padding value that a byte stands for.
fn padding_value_from_u8(p: u8) -> (res: Result<PaddingValue, ReadError>)
    ensures
        res == padding_of(p),
{
    match PaddingValue::from_u8(p) {
        Some(v) => Ok(v),
        None => Err(ReadError::InvalidPaddingValue(p)),
    }
}

/// Read a padding byte where one is present.
fn read_padding_byte(r: &mut EncodingReader, present: bool) -> (res: Result<
    Option<PaddingValue>,
    ReadError,
>)
    requires
        old(r).wf(),
    ensures
        crate::bytecode::encoding::reads(
            res,
            *old(r),
            *final(r),
            padding_byte_at(old(r).bytes(), old(r).at(), present),
        ),
{
    if !present {
        return Ok(None);
    }
    let b: u8 = r.read_byte()?;
    let v: PaddingValue = padding_value_from_u8(b)?;
    Ok(Some(v))
}

/// Read a padding value behind its presence byte.
fn read_old_padding(r: &mut EncodingReader) -> (res: Result<Option<PaddingValue>, ReadError>)
    requires
        old(r).wf(),
    ensures
        crate::bytecode::encoding::reads(
            res,
            *old(r),
            *final(r),
            old_padding_at(old(r).bytes(), old(r).at()),
        ),
{
    let has: u8 = r.read_byte()?;
    if has == 0 {
        return Ok(None);
    }
    let c: u64 = r.read_varint()?;
    let v: PaddingValue = padding_value_from_u8((c % 256) as u8)?;
    Ok(Some(v))
}

/// Read tile shape, tensor view and dimension map.
fn read_partition_core(r: &mut EncodingReader, prev: &Vec<Type>) -> (res: Result<
    (Vec<i32>, TensorViewType, Vec<i32>),
    ReadError,
>)
    requires
        old(r).wf(),
    ensures
        final(r).wf(),
        final(r).bytes() == old(r).bytes(),
        final(r).at() >= old(r).at(),
        match partition_core_at(old(r).bytes(), old(r).at(), types::types_view(prev@)) {
            Ok(((a, t, b), q)) => res is Ok && res->Ok_0.0@ == a && res->Ok_0.1@ == t
                && res->Ok_0.2@ == b && final(r).at() == q,
            Err(e) => res == Err::<(Vec<i32>, TensorViewType, Vec<i32>), ReadError>(e),
        },
{
    let shape: Vec<i32> = r.read_le_var_size_i32()?;
    let tensor_view: TensorViewType = read_tensor_view_ref(r, prev)?;
    let dims: Vec<i32> = r.read_le_var_size_i32()?;
    Ok((shape, tensor_view, dims))
}

/// Read one entry of the type table; `prev` holds the entries before it.
pub fn read_type_entry(r: &mut EncodingReader, prev: &Vec<Type>, version: BytecodeVersion) -> (res:
    Result<Type, ReadError>)
    requires
        old(r).wf(),
    ensures
        final(r).wf(),
        final(r).bytes() == old(r).bytes(),
        final(r).at() >= old(r).at(),
        match type_entry_at(old(r).bytes(), old(r).at(), types::types_view(prev@), version) {
            Ok((t, q)) => res is Ok && res->Ok_0@ == t && final(r).at() == q,
            Err(e) => res == Err::<Type, ReadError>(e),
        },
{
    let tag: u64 = r.read_varint()?;
    let t: u8 = (tag % 256) as u8;
    match ScalarType::from_tag(t) {
        Some(s) => {
            return Ok(Type::Scalar(s));
        },
        None => {},
    }
    if t == TAG_TOKEN {
        Ok(Type::Token)
    } else if t == TAG_POINTER {
        match read_type_ref(r, prev, Subject::Pointee)? {
            Type::Scalar(s) => Ok(Type::Pointer(PointerType { pointee: *s })),
            _ => Err(ReadError::WrongTypeKind(Subject::Pointee)),
        }
    } else if t == TAG_TILE {
        let element_type: TileElementType = match read_type_ref(r, prev, Subject::TileElement)? {
            Type::Scalar(s) => TileElementType::Scalar(*s),
            Type::Pointer(p) => TileElementType::Pointer(*p),
            _ => return Err(ReadError::WrongTypeKind(Subject::TileElement)),
        };
        let shape: Vec<i64> = r.read_le_var_size_i64()?;
        Ok(Type::Tile(TileType { shape, element_type }))
    } else if t == TAG_TENSOR_VIEW {
        let element_type: ScalarType = match read_type_ref(r, prev, Subject::TensorViewElement)? {
            Type::Scalar(s) => *s,
            _ => return Err(ReadError::WrongTypeKind(Subject::TensorViewElement)),
        };
        let shape: Vec<i64> = r.read_le_var_size_i64()?;
        let strides: Vec<i64> = r.read_le_var_size_i64()?;
        Ok(Type::TensorView(TensorViewType { element_type, shape, strides }))
    } else if t == TAG_PARTITION_VIEW {
        if version.is_v13_3() {
            let flags: u64 = r.read_varint()?;
            let (tile_shape, tensor_view, dim_map) = read_partition_core(r, prev)?;
            let padding_value = read_padding_byte(r, flags % 2 == 1)?;
            Ok(
                Type::PartitionView(
                    PartitionViewType { tile_shape, tensor_view, dim_map, padding_value },
                ),
            )
        } else {
            let (tile_shape, tensor_view, dim_map) = read_partition_core(r, prev)?;
            let padding_value = read_old_padding(r)?;
            Ok(
                Type::PartitionView(
                    PartitionViewType { tile_shape, tensor_view, dim_map, padding_value },
                ),
            )
        }
    } else if t == TAG_GATHER_SCATTER_VIEW {
        let flags: u64 = r.read_varint()?;
        let tile_shape: Vec<i32> = r.read_le_var_size_i32()?;
        let tensor_view: TensorViewType = read_tensor_view_ref(r, prev)?;
        let dim: u64 = r.read_varint()? % 0x1_0000_0000;
        let sparse_dim: i32 = if dim >= 0x8000_0000 {
            (dim as i64 - 0x1_0000_0000) as i32
        } else {
            dim as i32
        };
        let padding_value = read_padding_byte(r, flags % 2 == 1)?;
        Ok(
            Type::GatherScatterView(
                GatherScatterViewType { tile_shape, tensor_view, sparse_dim, padding_value },
            ),
        )
    } else if t == TAG_STRIDED_VIEW {
        let flags: u64 = r.read_varint()?;
        let tile_shape: Vec<i32> = r.read_le_var_size_i32()?;
        let (traversal_strides, tensor_view, dim_map) = read_partition_core(r, prev)?;
        let padding_value = read_padding_byte(r, flags % 2 == 1)?;
        Ok(
            Type::StridedView(
                StridedViewType { tile_shape, traversal_strides, tensor_view, dim_map, padding_value },
            ),
        )
    } else if t == TAG_FUNC {
        let inputs: Vec<Type> = read_type_list(r, prev, Subject::FuncInput)?;
        let results: Vec<Type> = read_type_list(r, prev, Subject::FuncResult)?;
        Ok(Type::Func(FuncType { inputs, results }))
    } else {
        Err(ReadError::UnknownTypeTag(t))
    }
}

proof fn lemma_types_of_entries_error(
    entries: Seq<Seq<u8>>,
    version: BytecodeVersion,
    k: int,
    n: int,
)
    requires
        0 <= k <= n,
        types_of_entries(entries, version, k) is Err,
    ensures
        types_of_entries(entries, version, n) == types_of_entries(entries, version, k),
    decreases n,
{
    if n > k {
        lemma_types_of_entries_error(entries, version, k, n - 1);
    }
}

/// The bytes of an optional section.
pub open spec fn payload_view(p: Option<&[u8]>) -> Option<Seq<u8>> {
    match p {
        Some(d) => Some(d@),
        None => None,
    }
}

/// Read the type section.
pub fn parse_type_section(payload: Option<&[u8]>, version: BytecodeVersion) -> (res: Result<
    Vec<Type>,
    ReadError,
>)
    ensures
        match type_section(payload_view(payload), version) {
            Ok(s) => res is Ok && types::types_view(res->Ok_0@) == s,
            Err(e) => res == Err::<Vec<Type>, ReadError>(e),
        },
{
    let data: &[u8] = match payload {
        Some(data) => data,
        None => {
            let none: Vec<Type> = Vec::new();
            assert(types::types_view(none@) =~= seq![]);
            return Ok(none);
        },
    };
    let tab = table::read_offset_table(data, Subject::Type, 4)?;
    let ghost entries = tab.entries();
    let n: usize = tab.len();
    let mut list: Vec<Type> = Vec::new();
    let mut i: usize = 0;
    assert(types::types_view(list@) =~= seq![]);
    while i < n
        invariant
            i <= n,
            tab.wf(),
            tab.entries() == entries,
            n == entries.len(),
            type_section(payload_view(payload), version) == types_of_entries(
                entries,
                version,
                n as int,
            ),
            types_of_entries(entries, version, i as int) == Ok::<Seq<TypeV>, ReadError>(
                types::types_view(list@),
            ),
        decreases n - i,
    {
        proof {
            if types_of_entries(entries, version, i + 1) is Err {
                lemma_types_of_entries_error(entries, version, i + 1, n as int);
            }
        }
        let mut er = EncodingReader::new(tab.entry(i));
        let ty: Type = read_type_entry(&mut er, &list, version)?;
        if er.remaining() != 0 {
            return Err(ReadError::TrailingBytes(Subject::Type, i as u64));
        }
        proof {
            attr::lemma_types_view_push(list@, ty);
        }
        list.push(ty);
        i = i + 1;
    }
    Ok(list)
}

} // verus!
