//! Attributes in their self-contained form, and the tables that they refer to.
use vstd::prelude::*;
use crate::bytecode::encoding::EncodingReader;
use crate::bytecode::encoding;
use crate::bytecode::table::{copy_bytes, read_offset_table};
use crate::bytecode::table;
use crate::bytecode::types::read_type_ref;
use crate::bytecode::types as wire_types;
use crate::bytecode::wire;
use crate::error::{ReadError, Subject};
use crate::ir::attr::{
    AttrV,
    Attribute,
    Bounded,
    DenseElements,
    DenseV,
    DivBy,
    OptimizationHints,
    SameElements,
};
use crate::ir::attr;
use crate::ir::types::{ScalarType, Type, TypeV};
use crate::ir::types;
use crate::bytecode::strings;

verus! {

pub const TAG_INTEGER: u8 = 1;

pub const TAG_FLOAT: u8 = 2;

pub const TAG_BOOL: u8 = 3;

pub const TAG_TYPE: u8 = 4;

pub const TAG_STRING: u8 = 5;

pub const TAG_ARRAY: u8 = 6;

pub const TAG_DENSE_ELEMENTS: u8 = 7;

pub const TAG_DIV_BY: u8 = 8;

pub const TAG_SAME_ELEMENTS: u8 = 9;

pub const TAG_DICTIONARY: u8 = 10;

pub const TAG_OPTIMIZATION_HINTS: u8 = 11;

pub const TAG_BOUNDED: u8 = 12;

// ---------------------------------------------------------------------------
// The tables of a file
// ---------------------------------------------------------------------------

/// The strings, types and constants that a file refers to by index.
pub struct Tables {
    pub strings: Vec<String>,
    pub types: Vec<Type>,
    pub constants: Vec<Vec<u8>>,
}

/// The contents of the tables.
#[verifier::ext_equal]
pub struct TablesV {
    pub strings: Seq<Seq<char>>,
    pub types: Seq<TypeV>,
    pub constants: Seq<Seq<u8>>,
}

impl View for Tables {
    type V = TablesV;

    open spec fn view(&self) -> TablesV {
        TablesV {
            strings: strings::texts(self.strings@),
            types: types::types_view(self.types@),
            constants: table::byte_views(self.constants@),
        }
    }
}

/// The entries of a constant section, none where the section is absent.
pub open spec fn constant_section(payload: Option<Seq<u8>>) -> Result<Seq<Seq<u8>>, ReadError> {
    match payload {
        None => Ok(seq![]),
        Some(d) => table::table_at(d, Subject::Constant, 8),
    }
}

/// Read the constant section.
pub fn parse_constant_section(payload: Option<&[u8]>) -> (res: Result<Vec<Vec<u8>>, ReadError>)
    ensures
        match constant_section(wire_types::payload_view(payload)) {
            Ok(s) => res is Ok && table::byte_views(res->Ok_0@) == s,
            Err(e) => res == Err::<Vec<Vec<u8>>, ReadError>(e),
        },
{
    let mut out: Vec<Vec<u8>> = Vec::new();
    assert(table::byte_views(out@) =~= seq![]);
    let data = match payload {
        None => {
            return Ok(out);
        },
        Some(d) => d,
    };
    let t = read_offset_table(data, Subject::Constant, 8)?;
    let n: usize = t.len();
    let mut i: usize = 0;
    while i < n
        invariant
            i <= n,
            n == t.entries().len(),
            t.wf(),
            table::byte_views(out@) == t.entries().take(i as int),
        decreases n - i,
    {
        let ghost before = out@;
        out.push(copy_bytes(t.entry(i)));
        assert(table::byte_views(out@) =~= table::byte_views(before).push(t.entries()[i as int]));
        assert(t.entries().take(i + 1) =~= t.entries().take(i as int).push(t.entries()[i as int]));
        i = i + 1;
    }
    assert(t.entries().take(n as int) =~= t.entries());
    Ok(out)
}

/// A string reference at position `p`.
pub open spec fn string_at(d: Seq<u8>, p: int, t: TablesV, what: Subject) -> Result<
    (Seq<char>, int),
    ReadError,
> {
    match wire::varint_at(d, p) {
        Ok((i, q)) => match wire_types::lookup(t.strings, i, what) {
            Ok(s) => Ok((s, q)),
            Err(e) => Err(e),
        },
        Err(e) => Err(e),
    }
}

/// The data of a constant-pool entry: a length and that many bytes.
pub open spec fn constant_data(entry: Seq<u8>, length: Subject) -> Result<Seq<u8>, ReadError> {
    match wire::count_at(entry, 0, length) {
        Ok((n, q)) => match wire::bytes_at(entry, q, n) {
            Ok((s, _)) => Ok(s),
            Err(e) => Err(e),
        },
        Err(e) => Err(e),
    }
}

/// The data of the constant that an index refers to.
pub open spec fn constant_of(t: TablesV, i: int, what: Subject, length: Subject) -> Result<
    Seq<u8>,
    ReadError,
> {
    if i < t.constants.len() {
        constant_data(t.constants[i], length)
    } else {
        Err(ReadError::IndexOutOfRange(what, i as u64))
    }
}

/// The data of a constant that is referred to at position `p`.
pub open spec fn constant_at(
    d: Seq<u8>,
    p: int,
    t: TablesV,
    index: Subject,
    what: Subject,
    length: Subject,
) -> Result<(Seq<u8>, int), ReadError> {
    match wire::count_at(d, p, index) {
        Ok((i, q)) => match constant_of(t, i, what, length) {
            Ok(s) => Ok((s, q)),
            Err(e) => Err(e),
        },
        Err(e) => Err(e),
    }
}

impl Tables {
    /// Read a string reference.
    pub fn read_string(&self, r: &mut EncodingReader, what: Subject) -> (res: Result<
        &String,
        ReadError,
    >)
        requires
            old(r).wf(),
        ensures
            encoding::reads_view(
                res,
                *old(r),
                *final(r),
                string_at(old(r).bytes(), old(r).at(), self@, what),
            ),
    {
        let idx: u64 = r.read_varint()?;
        if idx > 0xFFFF_FFFF {
            return Err(ReadError::CountOutOfRange(what, idx));
        }
        if idx as usize >= self.strings.len() {
            return Err(ReadError::IndexOutOfRange(what, idx));
        }
        Ok(&self.strings[idx as usize])
    }

    /// Read one constant-pool entry.
    pub fn read_constant_entry(&self, idx: usize, what: Subject, length: Subject) -> (res: Result<
        Vec<u8>,
        ReadError,
    >)
        ensures
            match constant_of(self@, idx as int, what, length) {
                Ok(s) => res is Ok && res->Ok_0@ == s,
                Err(e) => res == Err::<Vec<u8>, ReadError>(e),
            },
    {
        if idx >= self.constants.len() {
            return Err(ReadError::IndexOutOfRange(what, idx as u64));
        }
        assert(self@.constants[idx as int] == self.constants@[idx as int]@);
        let mut r = EncodingReader::new(self.constants[idx].as_slice());
        let n: usize = r.read_count(length)?;
        let b = r.read_bytes(n)?;
        Ok(copy_bytes(b))
    }

    /// Read a reference to a constant, and the constant.
    pub fn read_constant(
        &self,
        r: &mut EncodingReader,
        index: Subject,
        what: Subject,
        length: Subject,
    ) -> (res: Result<Vec<u8>, ReadError>)
        requires
            old(r).wf(),
        ensures
            encoding::reads_view(
                res,
                *old(r),
                *final(r),
                constant_at(old(r).bytes(), old(r).at(), self@, index, what, length),
            ),
    {
        let i: usize = r.read_count(index)?;
        self.read_constant_entry(i, what, length)
    }
}

// ---------------------------------------------------------------------------
// Floating point payloads
// ---------------------------------------------------------------------------

/// The number of bytes of the format in which a value of a type is held;
/// types that are no floating point format are held as 64-bit floats.
pub open spec fn float_width(t: TypeV) -> int {
    match t {
        TypeV::Scalar(ScalarType::F16) => 2,
        TypeV::Scalar(ScalarType::BF16) => 2,
        TypeV::Scalar(ScalarType::F32) => 4,
        TypeV::Scalar(ScalarType::TF32) => 4,
        TypeV::Scalar(ScalarType::F8E4M3FN) => 1,
        TypeV::Scalar(ScalarType::F8E5M2) => 1,
        _ => 8,
    }
}

/// The pattern that fits the format of a type.
pub open spec fn float_pattern(bits: int, t: TypeV) -> u64 {
    if float_width(t) == 1 {
        (bits % 0x100) as u64
    } else if float_width(t) == 2 {
        (bits % 0x1_0000) as u64
    } else if float_width(t) == 4 {
        (bits % 0x1_0000_0000) as u64
    } else {
        (bits % 0x1_0000_0000_0000_0000) as u64
    }
}

/// The encoding of a floating point payload: one byte, or a signed varint.
pub open spec fn ap_float_bytes(bits: u64, t: TypeV) -> Seq<u8> {
    if float_width(t) == 1 {
        seq![float_pattern(bits as int, t) as u8]
    } else {
        wire::varint_bytes(wire::zigzag(wire::i64_of_pattern(float_pattern(bits as int, t) as int)))
    }
}

/// A floating point payload at position `p`.
pub open spec fn ap_float_at(d: Seq<u8>, p: int, t: TypeV) -> Result<(u64, int), ReadError> {
    if float_width(t) == 1 {
        match wire::byte_at(d, p) {
            Ok((b, q)) => Ok((b as u64, q)),
            Err(e) => Err(e),
        }
    } else {
        match wire::signed_varint_at(d, p) {
            Ok((v, q)) => Ok((float_pattern(wire::i64_pattern(v), t), q)),
            Err(e) => Err(e),
        }
    }
}

/// A payload that fits its format reads back where it was written.
pub proof fn lemma_ap_float_holds(d: Seq<u8>, p: int, bits: u64, t: TypeV)
    requires
        wire::holds_at(d, p, ap_float_bytes(bits, t)),
    ensures
        ap_float_at(d, p, t) == Ok::<(u64, int), ReadError>(
            (float_pattern(bits as int, t), p + ap_float_bytes(bits, t).len()),
        ),
{
    let b = float_pattern(bits as int, t);
    if float_width(t) == 1 {
        wire::lemma_byte_holds(d, p, b as u8);
    } else {
        let v = wire::i64_of_pattern(b as int);
        wire::lemma_signed_varint_holds(d, p, v);
        assert(wire::i64_pattern(v) == b);
    }
}

/// The number of bytes of the format of a type.
fn float_width_of(ty: &Type) -> (n: u8)
    ensures
        n == float_width(ty@),
{
    match ty {
        Type::Scalar(s) => match s {
            ScalarType::F16 => 2,
            ScalarType::BF16 => 2,
            ScalarType::F32 => 4,
            ScalarType::TF32 => 4,
            ScalarType::F8E4M3FN => 1,
            ScalarType::F8E5M2 => 1,
            _ => 8,
        },
        _ => 8,
    }
}

impl encoding::EncodingWriter {
    /// Write a floating point payload in the format of its type.
    pub fn write_ap_float(&mut self, bits: u64, ty: &Type)
        ensures
            final(self)@ == old(self)@ + ap_float_bytes(bits, ty@),
            final(self).alignment() == old(self).alignment(),
    {
        let n: u8 = float_width_of(ty);
        if n == 1 {
            self.write_byte((bits % 0x100) as u8);
            assert(self@ =~= old(self)@ + ap_float_bytes(bits, ty@));
        } else {
            let b: u64 = if n == 2 {
                bits % 0x1_0000
            } else if n == 4 {
                bits % 0x1_0000_0000
            } else {
                bits
            };
            let v: i64 = if b > 0x7FFF_FFFF_FFFF_FFFF {
                (b as i128 - 0x1_0000_0000_0000_0000) as i64
            } else {
                b as i64
            };
            self.write_signed_varint(v);
        }
    }
}

impl<'a> EncodingReader<'a> {
    /// Read a floating point payload in the format of its type.
    pub fn read_ap_float(&mut self, ty: &Type) -> (res: Result<u64, ReadError>)
        requires
            old(self).wf(),
        ensures
            encoding::reads(
                res,
                *old(self),
                *final(self),
                ap_float_at(old(self).bytes(), old(self).at(), ty@),
            ),
    {
        let n: u8 = float_width_of(ty);
        if n == 1 {
            let b: u8 = self.read_byte()?;
            Ok(b as u64)
        } else {
            let v: i64 = self.read_signed_varint()?;
            let b: u64 = pattern_of(v);
            if n == 2 {
                Ok(b % 0x1_0000)
            } else if n == 4 {
                Ok(b % 0x1_0000_0000)
            } else {
                Ok(b)
            }
        }
    }
}

/// The two's complement pattern of a value.
pub fn pattern_of(v: i64) -> (b: u64)
    ensures
        b == wire::i64_pattern(v),
{
    if v < 0 {
        (v as i128 + 0x1_0000_0000_0000_0000) as u64
    } else {
        v as u64
    }
}

/// The value with a two's complement pattern.
pub fn value_of(b: u64) -> (v: i64)
    ensures
        v == wire::i64_of_pattern(b as int),
{
    if b > 0x7FFF_FFFF_FFFF_FFFF {
        (b as i128 - 0x1_0000_0000_0000_0000) as i64
    } else {
        b as i64
    }
}

// ---------------------------------------------------------------------------
// Reading attributes
// ---------------------------------------------------------------------------

/// A signed varint at position `p`, if it is present.
pub open spec fn opt_signed_at(d: Seq<u8>, p: int, present: bool) -> Result<
    (Option<i64>, int),
    ReadError,
> {
    if present {
        match wire::signed_varint_at(d, p) {
            Ok((v, q)) => Ok((Some(v), q)),
            Err(e) => Err(e),
        }
    } else {
        Ok((None, p))
    }
}

/// Two optional signed varints behind a flag byte.
pub open spec fn opt_pair_at(d: Seq<u8>, p: int) -> Result<
    ((Option<i64>, Option<i64>), int),
    ReadError,
> {
    match wire::byte_at(d, p) {
        Ok((flags, q)) => match opt_signed_at(d, q, flags % 2 == 1) {
            Ok((x, q2)) => match opt_signed_at(d, q2, flags / 2 % 2 == 1) {
                Ok((y, q3)) => Ok(((x, y), q3)),
                Err(e) => Err(e),
            },
            Err(e) => Err(e),
        },
        Err(e) => Err(e),
    }
}

/// An integer attribute's type and value at position `p`.
pub open spec fn integer_at(d: Seq<u8>, p: int, t: TablesV) -> Result<(AttrV, int), ReadError> {
    match wire_types::type_ref_at(d, p, t.types, Subject::AttributeType) {
        Ok((ty, q)) => match wire::varint_at(d, q) {
            Ok((v, q2)) => Ok((AttrV::Integer(wire::i64_of_pattern(v as int), ty), q2)),
            Err(e) => Err(e),
        },
        Err(e) => Err(e),
    }
}

/// A floating point attribute's type and payload at position `p`.
pub open spec fn float_at(d: Seq<u8>, p: int, t: TablesV) -> Result<(AttrV, int), ReadError> {
    match wire_types::type_ref_at(d, p, t.types, Subject::AttributeType) {
        Ok((ty, q)) => match ap_float_at(d, q, ty) {
            Ok((v, q2)) => Ok((AttrV::Float(v, ty), q2)),
            Err(e) => Err(e),
        },
        Err(e) => Err(e),
    }
}

/// The constant data of a type: its shape is that of the type.
pub open spec fn dense_of(ty: TypeV, data: Seq<u8>) -> DenseV {
    DenseV { element_type: ty, shape: types::tile_shape_of(ty), data }
}

/// A dense elements attribute's type and constant at position `p`.
pub open spec fn dense_at(d: Seq<u8>, p: int, t: TablesV) -> Result<(AttrV, int), ReadError> {
    match wire_types::type_ref_at(d, p, t.types, Subject::DenseElementsType) {
        Ok((ty, q)) => match constant_at(
            d,
            q,
            t,
            Subject::DenseElementsConstant,
            Subject::DenseElementsConstant,
            Subject::DenseElementsLength,
        ) {
            Ok((data, q2)) => Ok((AttrV::Dense(dense_of(ty, data)), q2)),
            Err(e) => Err(e),
        },
        Err(e) => Err(e),
    }
}

/// A divisibility predicate at position `p`.
pub open spec fn div_by_at(d: Seq<u8>, p: int) -> Result<(AttrV, int), ReadError> {
    match wire::varint_at(d, p) {
        Ok((divisor, q)) => match opt_pair_at(d, q) {
            Ok(((every, along), q2)) => Ok((AttrV::DivBy(DivBy { divisor, every, along }), q2)),
            Err(e) => Err(e),
        },
        Err(e) => Err(e),
    }
}

/// A bounds predicate at position `p`.
pub open spec fn bounded_at(d: Seq<u8>, p: int) -> Result<(AttrV, int), ReadError> {
    match opt_pair_at(d, p) {
        Ok(((lb, ub), q)) => Ok((AttrV::Bounded(Bounded { lb, ub }), q)),
        Err(e) => Err(e),
    }
}

/// The attributes that hold no attributes, by tag.
pub open spec fn leaf_at(d: Seq<u8>, p: int, t: TablesV, tag: u8) -> Result<
    (AttrV, int),
    ReadError,
> {
    if tag == TAG_INTEGER {
        integer_at(d, p, t)
    } else if tag == TAG_FLOAT {
        float_at(d, p, t)
    } else if tag == TAG_BOOL {
        match wire::byte_at(d, p) {
            Ok((b, q)) => Ok((AttrV::Bool(b != 0), q)),
            Err(e) => Err(e),
        }
    } else if tag == TAG_TYPE {
        match wire_types::type_ref_at(d, p, t.types, Subject::AttributeType) {
            Ok((ty, q)) => Ok((AttrV::Type(ty), q)),
            Err(e) => Err(e),
        }
    } else if tag == TAG_STRING {
        match string_at(d, p, t, Subject::Str) {
            Ok((s, q)) => Ok((AttrV::Str(s), q)),
            Err(e) => Err(e),
        }
    } else if tag == TAG_DENSE_ELEMENTS {
        dense_at(d, p, t)
    } else if tag == TAG_DIV_BY {
        div_by_at(d, p)
    } else if tag == TAG_SAME_ELEMENTS {
        match wire::i64_array_at(d, p) {
            Ok((s, q)) => Ok((AttrV::Same(s), q)),
            Err(e) => Err(e),
        }
    } else if tag == TAG_BOUNDED {
        bounded_at(d, p)
    } else {
        Err(ReadError::UnknownAttributeTag(tag))
    }
}

/// An attribute at position `p`: a tag and a payload. `depth` bounds the
/// number of bytes that are left: where it is used up, so are the bytes.
pub open spec fn attr_at(d: Seq<u8>, p: int, t: TablesV, depth: nat) -> Result<
    (AttrV, int),
    ReadError,
>
    decreases depth, 0nat, 0int,
{
    if depth == 0 {
        Err(ReadError::UnexpectedEnd)
    } else {
        match wire::varint_at(d, p) {
            Ok((tag, q)) => {
                let k = (tag % 256) as u8;
                if k == TAG_ARRAY {
                    array_at(d, q, t, (depth - 1) as nat)
                } else if k == TAG_DICTIONARY {
                    dict_at(d, q, t, (depth - 1) as nat)
                } else if k == TAG_OPTIMIZATION_HINTS {
                    hints_at(d, q, t, (depth - 1) as nat)
                } else {
                    leaf_at(d, q, t, k)
                }
            },
            Err(e) => Err(e),
        }
    }
}

/// `n` attributes at position `p`.
pub open spec fn attr_list_at(d: Seq<u8>, p: int, t: TablesV, depth: nat, n: int) -> Result<
    (Seq<AttrV>, int),
    ReadError,
>
    decreases depth, 1nat, n,
{
    if n <= 0 {
        Ok((seq![], p))
    } else {
        match attr_list_at(d, p, t, depth, n - 1) {
            Ok((s, q)) => match attr_at(d, q, t, depth) {
                Ok((a, q2)) => Ok((s.push(a), q2)),
                Err(e) => Err(e),
            },
            Err(e) => Err(e),
        }
    }
}

/// A counted list of attributes at position `p`.
pub open spec fn array_at(d: Seq<u8>, p: int, t: TablesV, depth: nat) -> Result<
    (AttrV, int),
    ReadError,
>
    decreases depth, 2nat, 0int,
{
    match wire::count_at(d, p, Subject::ArrayElement) {
        Ok((n, q)) => match attr_list_at(d, q, t, depth, n) {
            Ok((s, q2)) => Ok((AttrV::Array(s), q2)),
            Err(e) => Err(e),
        },
        Err(e) => Err(e),
    }
}

/// `n` named attributes at position `p`.
pub open spec fn dict_list_at(d: Seq<u8>, p: int, t: TablesV, depth: nat, n: int) -> Result<
    (Seq<(Seq<char>, AttrV)>, int),
    ReadError,
>
    decreases depth, 1nat, n,
{
    if n <= 0 {
        Ok((seq![], p))
    } else {
        match dict_list_at(d, p, t, depth, n - 1) {
            Ok((s, q)) => match string_at(d, q, t, Subject::Str) {
                Ok((k, q2)) => match attr_at(d, q2, t, depth) {
                    Ok((a, q3)) => Ok((s.push((k, a)), q3)),
                    Err(e) => Err(e),
                },
                Err(e) => Err(e),
            },
            Err(e) => Err(e),
        }
    }
}

/// A counted list of named attributes at position `p`.
pub open spec fn dict_at(d: Seq<u8>, p: int, t: TablesV, depth: nat) -> Result<
    (AttrV, int),
    ReadError,
>
    decreases depth, 2nat, 0int,
{
    match wire::count_at(d, p, Subject::DictionaryEntry) {
        Ok((n, q)) => match dict_list_at(d, q, t, depth, n) {
            Ok((s, q2)) => Ok((AttrV::Dict(s), q2)),
            Err(e) => Err(e),
        },
        Err(e) => Err(e),
    }
}

/// `n` architectures with their dictionaries at position `p`.
pub open spec fn hints_list_at(d: Seq<u8>, p: int, t: TablesV, depth: nat, n: int) -> Result<
    (Seq<(Seq<char>, Seq<(Seq<char>, AttrV)>)>, int),
    ReadError,
>
    decreases depth, 1nat, n,
{
    if n <= 0 {
        Ok((seq![], p))
    } else {
        match hints_list_at(d, p, t, depth, n - 1) {
            Ok((s, q)) => match string_at(d, q, t, Subject::Str) {
                Ok((k, q2)) => match attr_at(d, q2, t, depth) {
                    Ok((AttrV::Dict(h), q3)) => Ok((s.push((k, h)), q3)),
                    Ok(_) => Err(ReadError::HintsNotDictionary),
                    Err(e) => Err(e),
                },
                Err(e) => Err(e),
            },
            Err(e) => Err(e),
        }
    }
}

/// Optimization hints at position `p`: a counted list of architectures.
pub open spec fn hints_at(d: Seq<u8>, p: int, t: TablesV, depth: nat) -> Result<
    (AttrV, int),
    ReadError,
>
    decreases depth, 2nat, 0int,
{
    match wire::count_at(d, p, Subject::HintsArch) {
        Ok((n, q)) => match hints_list_at(d, q, t, depth, n) {
            Ok((s, q2)) => Ok((AttrV::Hints(s), q2)),
            Err(e) => Err(e),
        },
        Err(e) => Err(e),
    }
}

proof fn lemma_attr_list_error(d: Seq<u8>, p: int, t: TablesV, depth: nat, k: int, n: int)
    requires
        0 <= k <= n,
        attr_list_at(d, p, t, depth, k) is Err,
    ensures
        attr_list_at(d, p, t, depth, n) == attr_list_at(d, p, t, depth, k),
    decreases n,
{
    if k < n {
        lemma_attr_list_error(d, p, t, depth, k, n - 1);
    }
}

proof fn lemma_dict_list_error(d: Seq<u8>, p: int, t: TablesV, depth: nat, k: int, n: int)
    requires
        0 <= k <= n,
        dict_list_at(d, p, t, depth, k) is Err,
    ensures
        dict_list_at(d, p, t, depth, n) == dict_list_at(d, p, t, depth, k),
    decreases n,
{
    if k < n {
        lemma_dict_list_error(d, p, t, depth, k, n - 1);
    }
}

proof fn lemma_hints_list_error(d: Seq<u8>, p: int, t: TablesV, depth: nat, k: int, n: int)
    requires
        0 <= k <= n,
        hints_list_at(d, p, t, depth, k) is Err,
    ensures
        hints_list_at(d, p, t, depth, n) == hints_list_at(d, p, t, depth, k),
    decreases n,
{
    if k < n {
        lemma_hints_list_error(d, p, t, depth, k, n - 1);
    }
}

fn read_opt_signed(r: &mut EncodingReader, present: bool) -> (res: Result<Option<i64>, ReadError>)
    requires
        old(r).wf(),
    ensures
        encoding::reads(
            res,
            *old(r),
            *final(r),
            opt_signed_at(old(r).bytes(), old(r).at(), present),
        ),
{
    if present {
        let v: i64 = r.read_signed_varint()?;
        Ok(Some(v))
    } else {
        Ok(None)
    }
}

fn read_opt_pair(r: &mut EncodingReader) -> (res: Result<(Option<i64>, Option<i64>), ReadError>)
    requires
        old(r).wf(),
    ensures
        encoding::reads(res, *old(r), *final(r), opt_pair_at(old(r).bytes(), old(r).at())),
{
    let flags: u8 = r.read_byte()?;
    let x: Option<i64> = read_opt_signed(r, flags % 2 == 1)?;
    let y: Option<i64> = read_opt_signed(r, flags / 2 % 2 == 1)?;
    Ok((x, y))
}

fn read_leaf(r: &mut EncodingReader, t: &Tables, tag: u8) -> (res: Result<Attribute, ReadError>)
    requires
        old(r).wf(),
    ensures
        encoding::reads_view(
            res,
            *old(r),
            *final(r),
            leaf_at(old(r).bytes(), old(r).at(), t@, tag),
        ),
{
    if tag == TAG_INTEGER {
        let ty = read_type_ref(r, &t.types, Subject::AttributeType)?;
        let v: u64 = r.read_varint()?;
        Ok(Attribute::Integer(value_of(v), ty.duplicate()))
    } else if tag == TAG_FLOAT {
        let ty = read_type_ref(r, &t.types, Subject::AttributeType)?;
        let v: u64 = r.read_ap_float(ty)?;
        Ok(Attribute::Float(v, ty.duplicate()))
    } else if tag == TAG_BOOL {
        let b: u8 = r.read_byte()?;
        Ok(Attribute::Bool(b != 0))
    } else if tag == TAG_TYPE {
        let ty = read_type_ref(r, &t.types, Subject::AttributeType)?;
        Ok(Attribute::Type(ty.duplicate()))
    } else if tag == TAG_STRING {
        let s = t.read_string(r, Subject::Str)?;
        Ok(Attribute::String(s.clone()))
    } else if tag == TAG_DENSE_ELEMENTS {
        let ty = read_type_ref(r, &t.types, Subject::DenseElementsType)?;
        let data = t.read_constant(
            r,
            Subject::DenseElementsConstant,
            Subject::DenseElementsConstant,
            Subject::DenseElementsLength,
        )?;
        Ok(
            Attribute::DenseElements(
                DenseElements { element_type: ty.duplicate(), shape: ty.tile_shape(), data },
            ),
        )
    } else if tag == TAG_DIV_BY {
        let divisor: u64 = r.read_varint()?;
        let (every, along): (Option<i64>, Option<i64>) = read_opt_pair(r)?;
        Ok(Attribute::DivBy(DivBy { divisor, every, along }))
    } else if tag == TAG_SAME_ELEMENTS {
        let values = r.read_le_var_size_i64()?;
        Ok(Attribute::SameElements(SameElements { values }))
    } else if tag == TAG_BOUNDED {
        let (lb, ub): (Option<i64>, Option<i64>) = read_opt_pair(r)?;
        Ok(Attribute::Bounded(Bounded { lb, ub }))
    } else {
        Err(ReadError::UnknownAttributeTag(tag))
    }
}

/// Read a self-contained attribute. `depth` is at least the number of bytes
/// that are left.
pub fn read_self_contained_attribute(r: &mut EncodingReader, t: &Tables, depth: usize) -> (res:
    Result<Attribute, ReadError>)
    requires
        old(r).wf(),
    ensures
        encoding::reads_view(
            res,
            *old(r),
            *final(r),
            attr_at(old(r).bytes(), old(r).at(), t@, depth as nat),
        ),
    decreases depth, 0int,
{
    if depth == 0 {
        return Err(ReadError::UnexpectedEnd);
    }
    let tag: u64 = r.read_varint()?;
    let k: u8 = (tag % 256) as u8;
    if k == TAG_ARRAY {
        read_inline_array(r, t, depth - 1)
    } else if k == TAG_DICTIONARY {
        read_inline_dict(r, t, depth - 1)
    } else if k == TAG_OPTIMIZATION_HINTS {
        read_inline_optimization_hints(r, t, depth - 1)
    } else {
        read_leaf(r, t, k)
    }
}

/// Read a counted list of attributes.
pub fn read_inline_array(r: &mut EncodingReader, t: &Tables, depth: usize) -> (res: Result<
    Attribute,
    ReadError,
>)
    requires
        old(r).wf(),
    ensures
        encoding::reads_view(
            res,
            *old(r),
            *final(r),
            array_at(old(r).bytes(), old(r).at(), t@, depth as nat),
        ),
    decreases depth, 1int,
{
    let ghost d = r.bytes();
    let ghost p = r.at();
    let n: usize = r.read_count(Subject::ArrayElement)?;
    let ghost q = r.at();
    let mut out: Vec<Attribute> = Vec::new();
    let mut i: usize = 0;
    assert(attr::attrs_view(out@) =~= seq![]);
    while i < n
        invariant
            i <= n,
            r.wf(),
            r.bytes() == d,
            r.at() >= old(r).at(),
            old(r).bytes() == d,
            old(r).at() == p,
            attr_list_at(d, q, t@, depth as nat, i as int) == Ok::<(Seq<AttrV>, int), ReadError>(
                (attr::attrs_view(out@), r.at()),
            ),
            wire::count_at(d, p, Subject::ArrayElement) == Ok::<(int, int), ReadError>(
                (n as int, q),
            ),
        decreases n - i,
    {
        proof {
            if attr_list_at(d, q, t@, depth as nat, i + 1) is Err {
                lemma_attr_list_error(d, q, t@, depth as nat, i + 1, n as int);
            }
        }
        let a = read_self_contained_attribute(r, t, depth)?;
        proof {
            attr::lemma_attrs_view_push(out@, a);
        }
        out.push(a);
        i = i + 1;
    }
    Ok(Attribute::Array(out))
}

fn read_dict_entries(r: &mut EncodingReader, t: &Tables, depth: usize) -> (res: Result<
    Vec<(String, Attribute)>,
    ReadError,
>)
    requires
        old(r).wf(),
    ensures
        final(r).wf(),
        final(r).bytes() == old(r).bytes(),
        final(r).at() >= old(r).at(),
        match dict_at(old(r).bytes(), old(r).at(), t@, depth as nat) {
            Ok((AttrV::Dict(s), q)) => {
                &&& res is Ok
                &&& attr::dict_view(res->Ok_0@) == s
                &&& final(r).at() == q
            },
            Ok(_) => false,
            Err(e) => res == Err::<Vec<(String, Attribute)>, ReadError>(e),
        },
    decreases depth, 1int,
{
    let ghost d = r.bytes();
    let ghost p = r.at();
    let n: usize = r.read_count(Subject::DictionaryEntry)?;
    let ghost q = r.at();
    let mut out: Vec<(String, Attribute)> = Vec::new();
    let mut i: usize = 0;
    assert(attr::dict_view(out@) =~= seq![]);
    while i < n
        invariant
            i <= n,
            r.wf(),
            r.bytes() == d,
            r.at() >= old(r).at(),
            old(r).bytes() == d,
            old(r).at() == p,
            dict_list_at(d, q, t@, depth as nat, i as int) == Ok::<
                (Seq<(Seq<char>, AttrV)>, int),
                ReadError,
            >((attr::dict_view(out@), r.at())),
            wire::count_at(d, p, Subject::DictionaryEntry) == Ok::<(int, int), ReadError>(
                (n as int, q),
            ),
        decreases n - i,
    {
        proof {
            if dict_list_at(d, q, t@, depth as nat, i + 1) is Err {
                lemma_dict_list_error(d, q, t@, depth as nat, i + 1, n as int);
            }
        }
        let k = t.read_string(r, Subject::Str)?;
        let a = read_self_contained_attribute(r, t, depth)?;
        let entry: (String, Attribute) = (k.clone(), a);
        proof {
            attr::lemma_dict_view_push(out@, entry);
        }
        out.push(entry);
        i = i + 1;
    }
    Ok(out)
}

/// Read a counted list of named attributes.
pub fn read_inline_dict(r: &mut EncodingReader, t: &Tables, depth: usize) -> (res: Result<
    Attribute,
    ReadError,
>)
    requires
        old(r).wf(),
    ensures
        encoding::reads_view(
            res,
            *old(r),
            *final(r),
            dict_at(old(r).bytes(), old(r).at(), t@, depth as nat),
        ),
    decreases depth, 2int,
{
    let entries = read_dict_entries(r, t, depth)?;
    Ok(Attribute::Dictionary(entries))
}

/// Read optimization hints: a counted list of architectures.
pub fn read_inline_optimization_hints(r: &mut EncodingReader, t: &Tables, depth: usize) -> (res:
    Result<Attribute, ReadError>)
    requires
        old(r).wf(),
    ensures
        encoding::reads_view(
            res,
            *old(r),
            *final(r),
            hints_at(old(r).bytes(), old(r).at(), t@, depth as nat),
        ),
    decreases depth, 2int,
{
    let ghost d = r.bytes();
    let ghost p = r.at();
    let n: usize = r.read_count(Subject::HintsArch)?;
    let ghost q = r.at();
    let mut out: Vec<(String, Vec<(String, Attribute)>)> = Vec::new();
    let mut i: usize = 0;
    assert(attr::hints_view(out@) =~= seq![]);
    while i < n
        invariant
            i <= n,
            r.wf(),
            r.bytes() == d,
            r.at() >= old(r).at(),
            old(r).bytes() == d,
            old(r).at() == p,
            hints_list_at(d, q, t@, depth as nat, i as int) == Ok::<
                (Seq<(Seq<char>, Seq<(Seq<char>, AttrV)>)>, int),
                ReadError,
            >((attr::hints_view(out@), r.at())),
            wire::count_at(d, p, Subject::HintsArch) == Ok::<(int, int), ReadError>((n as int, q)),
        decreases n - i,
    {
        proof {
            if hints_list_at(d, q, t@, depth as nat, i + 1) is Err {
                lemma_hints_list_error(d, q, t@, depth as nat, i + 1, n as int);
            }
        }
        let k = t.read_string(r, Subject::Str)?;
        let a = read_self_contained_attribute(r, t, depth)?;
        match a {
            Attribute::Dictionary(h) => {
                let entry: (String, Vec<(String, Attribute)>) = (k.clone(), h);
                proof {
                    attr::lemma_hints_view_push(out@, entry);
                }
                out.push(entry);
            },
            _ => {
                return Err(ReadError::HintsNotDictionary);
            },
        }
        i = i + 1;
    }
    Ok(Attribute::OptimizationHints(OptimizationHints { entries: out }))
}

} // verus!
