//! Writing attributes in their self-contained form. What is written refers to
//! tables; they are filled first, in the order in which attributes are written.
use vstd::prelude::*;
use crate::bytecode::attrs::{
    pattern_of,
    TablesV,
    TAG_ARRAY,
    TAG_BOOL,
    TAG_BOUNDED,
    TAG_DENSE_ELEMENTS,
    TAG_DICTIONARY,
    TAG_DIV_BY,
    TAG_FLOAT,
    TAG_INTEGER,
    TAG_OPTIMIZATION_HINTS,
    TAG_SAME_ELEMENTS,
    TAG_STRING,
    TAG_TYPE,
};
use crate::bytecode::attrs;
use crate::bytecode::encoding::EncodingWriter;
use crate::bytecode::strings::StringManager;
use crate::bytecode::strings;
use crate::bytecode::table;
use crate::bytecode::type_writer::{write_ref, TypeManager};
use crate::bytecode::type_writer;
use crate::bytecode::types as wire_types;
use crate::bytecode::wire;
use crate::error::{ReadError, Subject};
use crate::ir::attr::{AttrV, Attribute, Bounded, DenseElements, DivBy};
use crate::ir::attr;
use crate::ir::types::{Type, TypeV};

verus! {

// ---------------------------------------------------------------------------
// The tables being filled
// ---------------------------------------------------------------------------

/// The strings, types and constants that a file will refer to by index.
pub struct Pools {
    pub strings: StringManager,
    pub types: TypeManager,
    pub constants: Vec<Vec<u8>>,
}

impl View for Pools {
    type V = TablesV;

    open spec fn view(&self) -> TablesV {
        TablesV {
            strings: self.strings@,
            types: self.types@,
            constants: table::byte_views(self.constants@),
        }
    }
}

impl Pools {
    /// Nothing occurs twice among strings and types, and types come behind the
    /// types that they refer to.
    pub open spec fn wf(&self) -> bool {
        self.strings.wf() && self.types.wf()
    }

    /// Empty tables.
    pub fn new() -> (p: Pools)
        ensures
            p.wf(),
            p@ == empty_tables(),
    {
        let p = Pools {
            strings: StringManager::new(),
            types: TypeManager::new(),
            constants: Vec::new(),
        };
        assert(p@ =~= empty_tables());
        p
    }

    /// Add a constant.
    pub fn add_constant(&mut self, data: &Vec<u8>)
        ensures
            final(self)@ == with_constant(old(self)@, data@),
            final(self).strings == old(self).strings,
            final(self).types == old(self).types,
    {
        let mut w = EncodingWriter::new();
        w.write_varint(data.len() as u64);
        w.write_bytes(data.as_slice());
        assert(w@ =~= constant_entry(data@));
        let ghost before = self.constants@;
        self.constants.push(w.into_bytes());
        assert(table::byte_views(self.constants@) =~= table::byte_views(before).push(
            constant_entry(data@),
        ));
        assert(self@ =~= with_constant(old(self)@, data@));
    }
}

/// Empty tables.
pub open spec fn empty_tables() -> TablesV {
    TablesV { strings: seq![], types: seq![], constants: seq![] }
}

/// The tables' own condition.
pub open spec fn tables_wf(t: TablesV) -> bool {
    t.strings.no_duplicates() && type_writer::closed_table(t.types)
}

/// `u` continues `t`.
pub open spec fn grows(t: TablesV, u: TablesV) -> bool {
    &&& strings::extends(t.strings, u.strings)
    &&& type_writer::extends(t.types, u.types)
    &&& t.constants.len() <= u.constants.len()
    &&& u.constants.take(t.constants.len() as int) == t.constants
}

/// The encoding of constant data: a length and the bytes.
pub open spec fn constant_entry(data: Seq<u8>) -> Seq<u8> {
    wire::varint_bytes(data.len() as u64) + data
}

/// The tables with one more constant.
pub open spec fn with_constant(t: TablesV, data: Seq<u8>) -> TablesV {
    TablesV { constants: t.constants.push(constant_entry(data)), ..t }
}

/// The tables after a string has been asked for.
pub open spec fn with_string(t: TablesV, s: Seq<char>) -> TablesV {
    TablesV { strings: strings::intern(t.strings, s), ..t }
}

/// The tables after a type has been asked for.
pub open spec fn with_type(t: TablesV, ty: TypeV) -> TablesV {
    TablesV { types: type_writer::intern_type(t.types, ty), ..t }
}

/// Tables continue themselves, and continuing twice continues.
pub proof fn lemma_grows(t: TablesV, u: TablesV, v: TablesV)
    ensures
        grows(t, t),
        grows(t, u) && grows(u, v) ==> grows(t, v),
{
    strings::lemma_extends(t.strings, u.strings, v.strings);
    type_writer::lemma_extends(t.types, u.types, v.types);
    assert(t.constants.take(t.constants.len() as int) =~= t.constants);
    if grows(t, u) && grows(u, v) {
        assert(v.constants.take(t.constants.len() as int) =~= u.constants.take(
            t.constants.len() as int,
        ));
    }
}

/// Asking for a string.
pub proof fn lemma_with_string(t: TablesV, s: Seq<char>)
    requires
        tables_wf(t),
    ensures
        tables_wf(with_string(t, s)),
        grows(t, with_string(t, s)),
        with_string(t, s).strings.contains(s),
{
    strings::lemma_intern(t.strings, s);
    lemma_grows(t, t, t);
    type_writer::lemma_extends(t.types, t.types, t.types);
}

/// Asking for a type.
pub proof fn lemma_with_type(t: TablesV, ty: TypeV)
    requires
        tables_wf(t),
    ensures
        tables_wf(with_type(t, ty)),
        grows(t, with_type(t, ty)),
        with_type(t, ty).types.contains(ty),
{
    type_writer::lemma_intern_type(t.types, ty);
    lemma_grows(t, t, t);
    strings::lemma_extends(t.strings, t.strings, t.strings);
}

/// Adding a constant.
pub proof fn lemma_with_constant(t: TablesV, data: Seq<u8>)
    requires
        tables_wf(t),
    ensures
        tables_wf(with_constant(t, data)),
        grows(t, with_constant(t, data)),
{
    lemma_grows(t, t, t);
    assert(with_constant(t, data).constants.take(t.constants.len() as int) =~= t.constants);
}

// ---------------------------------------------------------------------------
// What attributes need
// ---------------------------------------------------------------------------

/// The constants of an attribute, in the order in which they are written.
pub open spec fn attr_consts(a: AttrV) -> Seq<Seq<u8>>
    decreases a, 0int,
{
    match a {
        AttrV::Dense(d) => seq![constant_entry(d.data)],
        AttrV::Array(s) => list_consts(s, s.len() as int),
        AttrV::Dict(s) => dict_consts(s, s.len() as int),
        AttrV::Hints(s) => hints_consts(s, s.len() as int),
        _ => seq![],
    }
}

/// The constants of the first `n` of some attributes.
pub open spec fn list_consts(s: Seq<AttrV>, n: int) -> Seq<Seq<u8>>
    decreases s, n,
{
    if n <= 0 || n > s.len() {
        seq![]
    } else {
        list_consts(s, n - 1) + attr_consts(s[n - 1])
    }
}

/// The constants of the first `n` of some named attributes.
pub open spec fn dict_consts(s: Seq<(Seq<char>, AttrV)>, n: int) -> Seq<Seq<u8>>
    decreases s, n,
{
    if n <= 0 || n > s.len() {
        seq![]
    } else {
        dict_consts(s, n - 1) + attr_consts(s[n - 1].1)
    }
}

/// The constants of the first `n` architectures.
pub open spec fn hints_consts(s: Seq<(Seq<char>, Seq<(Seq<char>, AttrV)>)>, n: int) -> Seq<Seq<u8>>
    decreases s, n,
{
    if n <= 0 || n > s.len() {
        seq![]
    } else {
        hints_consts(s, n - 1) + dict_consts(s[n - 1].1, s[n - 1].1.len() as int)
    }
}

/// The tables after an attribute has been asked for.
pub open spec fn intern_attr(t: TablesV, a: AttrV) -> TablesV
    decreases a, 0int,
{
    match a {
        AttrV::Integer(_, ty) => with_type(t, ty),
        AttrV::Float(_, ty) => with_type(t, ty),
        AttrV::Type(ty) => with_type(t, ty),
        AttrV::Str(s) => with_string(t, s),
        AttrV::Dense(d) => with_constant(with_type(t, d.element_type), d.data),
        AttrV::Array(s) => intern_list(t, s, s.len() as int),
        AttrV::Dict(s) => intern_dict(t, s, s.len() as int),
        AttrV::Hints(s) => intern_hints(t, s, s.len() as int),
        _ => t,
    }
}

/// The tables after the first `n` of some attributes have been asked for.
pub open spec fn intern_list(t: TablesV, s: Seq<AttrV>, n: int) -> TablesV
    decreases s, n,
{
    if n <= 0 || n > s.len() {
        t
    } else {
        intern_attr(intern_list(t, s, n - 1), s[n - 1])
    }
}

/// The tables after the first `n` of some named attributes have been asked for.
pub open spec fn intern_dict(t: TablesV, s: Seq<(Seq<char>, AttrV)>, n: int) -> TablesV
    decreases s, n,
{
    if n <= 0 || n > s.len() {
        t
    } else {
        intern_attr(with_string(intern_dict(t, s, n - 1), s[n - 1].0), s[n - 1].1)
    }
}

/// The tables after the first `n` architectures have been asked for.
pub open spec fn intern_hints(
    t: TablesV,
    s: Seq<(Seq<char>, Seq<(Seq<char>, AttrV)>)>,
    n: int,
) -> TablesV
    decreases s, n,
{
    if n <= 0 || n > s.len() {
        t
    } else {
        intern_dict(
            with_string(intern_hints(t, s, n - 1), s[n - 1].0),
            s[n - 1].1,
            s[n - 1].1.len() as int,
        )
    }
}

/// The tables hold the strings and types of an attribute.
pub open spec fn covers(t: TablesV, a: AttrV) -> bool
    decreases a, 0int,
{
    match a {
        AttrV::Integer(_, ty) => t.types.contains(ty),
        AttrV::Float(_, ty) => t.types.contains(ty),
        AttrV::Type(ty) => t.types.contains(ty),
        AttrV::Str(s) => t.strings.contains(s),
        AttrV::Dense(d) => t.types.contains(d.element_type),
        AttrV::Array(s) => covers_list(t, s, s.len() as int),
        AttrV::Dict(s) => covers_dict(t, s, s.len() as int),
        AttrV::Hints(s) => covers_hints(t, s, s.len() as int),
        _ => true,
    }
}

/// The tables hold what the first `n` of some attributes need.
pub open spec fn covers_list(t: TablesV, s: Seq<AttrV>, n: int) -> bool
    decreases s, n,
{
    if n <= 0 || n > s.len() {
        true
    } else {
        covers_list(t, s, n - 1) && covers(t, s[n - 1])
    }
}

/// The tables hold what the first `n` of some named attributes need.
pub open spec fn covers_dict(t: TablesV, s: Seq<(Seq<char>, AttrV)>, n: int) -> bool
    decreases s, n,
{
    if n <= 0 || n > s.len() {
        true
    } else {
        covers_dict(t, s, n - 1) && t.strings.contains(s[n - 1].0) && covers(t, s[n - 1].1)
    }
}

/// The tables hold what the first `n` architectures need.
pub open spec fn covers_hints(
    t: TablesV,
    s: Seq<(Seq<char>, Seq<(Seq<char>, AttrV)>)>,
    n: int,
) -> bool
    decreases s, n,
{
    if n <= 0 || n > s.len() {
        true
    } else {
        covers_hints(t, s, n - 1) && t.strings.contains(s[n - 1].0) && covers_dict(
            t,
            s[n - 1].1,
            s[n - 1].1.len() as int,
        )
    }
}

/// What the tables hold, they hold when they have grown.
pub proof fn lemma_grown(t: TablesV, u: TablesV)
    requires
        grows(t, u),
    ensures
        forall|s: Seq<char>| #[trigger] t.strings.contains(s) ==> u.strings.contains(s),
        forall|ty: TypeV| #[trigger] t.types.contains(ty) ==> u.types.contains(ty),
{
    assert forall|s: Seq<char>| #[trigger] t.strings.contains(s) implies u.strings.contains(s) by {
        let i = t.strings.index_of(s);
        assert(0 <= i < t.strings.len() && t.strings[i] == s);
        assert(u.strings.take(t.strings.len() as int)[i] == u.strings[i]);
    }
    type_writer::lemma_contains_mono_all(t.types, u.types);
}

/// What an attribute needs stays in the tables when they grow.
pub proof fn lemma_covers_grows(t: TablesV, u: TablesV, a: AttrV)
    requires
        grows(t, u),
        covers(t, a),
    ensures
        covers(u, a),
    decreases a, 0int,
{
    lemma_grown(t, u);
    match a {
        AttrV::Array(s) => lemma_covers_list_grows(t, u, s, s.len() as int),
        AttrV::Dict(s) => lemma_covers_dict_grows(t, u, s, s.len() as int),
        AttrV::Hints(s) => lemma_covers_hints_grows(t, u, s, s.len() as int),
        _ => {},
    }
}

pub proof fn lemma_covers_list_grows(t: TablesV, u: TablesV, s: Seq<AttrV>, n: int)
    requires
        grows(t, u),
        covers_list(t, s, n),
    ensures
        covers_list(u, s, n),
    decreases s, n,
{
    if 0 < n <= s.len() {
        lemma_covers_list_grows(t, u, s, n - 1);
        lemma_covers_grows(t, u, s[n - 1]);
    }
}

pub proof fn lemma_covers_dict_grows(t: TablesV, u: TablesV, s: Seq<(Seq<char>, AttrV)>, n: int)
    requires
        grows(t, u),
        covers_dict(t, s, n),
    ensures
        covers_dict(u, s, n),
    decreases s, n,
{
    lemma_grown(t, u);
    if 0 < n <= s.len() {
        lemma_covers_dict_grows(t, u, s, n - 1);
        lemma_covers_grows(t, u, s[n - 1].1);
    }
}

pub proof fn lemma_covers_hints_grows(
    t: TablesV,
    u: TablesV,
    s: Seq<(Seq<char>, Seq<(Seq<char>, AttrV)>)>,
    n: int,
)
    requires
        grows(t, u),
        covers_hints(t, s, n),
    ensures
        covers_hints(u, s, n),
    decreases s, n,
{
    lemma_grown(t, u);
    if 0 < n <= s.len() {
        lemma_covers_hints_grows(t, u, s, n - 1);
        lemma_covers_dict_grows(t, u, s[n - 1].1, s[n - 1].1.len() as int);
    }
}

/// What asking for an attribute does to tables: `u` continues `t`, and its
/// constants are those of `t` and `c`.
pub open spec fn grown_by(t: TablesV, u: TablesV, c: Seq<Seq<u8>>) -> bool {
    &&& tables_wf(u)
    &&& grows(t, u)
    &&& u.constants == t.constants + c
}

proof fn lemma_grown_by(t: TablesV, u: TablesV, v: TablesV, c: Seq<Seq<u8>>, e: Seq<Seq<u8>>)
    requires
        grown_by(t, u, c),
        grown_by(u, v, e),
    ensures
        grown_by(t, v, c + e),
{
    lemma_grows(t, u, v);
    assert(t.constants + c + e =~= t.constants + (c + e));
}

/// Asking for an attribute puts what it needs into the tables.
pub proof fn lemma_intern_attr(t: TablesV, a: AttrV)
    requires
        tables_wf(t),
    ensures
        grown_by(t, intern_attr(t, a), attr_consts(a)),
        covers(intern_attr(t, a), a),
    decreases a, 0int,
{
    lemma_grows(t, t, t);
    assert(t.constants + seq![] =~= t.constants);
    match a {
        AttrV::Integer(_, ty) => lemma_with_type(t, ty),
        AttrV::Float(_, ty) => lemma_with_type(t, ty),
        AttrV::Type(ty) => lemma_with_type(t, ty),
        AttrV::Str(s) => lemma_with_string(t, s),
        AttrV::Dense(d) => {
            let u = with_type(t, d.element_type);
            lemma_with_type(t, d.element_type);
            lemma_with_constant(u, d.data);
            lemma_grows(t, u, with_constant(u, d.data));
            assert(t.constants.push(constant_entry(d.data)) =~= t.constants
                + seq![constant_entry(d.data)]);
        },
        AttrV::Array(s) => lemma_intern_list(t, s, s.len() as int),
        AttrV::Dict(s) => lemma_intern_dict(t, s, s.len() as int),
        AttrV::Hints(s) => lemma_intern_hints(t, s, s.len() as int),
        _ => {},
    }
}

pub proof fn lemma_intern_list(t: TablesV, s: Seq<AttrV>, n: int)
    requires
        tables_wf(t),
    ensures
        grown_by(t, intern_list(t, s, n), list_consts(s, n)),
        covers_list(intern_list(t, s, n), s, n),
    decreases s, n,
{
    if 0 < n <= s.len() {
        lemma_intern_list(t, s, n - 1);
        let u = intern_list(t, s, n - 1);
        lemma_intern_attr(u, s[n - 1]);
        let v = intern_attr(u, s[n - 1]);
        lemma_grown_by(t, u, v, list_consts(s, n - 1), attr_consts(s[n - 1]));
        lemma_covers_list_grows(u, v, s, n - 1);
    } else {
        lemma_grows(t, t, t);
        assert(t.constants + seq![] =~= t.constants);
    }
}

pub proof fn lemma_intern_dict(t: TablesV, s: Seq<(Seq<char>, AttrV)>, n: int)
    requires
        tables_wf(t),
    ensures
        grown_by(t, intern_dict(t, s, n), dict_consts(s, n)),
        covers_dict(intern_dict(t, s, n), s, n),
    decreases s, n,
{
    if 0 < n <= s.len() {
        lemma_intern_dict(t, s, n - 1);
        let u = intern_dict(t, s, n - 1);
        let u2 = with_string(u, s[n - 1].0);
        lemma_with_string(u, s[n - 1].0);
        lemma_intern_attr(u2, s[n - 1].1);
        let v = intern_attr(u2, s[n - 1].1);
        lemma_grows(u, u2, v);
        lemma_grown(u2, v);
        lemma_grown_by(t, u, v, dict_consts(s, n - 1), attr_consts(s[n - 1].1));
        lemma_covers_dict_grows(u, v, s, n - 1);
    } else {
        lemma_grows(t, t, t);
        assert(t.constants + seq![] =~= t.constants);
    }
}

pub proof fn lemma_intern_hints(t: TablesV, s: Seq<(Seq<char>, Seq<(Seq<char>, AttrV)>)>, n: int)
    requires
        tables_wf(t),
    ensures
        grown_by(t, intern_hints(t, s, n), hints_consts(s, n)),
        covers_hints(intern_hints(t, s, n), s, n),
    decreases s, n,
{
    if 0 < n <= s.len() {
        lemma_intern_hints(t, s, n - 1);
        let u = intern_hints(t, s, n - 1);
        let u2 = with_string(u, s[n - 1].0);
        lemma_with_string(u, s[n - 1].0);
        let k = s[n - 1].1.len() as int;
        lemma_intern_dict(u2, s[n - 1].1, k);
        let v = intern_dict(u2, s[n - 1].1, k);
        lemma_grows(u, u2, v);
        lemma_grown(u2, v);
        lemma_grown_by(t, u, v, hints_consts(s, n - 1), dict_consts(s[n - 1].1, k));
        lemma_covers_hints_grows(u, v, s, n - 1);
    } else {
        lemma_grows(t, t, t);
        assert(t.constants + seq![] =~= t.constants);
    }
}

// ---------------------------------------------------------------------------
// Encoding
// ---------------------------------------------------------------------------

/// A tag.
pub open spec fn tag_bytes(tag: u8) -> Seq<u8> {
    wire::varint_bytes(tag as u64)
}

/// A reference to a string.
pub open spec fn string_bytes(t: TablesV, s: Seq<char>) -> Seq<u8> {
    wire::varint_bytes(t.strings.index_of(s) as u64)
}

/// A reference to a type.
pub open spec fn type_bytes(t: TablesV, ty: TypeV) -> Seq<u8> {
    type_writer::ref_bytes(t.types, ty)
}

/// A signed varint, if there is a value.
pub open spec fn opt_signed_bytes(v: Option<i64>) -> Seq<u8> {
    match v {
        Some(v) => wire::varint_bytes(wire::zigzag(v)),
        None => seq![],
    }
}

/// Which of two values are there.
pub open spec fn pair_flags(x: Option<i64>, y: Option<i64>) -> u8 {
    if x is Some {
        if y is Some {
            3
        } else {
            1
        }
    } else {
        if y is Some {
            2
        } else {
            0
        }
    }
}

/// Two optional values behind a flag byte.
pub open spec fn opt_pair_bytes(x: Option<i64>, y: Option<i64>) -> Seq<u8> {
    seq![pair_flags(x, y)] + opt_signed_bytes(x) + opt_signed_bytes(y)
}

/// A truth value in a byte.
pub open spec fn bool_byte(b: bool) -> u8 {
    if b {
        1
    } else {
        0
    }
}

/// The encoding of an attribute whose first constant has index `c`.
pub open spec fn attr_bytes(a: AttrV, t: TablesV, c: int) -> Seq<u8>
    decreases a, 0int,
{
    match a {
        AttrV::Integer(v, ty) => tag_bytes(TAG_INTEGER) + (type_bytes(t, ty) + wire::varint_bytes(
            wire::i64_pattern(v) as u64,
        )),
        AttrV::Float(v, ty) => tag_bytes(TAG_FLOAT) + (type_bytes(t, ty) + attrs::ap_float_bytes(
            v,
            ty,
        )),
        AttrV::Bool(b) => tag_bytes(TAG_BOOL) + seq![bool_byte(b)],
        AttrV::Type(ty) => tag_bytes(TAG_TYPE) + type_bytes(t, ty),
        AttrV::Str(s) => tag_bytes(TAG_STRING) + string_bytes(t, s),
        AttrV::Dense(d) => tag_bytes(TAG_DENSE_ELEMENTS) + (type_bytes(t, d.element_type)
            + wire::varint_bytes(c as u64)),
        AttrV::DenseI32(s) => wire::i32_array_bytes(s),
        AttrV::DivBy(d) => tag_bytes(TAG_DIV_BY) + (wire::varint_bytes(d.divisor)
            + opt_pair_bytes(d.every, d.along)),
        AttrV::Same(s) => tag_bytes(TAG_SAME_ELEMENTS) + wire::i64_array_bytes(s),
        AttrV::Bounded(b) => tag_bytes(TAG_BOUNDED) + opt_pair_bytes(b.lb, b.ub),
        AttrV::Array(s) => tag_bytes(TAG_ARRAY) + (wire::varint_bytes(s.len() as u64) + list_bytes(
            s,
            t,
            c,
            s.len() as int,
        )),
        AttrV::Dict(s) => tag_bytes(TAG_DICTIONARY) + (wire::varint_bytes(s.len() as u64)
            + dict_bytes(s, t, c, s.len() as int)),
        AttrV::Hints(s) => tag_bytes(TAG_OPTIMIZATION_HINTS) + (wire::varint_bytes(s.len() as u64)
            + hints_bytes(s, t, c, s.len() as int)),
    }
}

/// The encoding of the first `n` of some attributes.
pub open spec fn list_bytes(s: Seq<AttrV>, t: TablesV, c: int, n: int) -> Seq<u8>
    decreases s, n,
{
    if n <= 0 || n > s.len() {
        seq![]
    } else {
        list_bytes(s, t, c, n - 1) + attr_bytes(s[n - 1], t, c + list_consts(s, n - 1).len())
    }
}

/// The encoding of the first `n` of some named attributes.
pub open spec fn dict_bytes(s: Seq<(Seq<char>, AttrV)>, t: TablesV, c: int, n: int) -> Seq<u8>
    decreases s, n,
{
    if n <= 0 || n > s.len() {
        seq![]
    } else {
        dict_bytes(s, t, c, n - 1) + (string_bytes(t, s[n - 1].0) + attr_bytes(
            s[n - 1].1,
            t,
            c + dict_consts(s, n - 1).len(),
        ))
    }
}

/// The encoding of the first `n` architectures.
pub open spec fn hints_bytes(
    s: Seq<(Seq<char>, Seq<(Seq<char>, AttrV)>)>,
    t: TablesV,
    c: int,
    n: int,
) -> Seq<u8>
    decreases s, n,
{
    if n <= 0 || n > s.len() {
        seq![]
    } else {
        hints_bytes(s, t, c, n - 1) + (string_bytes(t, s[n - 1].0) + (tag_bytes(TAG_DICTIONARY) + (
        wire::varint_bytes(s[n - 1].1.len() as u64) + dict_bytes(
            s[n - 1].1,
            t,
            c + hints_consts(s, n - 1).len(),
            s[n - 1].1.len() as int,
        ))))
    }
}

impl Pools {
    /// Ask for a string.
    pub fn add_string(&mut self, s: &str)
        requires
            old(self).wf(),
        ensures
            final(self).wf(),
            final(self)@ == with_string(old(self)@, s@),
    {
        let _idx: u64 = self.strings.get_or_insert(s);
        assert(self@ =~= with_string(old(self)@, s@));
    }

    /// Ask for a type.
    pub fn add_type(&mut self, ty: &Type)
        requires
            old(self).wf(),
        ensures
            final(self).wf(),
            final(self)@ == with_type(old(self)@, ty@),
    {
        let _idx: u64 = self.types.get_or_insert(ty);
        assert(self@ =~= with_type(old(self)@, ty@));
    }

    /// Ask for what an attribute needs.
    pub fn add_attr(&mut self, a: &Attribute)
        requires
            old(self).wf(),
        ensures
            final(self).wf(),
            final(self)@ == intern_attr(old(self)@, a@),
        decreases *a, 1int,
    {
        match a {
            Attribute::Integer(_, ty) => self.add_type(ty),
            Attribute::Float(_, ty) => self.add_type(ty),
            Attribute::Type(ty) => self.add_type(ty),
            Attribute::String(s) => self.add_string(s.as_str()),
            Attribute::DenseElements(d) => {
                self.add_type(&d.element_type);
                self.add_constant(&d.data);
            },
            Attribute::Array(v) => self.add_list(v),
            Attribute::Dictionary(v) => self.add_dict(v),
            Attribute::OptimizationHints(h) => self.add_hints(&h.entries),
            _ => {},
        }
    }

    /// Ask for what some attributes need.
    pub fn add_list(&mut self, v: &Vec<Attribute>)
        requires
            old(self).wf(),
        ensures
            final(self).wf(),
            final(self)@ == intern_list(
                old(self)@,
                attr::attrs_view(v@),
                v@.len() as int,
            ),
        decreases v@, 0int,
    {
        let ghost t0 = self@;
        let ghost s = attr::attrs_view(v@);
        let mut i: usize = 0;
        while i < v.len()
            invariant
                i <= v@.len(),
                s == attr::attrs_view(v@),
                self.wf(),
                self@ == intern_list(t0, s, i as int),
            decreases v@.len() - i,
        {
            self.add_attr(&v[i]);
            assert(s[i as int] == v@[i as int]@);
            i = i + 1;
        }
    }

    /// Ask for what some named attributes need.
    pub fn add_dict(&mut self, v: &Vec<(String, Attribute)>)
        requires
            old(self).wf(),
        ensures
            final(self).wf(),
            final(self)@ == intern_dict(old(self)@, attr::dict_view(v@), v@.len() as int),
        decreases v@, 0int,
    {
        let ghost t0 = self@;
        let ghost s = attr::dict_view(v@);
        let mut i: usize = 0;
        while i < v.len()
            invariant
                i <= v@.len(),
                s == attr::dict_view(v@),
                self.wf(),
                self@ == intern_dict(t0, s, i as int),
            decreases v@.len() - i,
        {
            self.add_string(v[i].0.as_str());
            self.add_attr(&v[i].1);
            assert(s[i as int] == (v@[i as int].0@, v@[i as int].1@));
            i = i + 1;
        }
    }

    /// Ask for what optimization hints need.
    pub fn add_hints(&mut self, v: &Vec<(String, Vec<(String, Attribute)>)>)
        requires
            old(self).wf(),
        ensures
            final(self).wf(),
            final(self)@ == intern_hints(old(self)@, attr::hints_view(v@), v@.len() as int),
        decreases v@, 0int,
    {
        let ghost t0 = self@;
        let ghost s = attr::hints_view(v@);
        let mut i: usize = 0;
        while i < v.len()
            invariant
                i <= v@.len(),
                s == attr::hints_view(v@),
                self.wf(),
                self@ == intern_hints(t0, s, i as int),
            decreases v@.len() - i,
        {
            self.add_string(v[i].0.as_str());
            self.add_dict(&v[i].1);
            assert(s[i as int] == (v@[i as int].0@, attr::dict_view(v@[i as int].1@)));
            i = i + 1;
        }
    }

    /// Write a reference to a string.
    pub fn write_string(&self, w: &mut EncodingWriter, s: &str)
        requires
            self.wf(),
            self@.strings.contains(s@),
        ensures
            final(w)@ == old(w)@ + string_bytes(self@, s@),
    {
        match self.strings.find(s) {
            Some(i) => {
                w.write_varint(i);
            },
            None => {},
        }
    }

    /// Write a self-contained attribute. `next` counts the constants.
    pub fn write_self_contained_attribute(
        &self,
        w: &mut EncodingWriter,
        a: &Attribute,
        next: &mut u64,
    )
        requires
            self.wf(),
            covers(self@, a@),
            *old(next) + attr_consts(a@).len() <= u64::MAX,
        ensures
            final(w)@ == old(w)@ + attr_bytes(a@, self@, *old(next) as int),
            *final(next) == *old(next) + attr_consts(a@).len(),
        decreases *a, 1int,
    {
        let ghost w0 = w@;
        let ghost t = self@;
        let ghost c = *next as int;
        match a {
            Attribute::Integer(v, ty) => {
                w.write_varint(TAG_INTEGER as u64);
                write_ref(w, &self.types, ty);
                w.write_varint(pattern_of(*v));
            },
            Attribute::Float(v, ty) => {
                w.write_varint(TAG_FLOAT as u64);
                write_ref(w, &self.types, ty);
                w.write_ap_float(*v, ty);
            },
            Attribute::Bool(b) => {
                w.write_varint(TAG_BOOL as u64);
                w.write_byte(if *b {
                    1
                } else {
                    0
                });
            },
            Attribute::Type(ty) => {
                w.write_varint(TAG_TYPE as u64);
                write_ref(w, &self.types, ty);
            },
            Attribute::String(s) => {
                w.write_varint(TAG_STRING as u64);
                self.write_string(w, s.as_str());
            },
            Attribute::DenseElements(d) => {
                w.write_varint(TAG_DENSE_ELEMENTS as u64);
                write_ref(w, &self.types, &d.element_type);
                w.write_varint(*next);
                *next = *next + 1;
            },
            Attribute::DenseI32Array(v) => {
                w.write_le_var_size_i32(v.as_slice());
            },
            Attribute::DivBy(d) => {
                w.write_varint(TAG_DIV_BY as u64);
                w.write_varint(d.divisor);
                write_opt_pair(w, d.every, d.along);
            },
            Attribute::SameElements(v) => {
                w.write_varint(TAG_SAME_ELEMENTS as u64);
                w.write_le_var_size_i64(v.values.as_slice());
            },
            Attribute::Bounded(b) => {
                w.write_varint(TAG_BOUNDED as u64);
                write_opt_pair(w, b.lb, b.ub);
            },
            Attribute::Array(v) => {
                w.write_varint(TAG_ARRAY as u64);
                self.write_array(w, v, next);
            },
            Attribute::Dictionary(v) => {
                w.write_varint(TAG_DICTIONARY as u64);
                self.write_dict(w, v, next);
            },
            Attribute::OptimizationHints(h) => {
                w.write_varint(TAG_OPTIMIZATION_HINTS as u64);
                self.write_hints(w, &h.entries, next);
            },
        }
        assert(w@ =~= w0 + attr_bytes(a@, t, c));
    }

    /// Write a counted list of attributes.
    pub fn write_array(&self, w: &mut EncodingWriter, v: &Vec<Attribute>, next: &mut u64)
        requires
            self.wf(),
            covers_list(self@, attr::attrs_view(v@), v@.len() as int),
            *old(next) + list_consts(attr::attrs_view(v@), v@.len() as int).len() <= u64::MAX,
        ensures
            final(w)@ == old(w)@ + (wire::varint_bytes(v@.len() as u64) + list_bytes(
                attr::attrs_view(v@),
                self@,
                *old(next) as int,
                v@.len() as int,
            )),
            *final(next) == *old(next) + list_consts(
                attr::attrs_view(v@),
                v@.len() as int,
            ).len(),
        decreases v@, 0int,
    {
        let ghost w0 = w@;
        let ghost t = self@;
        let ghost c = *next as int;
        let ghost s = attr::attrs_view(v@);
        let ghost n = v@.len() as int;
        w.write_varint(v.len() as u64);
        let ghost head = wire::varint_bytes(v@.len() as u64);
        assert(w@ =~= w0 + (head + list_bytes(s, t, c, 0)));
        let mut i: usize = 0;
        while i < v.len()
            invariant
                i <= v@.len(),
                n == v@.len(),
                s == attr::attrs_view(v@),
                t == self@,
                self.wf(),
                covers_list(t, s, n),
                c + list_consts(s, n).len() <= u64::MAX,
                *next == c + list_consts(s, i as int).len(),
                w@ == w0 + (head + list_bytes(s, t, c, i as int)),
            decreases v@.len() - i,
        {
            proof {
                lemma_list_part(t, s, i + 1, n);
                assert(s[i as int] == v@[i as int]@);
            }
            let ghost before = w@;
            self.write_self_contained_attribute(w, &v[i], next);
            proof {
                assert(w@ =~= w0 + (head + list_bytes(s, t, c, i + 1)));
            }
            i = i + 1;
        }
    }

    /// Write a counted list of named attributes.
    pub fn write_dict(&self, w: &mut EncodingWriter, v: &Vec<(String, Attribute)>, next: &mut u64)
        requires
            self.wf(),
            covers_dict(self@, attr::dict_view(v@), v@.len() as int),
            *old(next) + dict_consts(attr::dict_view(v@), v@.len() as int).len() <= u64::MAX,
        ensures
            final(w)@ == old(w)@ + (wire::varint_bytes(v@.len() as u64) + dict_bytes(
                attr::dict_view(v@),
                self@,
                *old(next) as int,
                v@.len() as int,
            )),
            *final(next) == *old(next) + dict_consts(
                attr::dict_view(v@),
                v@.len() as int,
            ).len(),
        decreases v@, 0int,
    {
        let ghost w0 = w@;
        let ghost t = self@;
        let ghost c = *next as int;
        let ghost s = attr::dict_view(v@);
        let ghost n = v@.len() as int;
        w.write_varint(v.len() as u64);
        let ghost head = wire::varint_bytes(v@.len() as u64);
        assert(w@ =~= w0 + (head + dict_bytes(s, t, c, 0)));
        let mut i: usize = 0;
        while i < v.len()
            invariant
                i <= v@.len(),
                n == v@.len(),
                s == attr::dict_view(v@),
                t == self@,
                self.wf(),
                covers_dict(t, s, n),
                c + dict_consts(s, n).len() <= u64::MAX,
                *next == c + dict_consts(s, i as int).len(),
                w@ == w0 + (head + dict_bytes(s, t, c, i as int)),
            decreases v@.len() - i,
        {
            proof {
                lemma_dict_part(t, s, i + 1, n);
                assert(s[i as int] == (v@[i as int].0@, v@[i as int].1@));
            }
            self.write_string(w, v[i].0.as_str());
            self.write_self_contained_attribute(w, &v[i].1, next);
            proof {
                assert(w@ =~= w0 + (head + dict_bytes(s, t, c, i + 1)));
            }
            i = i + 1;
        }
    }

    /// Write optimization hints: a counted list of architectures.
    pub fn write_hints(
        &self,
        w: &mut EncodingWriter,
        v: &Vec<(String, Vec<(String, Attribute)>)>,
        next: &mut u64,
    )
        requires
            self.wf(),
            covers_hints(self@, attr::hints_view(v@), v@.len() as int),
            *old(next) + hints_consts(attr::hints_view(v@), v@.len() as int).len() <= u64::MAX,
        ensures
            final(w)@ == old(w)@ + (wire::varint_bytes(v@.len() as u64) + hints_bytes(
                attr::hints_view(v@),
                self@,
                *old(next) as int,
                v@.len() as int,
            )),
            *final(next) == *old(next) + hints_consts(
                attr::hints_view(v@),
                v@.len() as int,
            ).len(),
        decreases v@, 0int,
    {
        let ghost w0 = w@;
        let ghost t = self@;
        let ghost c = *next as int;
        let ghost s = attr::hints_view(v@);
        let ghost n = v@.len() as int;
        w.write_varint(v.len() as u64);
        let ghost head = wire::varint_bytes(v@.len() as u64);
        assert(w@ =~= w0 + (head + hints_bytes(s, t, c, 0)));
        let mut i: usize = 0;
        while i < v.len()
            invariant
                i <= v@.len(),
                n == v@.len(),
                s == attr::hints_view(v@),
                t == self@,
                self.wf(),
                covers_hints(t, s, n),
                c + hints_consts(s, n).len() <= u64::MAX,
                *next == c + hints_consts(s, i as int).len(),
                w@ == w0 + (head + hints_bytes(s, t, c, i as int)),
            decreases v@.len() - i,
        {
            proof {
                lemma_hints_part(t, s, i + 1, n);
                assert(s[i as int] == (v@[i as int].0@, attr::dict_view(v@[i as int].1@)));
            }
            self.write_string(w, v[i].0.as_str());
            w.write_varint(TAG_DICTIONARY as u64);
            self.write_dict(w, &v[i].1, next);
            proof {
                assert(w@ =~= w0 + (head + hints_bytes(s, t, c, i + 1)));
            }
            i = i + 1;
        }
    }
}

fn write_opt_pair(w: &mut EncodingWriter, x: Option<i64>, y: Option<i64>)
    ensures
        final(w)@ == old(w)@ + opt_pair_bytes(x, y),
{
    let flags: u8 = match x {
        Some(_) => match y {
            Some(_) => 3,
            None => 1,
        },
        None => match y {
            Some(_) => 2,
            None => 0,
        },
    };
    w.write_byte(flags);
    match x {
        Some(v) => w.write_signed_varint(v),
        None => {},
    }
    match y {
        Some(v) => w.write_signed_varint(v),
        None => {},
    }
    assert(w@ =~= old(w)@ + opt_pair_bytes(x, y));
}

/// What holds of a list holds of its front.
proof fn lemma_list_part(t: TablesV, s: Seq<AttrV>, k: int, n: int)
    requires
        0 <= k <= n <= s.len(),
        covers_list(t, s, n),
    ensures
        covers_list(t, s, k),
        list_consts(s, k).len() <= list_consts(s, n).len(),
    decreases n,
{
    if k < n {
        lemma_list_part(t, s, k, n - 1);
    }
}

proof fn lemma_dict_part(t: TablesV, s: Seq<(Seq<char>, AttrV)>, k: int, n: int)
    requires
        0 <= k <= n <= s.len(),
        covers_dict(t, s, n),
    ensures
        covers_dict(t, s, k),
        dict_consts(s, k).len() <= dict_consts(s, n).len(),
    decreases n,
{
    if k < n {
        lemma_dict_part(t, s, k, n - 1);
    }
}

proof fn lemma_hints_part(
    t: TablesV,
    s: Seq<(Seq<char>, Seq<(Seq<char>, AttrV)>)>,
    k: int,
    n: int,
)
    requires
        0 <= k <= n <= s.len(),
        covers_hints(t, s, n),
    ensures
        covers_hints(t, s, k),
        hints_consts(s, k).len() <= hints_consts(s, n).len(),
    decreases n,
{
    if k < n {
        lemma_hints_part(t, s, k, n - 1);
    }
}

// ---------------------------------------------------------------------------
// Reading back
// ---------------------------------------------------------------------------

/// What is read back of an attribute: a floating point payload is cut to its
/// format, and constant data has the shape of its type.
pub open spec fn normal_attr(a: AttrV) -> AttrV
    decreases a, 0int,
{
    match a {
        AttrV::Float(v, ty) => AttrV::Float(attrs::float_pattern(v as int, ty), ty),
        AttrV::Dense(d) => AttrV::Dense(attrs::dense_of(d.element_type, d.data)),
        AttrV::Array(s) => AttrV::Array(normal_list(s, s.len() as int)),
        AttrV::Dict(s) => AttrV::Dict(normal_dict(s, s.len() as int)),
        AttrV::Hints(s) => AttrV::Hints(normal_hints(s, s.len() as int)),
        _ => a,
    }
}

/// What is read back of the first `n` of some attributes.
pub open spec fn normal_list(s: Seq<AttrV>, n: int) -> Seq<AttrV>
    decreases s, n,
{
    if n <= 0 || n > s.len() {
        seq![]
    } else {
        normal_list(s, n - 1).push(normal_attr(s[n - 1]))
    }
}

/// What is read back of the first `n` of some named attributes.
pub open spec fn normal_dict(s: Seq<(Seq<char>, AttrV)>, n: int) -> Seq<(Seq<char>, AttrV)>
    decreases s, n,
{
    if n <= 0 || n > s.len() {
        seq![]
    } else {
        normal_dict(s, n - 1).push((s[n - 1].0, normal_attr(s[n - 1].1)))
    }
}

/// What is read back of the first `n` architectures.
pub open spec fn normal_hints(s: Seq<(Seq<char>, Seq<(Seq<char>, AttrV)>)>, n: int) -> Seq<
    (Seq<char>, Seq<(Seq<char>, AttrV)>),
>
    decreases s, n,
{
    if n <= 0 || n > s.len() {
        seq![]
    } else {
        normal_hints(s, n - 1).push(
            (s[n - 1].0, normal_dict(s[n - 1].1, s[n - 1].1.len() as int)),
        )
    }
}

/// Counts and lengths fit in 32 bits, and no array of 32-bit integers occurs:
/// it has no tag and cannot be told apart.
pub open spec fn readable_attr(a: AttrV) -> bool
    decreases a, 0int,
{
    match a {
        AttrV::DenseI32(_) => false,
        AttrV::Dense(d) => d.data.len() <= u32::MAX,
        AttrV::Same(s) => s.len() <= u32::MAX,
        AttrV::Array(s) => s.len() <= u32::MAX && readable_list(s, s.len() as int),
        AttrV::Dict(s) => s.len() <= u32::MAX && readable_dict(s, s.len() as int),
        AttrV::Hints(s) => s.len() <= u32::MAX && readable_hints(s, s.len() as int),
        _ => true,
    }
}

/// The first `n` of some attributes can be read back.
pub open spec fn readable_list(s: Seq<AttrV>, n: int) -> bool
    decreases s, n,
{
    if n <= 0 || n > s.len() {
        true
    } else {
        readable_list(s, n - 1) && readable_attr(s[n - 1])
    }
}

/// The first `n` of some named attributes can be read back.
pub open spec fn readable_dict(s: Seq<(Seq<char>, AttrV)>, n: int) -> bool
    decreases s, n,
{
    if n <= 0 || n > s.len() {
        true
    } else {
        readable_dict(s, n - 1) && readable_attr(s[n - 1].1)
    }
}

/// The first `n` architectures can be read back.
pub open spec fn readable_hints(s: Seq<(Seq<char>, Seq<(Seq<char>, AttrV)>)>, n: int) -> bool
    decreases s, n,
{
    if n <= 0 || n > s.len() {
        true
    } else {
        readable_hints(s, n - 1) && s[n - 1].1.len() <= u32::MAX && readable_dict(
            s[n - 1].1,
            s[n - 1].1.len() as int,
        )
    }
}

/// The tables can be referred to: indices fit in 32 bits.
pub open spec fn small_tables(t: TablesV) -> bool {
    &&& tables_wf(t)
    &&& t.strings.len() <= u32::MAX
    &&& t.types.len() <= u32::MAX
    &&& t.constants.len() <= u32::MAX
}

/// The constants `s` stand in the table from index `c` on.
pub open spec fn placed(t: TablesV, c: int, s: Seq<Seq<u8>>) -> bool {
    0 <= c && c + s.len() <= t.constants.len() && t.constants.subrange(c, c + s.len()) == s
}

/// Two pieces stand behind each other where their concatenation does.
pub proof fn lemma_placed_split(t: TablesV, c: int, x: Seq<Seq<u8>>, y: Seq<Seq<u8>>)
    requires
        placed(t, c, x + y),
    ensures
        placed(t, c, x),
        placed(t, c + x.len(), y),
{
    let whole = t.constants.subrange(c, c + (x + y).len());
    assert(t.constants.subrange(c, c + x.len()) =~= whole.subrange(0, x.len() as int));
    assert(whole.subrange(0, x.len() as int) =~= x);
    assert(t.constants.subrange(c + x.len(), c + x.len() + y.len()) =~= whole.skip(
        x.len() as int,
    ));
    assert(whole.skip(x.len() as int) =~= y);
}

/// A string of the table is read where its reference stands.
pub proof fn lemma_string_holds(d: Seq<u8>, p: int, t: TablesV, s: Seq<char>, what: Subject)
    requires
        small_tables(t),
        t.strings.contains(s),
        wire::holds_at(d, p, string_bytes(t, s)),
    ensures
        attrs::string_at(d, p, t, what) == Ok::<(Seq<char>, int), ReadError>(
            (s, p + string_bytes(t, s).len()),
        ),
{
    let i = t.strings.index_of(s);
    assert(0 <= i < t.strings.len() && t.strings[i] == s);
    wire::lemma_varint_holds(d, p, i as u64);
}

/// A type of the table is read where its reference stands.
pub proof fn lemma_type_holds(d: Seq<u8>, p: int, t: TablesV, ty: TypeV, what: Subject)
    requires
        small_tables(t),
        t.types.contains(ty),
        wire::holds_at(d, p, type_bytes(t, ty)),
    ensures
        wire_types::type_ref_at(d, p, t.types, what) == Ok::<(TypeV, int), ReadError>(
            (ty, p + type_bytes(t, ty).len()),
        ),
{
    let i = t.types.index_of(ty);
    assert(0 <= i < t.types.len() && t.types[i] == ty);
    wire::lemma_varint_holds(d, p, i as u64);
}

/// The data of a constant is read from its entry.
pub proof fn lemma_constant_data(data: Seq<u8>, length: Subject)
    requires
        data.len() <= u32::MAX,
    ensures
        attrs::constant_data(constant_entry(data), length) == Ok::<Seq<u8>, ReadError>(data),
{
    let e = constant_entry(data);
    let h = wire::varint_bytes(data.len() as u64);
    wire::lemma_holds_whole(e);
    wire::lemma_holds_split(e, 0, h, data);
    wire::lemma_count_holds(e, 0, data.len() as int, length);
}

/// A constant of the table is read where its index stands.
pub proof fn lemma_constant_holds(
    d: Seq<u8>,
    p: int,
    t: TablesV,
    c: int,
    data: Seq<u8>,
    index: Subject,
    what: Subject,
    length: Subject,
)
    requires
        small_tables(t),
        data.len() <= u32::MAX,
        placed(t, c, seq![constant_entry(data)]),
        wire::holds_at(d, p, wire::varint_bytes(c as u64)),
    ensures
        attrs::constant_at(d, p, t, index, what, length) == Ok::<(Seq<u8>, int), ReadError>(
            (data, p + wire::varint_bytes(c as u64).len()),
        ),
{
    wire::lemma_count_holds(d, p, c, index);
    assert(t.constants.subrange(c, c + 1)[0] == t.constants[c]);
    lemma_constant_data(data, length);
}

proof fn lemma_opt_signed_holds(d: Seq<u8>, p: int, v: Option<i64>)
    requires
        wire::holds_at(d, p, opt_signed_bytes(v)),
    ensures
        attrs::opt_signed_at(d, p, v is Some) == Ok::<(Option<i64>, int), ReadError>(
            (v, p + opt_signed_bytes(v).len()),
        ),
{
    if v is Some {
        wire::lemma_signed_varint_holds(d, p, v->Some_0);
    }
}

proof fn lemma_opt_pair_holds(d: Seq<u8>, p: int, x: Option<i64>, y: Option<i64>)
    requires
        wire::holds_at(d, p, opt_pair_bytes(x, y)),
    ensures
        attrs::opt_pair_at(d, p) == Ok::<((Option<i64>, Option<i64>), int), ReadError>(
            ((x, y), p + opt_pair_bytes(x, y).len()),
        ),
{
    let f = seq![pair_flags(x, y)];
    wire::lemma_holds_split(d, p, f + opt_signed_bytes(x), opt_signed_bytes(y));
    wire::lemma_holds_split(d, p, f, opt_signed_bytes(x));
    wire::lemma_byte_holds(d, p, pair_flags(x, y));
    lemma_opt_signed_holds(d, p + 1, x);
    lemma_opt_signed_holds(d, p + (f + opt_signed_bytes(x)).len(), y);
}

/// The tag of an attribute.
pub open spec fn attr_tag(a: AttrV) -> u8 {
    match a {
        AttrV::Integer(_, _) => TAG_INTEGER,
        AttrV::Float(_, _) => TAG_FLOAT,
        AttrV::Bool(_) => TAG_BOOL,
        AttrV::Type(_) => TAG_TYPE,
        AttrV::Str(_) => TAG_STRING,
        AttrV::Array(_) => TAG_ARRAY,
        AttrV::Dense(_) => TAG_DENSE_ELEMENTS,
        AttrV::DenseI32(_) => 0,
        AttrV::DivBy(_) => TAG_DIV_BY,
        AttrV::Same(_) => TAG_SAME_ELEMENTS,
        AttrV::Dict(_) => TAG_DICTIONARY,
        AttrV::Hints(_) => TAG_OPTIMIZATION_HINTS,
        AttrV::Bounded(_) => TAG_BOUNDED,
    }
}

/// What follows the tag of an attribute.
pub open spec fn attr_rest(a: AttrV, t: TablesV, c: int) -> Seq<u8> {
    match a {
        AttrV::Integer(v, ty) => type_bytes(t, ty) + wire::varint_bytes(
            wire::i64_pattern(v) as u64,
        ),
        AttrV::Float(v, ty) => type_bytes(t, ty) + attrs::ap_float_bytes(v, ty),
        AttrV::Bool(b) => seq![bool_byte(b)],
        AttrV::Type(ty) => type_bytes(t, ty),
        AttrV::Str(s) => string_bytes(t, s),
        AttrV::Dense(d) => type_bytes(t, d.element_type) + wire::varint_bytes(c as u64),
        AttrV::DenseI32(s) => seq![],
        AttrV::DivBy(d) => wire::varint_bytes(d.divisor) + opt_pair_bytes(d.every, d.along),
        AttrV::Same(s) => wire::i64_array_bytes(s),
        AttrV::Bounded(b) => opt_pair_bytes(b.lb, b.ub),
        AttrV::Array(s) => wire::varint_bytes(s.len() as u64) + list_bytes(
            s,
            t,
            c,
            s.len() as int,
        ),
        AttrV::Dict(s) => wire::varint_bytes(s.len() as u64) + dict_bytes(
            s,
            t,
            c,
            s.len() as int,
        ),
        AttrV::Hints(s) => wire::varint_bytes(s.len() as u64) + hints_bytes(
            s,
            t,
            c,
            s.len() as int,
        ),
    }
}

/// Whether an attribute holds no attributes.
pub open spec fn is_leaf(a: AttrV) -> bool {
    !(a is Array) && !(a is Dict) && !(a is Hints) && !(a is DenseI32)
}

proof fn lemma_leaf_holds(d: Seq<u8>, p: int, a: AttrV, t: TablesV, c: int)
    requires
        is_leaf(a),
        small_tables(t),
        covers(t, a),
        readable_attr(a),
        placed(t, c, attr_consts(a)),
        wire::holds_at(d, p, attr_rest(a, t, c)),
    ensures
        attrs::leaf_at(d, p, t, attr_tag(a)) == Ok::<(AttrV, int), ReadError>(
            (normal_attr(a), p + attr_rest(a, t, c).len()),
        ),
{
    match a {
        AttrV::Integer(v, ty) => {
            let x = type_bytes(t, ty);
            let y = wire::i64_pattern(v) as u64;
            wire::lemma_holds_split(d, p, x, wire::varint_bytes(y));
            lemma_type_holds(d, p, t, ty, Subject::AttributeType);
            wire::lemma_varint_holds(d, p + x.len(), y);
            assert(wire::i64_of_pattern(y as int) == v);
        },
        AttrV::Float(v, ty) => {
            let x = type_bytes(t, ty);
            wire::lemma_holds_split(d, p, x, attrs::ap_float_bytes(v, ty));
            lemma_type_holds(d, p, t, ty, Subject::AttributeType);
            attrs::lemma_ap_float_holds(d, p + x.len(), v, ty);
        },
        AttrV::Bool(b) => {
            wire::lemma_byte_holds(d, p, bool_byte(b));
        },
        AttrV::Type(ty) => {
            lemma_type_holds(d, p, t, ty, Subject::AttributeType);
        },
        AttrV::Str(s) => {
            lemma_string_holds(d, p, t, s, Subject::Str);
        },
        AttrV::Dense(e) => {
            let x = type_bytes(t, e.element_type);
            wire::lemma_holds_split(d, p, x, wire::varint_bytes(c as u64));
            lemma_type_holds(d, p, t, e.element_type, Subject::DenseElementsType);
            lemma_constant_holds(
                d,
                p + x.len(),
                t,
                c,
                e.data,
                Subject::DenseElementsConstant,
                Subject::DenseElementsConstant,
                Subject::DenseElementsLength,
            );
        },
        AttrV::DivBy(e) => {
            let x = wire::varint_bytes(e.divisor);
            wire::lemma_holds_split(d, p, x, opt_pair_bytes(e.every, e.along));
            wire::lemma_varint_holds(d, p, e.divisor);
            lemma_opt_pair_holds(d, p + x.len(), e.every, e.along);
        },
        AttrV::Same(s) => {
            wire::lemma_i64_array_holds(d, p, s);
        },
        AttrV::Bounded(b) => {
            lemma_opt_pair_holds(d, p, b.lb, b.ub);
        },
        _ => {},
    }
}

/// An attribute is read back where it was written.
pub proof fn lemma_attr_holds(d: Seq<u8>, p: int, a: AttrV, t: TablesV, c: int, depth: nat)
    requires
        small_tables(t),
        covers(t, a),
        readable_attr(a),
        placed(t, c, attr_consts(a)),
        wire::holds_at(d, p, attr_bytes(a, t, c)),
        depth >= d.len() - p,
    ensures
        attrs::attr_at(d, p, t, depth) == Ok::<(AttrV, int), ReadError>(
            (normal_attr(a), p + attr_bytes(a, t, c).len()),
        ),
    decreases a, 0int,
{
    let g = tag_bytes(attr_tag(a));
    let rest = attr_rest(a, t, c);
    assert(attr_bytes(a, t, c) == g + rest);
    wire::lemma_holds_split(d, p, g, rest);
    wire::lemma_varint_holds(d, p, attr_tag(a) as u64);
    assert((attr_tag(a) as u64 % 256) as u8 == attr_tag(a));
    let q = p + g.len();
    let inner = (depth - 1) as nat;
    match a {
        AttrV::Array(s) => {
            lemma_array_holds(d, q, s, t, c, inner);
        },
        AttrV::Dict(s) => {
            lemma_dict_holds(d, q, s, t, c, inner);
        },
        AttrV::Hints(s) => {
            lemma_hints_holds(d, q, s, t, c, inner);
        },
        _ => {
            lemma_leaf_holds(d, q, a, t, c);
        },
    }
}

proof fn lemma_list_holds(d: Seq<u8>, p: int, s: Seq<AttrV>, t: TablesV, c: int, depth: nat, n: int)
    requires
        small_tables(t),
        0 <= n <= s.len(),
        covers_list(t, s, n),
        readable_list(s, n),
        placed(t, c, list_consts(s, n)),
        wire::holds_at(d, p, list_bytes(s, t, c, n)),
        depth >= d.len() - p,
    ensures
        attrs::attr_list_at(d, p, t, depth, n) == Ok::<(Seq<AttrV>, int), ReadError>(
            (normal_list(s, n), p + list_bytes(s, t, c, n).len()),
        ),
    decreases s, n,
{
    if n > 0 {
        let x = list_bytes(s, t, c, n - 1);
        let k = list_consts(s, n - 1);
        lemma_placed_split(t, c, k, attr_consts(s[n - 1]));
        wire::lemma_holds_split(d, p, x, attr_bytes(s[n - 1], t, c + k.len()));
        lemma_list_holds(d, p, s, t, c, depth, n - 1);
        lemma_attr_holds(d, p + x.len(), s[n - 1], t, c + k.len(), depth);
    }
}

/// A counted list of attributes is read back where it was written.
pub proof fn lemma_array_holds(d: Seq<u8>, p: int, s: Seq<AttrV>, t: TablesV, c: int, depth: nat)
    requires
        small_tables(t),
        s.len() <= u32::MAX,
        covers_list(t, s, s.len() as int),
        readable_list(s, s.len() as int),
        placed(t, c, list_consts(s, s.len() as int)),
        wire::holds_at(
            d,
            p,
            wire::varint_bytes(s.len() as u64) + list_bytes(s, t, c, s.len() as int),
        ),
        depth >= d.len() - p,
    ensures
        attrs::array_at(d, p, t, depth) == Ok::<(AttrV, int), ReadError>(
            (
                normal_attr(AttrV::Array(s)),
                p + (wire::varint_bytes(s.len() as u64) + list_bytes(
                    s,
                    t,
                    c,
                    s.len() as int,
                )).len(),
            ),
        ),
    decreases s, s.len() + 1,
{
    let h = wire::varint_bytes(s.len() as u64);
    wire::lemma_holds_split(d, p, h, list_bytes(s, t, c, s.len() as int));
    wire::lemma_count_holds(d, p, s.len() as int, Subject::ArrayElement);
    lemma_list_holds(d, p + h.len(), s, t, c, depth, s.len() as int);
}

proof fn lemma_dict_list_holds(
    d: Seq<u8>,
    p: int,
    s: Seq<(Seq<char>, AttrV)>,
    t: TablesV,
    c: int,
    depth: nat,
    n: int,
)
    requires
        small_tables(t),
        0 <= n <= s.len(),
        covers_dict(t, s, n),
        readable_dict(s, n),
        placed(t, c, dict_consts(s, n)),
        wire::holds_at(d, p, dict_bytes(s, t, c, n)),
        depth >= d.len() - p,
    ensures
        attrs::dict_list_at(d, p, t, depth, n) == Ok::<
            (Seq<(Seq<char>, AttrV)>, int),
            ReadError,
        >((normal_dict(s, n), p + dict_bytes(s, t, c, n).len())),
    decreases s, n,
{
    if n > 0 {
        let x = dict_bytes(s, t, c, n - 1);
        let k = dict_consts(s, n - 1);
        let key = string_bytes(t, s[n - 1].0);
        let v = attr_bytes(s[n - 1].1, t, c + k.len());
        lemma_placed_split(t, c, k, attr_consts(s[n - 1].1));
        wire::lemma_holds_split(d, p, x, key + v);
        wire::lemma_holds_split(d, p + x.len(), key, v);
        lemma_dict_list_holds(d, p, s, t, c, depth, n - 1);
        lemma_string_holds(d, p + x.len(), t, s[n - 1].0, Subject::Str);
        lemma_attr_holds(d, p + x.len() + key.len(), s[n - 1].1, t, c + k.len(), depth);
    }
}

/// A counted list of named attributes is read back where it was written.
pub proof fn lemma_dict_holds(
    d: Seq<u8>,
    p: int,
    s: Seq<(Seq<char>, AttrV)>,
    t: TablesV,
    c: int,
    depth: nat,
)
    requires
        small_tables(t),
        s.len() <= u32::MAX,
        covers_dict(t, s, s.len() as int),
        readable_dict(s, s.len() as int),
        placed(t, c, dict_consts(s, s.len() as int)),
        wire::holds_at(
            d,
            p,
            wire::varint_bytes(s.len() as u64) + dict_bytes(s, t, c, s.len() as int),
        ),
        depth >= d.len() - p,
    ensures
        attrs::dict_at(d, p, t, depth) == Ok::<(AttrV, int), ReadError>(
            (
                AttrV::Dict(normal_dict(s, s.len() as int)),
                p + (wire::varint_bytes(s.len() as u64) + dict_bytes(
                    s,
                    t,
                    c,
                    s.len() as int,
                )).len(),
            ),
        ),
    decreases s, s.len() + 1,
{
    let h = wire::varint_bytes(s.len() as u64);
    wire::lemma_holds_split(d, p, h, dict_bytes(s, t, c, s.len() as int));
    wire::lemma_count_holds(d, p, s.len() as int, Subject::DictionaryEntry);
    lemma_dict_list_holds(d, p + h.len(), s, t, c, depth, s.len() as int);
}

proof fn lemma_hints_list_holds(
    d: Seq<u8>,
    p: int,
    s: Seq<(Seq<char>, Seq<(Seq<char>, AttrV)>)>,
    t: TablesV,
    c: int,
    depth: nat,
    n: int,
)
    requires
        small_tables(t),
        0 <= n <= s.len(),
        covers_hints(t, s, n),
        readable_hints(s, n),
        placed(t, c, hints_consts(s, n)),
        wire::holds_at(d, p, hints_bytes(s, t, c, n)),
        depth >= d.len() - p,
    ensures
        attrs::hints_list_at(d, p, t, depth, n) == Ok::<
            (Seq<(Seq<char>, Seq<(Seq<char>, AttrV)>)>, int),
            ReadError,
        >((normal_hints(s, n), p + hints_bytes(s, t, c, n).len())),
    decreases s, n,
{
    if n > 0 {
        let x = hints_bytes(s, t, c, n - 1);
        let k = hints_consts(s, n - 1);
        let key = string_bytes(t, s[n - 1].0);
        let h = s[n - 1].1;
        let g = tag_bytes(TAG_DICTIONARY);
        let v = wire::varint_bytes(h.len() as u64) + dict_bytes(h, t, c + k.len(), h.len() as int);
        lemma_placed_split(t, c, k, dict_consts(h, h.len() as int));
        wire::lemma_holds_split(d, p, x, key + (g + v));
        wire::lemma_holds_split(d, p + x.len(), key, g + v);
        wire::lemma_holds_split(d, p + x.len() + key.len(), g, v);
        lemma_hints_list_holds(d, p, s, t, c, depth, n - 1);
        let q = p + x.len() + key.len();
        lemma_string_holds(d, p + x.len(), t, s[n - 1].0, Subject::Str);
        wire::lemma_varint_holds(d, q, TAG_DICTIONARY as u64);
        lemma_dict_holds(d, q + g.len(), h, t, c + k.len(), (depth - 1) as nat);
        assert(attrs::attr_at(d, q, t, depth) == attrs::dict_at(
            d,
            q + g.len(),
            t,
            (depth - 1) as nat,
        ));
    }
}

/// Optimization hints are read back where they were written.
pub proof fn lemma_hints_holds(
    d: Seq<u8>,
    p: int,
    s: Seq<(Seq<char>, Seq<(Seq<char>, AttrV)>)>,
    t: TablesV,
    c: int,
    depth: nat,
)
    requires
        small_tables(t),
        s.len() <= u32::MAX,
        covers_hints(t, s, s.len() as int),
        readable_hints(s, s.len() as int),
        placed(t, c, hints_consts(s, s.len() as int)),
        wire::holds_at(
            d,
            p,
            wire::varint_bytes(s.len() as u64) + hints_bytes(s, t, c, s.len() as int),
        ),
        depth >= d.len() - p,
    ensures
        attrs::hints_at(d, p, t, depth) == Ok::<(AttrV, int), ReadError>(
            (
                normal_attr(AttrV::Hints(s)),
                p + (wire::varint_bytes(s.len() as u64) + hints_bytes(
                    s,
                    t,
                    c,
                    s.len() as int,
                )).len(),
            ),
        ),
    decreases s, s.len() + 1,
{
    let h = wire::varint_bytes(s.len() as u64);
    wire::lemma_holds_split(d, p, h, hints_bytes(s, t, c, s.len() as int));
    wire::lemma_count_holds(d, p, s.len() as int, Subject::HintsArch);
    lemma_hints_list_holds(d, p + h.len(), s, t, c, depth, s.len() as int);
}

} // verus!
