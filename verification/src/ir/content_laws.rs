//! What the contents of types, attributes, locations and modules hold.
use vstd::prelude::*;
use crate::ir::attr::{AttrV, Attribute, DenseElements};
use crate::ir::attr;
use crate::ir::builder::OpBuilder;
use crate::ir::location::{DIFile, DISubprogram, DebugScope, Location, LocationV, ScopeV};
use crate::ir::module::{Block, Global, Module, Operation, ValueData};
use crate::ir::module;
use crate::ir::types::{TensorViewType, Type, TypeV};
use crate::ir::types;

verus! {

/// The contents of a type hold each of its parts.
pub proof fn lemma_type(t: Type)
    ensures
        match t {
            Type::Scalar(s) => t@ == TypeV::Scalar(s),
            Type::Token => t@ == TypeV::Token,
            Type::Pointer(p) => t@ matches TypeV::Pointer(s) && s == p.pointee,
            Type::Tile(x) => t@ matches TypeV::Tile(shape, e) && shape == x.shape@ && e
                == x.element_type,
            Type::TensorView(v) => t@ matches TypeV::TensorView(w) && w == v@,
            Type::PartitionView(v) => t@ matches TypeV::PartitionView(tile, w, map, pad) && tile
                == v.tile_shape@ && w == v.tensor_view@ && map == v.dim_map@ && pad
                == v.padding_value,
            Type::GatherScatterView(v) => t@ matches TypeV::GatherScatterView(tile, w, dim, pad)
                && tile == v.tile_shape@ && w == v.tensor_view@ && dim == v.sparse_dim && pad
                == v.padding_value,
            Type::StridedView(v) => t@ matches TypeV::StridedView(tile, steps, w, map, pad) && tile
                == v.tile_shape@ && steps == v.traversal_strides@ && w == v.tensor_view@ && map
                == v.dim_map@ && pad == v.padding_value,
            Type::Func(f) => t@ matches TypeV::Func(inputs, results) && inputs.len()
                == f.inputs@.len() && results.len() == f.results@.len() && (forall|i: int|
                0 <= i < inputs.len() ==> #[trigger] inputs[i] == f.inputs@[i]@) && (forall|i: int|
                0 <= i < results.len() ==> #[trigger] results[i] == f.results@[i]@),
        },
{
    if let Type::Func(f) = t {
        assert(types::type_view(t) == TypeV::Func(
            types::types_view(f.inputs@),
            types::types_view(f.results@),
        ));
        assert(types::types_view(f.inputs@).len() == f.inputs@.len());
        assert(types::types_view(f.results@).len() == f.results@.len());
        assert forall|i: int| 0 <= i < f.inputs@.len() implies (#[trigger] types::types_view(
            f.inputs@,
        )[i]) == f.inputs@[i]@ by {}
        assert forall|i: int| 0 <= i < f.results@.len() implies (#[trigger] types::types_view(
            f.results@,
        )[i]) == f.results@[i]@ by {}
    }
}

/// The contents of a tensor view, of dense elements and of a file.
pub proof fn lemma_parts(v: TensorViewType, d: DenseElements, f: DIFile)
    ensures
        v@.element_type == v.element_type,
        v@.shape == v.shape@,
        v@.strides == v.strides@,
        d@.element_type == d.element_type@,
        d@.shape == d.shape@,
        d@.data == d.data@,
        f@.name == f.name@,
        f@.directory == f.directory@,
{
}

/// The contents of an attribute hold its value.
pub proof fn lemma_attribute(a: Attribute)
    ensures
        match a {
            Attribute::Integer(v, t) => a@ == AttrV::Integer(v, t@),
            Attribute::Float(v, t) => a@ == AttrV::Float(v, t@),
            Attribute::Bool(b) => a@ == AttrV::Bool(b),
            Attribute::Type(t) => a@ == AttrV::Type(t@),
            Attribute::String(s) => a@ == AttrV::Str(s@),
            Attribute::DenseElements(d) => a@ == AttrV::Dense(d@),
            Attribute::DenseI32Array(v) => a@ == AttrV::DenseI32(v@),
            Attribute::DivBy(d) => a@ == AttrV::DivBy(d),
            Attribute::SameElements(s) => a@ == AttrV::Same(s.values@),
            Attribute::Bounded(b) => a@ == AttrV::Bounded(b),
            Attribute::Array(v) => a@ matches AttrV::Array(s) && s.len() == v@.len() && forall|
                i: int,
            |
                0 <= i < s.len() ==> #[trigger] s[i] == v@[i]@,
            Attribute::Dictionary(v) => a@ matches AttrV::Dict(s) && s == attr::dict_view(v@),
            Attribute::OptimizationHints(h) => a@ matches AttrV::Hints(s) && s == attr::hints_view(
                h.entries@,
            ),
        },
{
    if let Attribute::Array(v) = a {
        assert(attr::attr_view(a) == AttrV::Array(attr::attrs_view(v@)));
        assert(attr::attrs_view(v@).len() == v@.len());
        assert forall|i: int| 0 <= i < v@.len() implies (#[trigger] attr::attrs_view(v@)[i])
            == v@[i]@ by {}
    }
}

/// The contents of a subprogram, a scope and a location hold each of their fields.
pub proof fn lemma_location(p: DISubprogram, s: DebugScope, l: Location)
    ensures
        p@.file == p.file@,
        p@.line == p.line,
        p@.name == p.name@,
        p@.linkage_name == p.linkage_name@,
        p@.compile_unit == p.compile_unit.file@,
        p@.scope_line == p.scope_line,
        match s {
            DebugScope::Subprogram(x) => s@ == ScopeV::Subprogram(x@),
            DebugScope::LexicalBlock(b) => s@ matches ScopeV::LexicalBlock(up, file, line, column)
                && *up == b.scope@ && file == b.file@ && line == b.line && column == b.column,
        },
        match l {
            Location::Unknown => l@ == LocationV::Unknown,
            Location::FileLineCol { filename, line, column } => l@ matches LocationV::FileLineCol(
                f,
                n,
                c,
            ) && f == filename@ && n == line && c == column,
            Location::DebugInfo(d) => l@ matches LocationV::DebugInfo(f, n, c, up) && f
                == d.filename@ && n == d.line && c == d.column && up == d.scope@,
            Location::CallSite { callee, caller } => l@ matches LocationV::CallSite(a, b) && *a
                == callee@ && *b == caller@,
        },
{
}

/// The contents of what a module is made of hold each of its fields.
pub proof fn lemma_module(o: Operation, b: Block, g: Global, v: ValueData, m: Module, w: OpBuilder)
    ensures
        o@.opcode == o.opcode,
        o@.operands == o.operands@,
        o@.result_types == types::types_view(o.result_types@),
        o@.attributes == attr::dict_view(o.attributes@),
        o@.regions == o.regions@,
        o@.location == o.location@,
        b@.ops == b.ops@,
        b@.args == module::args_view(b.args@),
        g@.sym_name == g.sym_name@,
        g@.value == g.value@,
        g@.alignment == g.alignment,
        g@.constant == g.constant,
        g@.symbol_visibility == g.symbol_visibility,
        v@.ty == v.ty@,
        v@.producer == v.producer,
        m@.name == m.name@,
        m@.functions == m.functions@,
        m@.globals.len() == m.globals@.len(),
        m@.ops.len() == m.ops@.len(),
        m@.blocks.len() == m.blocks@.len(),
        m@.regions.len() == m.regions@.len(),
        m@.values.len() == m.values@.len(),
        forall|i: int| 0 <= i < m.globals@.len() ==> #[trigger] m@.globals[i] == m.globals@[i]@,
        forall|i: int| 0 <= i < m.ops@.len() ==> #[trigger] m@.ops[i] == m.ops@[i]@,
        forall|i: int| 0 <= i < m.blocks@.len() ==> #[trigger] m@.blocks[i] == m.blocks@[i]@,
        forall|i: int|
            0 <= i < m.regions@.len() ==> #[trigger] m@.regions[i] == m.regions@[i].blocks@,
        forall|i: int| 0 <= i < m.values@.len() ==> #[trigger] m@.values[i] == m.values@[i]@,
        w@ == w.op@,
{
}

/// A new module has a name and nothing else.
pub proof fn lemma_empty(name: Seq<char>)
    ensures
        ({
            let m = module::empty_module(name);
            &&& m.name == name
            &&& m.globals.len() == 0 && m.functions.len() == 0 && m.ops.len() == 0
            &&& m.blocks.len() == 0 && m.regions.len() == 0 && m.values.len() == 0
        }),
{
}

/// Only a tile has a tile's shape.
pub proof fn lemma_tile_shape(t: TypeV)
    ensures
        t matches TypeV::Tile(shape, _) ==> types::tile_shape_of(t) == shape,
        !(t is Tile) ==> types::tile_shape_of(t).len() == 0,
{
}

} // verus!
