//! Modules: arenas of operations, blocks, regions and values.
use vstd::prelude::*;
use crate::bytecode::opcode::Opcode;
use crate::ir::attr::{AttrV, Attribute, DenseElements, DenseV};
use crate::ir::attr;
use crate::ir::location::{Location, LocationV};
use crate::ir::types::{Type, TypeV};
use crate::ir::types;

verus! {

/// Names an operation of a module.
#[derive(Clone, Copy, Debug, PartialEq, Eq, Structural)]
pub struct OpId(pub u32);

/// Names a block of a module.
#[derive(Clone, Copy, Debug, PartialEq, Eq, Structural)]
pub struct BlockId(pub u32);

/// Names a region of a module.
#[derive(Clone, Copy, Debug, PartialEq, Eq, Structural)]
pub struct RegionId(pub u32);

/// Names a value of a module.
#[derive(Clone, Copy, Debug, PartialEq, Eq, Structural)]
pub struct Value(pub u32);

/// What defines a value.
#[derive(Clone, Copy, Debug, PartialEq, Eq, Structural)]
pub enum ValueProducer {
    BlockArg { block: BlockId, arg_index: u32 },
    OpResult { op: OpId, result_index: u32 },
}

/// A value.
pub struct ValueData {
    pub ty: Type,
    pub producer: ValueProducer,
}

/// An operation.
pub struct Operation {
    pub opcode: Opcode,
    pub operands: Vec<Value>,
    pub result_types: Vec<Type>,
    pub attributes: Vec<(String, Attribute)>,
    pub regions: Vec<RegionId>,
    pub location: Location,
}

/// A block: arguments and operations.
pub struct Block {
    pub args: Vec<(Value, Type)>,
    pub ops: Vec<OpId>,
}

/// A region: a list of blocks.
pub struct Region {
    pub blocks: Vec<BlockId>,
}

/// Whether a symbol is visible outside its module.
#[derive(Clone, Copy, Debug, PartialEq, Eq, Structural)]
pub enum SymbolVisibility {
    Public,
    Private,
}

/// A global variable.
pub struct Global {
    pub sym_name: String,
    pub value: DenseElements,
    pub alignment: u64,
    pub constant: bool,
    pub symbol_visibility: SymbolVisibility,
}

/// A module.
pub struct Module {
    pub name: String,
    pub globals: Vec<Global>,
    pub functions: Vec<OpId>,
    pub ops: Vec<Operation>,
    pub blocks: Vec<Block>,
    pub regions: Vec<Region>,
    pub values: Vec<ValueData>,
}

/// The contents of a value.
#[verifier::ext_equal]
pub struct ValueV {
    pub ty: TypeV,
    pub producer: ValueProducer,
}

/// The contents of an operation.
#[verifier::ext_equal]
pub struct OperationV {
    pub opcode: Opcode,
    pub operands: Seq<Value>,
    pub result_types: Seq<TypeV>,
    pub attributes: Seq<(Seq<char>, AttrV)>,
    pub regions: Seq<RegionId>,
    pub location: LocationV,
}

/// The contents of a block.
#[verifier::ext_equal]
pub struct BlockV {
    pub args: Seq<(Value, TypeV)>,
    pub ops: Seq<OpId>,
}

/// The contents of a global variable.
#[verifier::ext_equal]
pub struct GlobalV {
    pub sym_name: Seq<char>,
    pub value: DenseV,
    pub alignment: u64,
    pub constant: bool,
    pub symbol_visibility: SymbolVisibility,
}

/// The contents of a module.
#[verifier::ext_equal]
pub struct ModuleV {
    pub name: Seq<char>,
    pub globals: Seq<GlobalV>,
    pub functions: Seq<OpId>,
    pub ops: Seq<OperationV>,
    pub blocks: Seq<BlockV>,
    pub regions: Seq<Seq<BlockId>>,
    pub values: Seq<ValueV>,
}

/// The contents of block arguments.
pub open spec fn args_view(s: Seq<(Value, Type)>) -> Seq<(Value, TypeV)> {
    Seq::new(s.len(), |i: int| (s[i].0, s[i].1@))
}

impl View for ValueData {
    type V = ValueV;

    open spec fn view(&self) -> ValueV {
        ValueV { ty: self.ty@, producer: self.producer }
    }
}

impl View for Operation {
    type V = OperationV;

    open spec fn view(&self) -> OperationV {
        OperationV {
            opcode: self.opcode,
            operands: self.operands@,
            result_types: types::types_view(self.result_types@),
            attributes: attr::dict_view(self.attributes@),
            regions: self.regions@,
            location: self.location@,
        }
    }
}

impl View for Block {
    type V = BlockV;

    open spec fn view(&self) -> BlockV {
        BlockV { args: args_view(self.args@), ops: self.ops@ }
    }
}

impl View for Global {
    type V = GlobalV;

    open spec fn view(&self) -> GlobalV {
        GlobalV {
            sym_name: self.sym_name@,
            value: self.value@,
            alignment: self.alignment,
            constant: self.constant,
            symbol_visibility: self.symbol_visibility,
        }
    }
}

/// The contents of an arena.
pub open spec fn views<T: View>(s: Seq<T>) -> Seq<T::V> {
    Seq::new(s.len(), |i: int| s[i]@)
}

impl View for Module {
    type V = ModuleV;

    open spec fn view(&self) -> ModuleV {
        ModuleV {
            name: self.name@,
            globals: views(self.globals@),
            functions: self.functions@,
            ops: views(self.ops@),
            blocks: views(self.blocks@),
            regions: Seq::new(self.regions@.len(), |i: int| self.regions@[i].blocks@),
            values: views(self.values@),
        }
    }
}

/// An empty module.
pub open spec fn empty_module(name: Seq<char>) -> ModuleV {
    ModuleV {
        name,
        globals: Seq::empty(),
        functions: Seq::empty(),
        ops: Seq::empty(),
        blocks: Seq::empty(),
        regions: Seq::empty(),
        values: Seq::empty(),
    }
}

impl Module {
    /// An empty module.
    pub fn new(name: &str) -> (m: Module)
        ensures
            m@ == empty_module(name@),
    {
        let m = Module {
            name: name.to_owned(),
            globals: Vec::new(),
            functions: Vec::new(),
            ops: Vec::new(),
            blocks: Vec::new(),
            regions: Vec::new(),
            values: Vec::new(),
        };
        assert(m@ =~= empty_module(name@));
        m
    }

    /// Add an operation.
    pub fn alloc_op(&mut self, op: Operation) -> (id: OpId)
        ensures
            id == OpId(old(self)@.ops.len() as u32),
            final(self)@ == (ModuleV { ops: old(self)@.ops.push(op@), ..old(self)@ }),
    {
        let id: OpId = OpId(self.ops.len() as u32);
        self.ops.push(op);
        assert(self@ =~= ModuleV { ops: old(self)@.ops.push(op@), ..old(self)@ });
        id
    }

    /// Add a block.
    pub fn alloc_block(&mut self, block: Block) -> (id: BlockId)
        ensures
            id == BlockId(old(self)@.blocks.len() as u32),
            final(self)@ == (ModuleV { blocks: old(self)@.blocks.push(block@), ..old(self)@ }),
    {
        let id: BlockId = BlockId(self.blocks.len() as u32);
        self.blocks.push(block);
        assert(self@ =~= ModuleV { blocks: old(self)@.blocks.push(block@), ..old(self)@ });
        id
    }

    /// Add a region.
    pub fn alloc_region(&mut self, region: Region) -> (id: RegionId)
        ensures
            id == RegionId(old(self)@.regions.len() as u32),
            final(self)@ == (ModuleV {
                regions: old(self)@.regions.push(region.blocks@),
                ..old(self)@
            }),
    {
        let id: RegionId = RegionId(self.regions.len() as u32);
        self.regions.push(region);
        assert(self@ =~= ModuleV {
            regions: old(self)@.regions.push(region.blocks@),
            ..old(self)@
        });
        id
    }

    /// Add a value.
    pub fn alloc_value(&mut self, ty: Type, producer: ValueProducer) -> (id: Value)
        ensures
            id == Value(old(self)@.values.len() as u32),
            final(self)@ == (ModuleV {
                values: old(self)@.values.push(ValueV { ty: ty@, producer }),
                ..old(self)@
            }),
    {
        let id: Value = Value(self.values.len() as u32);
        self.values.push(ValueData { ty, producer });
        assert(self@ =~= ModuleV {
            values: old(self)@.values.push(ValueV { ty: ty@, producer }),
            ..old(self)@
        });
        id
    }

    /// Replace the contents of the block at position `i`.
    pub fn fill_block(&mut self, i: usize, block: Block)
        requires
            i < old(self)@.blocks.len(),
        ensures
            final(self)@ == (ModuleV {
                blocks: old(self)@.blocks.update(i as int, block@),
                ..old(self)@
            }),
    {
        self.blocks.set(i, block);
        assert(self@ =~= ModuleV {
            blocks: old(self)@.blocks.update(i as int, block@),
            ..old(self)@
        });
    }

    /// Add a function.
    pub fn push_function(&mut self, op: OpId)
        ensures
            final(self)@ == (ModuleV { functions: old(self)@.functions.push(op), ..old(self)@ }),
    {
        self.functions.push(op);
        assert(self@ =~= ModuleV { functions: old(self)@.functions.push(op), ..old(self)@ });
    }

    /// Add a global variable.
    pub fn push_global(&mut self, global: Global)
        ensures
            final(self)@ == (ModuleV { globals: old(self)@.globals.push(global@), ..old(self)@ }),
    {
        self.globals.push(global);
        assert(self@ =~= ModuleV { globals: old(self)@.globals.push(global@), ..old(self)@ });
    }

    /// The operation with the given id, if it is part of the module.
    pub fn op(&self, id: OpId) -> (r: Option<&Operation>)
        ensures
            match r {
                Some(op) => id.0 < self@.ops.len() && op@ == self@.ops[id.0 as int],
                None => id.0 >= self@.ops.len(),
            },
    {
        if (id.0 as usize) < self.ops.len() {
            Some(&self.ops[id.0 as usize])
        } else {
            None
        }
    }

    /// The block with the given id, if it is part of the module.
    pub fn block(&self, id: BlockId) -> (r: Option<&Block>)
        ensures
            match r {
                Some(b) => id.0 < self@.blocks.len() && b@ == self@.blocks[id.0 as int],
                None => id.0 >= self@.blocks.len(),
            },
    {
        if (id.0 as usize) < self.blocks.len() {
            Some(&self.blocks[id.0 as usize])
        } else {
            None
        }
    }

    /// The region with the given id, if it is part of the module.
    pub fn region(&self, id: RegionId) -> (r: Option<&Region>)
        ensures
            match r {
                Some(g) => id.0 < self@.regions.len() && g.blocks@ == self@.regions[id.0 as int],
                None => id.0 >= self@.regions.len(),
            },
    {
        if (id.0 as usize) < self.regions.len() {
            Some(&self.regions[id.0 as usize])
        } else {
            None
        }
    }
}

} // verus!
