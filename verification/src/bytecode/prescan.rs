//! The first walk over a module: strings and types are asked for in the order
//! in which globals and functions mention them.
use vstd::prelude::*;
use crate::bytecode::attr_writer::Pools;
use crate::bytecode::attr_writer;
use crate::bytecode::attrs::TablesV;
use crate::bytecode::collect;
use crate::bytecode::number;
use crate::error::WriteError;
use crate::ir::attr::{AttrV, Attribute};
use crate::ir::attr;
use crate::ir::module::{BlockId, Global, GlobalV, Module, ModuleV, OpId, RegionId, Value};
use crate::ir::module;
use crate::ir::types::{Type, TypeV};

verus! {

/// The tables after a named attribute has been scanned. Elements of an array
/// have the empty name; the types of numbers are asked for later.
pub open spec fn scan_attr(t: TablesV, name: Seq<char>, a: AttrV) -> TablesV
    decreases a, 0int,
{
    let t1 = attr_writer::with_string(t, name);
    match a {
        AttrV::Str(s) => attr_writer::with_string(t1, s),
        AttrV::Type(ty) => attr_writer::with_type(t1, ty),
        AttrV::Dense(d) => attr_writer::with_type(t1, d.element_type),
        AttrV::Array(s) => scan_list(t1, s, s.len() as int),
        AttrV::Dict(s) => scan_dict(t1, s, s.len() as int),
        AttrV::Hints(s) => scan_hints(t1, s, s.len() as int),
        _ => t1,
    }
}

/// The tables after the first `n` elements of an array have been scanned.
pub open spec fn scan_list(t: TablesV, s: Seq<AttrV>, n: int) -> TablesV
    decreases s, n,
{
    if n <= 0 || n > s.len() {
        t
    } else {
        scan_attr(scan_list(t, s, n - 1), seq![], s[n - 1])
    }
}

/// The tables after the first `n` named attributes have been scanned.
pub open spec fn scan_dict(t: TablesV, s: Seq<(Seq<char>, AttrV)>, n: int) -> TablesV
    decreases s, n,
{
    if n <= 0 || n > s.len() {
        t
    } else {
        scan_attr(scan_dict(t, s, n - 1), s[n - 1].0, s[n - 1].1)
    }
}

/// The tables after the first `n` architectures have been scanned.
pub open spec fn scan_hints(
    t: TablesV,
    s: Seq<(Seq<char>, Seq<(Seq<char>, AttrV)>)>,
    n: int,
) -> TablesV
    decreases s, n,
{
    if n <= 0 || n > s.len() {
        t
    } else {
        scan_dict(
            attr_writer::with_string(scan_hints(t, s, n - 1), s[n - 1].0),
            s[n - 1].1,
            s[n - 1].1.len() as int,
        )
    }
}

/// The tables after the first `n` regions have been scanned: the types of block
/// arguments, and of each operation the result types, the attributes and the
/// regions.
pub open spec fn scan_regions(
    t: TablesV,
    m: ModuleV,
    ids: Seq<RegionId>,
    depth: nat,
    n: int,
) -> Result<TablesV, WriteError>
    decreases depth, 0int, n,
{
    if n <= 0 {
        Ok(t)
    } else {
        match scan_regions(t, m, ids, depth, n - 1) {
            Ok(t1) => if depth == 0 {
                Err(WriteError::NestedInItself)
            } else if ids[n - 1].0 >= m.regions.len() {
                Err(WriteError::DanglingId(ids[n - 1].0))
            } else {
                let blocks = m.regions[ids[n - 1].0 as int];
                scan_blocks(t1, m, blocks, (depth - 1) as nat, blocks.len() as int)
            },
            Err(e) => Err(e),
        }
    }
}

/// The tables after the first `n` blocks have been scanned.
pub open spec fn scan_blocks(
    t: TablesV,
    m: ModuleV,
    ids: Seq<BlockId>,
    depth: nat,
    n: int,
) -> Result<TablesV, WriteError>
    decreases depth, 3int, n,
{
    if n <= 0 {
        Ok(t)
    } else {
        match scan_blocks(t, m, ids, depth, n - 1) {
            Ok(t1) => if ids[n - 1].0 >= m.blocks.len() {
                Err(WriteError::DanglingId(ids[n - 1].0))
            } else {
                let b = m.blocks[ids[n - 1].0 as int];
                scan_ops(
                    collect::with_types(t1, number::arg_types(b.args)),
                    m,
                    b.ops,
                    depth,
                    b.ops.len() as int,
                )
            },
            Err(e) => Err(e),
        }
    }
}

/// The tables after the first `n` operations have been scanned.
pub open spec fn scan_ops(t: TablesV, m: ModuleV, ids: Seq<OpId>, depth: nat, n: int) -> Result<
    TablesV,
    WriteError,
>
    decreases depth, 2int, n,
{
    if n <= 0 {
        Ok(t)
    } else {
        match scan_ops(t, m, ids, depth, n - 1) {
            Ok(t1) => if ids[n - 1].0 >= m.ops.len() {
                Err(WriteError::DanglingId(ids[n - 1].0))
            } else {
                let op = m.ops[ids[n - 1].0 as int];
                let t2 = collect::with_types(t1, op.result_types);
                scan_regions(
                    scan_dict(t2, op.attributes, op.attributes.len() as int),
                    m,
                    op.regions,
                    depth,
                    op.regions.len() as int,
                )
            },
            Err(e) => Err(e),
        }
    }
}

/// The number of levels that operations of a module can nest without a cycle.
pub open spec fn nesting(m: ModuleV) -> nat {
    m.ops.len()
}

/// The tables after the first `n` functions have been scanned.
pub open spec fn scan_functions(t: TablesV, m: ModuleV, n: int) -> Result<TablesV, WriteError>
    decreases n,
{
    if n <= 0 {
        Ok(t)
    } else {
        match scan_functions(t, m, n - 1) {
            Ok(t1) => if m.functions[n - 1].0 >= m.ops.len() {
                Err(WriteError::DanglingId(m.functions[n - 1].0))
            } else {
                let op = m.ops[m.functions[n - 1].0 as int];
                scan_regions(
                    scan_dict(t1, op.attributes, op.attributes.len() as int),
                    m,
                    op.regions,
                    nesting(m),
                    op.regions.len() as int,
                )
            },
            Err(e) => Err(e),
        }
    }
}

/// The tables after the first `n` global variables have been scanned.
pub open spec fn scan_globals(t: TablesV, gs: Seq<GlobalV>, n: int) -> TablesV
    decreases n,
{
    if n <= 0 {
        t
    } else {
        attr_writer::with_type(
            attr_writer::with_string(scan_globals(t, gs, n - 1), gs[n - 1].sym_name),
            gs[n - 1].value.element_type,
        )
    }
}

// ---------------------------------------------------------------------------
// Growth
// ---------------------------------------------------------------------------

/// `u` continues `t` without new constants.
pub open spec fn scanned(t: TablesV, u: TablesV) -> bool {
    &&& attr_writer::tables_wf(u)
    &&& attr_writer::grows(t, u)
    &&& u.constants == t.constants
}

proof fn lemma_scanned(t: TablesV, u: TablesV, v: TablesV)
    ensures
        attr_writer::tables_wf(t) ==> scanned(t, t),
        scanned(t, u) && scanned(u, v) ==> scanned(t, v),
{
    attr_writer::lemma_grows(t, u, v);
}

proof fn lemma_scan_string(t: TablesV, s: Seq<char>)
    requires
        attr_writer::tables_wf(t),
    ensures
        scanned(t, attr_writer::with_string(t, s)),
{
    attr_writer::lemma_with_string(t, s);
}

proof fn lemma_scan_type(t: TablesV, ty: TypeV)
    requires
        attr_writer::tables_wf(t),
    ensures
        scanned(t, attr_writer::with_type(t, ty)),
{
    attr_writer::lemma_with_type(t, ty);
}

/// Scanning an attribute continues the tables.
pub proof fn lemma_scan_attr(t: TablesV, name: Seq<char>, a: AttrV)
    requires
        attr_writer::tables_wf(t),
    ensures
        scanned(t, scan_attr(t, name, a)),
    decreases a, 0int,
{
    let t1 = attr_writer::with_string(t, name);
    lemma_scan_string(t, name);
    match a {
        AttrV::Str(s) => lemma_scan_string(t1, s),
        AttrV::Type(ty) => lemma_scan_type(t1, ty),
        AttrV::Dense(d) => lemma_scan_type(t1, d.element_type),
        AttrV::Array(s) => lemma_scan_list(t1, s, s.len() as int),
        AttrV::Dict(s) => lemma_scan_dict(t1, s, s.len() as int),
        AttrV::Hints(s) => lemma_scan_hints(t1, s, s.len() as int),
        _ => {},
    }
    lemma_scanned(t1, t1, t1);
    lemma_scanned(t, t1, scan_attr(t, name, a));
}

proof fn lemma_scan_list(t: TablesV, s: Seq<AttrV>, n: int)
    requires
        attr_writer::tables_wf(t),
    ensures
        scanned(t, scan_list(t, s, n)),
    decreases s, n,
{
    lemma_scanned(t, t, t);
    if 0 < n <= s.len() {
        lemma_scan_list(t, s, n - 1);
        let u = scan_list(t, s, n - 1);
        lemma_scan_attr(u, seq![], s[n - 1]);
        lemma_scanned(t, u, scan_list(t, s, n));
    }
}

/// Scanning named attributes continues the tables.
pub proof fn lemma_scan_dict(t: TablesV, s: Seq<(Seq<char>, AttrV)>, n: int)
    requires
        attr_writer::tables_wf(t),
    ensures
        scanned(t, scan_dict(t, s, n)),
    decreases s, n,
{
    lemma_scanned(t, t, t);
    if 0 < n <= s.len() {
        lemma_scan_dict(t, s, n - 1);
        let u = scan_dict(t, s, n - 1);
        lemma_scan_attr(u, s[n - 1].0, s[n - 1].1);
        lemma_scanned(t, u, scan_dict(t, s, n));
    }
}

proof fn lemma_scan_hints(t: TablesV, s: Seq<(Seq<char>, Seq<(Seq<char>, AttrV)>)>, n: int)
    requires
        attr_writer::tables_wf(t),
    ensures
        scanned(t, scan_hints(t, s, n)),
    decreases s, n,
{
    lemma_scanned(t, t, t);
    if 0 < n <= s.len() {
        lemma_scan_hints(t, s, n - 1);
        let u = scan_hints(t, s, n - 1);
        let u2 = attr_writer::with_string(u, s[n - 1].0);
        lemma_scan_string(u, s[n - 1].0);
        lemma_scan_dict(u2, s[n - 1].1, s[n - 1].1.len() as int);
        lemma_scanned(t, u, u2);
        lemma_scanned(t, u2, scan_hints(t, s, n));
    }
}

/// Scanning types continues the tables.
pub proof fn lemma_scan_types(t: TablesV, s: Seq<TypeV>)
    requires
        attr_writer::tables_wf(t),
    ensures
        scanned(t, collect::with_types(t, s)),
{
    collect::lemma_with_types(t, s);
}

/// Scanning regions continues the tables.
pub proof fn lemma_scan_regions(t: TablesV, m: ModuleV, ids: Seq<RegionId>, depth: nat, n: int)
    requires
        attr_writer::tables_wf(t),
    ensures
        scan_regions(t, m, ids, depth, n) matches Ok(u) ==> scanned(t, u),
    decreases depth, 0int, n,
{
    lemma_scanned(t, t, t);
    if n > 0 {
        lemma_scan_regions(t, m, ids, depth, n - 1);
        match scan_regions(t, m, ids, depth, n - 1) {
            Ok(u) => if depth > 0 && ids[n - 1].0 < m.regions.len() {
                let blocks = m.regions[ids[n - 1].0 as int];
                lemma_scan_blocks(u, m, blocks, (depth - 1) as nat, blocks.len() as int);
                match scan_regions(t, m, ids, depth, n) {
                    Ok(v) => lemma_scanned(t, u, v),
                    Err(_) => {},
                }
            },
            Err(_) => {},
        }
    }
}

/// Scanning blocks continues the tables.
pub proof fn lemma_scan_blocks(t: TablesV, m: ModuleV, ids: Seq<BlockId>, depth: nat, n: int)
    requires
        attr_writer::tables_wf(t),
    ensures
        scan_blocks(t, m, ids, depth, n) matches Ok(u) ==> scanned(t, u),
    decreases depth, 3int, n,
{
    lemma_scanned(t, t, t);
    if n > 0 {
        lemma_scan_blocks(t, m, ids, depth, n - 1);
        match scan_blocks(t, m, ids, depth, n - 1) {
            Ok(u) => if ids[n - 1].0 < m.blocks.len() {
                let b = m.blocks[ids[n - 1].0 as int];
                let u2 = collect::with_types(u, number::arg_types(b.args));
                lemma_scan_types(u, number::arg_types(b.args));
                lemma_scan_ops(u2, m, b.ops, depth, b.ops.len() as int);
                lemma_scanned(t, u, u2);
                match scan_blocks(t, m, ids, depth, n) {
                    Ok(v) => lemma_scanned(t, u2, v),
                    Err(_) => {},
                }
            },
            Err(_) => {},
        }
    }
}

/// Scanning operations continues the tables.
pub proof fn lemma_scan_ops(t: TablesV, m: ModuleV, ids: Seq<OpId>, depth: nat, n: int)
    requires
        attr_writer::tables_wf(t),
    ensures
        scan_ops(t, m, ids, depth, n) matches Ok(u) ==> scanned(t, u),
    decreases depth, 2int, n,
{
    lemma_scanned(t, t, t);
    if n > 0 {
        lemma_scan_ops(t, m, ids, depth, n - 1);
        match scan_ops(t, m, ids, depth, n - 1) {
            Ok(u) => if ids[n - 1].0 < m.ops.len() {
                let op = m.ops[ids[n - 1].0 as int];
                let u2 = collect::with_types(u, op.result_types);
                lemma_scan_types(u, op.result_types);
                let u3 = scan_dict(u2, op.attributes, op.attributes.len() as int);
                lemma_scan_dict(u2, op.attributes, op.attributes.len() as int);
                lemma_scan_regions(u3, m, op.regions, depth, op.regions.len() as int);
                lemma_scanned(t, u, u2);
                lemma_scanned(t, u2, u3);
                match scan_ops(t, m, ids, depth, n) {
                    Ok(v) => lemma_scanned(t, u3, v),
                    Err(_) => {},
                }
            },
            Err(_) => {},
        }
    }
}

/// Scanning functions continues the tables.
pub proof fn lemma_scan_functions(t: TablesV, m: ModuleV, n: int)
    requires
        attr_writer::tables_wf(t),
    ensures
        scan_functions(t, m, n) matches Ok(u) ==> scanned(t, u),
    decreases n,
{
    lemma_scanned(t, t, t);
    if n > 0 {
        lemma_scan_functions(t, m, n - 1);
        match scan_functions(t, m, n - 1) {
            Ok(u) => if m.functions[n - 1].0 < m.ops.len() {
                let op = m.ops[m.functions[n - 1].0 as int];
                let u2 = scan_dict(u, op.attributes, op.attributes.len() as int);
                lemma_scan_dict(u, op.attributes, op.attributes.len() as int);
                lemma_scan_regions(u2, m, op.regions, nesting(m), op.regions.len() as int);
                lemma_scanned(t, u, u2);
                match scan_functions(t, m, n) {
                    Ok(v) => lemma_scanned(t, u2, v),
                    Err(_) => {},
                }
            },
            Err(_) => {},
        }
    }
}

/// Scanning global variables continues the tables.
pub proof fn lemma_scan_globals(t: TablesV, gs: Seq<GlobalV>, n: int)
    requires
        attr_writer::tables_wf(t),
    ensures
        scanned(t, scan_globals(t, gs, n)),
    decreases n,
{
    lemma_scanned(t, t, t);
    if n > 0 {
        lemma_scan_globals(t, gs, n - 1);
        let u = scan_globals(t, gs, n - 1);
        let u2 = attr_writer::with_string(u, gs[n - 1].sym_name);
        lemma_scan_string(u, gs[n - 1].sym_name);
        lemma_scan_type(u2, gs[n - 1].value.element_type);
        lemma_scanned(t, u, u2);
        lemma_scanned(t, u2, scan_globals(t, gs, n));
    }
}

proof fn lemma_regions_error(t: TablesV, m: ModuleV, ids: Seq<RegionId>, depth: nat, k: int, n: int)
    requires
        0 <= k <= n,
        scan_regions(t, m, ids, depth, k) is Err,
    ensures
        scan_regions(t, m, ids, depth, n) == scan_regions(t, m, ids, depth, k),
    decreases n,
{
    if k < n {
        lemma_regions_error(t, m, ids, depth, k, n - 1);
    }
}

proof fn lemma_blocks_error(t: TablesV, m: ModuleV, ids: Seq<BlockId>, depth: nat, k: int, n: int)
    requires
        0 <= k <= n,
        scan_blocks(t, m, ids, depth, k) is Err,
    ensures
        scan_blocks(t, m, ids, depth, n) == scan_blocks(t, m, ids, depth, k),
    decreases n,
{
    if k < n {
        lemma_blocks_error(t, m, ids, depth, k, n - 1);
    }
}

proof fn lemma_ops_error(t: TablesV, m: ModuleV, ids: Seq<OpId>, depth: nat, k: int, n: int)
    requires
        0 <= k <= n,
        scan_ops(t, m, ids, depth, k) is Err,
    ensures
        scan_ops(t, m, ids, depth, n) == scan_ops(t, m, ids, depth, k),
    decreases n,
{
    if k < n {
        lemma_ops_error(t, m, ids, depth, k, n - 1);
    }
}

proof fn lemma_functions_error(t: TablesV, m: ModuleV, k: int, n: int)
    requires
        0 <= k <= n,
        scan_functions(t, m, k) is Err,
    ensures
        scan_functions(t, m, n) == scan_functions(t, m, k),
    decreases n,
{
    if k < n {
        lemma_functions_error(t, m, k, n - 1);
    }
}

// ---------------------------------------------------------------------------
// Scanning
// ---------------------------------------------------------------------------

impl Pools {
    /// Scan a named attribute.
    pub fn prescan_attribute(&mut self, name: &str, a: &Attribute)
        requires
            old(self).wf(),
        ensures
            final(self).wf(),
            final(self)@ == scan_attr(old(self)@, name@, a@),
        decreases *a, 1int,
    {
        self.add_string(name);
        match a {
            Attribute::String(s) => self.add_string(s.as_str()),
            Attribute::Type(ty) => self.add_type(ty),
            Attribute::DenseElements(d) => self.add_type(&d.element_type),
            Attribute::Array(v) => self.prescan_list(v),
            Attribute::Dictionary(v) => self.prescan_dict(v),
            Attribute::OptimizationHints(h) => self.prescan_hints(&h.entries),
            _ => {},
        }
    }

    fn prescan_list(&mut self, v: &Vec<Attribute>)
        requires
            old(self).wf(),
        ensures
            final(self).wf(),
            final(self)@ == scan_list(old(self)@, attr::attrs_view(v@), v@.len() as int),
        decreases v@, 0int,
    {
        let ghost t0 = self@;
        let ghost s = attr::attrs_view(v@);
        proof {
            reveal_strlit("");
            assert(""@ =~= seq![]);
        }
        let mut i: usize = 0;
        while i < v.len()
            invariant
                i <= v@.len(),
                s == attr::attrs_view(v@),
                ""@ == Seq::<char>::empty(),
                self.wf(),
                self@ == scan_list(t0, s, i as int),
            decreases v@.len() - i,
        {
            self.prescan_attribute("", &v[i]);
            assert(s[i as int] == v@[i as int]@);
            i = i + 1;
        }
    }

    /// Scan named attributes.
    pub fn prescan_dict(&mut self, v: &Vec<(String, Attribute)>)
        requires
            old(self).wf(),
        ensures
            final(self).wf(),
            final(self)@ == scan_dict(old(self)@, attr::dict_view(v@), v@.len() as int),
        decreases v@, 0int,
    {
        let ghost t0 = self@;
        let ghost s = attr::dict_view(v@);
        let mut i: usize = 0;
        while i < v.len()
            invariant
                i <= v@.len(),
                s == attr::dict_view(v@),
                self.wf(),
                self@ == scan_dict(t0, s, i as int),
            decreases v@.len() - i,
        {
            self.prescan_attribute(v[i].0.as_str(), &v[i].1);
            assert(s[i as int] == (v@[i as int].0@, v@[i as int].1@));
            i = i + 1;
        }
    }

    fn prescan_hints(&mut self, v: &Vec<(String, Vec<(String, Attribute)>)>)
        requires
            old(self).wf(),
        ensures
            final(self).wf(),
            final(self)@ == scan_hints(old(self)@, attr::hints_view(v@), v@.len() as int),
        decreases v@, 0int,
    {
        let ghost t0 = self@;
        let ghost s = attr::hints_view(v@);
        let mut i: usize = 0;
        while i < v.len()
            invariant
                i <= v@.len(),
                s == attr::hints_view(v@),
                self.wf(),
                self@ == scan_hints(t0, s, i as int),
            decreases v@.len() - i,
        {
            self.add_string(v[i].0.as_str());
            self.prescan_dict(&v[i].1);
            assert(s[i as int] == (v@[i as int].0@, attr::dict_view(v@[i as int].1@)));
            i = i + 1;
        }
    }

    /// Scan regions.
    pub fn prescan_regions(&mut self, m: &Module, ids: &Vec<RegionId>, depth: usize) -> (res:
        Result<(), WriteError>)
        requires
            old(self).wf(),
        ensures
            final(self).wf(),
            match scan_regions(old(self)@, m@, ids@, depth as nat, ids@.len() as int) {
                Ok(t) => res is Ok && final(self)@ == t,
                Err(e) => res == Err::<(), WriteError>(e),
            },
        decreases depth, 0int,
    {
        let ghost t0 = self@;
        let ghost mv = m@;
        let ghost dep = depth as nat;
        let mut i: usize = 0;
        while i < ids.len()
            invariant
                i <= ids@.len(),
                mv == m@,
                dep == depth as nat,
                t0 == old(self)@,
                self.wf(),
                scan_regions(t0, mv, ids@, dep, i as int) == Ok::<TablesV, WriteError>(self@),
            decreases ids@.len() - i,
        {
            proof {
                if scan_regions(t0, mv, ids@, dep, i + 1) is Err {
                    lemma_regions_error(t0, mv, ids@, dep, i + 1, ids@.len() as int);
                }
            }
            if depth == 0 {
                return Err(WriteError::NestedInItself);
            }
            let g = match m.region(ids[i]) {
                Some(g) => g,
                None => {
                    return Err(WriteError::DanglingId(ids[i].0));
                },
            };
            self.prescan_blocks(m, &g.blocks, depth - 1)?;
            i = i + 1;
        }
        Ok(())
    }

    fn prescan_blocks(&mut self, m: &Module, ids: &Vec<BlockId>, depth: usize) -> (res: Result<
        (),
        WriteError,
    >)
        requires
            old(self).wf(),
        ensures
            final(self).wf(),
            match scan_blocks(old(self)@, m@, ids@, depth as nat, ids@.len() as int) {
                Ok(t) => res is Ok && final(self)@ == t,
                Err(e) => res == Err::<(), WriteError>(e),
            },
        decreases depth, 3int,
    {
        let ghost t0 = self@;
        let ghost mv = m@;
        let ghost dep = depth as nat;
        let mut i: usize = 0;
        while i < ids.len()
            invariant
                i <= ids@.len(),
                mv == m@,
                dep == depth as nat,
                t0 == old(self)@,
                self.wf(),
                scan_blocks(t0, mv, ids@, dep, i as int) == Ok::<TablesV, WriteError>(self@),
            decreases ids@.len() - i,
        {
            proof {
                if scan_blocks(t0, mv, ids@, dep, i + 1) is Err {
                    lemma_blocks_error(t0, mv, ids@, dep, i + 1, ids@.len() as int);
                }
            }
            let b = match m.block(ids[i]) {
                Some(b) => b,
                None => {
                    return Err(WriteError::DanglingId(ids[i].0));
                },
            };
            self.add_arg_types(&b.args);
            self.prescan_ops(m, &b.ops, depth)?;
            i = i + 1;
        }
        Ok(())
    }

    fn add_arg_types(&mut self, args: &Vec<(Value, Type)>)
        requires
            old(self).wf(),
        ensures
            final(self).wf(),
            final(self)@ == collect::with_types(
                old(self)@,
                number::arg_types(module::args_view(args@)),
            ),
    {
        let mut env: Vec<Value> = Vec::new();
        let tys = number::start_args(&mut env, args);
        self.add_types(&tys);
    }

    fn prescan_ops(&mut self, m: &Module, ids: &Vec<OpId>, depth: usize) -> (res: Result<
        (),
        WriteError,
    >)
        requires
            old(self).wf(),
        ensures
            final(self).wf(),
            match scan_ops(old(self)@, m@, ids@, depth as nat, ids@.len() as int) {
                Ok(t) => res is Ok && final(self)@ == t,
                Err(e) => res == Err::<(), WriteError>(e),
            },
        decreases depth, 2int,
    {
        let ghost t0 = self@;
        let ghost mv = m@;
        let ghost dep = depth as nat;
        let mut i: usize = 0;
        while i < ids.len()
            invariant
                i <= ids@.len(),
                mv == m@,
                dep == depth as nat,
                t0 == old(self)@,
                self.wf(),
                scan_ops(t0, mv, ids@, dep, i as int) == Ok::<TablesV, WriteError>(self@),
            decreases ids@.len() - i,
        {
            proof {
                if scan_ops(t0, mv, ids@, dep, i + 1) is Err {
                    lemma_ops_error(t0, mv, ids@, dep, i + 1, ids@.len() as int);
                }
            }
            let op = match m.op(ids[i]) {
                Some(op) => op,
                None => {
                    return Err(WriteError::DanglingId(ids[i].0));
                },
            };
            self.add_types(&op.result_types);
            self.prescan_dict(&op.attributes);
            self.prescan_regions(m, &op.regions, depth)?;
            i = i + 1;
        }
        Ok(())
    }

    /// Scan the functions of a module.
    pub fn prescan_functions(&mut self, m: &Module) -> (res: Result<(), WriteError>)
        requires
            old(self).wf(),
        ensures
            final(self).wf(),
            match scan_functions(old(self)@, m@, m@.functions.len() as int) {
                Ok(t) => res is Ok && final(self)@ == t,
                Err(e) => res == Err::<(), WriteError>(e),
            },
    {
        let ghost t0 = self@;
        let ghost mv = m@;
        let depth: usize = m.ops.len();
        let mut i: usize = 0;
        while i < m.functions.len()
            invariant
                i <= m.functions@.len(),
                mv == m@,
                depth == nesting(mv),
                t0 == old(self)@,
                self.wf(),
                scan_functions(t0, mv, i as int) == Ok::<TablesV, WriteError>(self@),
            decreases m.functions@.len() - i,
        {
            proof {
                if scan_functions(t0, mv, i + 1) is Err {
                    lemma_functions_error(t0, mv, i + 1, mv.functions.len() as int);
                }
            }
            let id = m.functions[i];
            let op = match m.op(id) {
                Some(op) => op,
                None => {
                    return Err(WriteError::DanglingId(id.0));
                },
            };
            self.prescan_dict(&op.attributes);
            self.prescan_regions(m, &op.regions, depth)?;
            i = i + 1;
        }
        Ok(())
    }

    /// Scan global variables.
    pub fn prescan_globals(&mut self, gs: &Vec<Global>)
        requires
            old(self).wf(),
        ensures
            final(self).wf(),
            final(self)@ == scan_globals(old(self)@, module::views(gs@), gs@.len() as int),
    {
        let ghost t0 = self@;
        let ghost gv = module::views(gs@);
        let mut i: usize = 0;
        while i < gs.len()
            invariant
                i <= gs@.len(),
                gv == module::views(gs@),
                self.wf(),
                self@ == scan_globals(t0, gv, i as int),
            decreases gs@.len() - i,
        {
            self.add_string(gs[i].sym_name.as_str());
            self.add_type(&gs[i].value.element_type);
            assert(gv[i as int] == gs@[i as int]@);
            i = i + 1;
        }
    }
}

} // verus!
