//! Debug information is read back as it was written.
use vstd::prelude::*;
use crate::bytecode::debug::{
    DebugAttr,
    DebugV,
    DEBUG_CALL_SITE,
    DEBUG_COMPILE_UNIT,
    DEBUG_FILE,
    DEBUG_LEXICAL_BLOCK,
    DEBUG_LOC,
    DEBUG_SUBPROGRAM,
};
use crate::bytecode::debug;
use crate::bytecode::debug_writer::DebugPool;
use crate::bytecode::debug_writer;
use crate::bytecode::strings;
use crate::bytecode::table;
use crate::bytecode::wire;
use crate::bytecode::writer;
use crate::error::{ReadError, Subject};
use crate::ir::location::{FileV, LocationV, ScopeV, SubprogramV};

verus! {

// ---------------------------------------------------------------------------
// Lists of fixed-width integers
// ---------------------------------------------------------------------------

/// The first `n` of some integers, in `w` bytes each.
pub open spec fn les_bytes(s: Seq<int>, w: nat, n: int) -> Seq<u8>
    decreases n,
{
    if n <= 0 {
        seq![]
    } else {
        les_bytes(s, w, n - 1) + wire::le_bytes(s[n - 1], w)
    }
}

proof fn lemma_les_hold(d: Seq<u8>, p: int, s: Seq<int>, w: nat, n: int)
    requires
        0 <= n <= s.len(),
        forall|i: int| 0 <= i < n ==> 0 <= #[trigger] s[i] < wire::pow256(w),
        wire::holds_at(d, p, les_bytes(s, w, n)),
    ensures
        table::offsets_at(d, p, w, n) == Ok::<(Seq<int>, int), ReadError>((s.take(n), p + w * n)),
        les_bytes(s, w, n).len() == w * n,
    decreases n,
{
    if n > 0 {
        let x = les_bytes(s, w, n - 1);
        wire::lemma_holds_split(d, p, x, wire::le_bytes(s[n - 1], w));
        lemma_les_hold(d, p, s, w, n - 1);
        wire::lemma_le_holds(d, p + x.len(), s[n - 1], w);
        assert(w * n == w * (n - 1) + w) by (nonlinear_arith);
        assert(s.take(n - 1).push(s[n - 1]) =~= s.take(n));
    } else {
        assert(s.take(0) =~= seq![]);
        assert(w * n == 0) by (nonlinear_arith)
            requires
                n == 0,
        ;
    }
}

proof fn lemma_les_append(a: Seq<int>, b: Seq<int>, w: nat, k: int)
    requires
        0 <= k <= b.len(),
    ensures
        les_bytes(a + b, w, a.len() + k) == les_bytes(a, w, a.len() as int) + les_bytes(b, w, k),
    decreases k,
{
    let m = a.len() as int;
    if k > 0 {
        lemma_les_append(a, b, w, k - 1);
        assert((a + b)[m + k - 1] == b[k - 1]);
        assert(les_bytes(a, w, m) + les_bytes(b, w, k - 1) + wire::le_bytes(b[k - 1], w)
            =~= les_bytes(a, w, m) + les_bytes(b, w, k));
    } else {
        lemma_les_same(a + b, a, w, m);
        assert(les_bytes(a, w, m) + les_bytes(b, w, 0) =~= les_bytes(a, w, m));
    }
}

proof fn lemma_les_same(a: Seq<int>, b: Seq<int>, w: nat, n: int)
    requires
        forall|i: int| 0 <= i < n ==> #[trigger] a[i] == b[i],
    ensures
        les_bytes(a, w, n) == les_bytes(b, w, n),
    decreases n,
{
    if n > 0 {
        lemma_les_same(a, b, w, n - 1);
        assert(a[n - 1] == b[n - 1]);
    }
}

// ---------------------------------------------------------------------------
// The section
// ---------------------------------------------------------------------------

/// Ids as integers.
pub open spec fn ints(l: Seq<u64>) -> Seq<int> {
    Seq::new(l.len(), |i: int| l[i] as int)
}

/// The ids of the first `n` lists, one behind the other.
pub open spec fn flat(lists: Seq<Seq<u64>>, n: int) -> Seq<int>
    decreases n,
{
    if n <= 0 {
        seq![]
    } else {
        flat(lists, n - 1) + ints(lists[n - 1])
    }
}

/// What is read from the section that holds some lists and entries.
pub open spec fn section_of(lists: Seq<Seq<u64>>, entries: Seq<Seq<u8>>) -> DebugV {
    DebugV {
        index_offsets: Seq::new(lists.len(), |i: int| writer::ids_before(lists, i)),
        attr_ids: flat(lists, lists.len() as int),
        attr_offsets: Seq::new(entries.len(), |i: int| table::offset_of(entries, i)),
        attr_data: table::concat(entries),
    }
}

proof fn lemma_flat_len(lists: Seq<Seq<u64>>, n: int)
    requires
        n >= 0,
    ensures
        flat(lists, n).len() == writer::ids_before(lists, n),
        forall|i: int| 0 <= i < flat(lists, n).len() ==> 0 <= #[trigger] flat(lists, n)[i]
            <= u64::MAX,
    decreases n,
{
    if n > 0 {
        lemma_flat_len(lists, n - 1);
    }
}

proof fn lemma_ids_monotone(lists: Seq<Seq<u64>>, k: int, n: int)
    requires
        0 <= k <= n,
    ensures
        0 <= writer::ids_before(lists, k) <= writer::ids_before(lists, n),
    decreases n,
{
    if k < n {
        lemma_ids_monotone(lists, k, n - 1);
    } else if k > 0 {
        lemma_ids_monotone(lists, k - 1, n - 1);
    }
}

proof fn lemma_flat_part(lists: Seq<Seq<u64>>, k: int, n: int)
    requires
        0 <= k < n,
    ensures
        writer::ids_before(lists, k + 1) <= flat(lists, n).len(),
        flat(lists, n).subrange(
            writer::ids_before(lists, k),
            writer::ids_before(lists, k + 1),
        ) == ints(lists[k]),
    decreases n,
{
    let a = writer::ids_before(lists, k);
    let b = writer::ids_before(lists, k + 1);
    lemma_ids_monotone(lists, 0, k);
    lemma_flat_len(lists, n - 1);
    if k < n - 1 {
        lemma_flat_part(lists, k, n - 1);
        assert(flat(lists, n).subrange(a, b) =~= flat(lists, n - 1).subrange(a, b));
    } else {
        assert(flat(lists, n).subrange(a, b) =~= ints(lists[k]));
    }
}

proof fn lemma_starts(lists: Seq<Seq<u64>>, s: Seq<int>, n: int)
    requires
        0 <= n <= s.len(),
        forall|i: int| 0 <= i < n ==> #[trigger] s[i] == writer::ids_before(lists, i),
    ensures
        writer::starts_bytes(lists, n) == les_bytes(s, 4, n),
    decreases n,
{
    if n > 0 {
        lemma_starts(lists, s, n - 1);
        assert(s[n - 1] == writer::ids_before(lists, n - 1));
    }
}

proof fn lemma_id_list(l: Seq<u64>, n: int)
    requires
        0 <= n <= l.len(),
    ensures
        writer::ids_bytes(l, n) == les_bytes(ints(l), 8, n),
    decreases n,
{
    if n > 0 {
        lemma_id_list(l, n - 1);
    }
}

proof fn lemma_id_lists(lists: Seq<Seq<u64>>, n: int)
    requires
        0 <= n <= lists.len(),
    ensures
        writer::lists_bytes(lists, n) == les_bytes(
            flat(lists, n),
            8,
            flat(lists, n).len() as int,
        ),
    decreases n,
{
    if n > 0 {
        lemma_id_lists(lists, n - 1);
        let l = lists[n - 1];
        lemma_id_list(l, l.len() as int);
        lemma_les_append(flat(lists, n - 1), ints(l), 8, l.len() as int);
    }
}

proof fn lemma_entry_offsets(entries: Seq<Seq<u8>>, s: Seq<int>, n: int)
    requires
        0 <= n <= s.len(),
        forall|i: int| 0 <= i < n ==> #[trigger] s[i] == table::offset_of(entries, i),
    ensures
        table::offsets_bytes(entries, 4, n) == les_bytes(s, 4, n),
    decreases n,
{
    if n > 0 {
        lemma_entry_offsets(entries, s, n - 1);
        assert(s[n - 1] == table::offset_of(entries, n - 1));
    }
}

/// A counted, aligned list that starts behind what has been written is read
/// there.
proof fn lemma_counted_holds(d: Seq<u8>, head: Seq<u8>, s: Seq<int>, w: nat, what: Subject)
    requires
        w == 4 || w == 8,
        s.len() <= u32::MAX,
        forall|i: int| 0 <= i < s.len() ==> 0 <= #[trigger] s[i] < wire::pow256(w),
        wire::holds_at(d, 0, counted_bytes(head, s, w)),
    ensures
        debug::counted_at(d, head.len() as int, w, what) == Ok::<(Seq<int>, int), ReadError>(
            (s, counted_bytes(head, s, w).len() as int),
        ),
{
    reveal(counted_bytes);
    let n = s.len() as int;
    let count = wire::varint_bytes(s.len() as u64);
    let framed = writer::padded(head + count, w as int);
    let list = les_bytes(s, w, n);
    wire::lemma_holds_split(d, 0, framed, list);
    let q = (head + count).len() as int;
    let pad = wire::padding_bytes(wire::padding_len(q, w as int));
    wire::lemma_holds_split(d, 0, head + count, pad);
    wire::lemma_holds_split(d, 0, head, count);
    wire::lemma_count_holds(d, head.len() as int, n, what);
    wire::lemma_padding_holds(d, q, w as int);
    lemma_les_hold(d, framed.len() as int, s, w, n);
    assert(s.take(n) =~= s);
    assert(w * n <= d.len());
    assert(n <= d.len() as int / w as int) by (nonlinear_arith)
        requires
            w * n <= d.len(),
            w > 0,
    ;
}

/// Three lists behind each other are read.
proof fn lemma_section_parts(
    d: Seq<u8>,
    b1: Seq<u8>,
    b2: Seq<u8>,
    b3: Seq<u8>,
    x: Seq<int>,
    y: Seq<int>,
    z: Seq<int>,
    rest: Seq<u8>,
)
    requires
        x.len() <= u32::MAX,
        y.len() <= u32::MAX,
        z.len() <= u32::MAX,
        forall|i: int| 0 <= i < x.len() ==> 0 <= #[trigger] x[i] < wire::pow256(4),
        forall|i: int| 0 <= i < y.len() ==> 0 <= #[trigger] y[i] < wire::pow256(8),
        forall|i: int| 0 <= i < z.len() ==> 0 <= #[trigger] z[i] < wire::pow256(4),
        b1 == counted_bytes(seq![], x, 4),
        b2 == counted_bytes(b1, y, 8),
        b3 == counted_bytes(b2, z, 4),
        d == b3 + rest,
    ensures
        debug::debug_section(Some(d)) == Ok::<DebugV, ReadError>(
            DebugV { index_offsets: x, attr_ids: y, attr_offsets: z, attr_data: rest },
        ),
{
    wire::lemma_holds_whole(d);
    wire::lemma_holds_split(d, 0, b3, rest);
    lemma_counted_prefix(b2, z, 4);
    wire::lemma_holds_split(d, 0, b2, b3.skip(b2.len() as int));
    lemma_counted_prefix(b1, y, 8);
    wire::lemma_holds_split(d, 0, b1, b2.skip(b1.len() as int));
    lemma_counted_holds(d, b2, z, 4, Subject::DebugAttribute);
    lemma_counted_holds(d, b1, y, 8, Subject::DebugIndex);
    lemma_counted_holds(d, seq![], x, 4, Subject::DebugFunction);
    assert(d.skip(b3.len() as int) =~= rest);
}

/// A counted, aligned list behind what has been written.
#[verifier::opaque]
pub open spec fn counted_bytes(head: Seq<u8>, s: Seq<int>, w: nat) -> Seq<u8> {
    writer::padded(head + wire::varint_bytes(s.len() as u64), w as int) + les_bytes(
        s,
        w,
        s.len() as int,
    )
}

proof fn lemma_counted_prefix(head: Seq<u8>, s: Seq<int>, w: nat)
    ensures
        counted_bytes(head, s, w).len() >= head.len(),
        counted_bytes(head, s, w) == head + counted_bytes(head, s, w).skip(head.len() as int),
{
    reveal(counted_bytes);
    let c = counted_bytes(head, s, w);
    assert(c =~= head + c.skip(head.len() as int));
}

/// The debug section is read back as it was written.
pub proof fn lemma_debug_section_round_trip(lists: Seq<Seq<u64>>, entries: Seq<Seq<u8>>)
    requires
        writer::debug_fits(lists, entries),
        lists.len() <= u32::MAX,
        entries.len() <= u32::MAX,
    ensures
        debug::debug_section(Some(writer::debug_bytes(lists, entries))) == Ok::<DebugV, ReadError>(
            section_of(lists, entries),
        ),
{
    let v = section_of(lists, entries);
    let n = lists.len() as int;
    let m = entries.len() as int;
    lemma_section_bounds(lists, entries);
    let b1 = writer::debug_starts(lists);
    let b2 = writer::debug_ids(lists);
    let b3 = counted_bytes(b2, v.attr_offsets, 4);
    assert(b1 == counted_bytes(seq![], v.index_offsets, 4)) by {
        reveal(counted_bytes);
        lemma_starts(lists, v.index_offsets, n);
        let e = Seq::<u8>::empty();
        assert(e + wire::varint_bytes(n as u64) =~= wire::varint_bytes(n as u64));
    }
    assert(b2 == counted_bytes(b1, v.attr_ids, 8)) by {
        reveal(counted_bytes);
        lemma_id_lists(lists, n);
        lemma_flat_len(lists, n);
    }
    assert(writer::debug_bytes(lists, entries) == b3 + table::concat(entries)) by {
        reveal(counted_bytes);
        lemma_entry_offsets(entries, v.attr_offsets, m);
    }
    lemma_section_parts(
        writer::debug_bytes(lists, entries),
        b1,
        b2,
        b3,
        v.index_offsets,
        v.attr_ids,
        v.attr_offsets,
        table::concat(entries),
    );
}

proof fn lemma_section_bounds(lists: Seq<Seq<u64>>, entries: Seq<Seq<u8>>)
    requires
        writer::debug_fits(lists, entries),
    ensures
        ({
            let v = section_of(lists, entries);
            &&& v.attr_ids.len() <= u32::MAX
            &&& forall|i: int|
                0 <= i < v.index_offsets.len() ==> 0 <= #[trigger] v.index_offsets[i]
                    < wire::pow256(4)
            &&& forall|i: int|
                0 <= i < v.attr_ids.len() ==> 0 <= #[trigger] v.attr_ids[i] < wire::pow256(8)
            &&& forall|i: int|
                0 <= i < v.attr_offsets.len() ==> 0 <= #[trigger] v.attr_offsets[i]
                    < wire::pow256(4)
        }),
{
    let v = section_of(lists, entries);
    let n = lists.len() as int;
    wire::lemma_pow256_values();
    lemma_flat_len(lists, n);
    assert forall|i: int| 0 <= i < n implies 0 <= #[trigger] v.index_offsets[i] < wire::pow256(
        4,
    ) by {
        lemma_ids_monotone(lists, i, n);
    }
    assert forall|i: int| 0 <= i < entries.len() implies 0 <= #[trigger] v.attr_offsets[i]
        < wire::pow256(4) by {
        table::lemma_concat_entry(entries, i);
    }
}

/// The ids of a function are those of its list.
pub proof fn lemma_func_ids(lists: Seq<Seq<u64>>, entries: Seq<Seq<u8>>, func: u64)
    requires
        1 <= func <= lists.len(),
    ensures
        debug::func_ids(section_of(lists, entries), func) == Some(ints(lists[func - 1])),
{
    let n = lists.len() as int;
    lemma_flat_part(lists, func - 1, n);
    lemma_flat_len(lists, n);
    lemma_ids_monotone(lists, 0, func - 1);
    lemma_ids_monotone(lists, func - 1, func as int);
}

// ---------------------------------------------------------------------------
// Attributes
// ---------------------------------------------------------------------------

/// Every entry can be looked up by its id.
pub open spec fn resolves(s: DebugV, entries: Seq<Seq<u8>>) -> bool {
    &&& debug::levels(s) > entries.len()
    &&& entries.len() <= u32::MAX
    &&& forall|i: int|
        0 <= i < entries.len() ==> (match debug::debug_attr_at(#[trigger] entries[i], 0) {
            Ok((a, q)) => q == entries[i].len() ==> debug::attr_of(s, (i + 1) as u64) == Ok::<
                DebugAttr,
                ReadError,
            >(a),
            Err(_) => true,
        })
}

/// Every entry that was written can be looked up.
pub proof fn lemma_resolves(lists: Seq<Seq<u64>>, entries: Seq<Seq<u8>>)
    requires
        entries.len() <= u32::MAX,
    ensures
        resolves(section_of(lists, debug_writer::non_empty(entries)), entries),
{
    let all = debug_writer::non_empty(entries);
    let s = section_of(lists, all);
    assert forall|i: int| 0 <= i < entries.len() implies (match debug::debug_attr_at(
        #[trigger] entries[i],
        0,
    ) {
        Ok((a, q)) => q == entries[i].len() ==> debug::attr_of(s, (i + 1) as u64) == Ok::<
            DebugAttr,
            ReadError,
        >(a),
        Err(_) => true,
    }) by {
        table::lemma_concat_entry(entries, i);
        if i + 1 < entries.len() {
            assert(s.attr_offsets[i + 1] == table::offset_of(entries, i + 1));
        } else {
            assert(i + 1 == entries.len());
        }
    }
}

/// Strings and entries that were asked for can be looked up in what was
/// written.
pub open spec fn served(s: DebugV, q: DebugPool) -> bool {
    &&& debug_writer::pool_wf(q)
    &&& q.strings.len() <= u32::MAX
    &&& resolves(s, q.entries)
}

proof fn lemma_string_resolves(l: Seq<Seq<char>>, x: Seq<char>, q: DebugPool)
    requires
        l.contains(x),
        strings::extends(l, q.strings),
        q.strings.len() <= u32::MAX,
    ensures
        debug::di_string(q.strings, debug_writer::string_id(l, x)) == Ok::<Seq<char>, ReadError>(x),
{
    let i = l.index_of(x);
    assert(0 <= i < l.len() && l[i] == x);
    assert(q.strings.take(l.len() as int)[i] == q.strings[i]);
}

proof fn lemma_entry_resolves(s: DebugV, p: DebugPool, tag: u8, f: Seq<u64>, q: DebugPool)
    requires
        served(s, q),
        debug::field_count(tag) == Some(f.len() as int),
        debug_writer::pool_grows(
            debug_writer::with_entry(p, debug_writer::entry_bytes(tag, f)).0,
            q,
        ),
    ensures
        ({
            let id = debug_writer::with_entry(p, debug_writer::entry_bytes(tag, f)).1;
            &&& 1 <= id <= q.entries.len()
            &&& q.entries[id - 1] == debug_writer::entry_bytes(tag, f)
            &&& debug::attr_of(s, id) == Ok::<DebugAttr, ReadError>(debug::attr_of_fields(tag, f))
        }),
{
    let e = debug_writer::entry_bytes(tag, f);
    let l = debug_writer::intern_entry(p.entries, e);
    if !p.entries.contains(e) {
        assert(l[p.entries.len() as int] == e);
    }
    assert(l.contains(e));
    let i = l.index_of(e);
    assert(0 <= i < l.len() && l[i] == e);
    assert(q.entries.take(l.len() as int)[i] == q.entries[i]);
    debug_writer::lemma_entry_decodes(tag, f);
}

/// A source file is read back.
proof fn lemma_file_resolves(s: DebugV, p: DebugPool, f: FileV, q: DebugPool)
    requires
        served(s, q),
        debug_writer::pool_wf(p),
        debug_writer::pool_grows(debug_writer::file_attr(p, f).0, q),
    ensures
        debug::file_of(s, q.strings, debug_writer::file_attr(p, f).1) == Ok::<FileV, ReadError>(f),
{
    let p1 = debug_writer::with_string(p, f.name);
    let p2 = debug_writer::with_string(p1, f.directory);
    strings::lemma_intern(p.strings, f.name);
    strings::lemma_intern(p1.strings, f.directory);
    strings::lemma_extends_contains(p1.strings, p2.strings, f.name);
    let fields = seq![
        debug_writer::string_id(p2.strings, f.name),
        debug_writer::string_id(p2.strings, f.directory),
    ];
    lemma_entry_resolves(s, p2, DEBUG_FILE, fields, q);
    lemma_string_resolves(p2.strings, f.name, q);
    lemma_string_resolves(p2.strings, f.directory, q);
}

/// A function in the debug information is read back, given that its files are.
proof fn lemma_subprogram_resolves(
    s: DebugV,
    p: DebugPool,
    file: u64,
    unit: u64,
    sp: SubprogramV,
    q: DebugPool,
)
    requires
        served(s, q),
        debug_writer::pool_wf(p),
        debug::file_of(s, q.strings, file) == Ok::<FileV, ReadError>(sp.file),
        debug::unit_of(s, q.strings, unit) == Ok::<FileV, ReadError>(sp.compile_unit),
        debug_writer::pool_grows(
            debug_writer::subprogram_entry(
                p,
                file,
                sp.line as u64,
                sp.name,
                sp.linkage_name,
                unit,
                sp.scope_line as u64,
            ).0,
            q,
        ),
    ensures
        ({
            let id = debug_writer::subprogram_entry(
                p,
                file,
                sp.line as u64,
                sp.name,
                sp.linkage_name,
                unit,
                sp.scope_line as u64,
            ).1;
            &&& 1 <= id <= q.entries.len()
            &&& forall|depth: nat|
                depth >= 1 ==> #[trigger] debug::scope_of(s, q.strings, id, depth) == Ok::<
                    ScopeV,
                    ReadError,
                >(ScopeV::Subprogram(sp))
        }),
{
    let p1 = debug_writer::with_string(p, sp.name);
    let p2 = debug_writer::with_string(p1, sp.linkage_name);
    strings::lemma_intern(p.strings, sp.name);
    strings::lemma_intern(p1.strings, sp.linkage_name);
    strings::lemma_extends_contains(p1.strings, p2.strings, sp.name);
    let fields = seq![
        file,
        sp.line as u64,
        debug_writer::string_id(p2.strings, sp.name),
        debug_writer::string_id(p2.strings, sp.linkage_name),
        unit,
        sp.scope_line as u64,
    ];
    lemma_entry_resolves(s, p2, DEBUG_SUBPROGRAM, fields, q);
    lemma_string_resolves(p2.strings, sp.name, q);
    lemma_string_resolves(p2.strings, sp.linkage_name, q);
}

proof fn lemma_unit_resolves(s: DebugV, p: DebugPool, file: u64, f: FileV, q: DebugPool)
    requires
        served(s, q),
        debug::file_of(s, q.strings, file) == Ok::<FileV, ReadError>(f),
        debug_writer::pool_grows(debug_writer::unit_attr(p, file).0, q),
    ensures
        debug::unit_of(s, q.strings, debug_writer::unit_attr(p, file).1) == Ok::<FileV, ReadError>(
            f,
        ),
{
    lemma_entry_resolves(s, p, DEBUG_COMPILE_UNIT, seq![file], q);
}

/// A function in the debug information is read back.
proof fn lemma_subprogram_scope_resolves(s: DebugV, p: DebugPool, sp: SubprogramV, q: DebugPool)
    requires
        served(s, q),
        debug_writer::pool_wf(p),
        debug_writer::pool_grows(debug_writer::subprogram_attr(p, sp).0, q),
    ensures
        ({
            let id = debug_writer::subprogram_attr(p, sp).1;
            &&& 1 <= id <= q.entries.len()
            &&& forall|depth: nat|
                depth >= 1 ==> #[trigger] debug::scope_of(s, q.strings, id, depth) == Ok::<
                    ScopeV,
                    ReadError,
                >(ScopeV::Subprogram(sp))
        }),
{
    let end = debug_writer::subprogram_attr(p, sp).0;
    let (p1, file) = debug_writer::file_attr(p, sp.file);
    debug_writer::lemma_file_attr(p, sp.file);
    let (p2, unit_file) = debug_writer::file_attr(p1, sp.compile_unit);
    debug_writer::lemma_file_attr(p1, sp.compile_unit);
    let (p3, unit) = debug_writer::unit_attr(p2, unit_file);
    debug_writer::lemma_unit_attr(p2, unit_file);
    debug_writer::lemma_subprogram_entry(
        p3,
        file,
        sp.line as u64,
        sp.name,
        sp.linkage_name,
        unit,
        sp.scope_line as u64,
    );
    debug_writer::lemma_pool_grows(p3, end, q);
    debug_writer::lemma_pool_grows(p2, p3, q);
    debug_writer::lemma_pool_grows(p1, p2, q);
    lemma_file_resolves(s, p, sp.file, q);
    lemma_file_resolves(s, p1, sp.compile_unit, q);
    lemma_unit_resolves(s, p2, unit_file, sp.compile_unit, q);
    lemma_subprogram_resolves(s, p3, file, unit, sp, q);
}

/// A nested scope is read back, given that its parent and its file are.
#[verifier::rlimit(60)]
#[verifier::spinoff_prover]
proof fn lemma_block_resolves(
    s: DebugV,
    p: DebugPool,
    up: u64,
    parent: ScopeV,
    f: u64,
    file: FileV,
    line: u32,
    column: u32,
    q: DebugPool,
)
    requires
        served(s, q),
        forall|depth: nat|
            depth >= up ==> #[trigger] debug::scope_of(s, q.strings, up, depth) == Ok::<
                ScopeV,
                ReadError,
            >(parent),
        debug::file_of(s, q.strings, f) == Ok::<FileV, ReadError>(file),
        debug_writer::pool_grows(
            debug_writer::with_entry(
                p,
                debug_writer::entry_bytes(
                    DEBUG_LEXICAL_BLOCK,
                    seq![up, f, line as u64, column as u64],
                ),
            ).0,
            q,
        ),
    ensures
        ({
            let id = debug_writer::with_entry(
                p,
                debug_writer::entry_bytes(
                    DEBUG_LEXICAL_BLOCK,
                    seq![up, f, line as u64, column as u64],
                ),
            ).1;
            &&& 1 <= id <= q.entries.len()
            &&& forall|depth: nat|
                depth >= id ==> #[trigger] debug::scope_of(s, q.strings, id, depth) == Ok::<
                    ScopeV,
                    ReadError,
                >(ScopeV::LexicalBlock(Box::new(parent), file, line, column))
        }),
{
    let fields = seq![up, f, line as u64, column as u64];
    lemma_entry_resolves(s, p, DEBUG_LEXICAL_BLOCK, fields, q);
    let id = debug_writer::with_entry(
        p,
        debug_writer::entry_bytes(DEBUG_LEXICAL_BLOCK, fields),
    ).1;
    debug_writer::lemma_entry_decodes(DEBUG_LEXICAL_BLOCK, fields);
    assert(debug_writer::refers_back(q.entries[id - 1], id - 1));
    assert(up <= id - 1);
    assert forall|depth: nat| depth >= id implies #[trigger] debug::scope_of(
        s,
        q.strings,
        id,
        depth,
    ) == Ok::<ScopeV, ReadError>(
        ScopeV::LexicalBlock(Box::new(parent), file, line, column),
    ) by {
        assert(debug::scope_of(s, q.strings, up, (depth - 1) as nat) == Ok::<ScopeV, ReadError>(
            parent,
        ));
    }
}

/// A scope is read back.
pub proof fn lemma_scope_resolves(s: DebugV, p: DebugPool, scope: ScopeV, q: DebugPool)
    requires
        served(s, q),
        debug_writer::pool_wf(p),
        debug_writer::pool_grows(debug_writer::scope_attr(p, scope).0, q),
    ensures
        ({
            let id = debug_writer::scope_attr(p, scope).1;
            &&& 1 <= id <= q.entries.len()
            &&& forall|depth: nat|
                depth >= id ==> #[trigger] debug::scope_of(s, q.strings, id, depth) == Ok::<
                    ScopeV,
                    ReadError,
                >(scope)
        }),
    decreases scope,
{
    match scope {
        ScopeV::Subprogram(sp) => lemma_subprogram_scope_resolves(s, p, sp, q),
        ScopeV::LexicalBlock(parent, file, line, column) => {
            let end = debug_writer::scope_attr(p, scope).0;
            let (p1, up) = debug_writer::scope_attr(p, *parent);
            debug_writer::lemma_scope_attr(p, *parent);
            let (p2, f) = debug_writer::file_attr(p1, file);
            debug_writer::lemma_file_attr(p1, file);
            let fields = seq![up, f, line as u64, column as u64];
            debug_writer::lemma_with_entry(p2, DEBUG_LEXICAL_BLOCK, fields);
            debug_writer::lemma_pool_grows(p2, end, q);
            debug_writer::lemma_pool_grows(p1, p2, q);
            lemma_scope_resolves(s, p, *parent, q);
            lemma_file_resolves(s, p1, file, q);
            lemma_block_resolves(s, p2, up, *parent, f, file, line, column, q);
        },
    }
}

// ---------------------------------------------------------------------------
// Locations
// ---------------------------------------------------------------------------

/// What is read back of a location in a function with the given scope. A bare
/// source location takes the scope of the function; without one nothing is
/// known.
pub open spec fn read_location(scope: Option<ScopeV>, l: LocationV) -> LocationV
    decreases l,
{
    match l {
        LocationV::Unknown => LocationV::Unknown,
        LocationV::FileLineCol(filename, line, column) => match scope {
            Some(s) => LocationV::DebugInfo(filename, line, column, s),
            None => LocationV::Unknown,
        },
        LocationV::DebugInfo(_, _, _, _) => l,
        LocationV::CallSite(callee, caller) => if read_location(scope, *callee) is Unknown {
            LocationV::Unknown
        } else {
            LocationV::CallSite(
                Box::new(read_location(scope, *callee)),
                Box::new(read_location(scope, *caller)),
            )
        },
    }
}

/// The id of a function's scope stands for the scope.
pub open spec fn scope_known(s: DebugV, strings: Seq<Seq<char>>, id: u64, scope: Option<ScopeV>) -> bool {
    match scope {
        Some(x) => id != 0 && debug::scope_of(s, strings, id, debug::levels(s)) == Ok::<
            ScopeV,
            ReadError,
        >(x),
        None => id == 0,
    }
}

proof fn lemma_loc_resolves(
    s: DebugV,
    p: DebugPool,
    id: u64,
    filename: Seq<char>,
    line: u32,
    column: u32,
    scope: ScopeV,
    q: DebugPool,
)
    requires
        served(s, q),
        debug_writer::pool_wf(p),
        debug::scope_of(s, q.strings, id, debug::levels(s)) == Ok::<ScopeV, ReadError>(scope),
        debug_writer::pool_grows(debug_writer::loc_attr(p, id, filename, line as u64, column as u64).0, q),
    ensures
        ({
            let loc = debug_writer::loc_attr(p, id, filename, line as u64, column as u64).1;
            &&& 1 <= loc <= q.entries.len()
            &&& forall|depth: nat|
                depth >= 1 ==> #[trigger] debug::location_of(s, q.strings, loc, depth) == Ok::<
                    LocationV,
                    ReadError,
                >(LocationV::DebugInfo(filename, line, column, scope))
        }),
{
    let p1 = debug_writer::with_string(p, filename);
    strings::lemma_intern(p.strings, filename);
    let fields = seq![
        id,
        debug_writer::string_id(p1.strings, filename),
        line as u64,
        column as u64,
    ];
    lemma_entry_resolves(s, p1, DEBUG_LOC, fields, q);
    lemma_string_resolves(p1.strings, filename, q);
}

/// A location is read back.
pub proof fn lemma_location_resolves(
    s: DebugV,
    p: DebugPool,
    current: u64,
    scope: Option<ScopeV>,
    l: LocationV,
    q: DebugPool,
)
    requires
        served(s, q),
        debug_writer::pool_wf(p),
        scope_known(s, q.strings, current, scope),
        debug_writer::pool_grows(debug_writer::location_attr(p, current, l).0, q),
    ensures
        ({
            let id = debug_writer::location_attr(p, current, l).1;
            &&& id <= q.entries.len()
            &&& (id == 0 <==> read_location(scope, l) is Unknown)
            &&& forall|depth: nat|
                depth >= id ==> #[trigger] debug::location_of(s, q.strings, id, depth) == Ok::<
                    LocationV,
                    ReadError,
                >(read_location(scope, l))
        }),
    decreases l,
{
    let end = debug_writer::location_attr(p, current, l).0;
    match l {
        LocationV::Unknown => {},
        LocationV::FileLineCol(filename, line, column) => match scope {
            Some(x) => lemma_loc_resolves(s, p, current, filename, line, column, x, q),
            None => {},
        },
        LocationV::DebugInfo(filename, line, column, x) => {
            let (p1, id) = debug_writer::scope_attr(p, x);
            debug_writer::lemma_scope_attr(p, x);
            debug_writer::lemma_loc_attr(p1, id, filename, line as u64, column as u64);
            debug_writer::lemma_pool_grows(p1, end, q);
            lemma_scope_resolves(s, p, x, q);
            lemma_loc_resolves(s, p1, id, filename, line, column, x, q);
        },
        LocationV::CallSite(callee, caller) => {
            let (p1, x) = debug_writer::location_attr(p, current, *callee);
            debug_writer::lemma_location_attr(p, current, *callee);
            if x == 0 {
                lemma_location_resolves(s, p, current, scope, *callee, q);
            } else {
                let (p2, y) = debug_writer::location_attr(p1, current, *caller);
                debug_writer::lemma_location_attr(p1, current, *caller);
                let fields = seq![x, y];
                debug_writer::lemma_with_entry(p2, DEBUG_CALL_SITE, fields);
                debug_writer::lemma_pool_grows(p2, end, q);
                debug_writer::lemma_pool_grows(p1, p2, q);
                lemma_location_resolves(s, p, current, scope, *callee, q);
                lemma_location_resolves(s, p1, current, scope, *caller, q);
                lemma_entry_resolves(s, p2, DEBUG_CALL_SITE, fields, q);
                let id = debug_writer::location_attr(p, current, l).1;
                debug_writer::lemma_entry_decodes(DEBUG_CALL_SITE, fields);
                assert(debug_writer::refers_back(q.entries[id - 1], id - 1));
                assert forall|depth: nat| depth >= id implies #[trigger] debug::location_of(
                    s,
                    q.strings,
                    id,
                    depth,
                ) == Ok::<LocationV, ReadError>(read_location(scope, l)) by {
                    assert(debug::location_of(s, q.strings, x, (depth - 1) as nat) == Ok::<
                        LocationV,
                        ReadError,
                    >(read_location(scope, *callee)));
                    assert(debug::location_of(s, q.strings, y, (depth - 1) as nat) == Ok::<
                        LocationV,
                        ReadError,
                    >(read_location(scope, *caller)));
                }
            }
        },
    }
}

/// The scope that a function's own location gives it.
pub open spec fn scope_for(sym_name: Seq<char>, display: Seq<char>, l: LocationV) -> Option<ScopeV> {
    match l {
        LocationV::FileLineCol(filename, line, _) => Some(
            ScopeV::Subprogram(debug::derived_scope(filename, line, display, sym_name)),
        ),
        LocationV::DebugInfo(_, _, _, scope) => Some(scope),
        _ => None,
    }
}

/// The scope of a function is read back.
pub proof fn lemma_function_scope_resolves(
    s: DebugV,
    p: DebugPool,
    sym_name: Seq<char>,
    display: Seq<char>,
    l: LocationV,
    q: DebugPool,
)
    requires
        served(s, q),
        debug_writer::pool_wf(p),
        debug_writer::pool_grows(
            debug_writer::function_scope(p, sym_name, display, l).0,
            q,
        ),
    ensures
        scope_known(
            s,
            q.strings,
            debug_writer::function_scope(p, sym_name, display, l).1,
            scope_for(sym_name, display, l),
        ),
{
    let end = debug_writer::function_scope(p, sym_name, display, l).0;
    match l {
        LocationV::FileLineCol(filename, line, _) => {
            let f = debug::file_of_path(filename);
            let sp = debug::derived_scope(filename, line, display, sym_name);
            let (p1, file) = debug_writer::file_attr(p, f);
            debug_writer::lemma_file_attr(p, f);
            let (p2, unit) = debug_writer::unit_attr(p1, file);
            debug_writer::lemma_unit_attr(p1, file);
            debug_writer::lemma_subprogram_entry(p2, file, line as u64, display, sym_name, unit, line as u64);
            debug_writer::lemma_pool_grows(p2, end, q);
            debug_writer::lemma_pool_grows(p1, p2, q);
            lemma_file_resolves(s, p, f, q);
            lemma_unit_resolves(s, p1, file, f, q);
            lemma_subprogram_resolves(s, p2, file, unit, sp, q);
        },
        LocationV::DebugInfo(_, _, _, scope) => {
            lemma_scope_resolves(s, p, scope, q);
        },
        _ => {},
    }
}

} // verus!
