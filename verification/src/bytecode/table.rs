//! Offset tables, the framing shared by the string, type and constant
//! sections: a count, padding, one offset per entry, then the entries.
use vstd::prelude::*;
use crate::bytecode::encoding::{EncodingReader, EncodingWriter};
use crate::bytecode::wire;
use crate::error::{ReadError, Subject, WriteError};

verus! {

// ---------------------------------------------------------------------------
// Meaning
// ---------------------------------------------------------------------------

/// All entries, one behind the other.
pub open spec fn concat(s: Seq<Seq<u8>>) -> Seq<u8>
    decreases s.len(),
{
    if s.len() == 0 {
        seq![]
    } else {
        concat(s.drop_last()) + s.last()
    }
}

/// Where entry `i` starts in the concatenation.
pub open spec fn offset_of(s: Seq<Seq<u8>>, i: int) -> int {
    concat(s.take(i)).len() as int
}

/// The first `n` offsets, little-endian in `w` bytes each.
pub open spec fn offsets_bytes(s: Seq<Seq<u8>>, w: nat, n: int) -> Seq<u8>
    decreases n,
{
    if n <= 0 {
        seq![]
    } else {
        offsets_bytes(s, w, n - 1) + wire::le_bytes(offset_of(s, n - 1), w)
    }
}

/// The count of a table, padded to the width of its offsets.
pub open spec fn table_head(n: nat, w: nat) -> Seq<u8> {
    let head = wire::varint_bytes(n as u64);
    head + wire::padding_bytes(wire::padding_len(head.len() as int, w as int))
}

/// A table with offsets of `w` bytes.
pub open spec fn table_bytes(s: Seq<Seq<u8>>, w: nat) -> Seq<u8> {
    table_head(s.len(), w) + offsets_bytes(s, w, s.len() as int) + concat(s)
}

/// `n` offsets of `w` bytes at position `p`.
pub open spec fn offsets_at(d: Seq<u8>, p: int, w: nat, n: int) -> Result<
    (Seq<int>, int),
    ReadError,
>
    decreases n,
{
    if n <= 0 {
        Ok((seq![], p))
    } else {
        match offsets_at(d, p, w, n - 1) {
            Ok((s, q)) => match wire::le_at(d, q, w) {
                Ok((v, q2)) => Ok((s.push(v), q2)),
                Err(e) => Err(e),
            },
            Err(e) => Err(e),
        }
    }
}

/// Where entry `i` ends.
pub open spec fn entry_end(payload: Seq<u8>, offs: Seq<int>, i: int) -> int {
    if i + 1 < offs.len() {
        offs[i + 1]
    } else {
        payload.len() as int
    }
}

/// The first `n` entries that the offsets cut out of the payload.
pub open spec fn entries_of(payload: Seq<u8>, offs: Seq<int>, what: Subject, n: int) -> Result<
    Seq<Seq<u8>>,
    ReadError,
>
    decreases n,
{
    if n <= 0 {
        Ok(seq![])
    } else {
        match entries_of(payload, offs, what, n - 1) {
            Ok(s) => {
                let start = offs[n - 1];
                let end = entry_end(payload, offs, n - 1);
                if start > end || end > payload.len() {
                    Err(ReadError::OffsetOutOfRange(what, (n - 1) as u64))
                } else {
                    Ok(s.push(payload.subrange(start, end)))
                }
            },
            Err(e) => Err(e),
        }
    }
}

/// The entries of the table that fills `d`.
pub open spec fn table_at(d: Seq<u8>, what: Subject, w: nat) -> Result<Seq<Seq<u8>>, ReadError> {
    match wire::count_at(d, 0, what) {
        Ok((n, p)) => match (if n > 0 {
            wire::skip_padding_at(d, p, w as int)
        } else {
            Ok(p)
        }) {
            Ok(q) => match offsets_at(d, q, w, n) {
                Ok((offs, r)) => entries_of(d.skip(r), offs, what, n),
                Err(e) => Err(e),
            },
            Err(e) => Err(e),
        },
        Err(e) => Err(e),
    }
}

// ---------------------------------------------------------------------------
// Facts
// ---------------------------------------------------------------------------

proof fn lemma_offsets_at_error(d: Seq<u8>, p: int, w: nat, k: int, n: int)
    requires
        0 <= k <= n,
        offsets_at(d, p, w, k) is Err,
    ensures
        offsets_at(d, p, w, n) == offsets_at(d, p, w, k),
    decreases n,
{
    if n > k {
        lemma_offsets_at_error(d, p, w, k, n - 1);
    }
}

proof fn lemma_offsets_at_shape(d: Seq<u8>, p: int, w: nat, n: int)
    requires
        0 <= p <= d.len(),
        n >= 0,
    ensures
        offsets_at(d, p, w, n) matches Ok((s, q)) ==> s.len() == n && p <= q <= d.len() && forall|
            i: int,
        |
            0 <= i < n ==> 0 <= #[trigger] s[i] < wire::pow256(w),
    decreases n,
{
    if n > 0 {
        lemma_offsets_at_shape(d, p, w, n - 1);
        if let Ok((s, q)) = offsets_at(d, p, w, n - 1) {
            if let Ok((b, q2)) = wire::bytes_at(d, q, w as int) {
                wire::lemma_le_value_bound(b);
            }
        }
    }
}

proof fn lemma_entries_error(payload: Seq<u8>, offs: Seq<int>, what: Subject, k: int, n: int)
    requires
        0 <= k <= n,
        entries_of(payload, offs, what, k) is Err,
    ensures
        entries_of(payload, offs, what, n) == entries_of(payload, offs, what, k),
    decreases n,
{
    if n > k {
        lemma_entries_error(payload, offs, what, k, n - 1);
    }
}

pub proof fn lemma_entries_len(payload: Seq<u8>, offs: Seq<int>, what: Subject, n: int)
    requires
        n >= 0,
    ensures
        entries_of(payload, offs, what, n) matches Ok(s) ==> s.len() == n,
    decreases n,
{
    if n > 0 {
        lemma_entries_len(payload, offs, what, n - 1);
    }
}

proof fn lemma_offsets_bytes_len(s: Seq<Seq<u8>>, w: nat, n: int)
    requires
        n >= 0,
    ensures
        offsets_bytes(s, w, n).len() == w * n,
    decreases n,
{
    if n > 0 {
        lemma_offsets_bytes_len(s, w, n - 1);
        wire::lemma_le_bytes_len(offset_of(s, n - 1), w);
        assert(w * n == w * (n - 1) + w) by (nonlinear_arith);
    } else {
        assert(w * n == 0) by (nonlinear_arith)
            requires
                n == 0,
        ;
    }
}

proof fn lemma_concat_take(s: Seq<Seq<u8>>, i: int)
    requires
        0 <= i < s.len(),
    ensures
        concat(s.take(i + 1)) == concat(s.take(i)) + s[i],
{
    let t = s.take(i + 1);
    assert(t.drop_last() =~= s.take(i));
}

/// A prefix of the entries is a prefix of their concatenation.
proof fn lemma_concat_prefix(s: Seq<Seq<u8>>, i: int, j: int)
    requires
        0 <= i <= j <= s.len(),
    ensures
        concat(s.take(i)).len() <= concat(s.take(j)).len(),
        concat(s.take(j)).take(concat(s.take(i)).len() as int) == concat(s.take(i)),
    decreases j - i,
{
    if i < j {
        lemma_concat_prefix(s, i, j - 1);
        lemma_concat_take(s, j - 1);
        let a = concat(s.take(i));
        let b = concat(s.take(j - 1));
        assert((b + s[j - 1]).take(a.len() as int) =~= b.take(a.len() as int));
    } else {
        assert(concat(s.take(j)).take(concat(s.take(i)).len() as int) =~= concat(s.take(i)));
    }
}

proof fn lemma_offsets_round_trip(a: Seq<u8>, s: Seq<Seq<u8>>, w: nat, n: int, z: Seq<u8>)
    requires
        0 <= n <= s.len(),
        concat(s).len() < wire::pow256(w),
    ensures
        offsets_at(a + offsets_bytes(s, w, n) + z, a.len() as int, w, n) == Ok::<
            (Seq<int>, int),
            ReadError,
        >((Seq::new(n as nat, |i: int| offset_of(s, i)), a.len() + w * n)),
    decreases n,
{
    if n > 0 {
        let last = wire::le_bytes(offset_of(s, n - 1), w);
        let init = offsets_bytes(s, w, n - 1);
        let d = a + offsets_bytes(s, w, n) + z;
        assert(d =~= a + init + (last + z));
        lemma_offsets_round_trip(a, s, w, n - 1, last + z);
        assert(d =~= (a + init) + last + z);
        lemma_offsets_bytes_len(s, w, n - 1);
        assert(w * n == w * (n - 1) + w) by (nonlinear_arith);
        assert(s.take(s.len() as int) =~= s);
        lemma_concat_prefix(s, n - 1, s.len() as int);
        wire::lemma_le_at_round_trip(a + init, offset_of(s, n - 1), w, z);
        assert(Seq::new((n - 1) as nat, |i: int| offset_of(s, i)).push(offset_of(s, n - 1))
            =~= Seq::new(n as nat, |i: int| offset_of(s, i)));
    } else {
        assert(w * n == 0) by (nonlinear_arith)
            requires
                n == 0,
        ;
        assert(Seq::new(n as nat, |i: int| offset_of(s, i)) =~= seq![]);
    }
}

/// The offsets cut the entries out of their concatenation.
pub proof fn lemma_concat_entry(s: Seq<Seq<u8>>, i: int)
    requires
        0 <= i < s.len(),
    ensures
        0 <= offset_of(s, i) <= offset_of(s, i + 1) <= concat(s).len(),
        concat(s).subrange(offset_of(s, i), offset_of(s, i + 1)) == s[i],
        offset_of(s, s.len() as int) == concat(s).len(),
{
    lemma_concat_take(s, i);
    assert(s.take(s.len() as int) =~= s);
    lemma_concat_prefix(s, i + 1, s.len() as int);
    let end = offset_of(s, i + 1);
    let c = concat(s).take(end);
    assert(c == concat(s.take(i + 1)));
    assert(c =~= concat(s.take(i)) + s[i]);
    assert(concat(s).subrange(offset_of(s, i), end) =~= c.skip(offset_of(s, i)));
    assert(c.skip(offset_of(s, i)) =~= s[i]);
}

proof fn lemma_entries_round_trip(s: Seq<Seq<u8>>, what: Subject, n: int)
    requires
        0 <= n <= s.len(),
    ensures
        entries_of(concat(s), Seq::new(s.len(), |i: int| offset_of(s, i)), what, n) == Ok::<
            Seq<Seq<u8>>,
            ReadError,
        >(s.take(n)),
    decreases n,
{
    let offs = Seq::new(s.len(), |i: int| offset_of(s, i));
    if n > 0 {
        lemma_entries_round_trip(s, what, n - 1);
        lemma_concat_take(s, n - 1);
        assert(s.take(s.len() as int) =~= s);
        lemma_concat_prefix(s, n, s.len() as int);
        let start = offset_of(s, n - 1);
        let end = entry_end(concat(s), offs, n - 1);
        assert(end == offset_of(s, n)) by {
            if n < s.len() {
                assert(offs[n] == offset_of(s, n));
            } else {
                assert(s.take(n) =~= s);
            }
        }
        assert(offs[n - 1] == start);
        assert(concat(s).subrange(start, end) =~= s[n - 1]) by {
            let c = concat(s).take(end);
            assert(c == concat(s.take(n)));
            assert(c =~= concat(s.take(n - 1)) + s[n - 1]);
            assert(concat(s).subrange(start, end) =~= c.skip(start));
        }
        assert(s.take(n) =~= s.take(n - 1).push(s[n - 1]));
    } else {
        assert(s.take(n) =~= seq![]);
    }
}

/// Reading a table that was written gives its entries back. Offsets must fit
/// their width and the count must fit in 32 bits.
pub proof fn lemma_table_round_trip(s: Seq<Seq<u8>>, what: Subject, w: nat)
    requires
        s.len() <= 0xFFFF_FFFF,
        concat(s).len() < wire::pow256(w),
    ensures
        table_at(table_bytes(s, w), what, w) == Ok::<Seq<Seq<u8>>, ReadError>(s),
{
    let n = s.len() as int;
    let head = wire::varint_bytes(s.len() as u64);
    let pad = wire::padding_bytes(wire::padding_len(head.len() as int, w as int));
    let offs = offsets_bytes(s, w, n);
    let d = table_bytes(s, w);
    let e = Seq::<u8>::empty();
    assert(d =~= e + head + (pad + offs + concat(s)));
    wire::lemma_varint_round_trip(e, s.len() as u64, pad + offs + concat(s));
    assert(e + head =~= head);
    if n > 0 {
        assert(d =~= head + pad + (offs + concat(s)));
        wire::lemma_padding_round_trip(head, w as int, offs + concat(s));
        assert(pad.len() == wire::padding_len(head.len() as int, w as int)) by {
            if w >= 2 {
                wire::lemma_padding_aligns(head.len() as int, w as int);
            }
        }
        assert(d =~= (head + pad) + offs + concat(s));
        lemma_offsets_round_trip(head + pad, s, w, n, concat(s));
        lemma_offsets_bytes_len(s, w, n);
        assert(d.skip((head + pad).len() + w * n) =~= concat(s));
        lemma_entries_round_trip(s, what, n);
        assert(s.take(n) =~= s);
    } else {
        assert(offsets_at(d, head.len() as int, w, 0) == Ok::<(Seq<int>, int), ReadError>(
            (seq![], head.len() as int),
        ));
        assert(s =~= seq![]);
    }
}

// ---------------------------------------------------------------------------
// Reading
// ---------------------------------------------------------------------------

/// The numbers as mathematical integers.
pub open spec fn as_ints(s: Seq<u64>) -> Seq<int> {
    Seq::new(s.len(), |i: int| s[i] as int)
}

/// The pieces of `d` that the ranges delimit.
spec fn cut(d: Seq<u8>, ranges: Seq<(usize, usize)>) -> Seq<Seq<u8>> {
    Seq::new(ranges.len(), |i: int| d.subrange(ranges[i].0 as int, ranges[i].1 as int))
}

/// A parsed table: the payload and one range of it per entry.
pub struct OffsetTable<'a> {
    data: &'a [u8],
    ranges: Vec<(usize, usize)>,
}

impl<'a> OffsetTable<'a> {
    /// The entries.
    pub closed spec fn entries(&self) -> Seq<Seq<u8>> {
        cut(self.data@, self.ranges@)
    }

    /// Every range lies inside the payload.
    pub closed spec fn wf(&self) -> bool {
        forall|i: int|
            0 <= i < self.ranges@.len() ==> (#[trigger] self.ranges@[i]).0 <= self.ranges@[i].1
                && self.ranges@[i].1 <= self.data@.len()
    }

    /// The number of entries.
    pub fn len(&self) -> (n: usize)
        ensures
            n == self.entries().len(),
    {
        self.ranges.len()
    }

    /// The bytes of entry `i`.
    pub fn entry(&self, i: usize) -> (r: &'a [u8])
        requires
            self.wf(),
            i < self.entries().len(),
        ensures
            r@ == self.entries()[i as int],
    {
        let (start, end): (usize, usize) = self.ranges[i];
        vstd::slice::slice_subrange(self.data, start, end)
    }
}

/// Read `count` little-endian integers of `width` bytes, four or eight.
pub fn read_offsets(r: &mut EncodingReader, width: u32, count: u64) -> (res: Result<
    Vec<u64>,
    ReadError,
>)
    requires
        old(r).wf(),
        width == 4 || width == 8,
    ensures
        final(r).wf(),
        final(r).bytes() == old(r).bytes(),
        final(r).at() >= old(r).at(),
        match offsets_at(old(r).bytes(), old(r).at(), width as nat, count as int) {
            Ok((s, q)) => {
                &&& res is Ok
                &&& as_ints(res->Ok_0@) == s
                &&& res->Ok_0@.len() == count
                &&& final(r).at() == q
            },
            Err(e) => res == Err::<Vec<u64>, ReadError>(e),
        },
{
    let ghost d = r.bytes();
    let ghost q = r.at();
    let ghost w = width as nat;
    let mut offsets: Vec<u64> = Vec::new();
    let mut i: u64 = 0;
    assert(as_ints(offsets@) =~= seq![]);
    while i < count
        invariant
            i <= count,
            r.wf(),
            r.bytes() == d,
            r.at() >= old(r).at(),
            d == old(r).bytes(),
            q == old(r).at(),
            width == 4 || width == 8,
            w == width as nat,
            offsets@.len() == i,
            offsets_at(d, q, w, i as int) == Ok::<(Seq<int>, int), ReadError>(
                (as_ints(offsets@), r.at()),
            ),
        decreases count - i,
    {
        proof {
            if offsets_at(d, q, w, i + 1) is Err {
                lemma_offsets_at_error(d, q, w, i + 1, count as int);
            }
        }
        let ghost before = offsets@;
        let off: u64 = if width == 4 {
            r.read_le_u32()? as u64
        } else {
            r.read_le_u64()?
        };
        offsets.push(off);
        i = i + 1;
        proof {
            assert(as_ints(offsets@) =~= as_ints(before).push(off as int));
        }
    }
    Ok(offsets)
}

/// Parse a table whose offsets have `offset_bytes` bytes, four or eight.
pub fn read_offset_table<'a>(data: &'a [u8], what: Subject, offset_bytes: u32) -> (res: Result<
    OffsetTable<'a>,
    ReadError,
>)
    requires
        offset_bytes == 4 || offset_bytes == 8,
    ensures
        match table_at(data@, what, offset_bytes as nat) {
            Ok(s) => res is Ok && res->Ok_0.wf() && res->Ok_0.entries() == s,
            Err(e) => res == Err::<OffsetTable<'a>, ReadError>(e),
        },
{
    let ghost d = data@;
    let ghost w = offset_bytes as nat;
    let mut r = EncodingReader::new(data);
    let count: usize = r.read_count(what)?;
    if count > 0 {
        r.skip_padding(offset_bytes as u64)?;
    }
    let offsets: Vec<u64> = read_offsets(&mut r, offset_bytes, count as u64)?;
    let rest: usize = r.remaining();
    let ghost end = r.at();
    let payload: &'a [u8] = r.read_bytes(rest)?;
    let ghost offs = as_ints(offsets@);
    proof {
        assert(payload@ =~= d.skip(end));
    }
    let mut ranges: Vec<(usize, usize)> = Vec::new();
    let mut k: usize = 0;
    assert(cut(payload@, ranges@) =~= seq![]);
    while k < count
        invariant
            k <= count,
            offsets@.len() == count,
            offs == as_ints(offsets@),
            d == data@,
            w == offset_bytes as nat,
            ranges@.len() == k,
            table_at(d, what, w) == entries_of(payload@, offs, what, count as int),
            forall|j: int|
                0 <= j < k ==> (#[trigger] ranges@[j]).0 <= ranges@[j].1 && ranges@[j].1
                    <= payload@.len(),
            entries_of(payload@, offs, what, k as int) == Ok::<Seq<Seq<u8>>, ReadError>(
                cut(payload@, ranges@),
            ),
        decreases count - k,
    {
        let start: u64 = offsets[k];
        let end: u64 = if k + 1 < count {
            offsets[k + 1]
        } else {
            payload.len() as u64
        };
        proof {
            assert(offs[k as int] == start);
            assert(entry_end(payload@, offs, k as int) == end);
            if entries_of(payload@, offs, what, k + 1) is Err {
                lemma_entries_error(payload@, offs, what, k + 1, count as int);
            }
        }
        if start > end || end > payload.len() as u64 {
            return Err(ReadError::OffsetOutOfRange(what, k as u64));
        }
        let ghost before = ranges@;
        ranges.push((start as usize, end as usize));
        k = k + 1;
        proof {
            assert(cut(payload@, ranges@) =~= cut(payload@, before).push(
                payload@.subrange(start as int, end as int),
            ));
        }
    }
    let table = OffsetTable { data: payload, ranges };
    proof {
        assert(table.entries() =~= cut(payload@, ranges@));
    }
    Ok(table)
}

// ---------------------------------------------------------------------------
// Writing
// ---------------------------------------------------------------------------

/// The contents of byte vectors.
pub open spec fn byte_views(s: Seq<Vec<u8>>) -> Seq<Seq<u8>> {
    Seq::new(s.len(), |i: int| s[i]@)
}

/// A copy of some bytes.
pub fn copy_bytes(b: &[u8]) -> (v: Vec<u8>)
    ensures
        v@ == b@,
{
    let mut v: Vec<u8> = Vec::new();
    v.extend_from_slice(b);
    assert(v@ =~= b@);
    v
}

/// Write the offsets and the entries of a table, with offsets of `width` bytes,
/// four or eight. Offsets that do not fit their width are an error.
pub fn write_table_body(w: &mut EncodingWriter, entries: &Vec<Vec<u8>>, width: usize) -> (res:
    Result<(), WriteError>)
    requires
        width == 4 || width == 8,
    ensures
        ({
            let s = byte_views(entries@);
            match res {
                Ok(_) => {
                    &&& final(w)@ == old(w)@ + offsets_bytes(
                        s,
                        width as nat,
                        s.len() as int,
                    ) + concat(s)
                    &&& concat(s).len() < wire::pow256(width as nat)
                },
                Err(e) => e == WriteError::SectionTooLarge && concat(s).len() >= wire::pow256(
                    width as nat,
                ),
            }
        }),
{
    let ghost s = byte_views(entries@);
    let ghost w0 = width as nat;
    let ghost head = w@;
    let n: usize = entries.len();
    proof {
        wire::lemma_pow256_values();
        assert(s.take(0) =~= seq![]);
        assert(w@ =~= head + offsets_bytes(s, w0, 0));
    }
    let limit: u128 = if width == 4 {
        0x1_0000_0000
    } else {
        0x1_0000_0000_0000_0000
    };
    let mut running: u128 = 0;
    let mut i: usize = 0;
    while i < n
        invariant
            i <= n,
            n == entries@.len(),
            s == byte_views(entries@),
            width == 4 || width == 8,
            w0 == width as nat,
            limit == wire::pow256(w0),
            limit == (if width == 4 { 0x1_0000_0000u128 } else { 0x1_0000_0000_0000_0000u128 }),
            running < limit,
            running == offset_of(s, i as int),
            w@ == head + offsets_bytes(s, w0, i as int),
        decreases n - i,
    {
        if width == 4 {
            w.write_le_u32(running as u32);
        } else {
            w.write_le_u64(running as u64);
        }
        assert(w@ =~= head + offsets_bytes(s, w0, i + 1));
        proof {
            lemma_concat_take(s, i as int);
        }
        running = running + entries[i].len() as u128;
        i = i + 1;
        if running >= limit {
            proof {
                lemma_concat_prefix(s, i as int, s.len() as int);
                assert(s.take(s.len() as int) =~= s);
            }
            return Err(WriteError::SectionTooLarge);
        }
    }
    let ghost framed = w@;
    let mut k: usize = 0;
    proof {
        assert(s.take(0) =~= seq![]);
        assert(w@ =~= framed + concat(s.take(0)));
        assert(s.take(s.len() as int) =~= s);
    }
    while k < n
        invariant
            k <= n,
            n == entries@.len(),
            s == byte_views(entries@),
            w@ == framed + concat(s.take(k as int)),
        decreases n - k,
    {
        w.write_bytes(entries[k].as_slice());
        proof {
            lemma_concat_take(s, k as int);
        }
        k = k + 1;
        assert(w@ =~= framed + concat(s.take(k as int)));
    }
    assert(s.take(k as int) =~= s);
    Ok(())
}

/// Write a table with offsets of `width` bytes, four or eight. Offsets that do
/// not fit their width are an error.
pub fn write_offset_table(entries: &Vec<Vec<u8>>, width: usize) -> (res: Result<
    EncodingWriter,
    WriteError,
>)
    requires
        width == 4 || width == 8,
    ensures
        match res {
            Ok(w) => w@ == table_bytes(byte_views(entries@), width as nat) && concat(
                byte_views(entries@),
            ).len() < wire::pow256(width as nat),
            Err(e) => e == WriteError::SectionTooLarge && concat(byte_views(entries@)).len()
                >= wire::pow256(width as nat),
        },
{
    let ghost s = byte_views(entries@);
    let mut w = EncodingWriter::new();
    w.write_varint(entries.len() as u64);
    assert(w@ =~= wire::varint_bytes(entries@.len() as u64));
    w.align_to(width as u64);
    assert(w@ =~= table_head(s.len(), width as nat));
    write_table_body(&mut w, entries, width)?;
    Ok(w)
}

} // verus!
