//! Byte-level encoder and decoder: varints, zigzag signed varints,
//! little-endian fixed-width values and alignment padding.
use vstd::prelude::*;
use crate::bytecode::enums::ALIGNMENT_BYTE;
use crate::bytecode::wire;
use crate::error::{ReadError, Subject};

verus! {

/// Byte-level encoder that appends to a buffer.
pub struct EncodingWriter {
    buf: Vec<u8>,
    required_alignment: u64,
}

impl View for EncodingWriter {
    type V = Seq<u8>;

    closed spec fn view(&self) -> Seq<u8> {
        self.buf@
    }
}

impl EncodingWriter {
    /// The largest alignment asked for so far, one if none was.
    pub closed spec fn alignment(&self) -> u64 {
        self.required_alignment
    }

    /// An empty writer.
    pub fn new() -> (w: EncodingWriter)
        ensures
            w@ == Seq::<u8>::empty(),
            w.alignment() == 1,
    {
        EncodingWriter { buf: Vec::new(), required_alignment: 1 }
    }

    /// An empty writer with room for `cap` bytes.
    pub fn with_capacity(cap: usize) -> (w: EncodingWriter)
        ensures
            w@ == Seq::<u8>::empty(),
            w.alignment() == 1,
    {
        EncodingWriter { buf: Vec::with_capacity(cap), required_alignment: 1 }
    }

    /// Append one byte.
    pub fn write_byte(&mut self, b: u8)
        ensures
            final(self)@ == old(self)@.push(b),
            final(self).alignment() == old(self).alignment(),
    {
        self.buf.push(b);
    }

    /// Append bytes.
    pub fn write_bytes(&mut self, data: &[u8])
        ensures
            final(self)@ == old(self)@ + data@,
            final(self).alignment() == old(self).alignment(),
    {
        self.buf.extend_from_slice(data);
        assert(self.buf@ =~= old(self).buf@ + data@);
    }

    /// Append an unsigned varint: seven bits per byte, low group first, high
    /// bit set on all but the last.
    pub fn write_varint(&mut self, value: u64)
        ensures
            final(self)@ == old(self)@ + wire::varint_bytes(value),
            final(self).alignment() == old(self).alignment(),
    {
        let mut value: u64 = value;
        let ghost whole = wire::varint_bytes(value);
        while value >= 128
            invariant
                old(self)@ + whole == self@ + wire::varint_bytes(value),
                self.alignment() == old(self).alignment(),
            decreases value,
        {
            let byte: u8 = (128 + value % 128) as u8;
            proof {
                assert(self@ + wire::varint_bytes(value) =~= self@.push(byte) + wire::varint_bytes(value / 128));
            }
            self.buf.push(byte);
            value = value / 128;
        }
        self.buf.push(value as u8);
        assert(self@ =~= old(self)@ + whole);
    }

    /// Append a signed varint in zigzag code.
    pub fn write_signed_varint(&mut self, value: i64)
        ensures
            final(self)@ == old(self)@ + wire::varint_bytes(wire::zigzag(value)),
            final(self).alignment() == old(self).alignment(),
    {
        let encoded: u64 = if value >= 0 {
            (value as u64) * 2
        } else {
            ((-(value + 1)) as u64) * 2 + 1
        };
        self.write_varint(encoded);
    }

    /// Append the `n` low bytes of `value`, least significant first.
    fn write_le(&mut self, value: u64, n: usize)
        requires
            n <= 8,
        ensures
            final(self)@ == old(self)@ + wire::le_bytes(value as int, n as nat),
            final(self).alignment() == old(self).alignment(),
    {
        let mut v: u64 = value;
        let mut i: usize = 0;
        while i < n
            invariant
                i <= n,
                old(self)@ + wire::le_bytes(value as int, n as nat) == self@ + wire::le_bytes(
                    v as int,
                    (n - i) as nat,
                ),
                self.alignment() == old(self).alignment(),
            decreases n - i,
        {
            let byte: u8 = (v % 256) as u8;
            proof {
                assert(self@ + wire::le_bytes(v as int, (n - i) as nat) =~= self@.push(byte) + wire::le_bytes(
                    v as int / 256,
                    (n - i - 1) as nat,
                ));
            }
            self.buf.push(byte);
            v = v / 256;
            i = i + 1;
        }
        assert(self@ + wire::le_bytes(v as int, 0) =~= self@);
    }

    /// Append one byte.
    pub fn write_le_u8(&mut self, value: u8)
        ensures
            final(self)@ == old(self)@.push(value),
            final(self).alignment() == old(self).alignment(),
    {
        self.buf.push(value);
    }

    /// Append a little-endian 16-bit value.
    pub fn write_le_u16(&mut self, value: u16)
        ensures
            final(self)@ == old(self)@ + wire::le_bytes(value as int, 2),
            final(self).alignment() == old(self).alignment(),
    {
        self.write_le(value as u64, 2);
    }

    /// Append a little-endian 32-bit value.
    pub fn write_le_u32(&mut self, value: u32)
        ensures
            final(self)@ == old(self)@ + wire::le_bytes(value as int, 4),
            final(self).alignment() == old(self).alignment(),
    {
        self.write_le(value as u64, 4);
    }

    /// Append a little-endian 64-bit value.
    pub fn write_le_u64(&mut self, value: u64)
        ensures
            final(self)@ == old(self)@ + wire::le_bytes(value as int, 8),
            final(self).alignment() == old(self).alignment(),
    {
        self.write_le(value, 8);
    }

    /// Append a little-endian signed 32-bit value in two's complement.
    pub fn write_le_i32(&mut self, value: i32)
        ensures
            final(self)@ == old(self)@ + wire::le_bytes(wire::i32_pattern(value), 4),
            final(self).alignment() == old(self).alignment(),
    {
        let pattern: u64 = if value < 0 {
            (value as i64 + 0x1_0000_0000) as u64
        } else {
            value as u64
        };
        self.write_le(pattern, 4);
    }

    /// Append a little-endian signed 64-bit value in two's complement.
    pub fn write_le_i64(&mut self, value: i64)
        ensures
            final(self)@ == old(self)@ + wire::le_bytes(wire::i64_pattern(value), 8),
            final(self).alignment() == old(self).alignment(),
    {
        let pattern: u64 = if value < 0 {
            (value as i128 + 0x1_0000_0000_0000_0000) as u64
        } else {
            value as u64
        };
        self.write_le(pattern, 8);
    }

    /// Append the number of values as a varint, then the values as
    /// little-endian 64-bit integers.
    pub fn write_le_var_size_i64(&mut self, values: &[i64])
        ensures
            final(self)@ == old(self)@ + wire::i64_array_bytes(values@),
            final(self).alignment() == old(self).alignment(),
    {
        self.write_varint(values.len() as u64);
        let ghost start = self@;
        let mut i: usize = 0;
        while i < values.len()
            invariant
                i <= values.len(),
                self@ == start + wire::i64s_bytes(values@.take(i as int)),
                self.alignment() == old(self).alignment(),
            decreases values.len() - i,
        {
            let ghost before = self@;
            self.write_le_i64(values[i]);
            i = i + 1;
            proof {
                let t = values@.take(i as int);
                assert(t.drop_last() =~= values@.take(i - 1));
                assert(self@ =~= start + wire::i64s_bytes(t));
            }
        }
        assert(values@.take(i as int) =~= values@);
        assert(self@ =~= old(self)@ + wire::i64_array_bytes(values@));
    }

    /// Append the number of values as a varint, then the values as
    /// little-endian 32-bit integers.
    pub fn write_le_var_size_i32(&mut self, values: &[i32])
        ensures
            final(self)@ == old(self)@ + wire::i32_array_bytes(values@),
            final(self).alignment() == old(self).alignment(),
    {
        self.write_varint(values.len() as u64);
        let ghost start = self@;
        let mut i: usize = 0;
        while i < values.len()
            invariant
                i <= values.len(),
                self@ == start + wire::i32s_bytes(values@.take(i as int)),
                self.alignment() == old(self).alignment(),
            decreases values.len() - i,
        {
            self.write_le_i32(values[i]);
            i = i + 1;
            proof {
                let t = values@.take(i as int);
                assert(t.drop_last() =~= values@.take(i - 1));
                assert(self@ =~= start + wire::i32s_bytes(t));
            }
        }
        assert(values@.take(i as int) =~= values@);
        assert(self@ =~= old(self)@ + wire::i32_array_bytes(values@));
    }

    /// Pad with the alignment marker up to a multiple of `alignment`, and
    /// remember the largest alignment asked for.
    pub fn align_to(&mut self, alignment: u64)
        ensures
            final(self)@ == old(self)@ + wire::padding_bytes(
                wire::padding_len(old(self)@.len() as int, alignment as int),
            ),
            final(self).alignment() == if alignment > old(self).alignment() && alignment >= 2 {
                alignment
            } else {
                old(self).alignment()
            },
    {
        if alignment < 2 {
            assert(wire::padding_bytes(0) =~= Seq::<u8>::empty());
            assert(self@ =~= old(self)@ + wire::padding_bytes(0));
            return;
        }
        let pos: u64 = self.buf.len() as u64;
        let padding: u64 = (alignment - (pos % alignment)) % alignment;
        let mut i: u64 = 0;
        while i < padding
            invariant
                i <= padding,
                self@ == old(self)@ + wire::padding_bytes(i as int),
                self.alignment() == old(self).alignment(),
            decreases padding - i,
        {
            self.buf.push(ALIGNMENT_BYTE);
            i = i + 1;
            assert(self@ =~= old(self)@ + wire::padding_bytes(i as int));
        }
        if alignment > self.required_alignment {
            self.required_alignment = alignment;
        }
    }

    /// The number of bytes written.
    pub fn tell(&self) -> (n: usize)
        ensures
            n == self@.len(),
    {
        self.buf.len()
    }

    /// The largest alignment asked for so far.
    pub fn required_alignment(&self) -> (a: u64)
        ensures
            a == self.alignment(),
    {
        self.required_alignment
    }

    /// The bytes written, by value.
    pub fn into_bytes(self) -> (v: Vec<u8>)
        ensures
            v@ == self@,
    {
        self.buf
    }

    /// The bytes written.
    pub fn as_bytes(&self) -> (v: &[u8])
        ensures
            v@ == self@,
    {
        self.buf.as_slice()
    }

    /// The buffer itself, for patching what was written before.
    pub fn buf_mut(&mut self) -> (buf: &mut Vec<u8>)
        ensures
            buf@ == old(self)@,
            final(self)@ == final(buf)@,
            final(self).alignment() == old(self).alignment(),
    {
        &mut self.buf
    }
}

impl Default for EncodingWriter {
    fn default() -> (w: EncodingWriter)
        ensures
            w@ == Seq::<u8>::empty(),
            w.alignment() == 1,
    {
        EncodingWriter::new()
    }
}

/// `s` with `patch` written over it from position `offset` on.
pub open spec fn patched(s: Seq<u8>, offset: int, patch: Seq<u8>) -> Seq<u8> {
    s.take(offset) + patch + s.skip(offset + patch.len())
}

/// Overwrite the `n` bytes at `offset` with the low bytes of `value`.
fn patch_le(buf: &mut Vec<u8>, offset: usize, value: u64, n: usize)
    requires
        n <= 8,
        offset + n <= old(buf).len(),
    ensures
        final(buf)@ == patched(old(buf)@, offset as int, wire::le_bytes(value as int, n as nat)),
{
    let mut v: u64 = value;
    let mut i: usize = 0;
    let ghost whole = wire::le_bytes(value as int, n as nat);
    let ghost mut done = Seq::<u8>::empty();
    proof {
        wire::lemma_le_bytes_len(value as int, n as nat);
        assert(done + wire::le_bytes(v as int, n as nat) =~= whole);
        assert(buf@ =~= old(buf)@.take(offset as int) + done + old(buf)@.skip(offset as int));
    }
    while i < n
        invariant
            i <= n,
            offset + n <= old(buf).len(),
            done.len() == i,
            done + wire::le_bytes(v as int, (n - i) as nat) == whole,
            buf@ == old(buf)@.take(offset as int) + done + old(buf)@.skip(offset + i),
        decreases n - i,
    {
        let byte: u8 = (v % 256) as u8;
        proof {
            assert(done + wire::le_bytes(v as int, (n - i) as nat) =~= done.push(byte) + wire::le_bytes(
                v as int / 256,
                (n - i - 1) as nat,
            ));
        }
        buf.set(offset + i, byte);
        proof {
            assert(buf@ =~= old(buf)@.take(offset as int) + done.push(byte) + old(buf)@.skip(
                offset + i + 1,
            ));
            done = done.push(byte);
        }
        v = v / 256;
        i = i + 1;
    }
    assert(done =~= whole);
}

/// Overwrite the four bytes at `offset` with `value`, little-endian.
pub fn patch_u32(buf: &mut Vec<u8>, offset: usize, value: u32)
    requires
        offset + 4 <= old(buf).len(),
    ensures
        final(buf)@ == patched(old(buf)@, offset as int, wire::le_bytes(value as int, 4)),
{
    patch_le(buf, offset, value as u64, 4);
}

/// Overwrite the eight bytes at `offset` with `value`, little-endian.
pub fn patch_u64(buf: &mut Vec<u8>, offset: usize, value: u64)
    requires
        offset + 8 <= old(buf).len(),
    ensures
        final(buf)@ == patched(old(buf)@, offset as int, wire::le_bytes(value as int, 8)),
{
    patch_le(buf, offset, value, 8);
}

/// Byte-level decoder over a slice.
pub struct EncodingReader<'a> {
    data: &'a [u8],
    pos: usize,
}

/// A read from `before` to `after` that, by the format, gives `spec`: the
/// value and the position behind it, or an error.
pub open spec fn reads<T>(
    res: Result<T, ReadError>,
    before: EncodingReader,
    after: EncodingReader,
    spec: Result<(T, int), ReadError>,
) -> bool {
    &&& after.wf()
    &&& after.bytes() == before.bytes()
    &&& after.at() >= before.at()
    &&& match spec {
        Ok((v, q)) => res == Ok::<T, ReadError>(v) && after.at() == q,
        Err(e) => res == Err::<T, ReadError>(e),
    }
}

/// Like [`reads`], for a value that is known by its view.
pub open spec fn reads_view<T: View>(
    res: Result<T, ReadError>,
    before: EncodingReader,
    after: EncodingReader,
    spec: Result<(T::V, int), ReadError>,
) -> bool {
    &&& after.wf()
    &&& after.bytes() == before.bytes()
    &&& after.at() >= before.at()
    &&& match spec {
        Ok((v, q)) => res is Ok && res->Ok_0@ == v && after.at() == q,
        Err(e) => res == Err::<T, ReadError>(e),
    }
}

impl<'a> EncodingReader<'a> {
    /// The data being read.
    pub closed spec fn bytes(&self) -> Seq<u8> {
        self.data@
    }

    /// The position of the next byte.
    pub closed spec fn at(&self) -> int {
        self.pos as int
    }

    /// The position is inside the data or at its end.
    pub open spec fn wf(&self) -> bool {
        0 <= self.at() <= self.bytes().len()
    }

    /// A reader at the start of `data`.
    pub fn new(data: &'a [u8]) -> (r: EncodingReader<'a>)
        ensures
            r.wf(),
            r.bytes() == data@,
            r.at() == 0,
    {
        EncodingReader { data, pos: 0 }
    }

    /// The number of bytes left.
    pub fn remaining(&self) -> (n: usize)
        requires
            self.wf(),
        ensures
            n == self.bytes().len() - self.at(),
    {
        self.data.len() - self.pos
    }

    /// The position of the next byte.
    pub fn pos(&self) -> (p: usize)
        ensures
            p == self.at(),
    {
        self.pos
    }

    /// The number of bytes of the data.
    pub fn len(&self) -> (n: usize)
        ensures
            n == self.bytes().len(),
    {
        self.data.len()
    }

    /// Read one byte.
    pub fn read_byte(&mut self) -> (res: Result<u8, ReadError>)
        requires
            old(self).wf(),
        ensures
            res is Err ==> final(self).at() == old(self).at(),
            reads(res, *old(self), *final(self), wire::byte_at(old(self).bytes(), old(self).at())),
    {
        if self.pos >= self.data.len() {
            return Err(ReadError::UnexpectedEnd);
        }
        let b: u8 = self.data[self.pos];
        self.pos = self.pos + 1;
        Ok(b)
    }

    /// Read `n` bytes without copying them.
    pub fn read_bytes(&mut self, n: usize) -> (res: Result<&'a [u8], ReadError>)
        requires
            old(self).wf(),
        ensures
            final(self).wf(),
            final(self).bytes() == old(self).bytes(),
            final(self).at() >= old(self).at(),
            match wire::bytes_at(old(self).bytes(), old(self).at(), n as int) {
                Ok((s, q)) => res is Ok && res->Ok_0@ == s && final(self).at() == q,
                Err(e) => res == Err::<&'a [u8], ReadError>(e) && final(self).at() == old(self).at(),
            },
    {
        if n > self.data.len() - self.pos {
            return Err(ReadError::UnexpectedEnd);
        }
        let slice = vstd::slice::slice_subrange(self.data, self.pos, self.pos + n);
        self.pos = self.pos + n;
        Ok(slice)
    }

    /// Read an unsigned varint.
    pub fn read_varint(&mut self) -> (res: Result<u64, ReadError>)
        requires
            old(self).wf(),
        ensures
            res is Ok ==> final(self).at() > old(self).at(),
            res matches Err(e) ==> final(self).at() == (if e == ReadError::VarintOverflow {
                old(self).at() + 10
            } else {
                old(self).bytes().len() as int
            }),
            reads(res, *old(self), *final(self), wire::varint_at(old(self).bytes(), old(self).at())),
    {
        let ghost d = self.bytes();
        let ghost p = self.at();
        let mut result: u64 = 0;
        let mut scale: u64 = 1;
        let mut k: u32 = 0;
        proof {
            wire::lemma_varint_groups_bounds(d, p, 0);
            wire::lemma_pow128_values();
        }
        loop
            invariant
                self.wf(),
                self.bytes() == d,
                self.at() == p + k,
                d == old(self).bytes(),
                p == old(self).at(),
                k <= 9,
                scale == wire::pow128(k as int),
                result < scale,
                match wire::varint_groups(d, self.at(), k as int) {
                    Ok((v, q)) => wire::varint_at(d, p) == Ok::<(u64, int), ReadError>(
                        ((result + scale * v) as u64, q),
                    ) && result + scale * v <= u64::MAX,
                    Err(e) => wire::varint_at(d, p) == Err::<(u64, int), ReadError>(e),
                },
            decreases 10 - k,
        {
            let ghost here = self.at();
            let b: u8 = self.read_byte()?;
            proof {
                wire::lemma_pow128_values();
                wire::lemma_varint_groups_bounds(d, here, k as int);
            }
            if b < 128 {
                let low: u64 = if k >= 9 {
                    (b % 2) as u64
                } else {
                    b as u64
                };
                assert(scale * low == low * scale) by (nonlinear_arith);
                return Ok(result + low * scale);
            }
            if k >= 9 {
                return Err(ReadError::VarintOverflow);
            }
            let low: u64 = (b % 128) as u64;
            proof {
                assert(wire::pow128(k + 1) == 128 * wire::pow128(k as int));
                assert(low * scale + result < 128 * scale) by (nonlinear_arith)
                    requires
                        low < 128,
                        result < scale,
                ;
                if let Ok((v, q)) = wire::varint_groups(d, here + 1, k + 1) {
                    assert(scale * (low + 128 * v) == low * scale + (scale * 128) * v)
                        by (nonlinear_arith);
                }
            }
            result = result + low * scale;
            scale = scale * 128;
            k = k + 1;
        }
    }

    /// Read a signed varint in zigzag code.
    pub fn read_signed_varint(&mut self) -> (res: Result<i64, ReadError>)
        requires
            old(self).wf(),
        ensures
            res matches Err(e) ==> final(self).at() == (if e == ReadError::VarintOverflow {
                old(self).at() + 10
            } else {
                old(self).bytes().len() as int
            }),
            reads(
                res,
                *old(self),
                *final(self),
                wire::signed_varint_at(old(self).bytes(), old(self).at()),
            ),
    {
        let v: u64 = self.read_varint()?;
        if v % 2 == 0 {
            Ok((v / 2) as i64)
        } else {
            Ok(-((v / 2) as i64) - 1)
        }
    }

    /// Read `n` bytes as a little-endian unsigned integer.
    fn read_le(&mut self, n: usize) -> (res: Result<u64, ReadError>)
        requires
            old(self).wf(),
            n <= 8,
        ensures
            final(self).wf(),
            final(self).bytes() == old(self).bytes(),
            final(self).at() >= old(self).at(),
            match wire::le_at(old(self).bytes(), old(self).at(), n as nat) {
                Ok((v, q)) => res is Ok && res->Ok_0 == v && final(self).at() == q,
                Err(e) => res == Err::<u64, ReadError>(e) && final(self).at() == old(self).at(),
            },
    {
        let b: &[u8] = self.read_bytes(n)?;
        let mut v: u64 = 0;
        let mut i: usize = n;
        proof {
            assert(b@.skip(n as int) =~= Seq::<u8>::empty());
        }
        while i > 0
            invariant
                i <= n <= 8,
                b@.len() == n,
                v == wire::le_value(b@.skip(i as int)),
            decreases i,
        {
            i = i - 1;
            proof {
                let s = b@.skip(i as int);
                assert(s.drop_first() =~= b@.skip(i + 1));
                wire::lemma_le_value_bound(s);
                wire::lemma_pow256_values();
                reveal_with_fuel(wire::pow256, 9);
            }
            v = v * 256 + b[i] as u64;
        }
        proof {
            assert(b@.skip(0) =~= b@);
        }
        Ok(v)
    }

    /// Read a little-endian 16-bit value.
    pub fn read_le_u16(&mut self) -> (res: Result<u16, ReadError>)
        requires
            old(self).wf(),
        ensures
            final(self).wf(),
            final(self).bytes() == old(self).bytes(),
            final(self).at() >= old(self).at(),
            match wire::le_at(old(self).bytes(), old(self).at(), 2) {
                Ok((v, q)) => res is Ok && res->Ok_0 == v && final(self).at() == q,
                Err(e) => res == Err::<u16, ReadError>(e) && final(self).at() == old(self).at(),
            },
    {
        let v: u64 = self.read_le(2)?;
        proof {
            self.lemma_last_bytes_bound(old(self), 2);
        }
        Ok(v as u16)
    }

    /// The bytes read as an integer bound its value.
    proof fn lemma_last_bytes_bound(&self, before: &Self, n: nat)
        requires
            before.wf(),
        ensures
            wire::le_at(before.bytes(), before.at(), n) matches Ok((v, q)) ==> 0 <= v
                < wire::pow256(n),
            wire::pow256(2) == 0x1_0000,
            wire::pow256(4) == 0x1_0000_0000,
            wire::pow256(8) == 0x1_0000_0000_0000_0000,
    {
        wire::lemma_pow256_values();
        if let Ok((s, q)) = wire::bytes_at(before.bytes(), before.at(), n as int) {
            wire::lemma_le_value_bound(s);
        }
    }

    /// Read a little-endian 32-bit value.
    pub fn read_le_u32(&mut self) -> (res: Result<u32, ReadError>)
        requires
            old(self).wf(),
        ensures
            final(self).wf(),
            final(self).bytes() == old(self).bytes(),
            final(self).at() >= old(self).at(),
            match wire::le_at(old(self).bytes(), old(self).at(), 4) {
                Ok((v, q)) => res is Ok && res->Ok_0 == v && final(self).at() == q,
                Err(e) => res == Err::<u32, ReadError>(e) && final(self).at() == old(self).at(),
            },
    {
        let v: u64 = self.read_le(4)?;
        proof {
            self.lemma_last_bytes_bound(old(self), 4);
        }
        Ok(v as u32)
    }

    /// Read a little-endian 64-bit value.
    pub fn read_le_u64(&mut self) -> (res: Result<u64, ReadError>)
        requires
            old(self).wf(),
        ensures
            final(self).wf(),
            final(self).bytes() == old(self).bytes(),
            final(self).at() >= old(self).at(),
            match wire::le_at(old(self).bytes(), old(self).at(), 8) {
                Ok((v, q)) => res is Ok && res->Ok_0 == v && final(self).at() == q,
                Err(e) => res == Err::<u64, ReadError>(e) && final(self).at() == old(self).at(),
            },
    {
        self.read_le(8)
    }

    /// Read a little-endian signed 32-bit value in two's complement.
    pub fn read_le_i32(&mut self) -> (res: Result<i32, ReadError>)
        requires
            old(self).wf(),
        ensures
            res is Err ==> final(self).at() == old(self).at(),
            reads(res, *old(self), *final(self), wire::i32_at(old(self).bytes(), old(self).at())),
    {
        let v: u64 = self.read_le(4)?;
        proof {
            self.lemma_last_bytes_bound(old(self), 4);
        }
        if v >= 0x8000_0000 {
            Ok((v as i64 - 0x1_0000_0000) as i32)
        } else {
            Ok(v as i32)
        }
    }

    /// Read a little-endian signed 64-bit value in two's complement.
    pub fn read_le_i64(&mut self) -> (res: Result<i64, ReadError>)
        requires
            old(self).wf(),
        ensures
            res is Err ==> final(self).at() == old(self).at(),
            reads(res, *old(self), *final(self), wire::i64_at(old(self).bytes(), old(self).at())),
    {
        let v: u64 = self.read_le(8)?;
        if v >= 0x8000_0000_0000_0000 {
            Ok((v as i128 - 0x1_0000_0000_0000_0000) as i64)
        } else {
            Ok(v as i64)
        }
    }

    /// Read a count or index, which must fit in 32 bits.
    pub fn read_count(&mut self, what: Subject) -> (res: Result<usize, ReadError>)
        requires
            old(self).wf(),
        ensures
            final(self).wf(),
            final(self).bytes() == old(self).bytes(),
            final(self).at() >= old(self).at(),
            match wire::count_at(old(self).bytes(), old(self).at(), what) {
                Ok((v, q)) => res is Ok && res->Ok_0 == v && final(self).at() == q && v <= u32::MAX,
                Err(e) => res == Err::<usize, ReadError>(e),
            },
    {
        let count: u64 = self.read_varint()?;
        cap_count(count, what)
    }

    /// Read a counted array of little-endian 32-bit values.
    pub fn read_le_var_size_i32(&mut self) -> (res: Result<Vec<i32>, ReadError>)
        requires
            old(self).wf(),
        ensures
            final(self).wf(),
            final(self).bytes() == old(self).bytes(),
            final(self).at() >= old(self).at(),
            match wire::i32_array_at(old(self).bytes(), old(self).at()) {
                Ok((s, q)) => res is Ok && res->Ok_0@ == s && final(self).at() == q,
                Err(e) => res == Err::<Vec<i32>, ReadError>(e),
            },
    {
        let count: usize = self.read_count(Subject::I32Array)?;
        let ghost d = self.bytes();
        let ghost q0 = self.at();
        let mut out: Vec<i32> = Vec::new();
        let mut i: usize = 0;
        while i < count
            invariant
                i <= count,
                self.wf(),
                self.bytes() == d,
                self.at() >= old(self).at(),
                d == old(self).bytes(),
                wire::i32_array_at(old(self).bytes(), old(self).at()) == wire::i32s_at(d, q0, count as int),
                wire::i32s_at(d, q0, i as int) == Ok::<(Seq<i32>, int), ReadError>((out@, self.at())),
            decreases count - i,
        {
            let ghost here = self.at();
            match self.read_le_i32() {
                Ok(v) => {
                    out.push(v);
                },
                Err(e) => {
                    proof {
                        wire::lemma_i32s_at_error(d, q0, i + 1, count as int);
                    }
                    return Err(e);
                },
            }
            i = i + 1;
        }
        Ok(out)
    }

    /// Read a counted array of little-endian 64-bit values.
    pub fn read_le_var_size_i64(&mut self) -> (res: Result<Vec<i64>, ReadError>)
        requires
            old(self).wf(),
        ensures
            final(self).wf(),
            final(self).bytes() == old(self).bytes(),
            final(self).at() >= old(self).at(),
            match wire::i64_array_at(old(self).bytes(), old(self).at()) {
                Ok((s, q)) => res is Ok && res->Ok_0@ == s && final(self).at() == q,
                Err(e) => res == Err::<Vec<i64>, ReadError>(e),
            },
    {
        let count: usize = self.read_count(Subject::I64Array)?;
        let ghost d = self.bytes();
        let ghost q0 = self.at();
        let mut out: Vec<i64> = Vec::new();
        let mut i: usize = 0;
        while i < count
            invariant
                i <= count,
                self.wf(),
                self.bytes() == d,
                self.at() >= old(self).at(),
                d == old(self).bytes(),
                wire::i64_array_at(old(self).bytes(), old(self).at()) == wire::i64s_at(d, q0, count as int),
                wire::i64s_at(d, q0, i as int) == Ok::<(Seq<i64>, int), ReadError>((out@, self.at())),
            decreases count - i,
        {
            match self.read_le_i64() {
                Ok(v) => {
                    out.push(v);
                },
                Err(e) => {
                    proof {
                        wire::lemma_i64s_at_error(d, q0, i + 1, count as int);
                    }
                    return Err(e);
                },
            }
            i = i + 1;
        }
        Ok(out)
    }

    /// Skip the padding up to a multiple of `alignment`, every byte of which
    /// must be the alignment marker.
    pub fn skip_padding(&mut self, alignment: u64) -> (res: Result<(), ReadError>)
        requires
            old(self).wf(),
        ensures
            final(self).wf(),
            final(self).bytes() == old(self).bytes(),
            final(self).at() >= old(self).at(),
            match wire::skip_padding_at(old(self).bytes(), old(self).at(), alignment as int) {
                Ok(q) => res is Ok && final(self).at() == q,
                Err(e) => res == Err::<(), ReadError>(e),
            },
    {
        if alignment < 2 {
            return Ok(());
        }
        let padding: u64 = (alignment - (self.pos as u64 % alignment)) % alignment;
        let ghost d = self.bytes();
        let mut i: u64 = 0;
        while i < padding
            invariant
                i <= padding,
                self.wf(),
                self.bytes() == d,
                self.at() >= old(self).at(),
                d == old(self).bytes(),
                wire::skip_padding_at(d, old(self).at(), alignment as int) == wire::skip_pad_bytes(
                    d,
                    self.at(),
                    padding - i,
                ),
            decreases padding - i,
        {
            let b: u8 = self.read_byte()?;
            if b != ALIGNMENT_BYTE {
                return Err(ReadError::BadPadding(b));
            }
            i = i + 1;
        }
        Ok(())
    }
}

/// A count or index must fit in 32 bits, so that a large one fails before
/// anything is allocated for it.
pub fn cap_count(count: u64, what: Subject) -> (res: Result<usize, ReadError>)
    ensures
        match wire::capped(count, what) {
            Ok(n) => res is Ok && res->Ok_0 == n && n <= u32::MAX,
            Err(e) => res == Err::<usize, ReadError>(e),
        },
{
    if count > 0xFFFF_FFFF {
        return Err(ReadError::CountOutOfRange(what, count));
    }
    Ok(count as usize)
}

} // verus!
