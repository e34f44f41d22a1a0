//! What the wire primitives mean: varints, zigzag, little-endian integers and
//! alignment padding, as functions on byte sequences.
use vstd::prelude::*;
use crate::bytecode::enums::ALIGNMENT_BYTE;
use crate::error::{ReadError, Subject};

verus! {

// ---------------------------------------------------------------------------
// Unsigned varints: seven bits per byte, low group first, high bit = more.
// ---------------------------------------------------------------------------

/// The varint encoding of `v`.
pub open spec fn varint_bytes(v: u64) -> Seq<u8>
    decreases v,
{
    if v < 128 {
        seq![v as u8]
    } else {
        seq![(128 + v % 128) as u8] + varint_bytes(v / 128)
    }
}

/// The varint at position `p` of `d`, of which `k` groups were read before:
/// the value of the remaining groups and the position behind them. The tenth
/// group keeps one bit.
pub open spec fn varint_groups(d: Seq<u8>, p: int, k: int) -> Result<(int, int), ReadError>
    decreases 10 - k,
{
    if p < 0 || p >= d.len() {
        Err(ReadError::UnexpectedEnd)
    } else if d[p] < 128 {
        Ok((if k >= 9 { d[p] as int % 2 } else { d[p] as int }, p + 1))
    } else if k >= 9 {
        Err(ReadError::VarintOverflow)
    } else {
        match varint_groups(d, p + 1, k + 1) {
            Ok((v, q)) => Ok((d[p] as int % 128 + 128 * v, q)),
            Err(e) => Err(e),
        }
    }
}

/// The varint at position `p` of `d` and the position behind it.
pub open spec fn varint_at(d: Seq<u8>, p: int) -> Result<(u64, int), ReadError> {
    match varint_groups(d, p, 0) {
        Ok((v, q)) => Ok((v as u64, q)),
        Err(e) => Err(e),
    }
}

/// 128 to the power `k`.
pub open spec fn pow128(k: int) -> int
    decreases k,
{
    if k <= 0 {
        1
    } else {
        128 * pow128(k - 1)
    }
}

pub proof fn lemma_pow128_values()
    ensures
        pow128(0) == 1,
        pow128(1) == 0x80,
        pow128(2) == 0x4000,
        pow128(3) == 0x20_0000,
        pow128(4) == 0x1000_0000,
        pow128(5) == 0x8_0000_0000,
        pow128(6) == 0x400_0000_0000,
        pow128(7) == 0x2_0000_0000_0000,
        pow128(8) == 0x100_0000_0000_0000,
        pow128(9) == 0x8000_0000_0000_0000,
{
    reveal_with_fuel(pow128, 11);
}

/// A varint read advances, stays inside the data, and its value fits 64 bits.
pub proof fn lemma_varint_groups_bounds(d: Seq<u8>, p: int, k: int)
    requires
        0 <= k <= 9,
    ensures
        varint_groups(d, p, k) matches Ok((v, q)) ==> p < q <= d.len() && q <= p + 10 - k && 0 <= v
            && v < 2 * pow128(9 - k),
    decreases 10 - k,
{
    lemma_pow128_values();
    if 0 <= p < d.len() && d[p] >= 128 && k < 9 {
        lemma_varint_groups_bounds(d, p + 1, k + 1);
        assert(pow128(9 - k) == 128 * pow128(9 - k - 1));
    } else {
        assert(1 <= pow128(9 - k)) by {
            lemma_pow128_positive(9 - k);
        }
        if k < 9 {
            assert(pow128(9 - k) == 128 * pow128(9 - k - 1));
            lemma_pow128_positive(9 - k - 1);
        }
    }
}

pub proof fn lemma_pow128_positive(k: int)
    ensures
        pow128(k) >= 1,
    decreases k,
{
    if k > 0 {
        lemma_pow128_positive(k - 1);
    }
}

/// A varint takes at least one byte.
pub proof fn lemma_varint_bytes_len(v: u64)
    ensures
        varint_bytes(v).len() >= 1,
    decreases v,
{
    if v >= 128 {
        lemma_varint_bytes_len(v / 128);
    }
}

/// Reading the groups of `v` after anything gives `v` back.
proof fn lemma_varint_groups_of_bytes(a: Seq<u8>, v: u64, z: Seq<u8>, k: int)
    requires
        0 <= k <= 9,
        v < 2 * pow128(9 - k),
    ensures
        varint_groups(a + varint_bytes(v) + z, a.len() as int, k) == Ok::<(int, int), ReadError>(
            (v as int, (a + varint_bytes(v)).len() as int),
        ),
    decreases v,
{
    lemma_pow128_values();
    let d = a + varint_bytes(v) + z;
    lemma_varint_bytes_len(v);
    if v < 128 {
        assert(d[a.len() as int] == v as u8);
    } else {
        assert(k < 9);
        let b = (128 + v % 128) as u8;
        let rest = varint_bytes(v / 128);
        assert(d[a.len() as int] == b);
        assert(d =~= a.push(b) + rest + z);
        assert(pow128(9 - k) == 128 * pow128(9 - (k + 1)));
        lemma_varint_groups_of_bytes(a.push(b), v / 128, z, k + 1);
        assert(b as int % 128 == v as int % 128);
        assert((a.push(b) + rest).len() == (a + varint_bytes(v)).len());
    }
}

/// Writing a value as a varint and reading it back gives the value and
/// consumes exactly what was written, whatever stands before and behind.
pub proof fn lemma_varint_round_trip(a: Seq<u8>, v: u64, z: Seq<u8>)
    ensures
        varint_at(a + varint_bytes(v) + z, a.len() as int) == Ok::<(u64, int), ReadError>(
            (v, (a + varint_bytes(v)).len() as int),
        ),
{
    lemma_pow128_values();
    lemma_varint_groups_of_bytes(a, v, z, 0);
}

// ---------------------------------------------------------------------------
// Zigzag
// ---------------------------------------------------------------------------

/// The zigzag code of a signed value: small magnitudes get small codes.
pub open spec fn zigzag(v: i64) -> u64 {
    if v >= 0 {
        (2 * v) as u64
    } else {
        (-2 * v - 1) as u64
    }
}

/// The signed value with zigzag code `e`.
pub open spec fn unzigzag(e: u64) -> i64 {
    if e % 2 == 0 {
        (e / 2) as i64
    } else {
        (-(e as int / 2) - 1) as i64
    }
}

/// Zigzag decoding undoes zigzag encoding.
pub proof fn lemma_zigzag_round_trip(v: i64)
    ensures
        unzigzag(zigzag(v)) == v,
{
}

/// Zigzag encoding undoes zigzag decoding.
pub proof fn lemma_unzigzag_round_trip(e: u64)
    ensures
        zigzag(unzigzag(e)) == e,
{
}

/// The signed varint at position `p` and the position behind it.
pub open spec fn signed_varint_at(d: Seq<u8>, p: int) -> Result<(i64, int), ReadError> {
    match varint_at(d, p) {
        Ok((e, q)) => Ok((unzigzag(e), q)),
        Err(e) => Err(e),
    }
}

/// Writing a signed varint and reading it back gives the value.
pub proof fn lemma_signed_varint_round_trip(a: Seq<u8>, v: i64, z: Seq<u8>)
    ensures
        signed_varint_at(a + varint_bytes(zigzag(v)) + z, a.len() as int) == Ok::<
            (i64, int),
            ReadError,
        >((v, (a + varint_bytes(zigzag(v))).len() as int)),
{
    lemma_varint_round_trip(a, zigzag(v), z);
}

// ---------------------------------------------------------------------------
// Raw bytes and little-endian integers
// ---------------------------------------------------------------------------

/// The byte at position `p` and the position behind it.
pub open spec fn byte_at(d: Seq<u8>, p: int) -> Result<(u8, int), ReadError> {
    if 0 <= p < d.len() {
        Ok((d[p], p + 1))
    } else {
        Err(ReadError::UnexpectedEnd)
    }
}

/// The `n` bytes at position `p` and the position behind them.
pub open spec fn bytes_at(d: Seq<u8>, p: int, n: int) -> Result<(Seq<u8>, int), ReadError> {
    if 0 <= p && 0 <= n && p + n <= d.len() {
        Ok((d.subrange(p, p + n), p + n))
    } else {
        Err(ReadError::UnexpectedEnd)
    }
}

/// The `n` low bytes of `v`, least significant first.
pub open spec fn le_bytes(v: int, n: nat) -> Seq<u8>
    decreases n,
{
    if n == 0 {
        seq![]
    } else {
        seq![(v % 256) as u8] + le_bytes(v / 256, (n - 1) as nat)
    }
}

/// The integer whose bytes, least significant first, are `s`.
pub open spec fn le_value(s: Seq<u8>) -> int
    decreases s.len(),
{
    if s.len() == 0 {
        0
    } else {
        s[0] as int + 256 * le_value(s.drop_first())
    }
}

/// 256 to the power `n`.
pub open spec fn pow256(n: nat) -> int
    decreases n,
{
    if n == 0 {
        1
    } else {
        256 * pow256((n - 1) as nat)
    }
}

pub proof fn lemma_pow256_values()
    ensures
        pow256(1) == 0x100,
        pow256(2) == 0x1_0000,
        pow256(4) == 0x1_0000_0000,
        pow256(8) == 0x1_0000_0000_0000_0000,
{
    reveal_with_fuel(pow256, 9);
}

pub proof fn lemma_le_bytes_len(v: int, n: nat)
    ensures
        le_bytes(v, n).len() == n,
    decreases n,
{
    if n > 0 {
        lemma_le_bytes_len(v / 256, (n - 1) as nat);
    }
}

/// `n` bytes hold a value below 256^n.
pub proof fn lemma_le_value_bound(s: Seq<u8>)
    ensures
        0 <= le_value(s) < pow256(s.len()),
    decreases s.len(),
{
    if s.len() > 0 {
        lemma_le_value_bound(s.drop_first());
        assert(pow256(s.len()) == 256 * pow256((s.len() - 1) as nat));
    }
}

/// The value of the little-endian bytes of `v` is `v`.
pub proof fn lemma_le_round_trip(v: int, n: nat)
    requires
        0 <= v < pow256(n),
    ensures
        le_value(le_bytes(v, n)) == v,
    decreases n,
{
    if n > 0 {
        lemma_le_bytes_len(v, n);
        assert(pow256(n) == 256 * pow256((n - 1) as nat));
        lemma_le_round_trip(v / 256, (n - 1) as nat);
        assert(le_bytes(v, n).drop_first() =~= le_bytes(v / 256, (n - 1) as nat));
    }
}

/// The two's complement bit pattern of a 32-bit value.
pub open spec fn i32_pattern(v: i32) -> int {
    if v < 0 {
        v + 0x1_0000_0000
    } else {
        v as int
    }
}

/// The 32-bit value with the given bit pattern.
pub open spec fn i32_of_pattern(x: int) -> i32 {
    if x >= 0x8000_0000 {
        (x - 0x1_0000_0000) as i32
    } else {
        x as i32
    }
}

/// The two's complement bit pattern of a 64-bit value.
pub open spec fn i64_pattern(v: i64) -> int {
    if v < 0 {
        v + 0x1_0000_0000_0000_0000
    } else {
        v as int
    }
}

/// The 64-bit value with the given bit pattern.
pub open spec fn i64_of_pattern(x: int) -> i64 {
    if x >= 0x8000_0000_0000_0000 {
        (x - 0x1_0000_0000_0000_0000) as i64
    } else {
        x as i64
    }
}

/// The little-endian unsigned integer of `n` bytes at position `p`.
pub open spec fn le_at(d: Seq<u8>, p: int, n: nat) -> Result<(int, int), ReadError> {
    match bytes_at(d, p, n as int) {
        Ok((s, q)) => Ok((le_value(s), q)),
        Err(e) => Err(e),
    }
}

/// Writing an integer little-endian and reading it back gives the integer.
pub proof fn lemma_le_at_round_trip(a: Seq<u8>, v: int, n: nat, z: Seq<u8>)
    requires
        0 <= v < pow256(n),
    ensures
        le_at(a + le_bytes(v, n) + z, a.len() as int, n) == Ok::<(int, int), ReadError>(
            (v, (a.len() + n) as int),
        ),
{
    lemma_le_bytes_len(v, n);
    lemma_le_round_trip(v, n);
    let d = a + le_bytes(v, n) + z;
    assert(d.subrange(a.len() as int, (a.len() + n) as int) =~= le_bytes(v, n));
}

// ---------------------------------------------------------------------------
// Counted arrays
// ---------------------------------------------------------------------------

/// A count or index read from the stream must fit in 32 bits.
pub open spec fn capped(count: u64, what: Subject) -> Result<int, ReadError> {
    if count > 0xFFFF_FFFF {
        Err(ReadError::CountOutOfRange(what, count))
    } else {
        Ok(count as int)
    }
}

/// A count at position `p` and the position behind it.
pub open spec fn count_at(d: Seq<u8>, p: int, what: Subject) -> Result<(int, int), ReadError> {
    match varint_at(d, p) {
        Ok((c, q)) => match capped(c, what) {
            Ok(n) => Ok((n, q)),
            Err(e) => Err(e),
        },
        Err(e) => Err(e),
    }
}

/// Little-endian bytes of every element of `s`.
pub open spec fn i32s_bytes(s: Seq<i32>) -> Seq<u8>
    decreases s.len(),
{
    if s.len() == 0 {
        seq![]
    } else {
        i32s_bytes(s.drop_last()) + le_bytes(i32_pattern(s.last()), 4)
    }
}

/// Little-endian bytes of every element of `s`.
pub open spec fn i64s_bytes(s: Seq<i64>) -> Seq<u8>
    decreases s.len(),
{
    if s.len() == 0 {
        seq![]
    } else {
        i64s_bytes(s.drop_last()) + le_bytes(i64_pattern(s.last()), 8)
    }
}

/// An array as its length followed by its elements.
pub open spec fn i32_array_bytes(s: Seq<i32>) -> Seq<u8> {
    varint_bytes(s.len() as u64) + i32s_bytes(s)
}

/// An array as its length followed by its elements.
pub open spec fn i64_array_bytes(s: Seq<i64>) -> Seq<u8> {
    varint_bytes(s.len() as u64) + i64s_bytes(s)
}

/// The 32-bit element at position `p`.
pub open spec fn i32_at(d: Seq<u8>, p: int) -> Result<(i32, int), ReadError> {
    match le_at(d, p, 4) {
        Ok((x, q)) => Ok((i32_of_pattern(x), q)),
        Err(e) => Err(e),
    }
}

/// The 64-bit element at position `p`.
pub open spec fn i64_at(d: Seq<u8>, p: int) -> Result<(i64, int), ReadError> {
    match le_at(d, p, 8) {
        Ok((x, q)) => Ok((i64_of_pattern(x), q)),
        Err(e) => Err(e),
    }
}

/// `n` consecutive 32-bit elements at position `p`.
pub open spec fn i32s_at(d: Seq<u8>, p: int, n: int) -> Result<(Seq<i32>, int), ReadError>
    decreases n,
{
    if n <= 0 {
        Ok((seq![], p))
    } else {
        match i32s_at(d, p, n - 1) {
            Ok((s, q)) => match i32_at(d, q) {
                Ok((v, q2)) => Ok((s.push(v), q2)),
                Err(e) => Err(e),
            },
            Err(e) => Err(e),
        }
    }
}

/// `n` consecutive 64-bit elements at position `p`.
pub open spec fn i64s_at(d: Seq<u8>, p: int, n: int) -> Result<(Seq<i64>, int), ReadError>
    decreases n,
{
    if n <= 0 {
        Ok((seq![], p))
    } else {
        match i64s_at(d, p, n - 1) {
            Ok((s, q)) => match i64_at(d, q) {
                Ok((v, q2)) => Ok((s.push(v), q2)),
                Err(e) => Err(e),
            },
            Err(e) => Err(e),
        }
    }
}

/// A counted 32-bit array at position `p`.
pub open spec fn i32_array_at(d: Seq<u8>, p: int) -> Result<(Seq<i32>, int), ReadError> {
    match count_at(d, p, Subject::I32Array) {
        Ok((n, q)) => i32s_at(d, q, n),
        Err(e) => Err(e),
    }
}

/// A counted 64-bit array at position `p`.
pub open spec fn i64_array_at(d: Seq<u8>, p: int) -> Result<(Seq<i64>, int), ReadError> {
    match count_at(d, p, Subject::I64Array) {
        Ok((n, q)) => i64s_at(d, q, n),
        Err(e) => Err(e),
    }
}

/// Reading stays inside the data and does not go back.
pub proof fn lemma_i32s_at_advances(d: Seq<u8>, p: int, n: int)
    requires
        0 <= p <= d.len(),
    ensures
        i32s_at(d, p, n) matches Ok((s, q)) ==> p <= q <= d.len(),
        i32s_at(d, p, n) matches Ok((s, q)) ==> s.len() == (if n > 0 { n } else { 0 }),
    decreases n,
{
    if n > 0 {
        lemma_i32s_at_advances(d, p, n - 1);
    }
}

/// Reading stays inside the data and does not go back.
pub proof fn lemma_i64s_at_advances(d: Seq<u8>, p: int, n: int)
    requires
        0 <= p <= d.len(),
    ensures
        i64s_at(d, p, n) matches Ok((s, q)) ==> p <= q <= d.len(),
        i64s_at(d, p, n) matches Ok((s, q)) ==> s.len() == (if n > 0 { n } else { 0 }),
    decreases n,
{
    if n > 0 {
        lemma_i64s_at_advances(d, p, n - 1);
    }
}

/// A failure at an element is the failure of the whole array.
pub proof fn lemma_i32s_at_error(d: Seq<u8>, p: int, k: int, n: int)
    requires
        0 <= k <= n,
        i32s_at(d, p, k) is Err,
    ensures
        i32s_at(d, p, n) == i32s_at(d, p, k),
    decreases n,
{
    if n > k {
        lemma_i32s_at_error(d, p, k, n - 1);
    }
}

/// A failure at an element is the failure of the whole array.
pub proof fn lemma_i64s_at_error(d: Seq<u8>, p: int, k: int, n: int)
    requires
        0 <= k <= n,
        i64s_at(d, p, k) is Err,
    ensures
        i64s_at(d, p, n) == i64s_at(d, p, k),
    decreases n,
{
    if n > k {
        lemma_i64s_at_error(d, p, k, n - 1);
    }
}

pub proof fn lemma_i32s_bytes_len(s: Seq<i32>)
    ensures
        i32s_bytes(s).len() == 4 * s.len(),
    decreases s.len(),
{
    if s.len() > 0 {
        lemma_i32s_bytes_len(s.drop_last());
        lemma_le_bytes_len(i32_pattern(s.last()), 4);
    }
}

pub proof fn lemma_i64s_bytes_len(s: Seq<i64>)
    ensures
        i64s_bytes(s).len() == 8 * s.len(),
    decreases s.len(),
{
    if s.len() > 0 {
        lemma_i64s_bytes_len(s.drop_last());
        lemma_le_bytes_len(i64_pattern(s.last()), 8);
    }
}

proof fn lemma_i32s_round_trip(a: Seq<u8>, s: Seq<i32>, z: Seq<u8>)
    ensures
        i32s_at(a + i32s_bytes(s) + z, a.len() as int, s.len() as int) == Ok::<
            (Seq<i32>, int),
            ReadError,
        >((s, (a + i32s_bytes(s)).len() as int)),
    decreases s.len(),
{
    if s.len() > 0 {
        let init = s.drop_last();
        let last = le_bytes(i32_pattern(s.last()), 4);
        lemma_pow256_values();
        lemma_le_bytes_len(i32_pattern(s.last()), 4);
        let d = a + i32s_bytes(s) + z;
        assert(d =~= a + i32s_bytes(init) + (last + z));
        lemma_i32s_round_trip(a, init, last + z);
        assert(d =~= (a + i32s_bytes(init)) + last + z);
        lemma_le_at_round_trip(a + i32s_bytes(init), i32_pattern(s.last()), 4, z);
        assert(init.push(s.last()) =~= s);
    } else {
        assert(a + i32s_bytes(s) =~= a);
        assert(s =~= seq![]);
    }
}

proof fn lemma_i64s_round_trip(a: Seq<u8>, s: Seq<i64>, z: Seq<u8>)
    ensures
        i64s_at(a + i64s_bytes(s) + z, a.len() as int, s.len() as int) == Ok::<
            (Seq<i64>, int),
            ReadError,
        >((s, (a + i64s_bytes(s)).len() as int)),
    decreases s.len(),
{
    if s.len() > 0 {
        let init = s.drop_last();
        let last = le_bytes(i64_pattern(s.last()), 8);
        lemma_pow256_values();
        lemma_le_bytes_len(i64_pattern(s.last()), 8);
        let d = a + i64s_bytes(s) + z;
        assert(d =~= a + i64s_bytes(init) + (last + z));
        lemma_i64s_round_trip(a, init, last + z);
        assert(d =~= (a + i64s_bytes(init)) + last + z);
        lemma_le_at_round_trip(a + i64s_bytes(init), i64_pattern(s.last()), 8, z);
        assert(init.push(s.last()) =~= s);
    } else {
        assert(a + i64s_bytes(s) =~= a);
        assert(s =~= seq![]);
    }
}

/// Writing a counted 32-bit array and reading it back gives the array.
pub proof fn lemma_i32_array_round_trip(a: Seq<u8>, s: Seq<i32>, z: Seq<u8>)
    requires
        s.len() <= 0xFFFF_FFFF,
    ensures
        i32_array_at(a + i32_array_bytes(s) + z, a.len() as int) == Ok::<
            (Seq<i32>, int),
            ReadError,
        >((s, (a + i32_array_bytes(s)).len() as int)),
{
    let n = varint_bytes(s.len() as u64);
    let d = a + i32_array_bytes(s) + z;
    assert(d =~= a + n + (i32s_bytes(s) + z));
    lemma_varint_round_trip(a, s.len() as u64, i32s_bytes(s) + z);
    assert(d =~= (a + n) + i32s_bytes(s) + z);
    lemma_i32s_round_trip(a + n, s, z);
    assert((a + n) + i32s_bytes(s) =~= a + i32_array_bytes(s));
}

/// Writing a counted 64-bit array and reading it back gives the array.
pub proof fn lemma_i64_array_round_trip(a: Seq<u8>, s: Seq<i64>, z: Seq<u8>)
    requires
        s.len() <= 0xFFFF_FFFF,
    ensures
        i64_array_at(a + i64_array_bytes(s) + z, a.len() as int) == Ok::<
            (Seq<i64>, int),
            ReadError,
        >((s, (a + i64_array_bytes(s)).len() as int)),
{
    let n = varint_bytes(s.len() as u64);
    let d = a + i64_array_bytes(s) + z;
    assert(d =~= a + n + (i64s_bytes(s) + z));
    lemma_varint_round_trip(a, s.len() as u64, i64s_bytes(s) + z);
    assert(d =~= (a + n) + i64s_bytes(s) + z);
    lemma_i64s_round_trip(a + n, s, z);
    assert((a + n) + i64s_bytes(s) =~= a + i64_array_bytes(s));
}

// ---------------------------------------------------------------------------
// Alignment padding
// ---------------------------------------------------------------------------

/// How many bytes bring position `p` to a multiple of `alignment`.
pub open spec fn padding_len(p: int, alignment: int) -> int {
    if alignment < 2 {
        0
    } else {
        (alignment - p % alignment) % alignment
    }
}

/// `n` padding bytes.
pub open spec fn padding_bytes(n: int) -> Seq<u8> {
    Seq::new(if n > 0 { n as nat } else { 0 }, |i: int| ALIGNMENT_BYTE)
}

/// Skipping `n` padding bytes at position `p`.
pub open spec fn skip_pad_bytes(d: Seq<u8>, p: int, n: int) -> Result<int, ReadError>
    decreases n,
{
    if n <= 0 {
        Ok(p)
    } else {
        match byte_at(d, p) {
            Ok((b, q)) => if b != ALIGNMENT_BYTE {
                Err(ReadError::BadPadding(b))
            } else {
                skip_pad_bytes(d, q, n - 1)
            },
            Err(e) => Err(e),
        }
    }
}

/// Skipping the padding that brings position `p` to a multiple of `alignment`.
pub open spec fn skip_padding_at(d: Seq<u8>, p: int, alignment: int) -> Result<int, ReadError> {
    skip_pad_bytes(d, p, padding_len(p, alignment))
}

pub proof fn lemma_skip_pad_advances(d: Seq<u8>, p: int, n: int)
    requires
        0 <= p <= d.len(),
    ensures
        skip_pad_bytes(d, p, n) matches Ok(q) ==> p <= q <= d.len(),
    decreases n,
{
    if n > 0 && p < d.len() && d[p] == ALIGNMENT_BYTE {
        lemma_skip_pad_advances(d, p + 1, n - 1);
    }
}

proof fn lemma_skip_pad_round_trip(a: Seq<u8>, n: int, z: Seq<u8>)
    requires
        n >= 0,
    ensures
        skip_pad_bytes(a + padding_bytes(n) + z, a.len() as int, n) == Ok::<int, ReadError>(
            a.len() + n,
        ),
    decreases n,
{
    let d = a + padding_bytes(n) + z;
    if n > 0 {
        assert(d[a.len() as int] == ALIGNMENT_BYTE);
        assert(d =~= a.push(ALIGNMENT_BYTE) + padding_bytes(n - 1) + z);
        lemma_skip_pad_round_trip(a.push(ALIGNMENT_BYTE), n - 1, z);
    }
}

/// Padding written to align a stream is skipped exactly by the reader.
pub proof fn lemma_padding_round_trip(a: Seq<u8>, alignment: int, z: Seq<u8>)
    ensures
        skip_padding_at(
            a + padding_bytes(padding_len(a.len() as int, alignment)) + z,
            a.len() as int,
            alignment,
        ) == Ok::<int, ReadError>(a.len() + padding_len(a.len() as int, alignment)),
{
    assert(padding_len(a.len() as int, alignment) >= 0) by (nonlinear_arith)
        requires
            alignment < 2 ==> padding_len(a.len() as int, alignment) == 0,
            alignment >= 2 ==> padding_len(a.len() as int, alignment) == (alignment - (
            a.len() as int) % alignment) % alignment,
    ;
    lemma_skip_pad_round_trip(a, padding_len(a.len() as int, alignment), z);
}

/// Padding brings a position to a multiple of the alignment.
pub proof fn lemma_padding_aligns(p: int, alignment: int)
    requires
        p >= 0,
        alignment >= 2,
    ensures
        (p + padding_len(p, alignment)) % alignment == 0,
        0 <= padding_len(p, alignment) < alignment,
{
    let r = p % alignment;
    vstd::arithmetic::div_mod::lemma_fundamental_div_mod(p, alignment);
    vstd::arithmetic::div_mod::lemma_mod_bound(p, alignment);
    if r == 0 {
        assert(padding_len(p, alignment) == 0) by {
            vstd::arithmetic::div_mod::lemma_mod_self_0(alignment);
        }
    } else {
        vstd::arithmetic::div_mod::lemma_small_mod((alignment - r) as nat, alignment as nat);
        let q = p / alignment;
        assert(p + (alignment - r) == (q + 1) * alignment) by (nonlinear_arith)
            requires
                p == alignment * q + r,
        ;
        vstd::arithmetic::div_mod::lemma_mod_multiples_basic(q + 1, alignment);
    }
}

// ---------------------------------------------------------------------------
// Bytes found inside a larger sequence
// ---------------------------------------------------------------------------

/// The bytes `b` stand at position `p` of `d`.
pub open spec fn holds_at(d: Seq<u8>, p: int, b: Seq<u8>) -> bool {
    0 <= p && p + b.len() <= d.len() && d.subrange(p, p + b.len()) == b
}

/// Two pieces stand behind each other exactly where their concatenation does.
pub proof fn lemma_holds_split(d: Seq<u8>, p: int, x: Seq<u8>, y: Seq<u8>)
    requires
        holds_at(d, p, x + y),
    ensures
        holds_at(d, p, x),
        holds_at(d, p + x.len(), y),
{
    let whole = d.subrange(p, p + (x + y).len());
    assert(d.subrange(p, p + x.len()) =~= whole.subrange(0, x.len() as int));
    assert(whole.subrange(0, x.len() as int) =~= x);
    assert(d.subrange(p + x.len(), p + x.len() + y.len()) =~= whole.skip(x.len() as int));
    assert(whole.skip(x.len() as int) =~= y);
}

/// A sequence stands at the start of itself.
pub proof fn lemma_holds_whole(d: Seq<u8>)
    ensures
        holds_at(d, 0, d),
{
    assert(d.subrange(0, d.len() as int) =~= d);
}

/// A single byte that stands at `p` is the byte there.
pub proof fn lemma_byte_holds(d: Seq<u8>, p: int, b: u8)
    requires
        holds_at(d, p, seq![b]),
    ensures
        byte_at(d, p) == Ok::<(u8, int), ReadError>((b, p + 1)),
{
    assert(d.subrange(p, p + 1)[0] == d[p]);
}

/// A varint that stands at `p` is read there.
pub proof fn lemma_varint_holds(d: Seq<u8>, p: int, v: u64)
    requires
        holds_at(d, p, varint_bytes(v)),
    ensures
        varint_at(d, p) == Ok::<(u64, int), ReadError>((v, p + varint_bytes(v).len())),
        varint_bytes(v).len() > 0,
{
    let b = varint_bytes(v);
    let a = d.take(p);
    let z = d.skip(p + b.len());
    assert(d =~= a + b + z);
    lemma_varint_round_trip(a, v, z);
    lemma_varint_bytes_len(v);
}

/// A signed varint that stands at `p` is read there.
pub proof fn lemma_signed_varint_holds(d: Seq<u8>, p: int, v: i64)
    requires
        holds_at(d, p, varint_bytes(zigzag(v))),
    ensures
        signed_varint_at(d, p) == Ok::<(i64, int), ReadError>(
            (v, p + varint_bytes(zigzag(v)).len()),
        ),
{
    lemma_varint_holds(d, p, zigzag(v));
}

/// A count that stands at `p` is read there.
pub proof fn lemma_count_holds(d: Seq<u8>, p: int, n: int, what: Subject)
    requires
        0 <= n <= u32::MAX,
        holds_at(d, p, varint_bytes(n as u64)),
    ensures
        count_at(d, p, what) == Ok::<(int, int), ReadError>((n, p + varint_bytes(n as u64).len())),
{
    lemma_varint_holds(d, p, n as u64);
}

/// A little-endian integer that stands at `p` is read there.
pub proof fn lemma_le_holds(d: Seq<u8>, p: int, v: int, n: nat)
    requires
        0 <= v < pow256(n),
        holds_at(d, p, le_bytes(v, n)),
    ensures
        le_at(d, p, n) == Ok::<(int, int), ReadError>((v, p + n)),
        le_bytes(v, n).len() == n,
{
    lemma_le_bytes_len(v, n);
    lemma_le_round_trip(v, n);
}

/// A counted 32-bit array that stands at `p` is read there.
pub proof fn lemma_i32_array_holds(d: Seq<u8>, p: int, s: Seq<i32>)
    requires
        s.len() <= u32::MAX,
        holds_at(d, p, i32_array_bytes(s)),
    ensures
        i32_array_at(d, p) == Ok::<(Seq<i32>, int), ReadError>((s, p + i32_array_bytes(s).len())),
{
    let b = i32_array_bytes(s);
    let a = d.take(p);
    let z = d.skip(p + b.len());
    assert(d =~= a + b + z);
    lemma_i32_array_round_trip(a, s, z);
}

/// A counted 64-bit array that stands at `p` is read there.
pub proof fn lemma_i64_array_holds(d: Seq<u8>, p: int, s: Seq<i64>)
    requires
        s.len() <= u32::MAX,
        holds_at(d, p, i64_array_bytes(s)),
    ensures
        i64_array_at(d, p) == Ok::<(Seq<i64>, int), ReadError>((s, p + i64_array_bytes(s).len())),
{
    let b = i64_array_bytes(s);
    let a = d.take(p);
    let z = d.skip(p + b.len());
    assert(d =~= a + b + z);
    lemma_i64_array_round_trip(a, s, z);
}

/// Alignment padding that stands at `p` is skipped there.
pub proof fn lemma_padding_holds(d: Seq<u8>, p: int, alignment: int)
    requires
        alignment >= 1,
        holds_at(d, p, padding_bytes(padding_len(p, alignment))),
    ensures
        skip_padding_at(d, p, alignment) == Ok::<int, ReadError>(p + padding_len(p, alignment)),
        padding_len(p, alignment) >= 0,
        padding_bytes(padding_len(p, alignment)).len() == padding_len(p, alignment),
{
    if alignment >= 2 {
        lemma_padding_aligns(p, alignment);
    }
    let b = padding_bytes(padding_len(p, alignment));
    let a = d.take(p);
    let z = d.skip(p + b.len());
    assert(d =~= a + b + z);
    lemma_padding_round_trip(a, alignment, z);
}

} // verus!
