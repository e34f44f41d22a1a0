//! Eight-bit floating point formats, computed on bit patterns: a 64-bit
//! float is its IEEE pattern, an eight-bit float is its byte.
use vstd::arithmetic::power2::pow2;
use vstd::prelude::*;

verus! {

/// `value` divided by two to the `shift`, rounded to nearest, ties to even.
pub open spec fn round_half_even(value: int, shift: nat) -> int {
    let unit = pow2(shift) as int;
    let q = value / unit;
    let r = value % unit;
    if 2 * r > unit || (2 * r == unit && q % 2 == 1) {
        q + 1
    } else {
        q
    }
}

/// An eight-bit format: exponent width, mantissa width, exponent bias, and
/// whether the all-ones exponent holds finite values (no infinities, a single
/// not-a-number pattern).
pub struct F8Format {
    pub exp_bits: nat,
    pub man_bits: nat,
    pub bias: int,
    pub finite_top: bool,
}

/// Four exponent and three mantissa bits, no infinities.
pub open spec fn e4m3fn() -> F8Format {
    F8Format { exp_bits: 4, man_bits: 3, bias: 7, finite_top: true }
}

/// Five exponent and two mantissa bits, IEEE-like.
pub open spec fn e5m2() -> F8Format {
    F8Format { exp_bits: 5, man_bits: 2, bias: 15, finite_top: false }
}

/// The largest exponent field of a format.
pub open spec fn top_exp(f: F8Format) -> int {
    if f.exp_bits == 4 { 15 } else { 31 }
}

/// The number of mantissa patterns of a format.
pub open spec fn man_count(f: F8Format) -> int {
    if f.man_bits == 3 { 8 } else { 4 }
}

/// The code of infinity, or of the largest finite value where the format has
/// no infinity.
pub open spec fn overflow_code(f: F8Format) -> int {
    if f.finite_top {
        top_exp(f) * man_count(f) + man_count(f) - 2
    } else {
        top_exp(f) * man_count(f)
    }
}

/// The code, without sign, of the 64-bit float with exponent field `exp` and
/// mantissa field `man`. Codes are exponent field times mantissa count plus
/// mantissa field, so that rounding up past a mantissa moves to the next
/// exponent by itself.
pub open spec fn f8_code(f: F8Format, exp: int, man: int) -> int {
    if exp == 0x7FF {
        if man != 0 {
            top_exp(f) * man_count(f) + (if f.finite_top { man_count(f) - 1 } else { 1 })
        } else {
            overflow_code(f)
        }
    } else {
        let significand = if exp == 0 { man } else { 0x10_0000_0000_0000 + man };
        let target = (if exp == 0 { -1022 } else { exp - 1023 }) + f.bias;
        if significand == 0 {
            0
        } else if target > top_exp(f) {
            overflow_code(f)
        } else {
            let code = if target <= 0 {
                let shift = 53 - f.man_bits - target;
                if shift >= 64 { 0 } else { round_half_even(significand, shift as nat) }
            } else {
                (target - 1) * man_count(f) + round_half_even(significand, (52 - f.man_bits) as nat)
            };
            if code >= overflow_code(f) { overflow_code(f) } else { code }
        }
    }
}

/// The byte of the 64-bit float with bit pattern `bits`.
pub open spec fn f8_byte(f: F8Format, bits: u64) -> int {
    let sign = bits as int / 0x8000_0000_0000_0000;
    let exp = (bits as int / 0x10_0000_0000_0000) % 0x800;
    let man = bits as int % 0x10_0000_0000_0000;
    128 * sign + f8_code(f, exp, man)
}

/// Divide by two to the `shift`, rounding to nearest, ties to even; zero where
/// everything is shifted out.
fn round_shift_right_ties_even(value: u64, shift: u32) -> (r: u64)
    requires
        value < 0x20_0000_0000_0000,
    ensures
        r == (if shift >= 64 { 0 } else { round_half_even(value as int, shift as nat) }),
        r <= value,
{
    if shift == 0 {
        proof {
            vstd::arithmetic::power2::lemma2_to64();
            let unit = pow2(shift as nat) as int;
            assert(unit == 1);
            assert(value as int % unit == 0);
            assert(value as int / unit == value);
        }
        return value;
    }
    if shift >= 64 {
        return 0;
    }
    proof {
        vstd::arithmetic::power2::lemma2_to64();
        vstd::arithmetic::power2::lemma2_to64_rest();
        if shift < 63 {
            vstd::arithmetic::power2::lemma_pow2_strictly_increases(shift as nat, 63);
        }
        vstd::bits::lemma_u64_shl_is_mul(1, shift as u64);
        vstd::arithmetic::power2::lemma_pow2_unfold(shift as nat);
        vstd::arithmetic::power2::lemma_pow2_pos((shift - 1) as nat);
    }
    let unit: u64 = 1u64 << (shift as u64);
    assert(unit == pow2(shift as nat));
    let q: u64 = value / unit;
    let r: u64 = value % unit;
    let half: u64 = unit / 2;
    proof {
        assert(q <= value / 2) by (nonlinear_arith)
            requires
                unit >= 2,
                q == value / unit,
        ;
    }
    if r > half || (r == half && q % 2 == 1) {
        assert(value >= 1) by {
            if value == 0 {
                vstd::arithmetic::div_mod::lemma_small_mod(0, unit as nat);
                assert(q == 0);
            }
        }
        q + 1
    } else {
        q
    }
}

/// Convert the 64-bit float with bit pattern `bits` to an eight-bit format:
/// rounded to nearest, ties to even; too large values become infinity, or the
/// largest finite value where the format has none.
pub fn convert_to_f8(bits: u64, four_exp_bits: bool) -> (r: u8)
    ensures
        r == f8_byte(if four_exp_bits { e4m3fn() } else { e5m2() }, bits),
{
    let ghost f = if four_exp_bits { e4m3fn() } else { e5m2() };
    let sign: u8 = if bits >= 0x8000_0000_0000_0000 { 128 } else { 0 };
    let exp: i32 = ((bits / 0x10_0000_0000_0000) % 0x800) as i32;
    let man: u64 = bits % 0x10_0000_0000_0000;
    let man_bits: i32 = if four_exp_bits { 3 } else { 2 };
    let man_count: i32 = if four_exp_bits { 8 } else { 4 };
    let top: i32 = if four_exp_bits { 15 } else { 31 };
    let bias: i32 = if four_exp_bits { 7 } else { 15 };
    let overflow: u8 = if four_exp_bits { 126 } else { 124 };
    proof {
        assert(bits as int / 0x8000_0000_0000_0000 == (if bits >= 0x8000_0000_0000_0000 {
            1int
        } else {
            0int
        }));
        assert(overflow == overflow_code(f));
    }
    if exp == 0x7FF {
        if man != 0 {
            return sign + (if four_exp_bits { 127 } else { 125 });
        }
        return sign + overflow;
    }
    let significand: u64 = if exp == 0 { man } else { 0x10_0000_0000_0000 + man };
    let target: i32 = (if exp == 0 { -1022 } else { exp - 1023 }) + bias;
    if significand == 0 {
        return sign;
    }
    if target > top {
        return sign + overflow;
    }
    let code: u64 = if target <= 0 {
        let shift: i32 = 53 - man_bits - target;
        round_shift_right_ties_even(significand, shift as u32)
    } else {
        let rounded: u64 = round_shift_right_ties_even(significand, (52 - man_bits) as u32);
        ((target - 1) * man_count) as u64 + rounded
    };
    if code >= overflow as u64 {
        sign + overflow
    } else {
        sign + code as u8
    }
}

/// The four-exponent-bit byte of the 64-bit float with bit pattern `bits`.
pub fn f64_to_f8e4m3fn(bits: u64) -> (r: u8)
    ensures
        r == f8_byte(e4m3fn(), bits),
{
    convert_to_f8(bits, true)
}

/// The five-exponent-bit byte of the 64-bit float with bit pattern `bits`.
pub fn f64_to_f8e5m2(bits: u64) -> (r: u8)
    ensures
        r == f8_byte(e5m2(), bits),
{
    convert_to_f8(bits, false)
}

// ---------------------------------------------------------------------------
// Decoding
// ---------------------------------------------------------------------------

/// The pattern of the 64-bit float that stands for every not-a-number.
pub const NAN_BITS: u64 = 0x7FF8_0000_0000_0000;

/// The place of the highest bit of a mantissa without a leading one.
pub open spec fn top_place(m: int) -> int {
    if m >= 4 {
        2
    } else if m >= 2 {
        1
    } else {
        0
    }
}

/// Whether a byte is a not-a-number.
pub open spec fn is_nan_byte(f: F8Format, b: u8) -> bool {
    let e = (b as int % 128) / man_count(f);
    let m = b as int % man_count(f);
    e == top_exp(f) && (if f.finite_top {
        m == man_count(f) - 1
    } else {
        m != 0
    })
}

/// The bit pattern of the 64-bit float that a byte stands for. Where a byte has
/// no leading one, the highest bit of its mantissa becomes the leading one.
pub open spec fn f64_bits(f: F8Format, b: u8) -> int {
    let sign = (b as int / 128) * 0x8000_0000_0000_0000;
    let e = (b as int % 128) / man_count(f);
    let m = b as int % man_count(f);
    if is_nan_byte(f, b) {
        NAN_BITS as int
    } else if e == top_exp(f) && !f.finite_top {
        sign + 0x7FF * 0x10_0000_0000_0000
    } else if e == 0 && m == 0 {
        sign
    } else if e == 0 {
        let h = top_place(m);
        sign + (1023 + 1 - f.bias - f.man_bits + h - 1) * 0x10_0000_0000_0000 + m * (if h == 2 {
            0x4_0000_0000_0000int
        } else if h == 1 {
            0x8_0000_0000_0000
        } else {
            0x10_0000_0000_0000
        })
    } else {
        sign + (1023 + e - f.bias) * 0x10_0000_0000_0000 + m * (if f.man_bits == 3 {
            0x2_0000_0000_0000int
        } else {
            0x4_0000_0000_0000
        })
    }
}

fn decode_f8(b: u8, four_exp_bits: bool) -> (r: u64)
    ensures
        r == f64_bits(if four_exp_bits { e4m3fn() } else { e5m2() }, b),
{
    let sign: u64 = if b >= 128 { 0x8000_0000_0000_0000 } else { 0 };
    let man_count: u8 = if four_exp_bits { 8 } else { 4 };
    let top: u8 = if four_exp_bits { 15 } else { 31 };
    let bias: u64 = if four_exp_bits { 7 } else { 15 };
    let man_bits: u64 = if four_exp_bits { 3 } else { 2 };
    let e: u8 = (b % 128) / man_count;
    let m: u8 = b % man_count;
    if e == top {
        if four_exp_bits {
            if m == 7 {
                return NAN_BITS;
            }
        } else if m != 0 {
            return NAN_BITS;
        } else {
            return sign + 0x7FF0_0000_0000_0000;
        }
    }
    if e == 0 {
        if m == 0 {
            return sign;
        }
        let unit: u64 = if m >= 4 {
            0x4_0000_0000_0000
        } else if m >= 2 {
            0x8_0000_0000_0000
        } else {
            0x10_0000_0000_0000
        };
        let h: u64 = if m >= 4 { 2 } else if m >= 2 { 1 } else { 0 };
        return sign + (1023 - bias - man_bits + h) * 0x10_0000_0000_0000 + m as u64 * unit;
    }
    let unit: u64 = if four_exp_bits { 0x2_0000_0000_0000 } else { 0x4_0000_0000_0000 };
    sign + (1023 + e as u64 - bias) * 0x10_0000_0000_0000 + m as u64 * unit
}

/// The bit pattern of the 64-bit float of a byte with four exponent bits.
pub fn f8e4m3fn_to_f64(b: u8) -> (r: u64)
    ensures
        r == f64_bits(e4m3fn(), b),
{
    decode_f8(b, true)
}

/// The bit pattern of the 64-bit float of a byte with five exponent bits.
pub fn f8e5m2_to_f64(b: u8) -> (r: u64)
    ensures
        r == f64_bits(e5m2(), b),
{
    decode_f8(b, false)
}

proof fn lemma_exact(q: int, shift: nat, unit: int)
    requires
        q >= 0,
        unit == pow2(shift),
    ensures
        round_half_even(q * unit, shift) == q,
{
    vstd::arithmetic::power2::lemma_pow2_pos(shift);
    vstd::arithmetic::div_mod::lemma_div_multiples_vanish(q, unit);
    vstd::arithmetic::div_mod::lemma_mod_multiples_basic(q, unit);
    assert(unit * q == q * unit) by (nonlinear_arith);
}

/// Decoding a byte and encoding it again gives the byte back, not-a-numbers
/// aside.
#[verifier::rlimit(60)]
#[verifier::spinoff_prover]
pub proof fn lemma_f8_round_trip(four_exp_bits: bool, b: u8)
    requires
        !is_nan_byte(if four_exp_bits { e4m3fn() } else { e5m2() }, b),
    ensures
        ({
            let f = if four_exp_bits { e4m3fn() } else { e5m2() };
            &&& 0 <= f64_bits(f, b) <= u64::MAX
            &&& f8_byte(f, f64_bits(f, b) as u64) == b
        }),
{
    let f = if four_exp_bits { e4m3fn() } else { e5m2() };
    let e = (b as int % 128) / man_count(f);
    let m = b as int % man_count(f);
    let bits = f64_bits(f, b);
    assert(b as int % 128 == e * man_count(f) + m);
    vstd::arithmetic::power2::lemma2_to64();
    vstd::arithmetic::power2::lemma2_to64_rest();
    if e == top_exp(f) && !f.finite_top {
    } else if e == 0 && m == 0 {
    } else if e == 0 {
        let h = top_place(m);
        let unit = if h == 2 {
            0x4_0000_0000_0000int
        } else if h == 1 {
            0x8_0000_0000_0000
        } else {
            0x10_0000_0000_0000
        };
        lemma_exact(m, (52 - h) as nat, unit);
        let low = bits % 0x8000_0000_0000_0000;
        assert(low == (1023 - f.bias - f.man_bits + h) * 0x10_0000_0000_0000 + m * unit);
        assert(low % 0x10_0000_0000_0000 == m * unit - 0x10_0000_0000_0000);
        assert((bits / 0x10_0000_0000_0000) % 0x800 == 1024 - f.bias - f.man_bits + h);
    } else {
        let unit = if f.man_bits == 3 { 0x2_0000_0000_0000int } else { 0x4_0000_0000_0000 };
        lemma_exact(man_count(f) + m, (52 - f.man_bits) as nat, unit);
        assert((bits / 0x10_0000_0000_0000) % 0x800 == 1023 + e - f.bias);
        assert(bits % 0x10_0000_0000_0000 == m * unit);
        assert(0x10_0000_0000_0000 + m * unit == (man_count(f) + m) * unit);
    }
}

} // verus!
