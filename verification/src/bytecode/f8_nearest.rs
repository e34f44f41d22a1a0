//! Converting to an eight-bit float gives the nearest one, ties to even.
//!
//! Floats are compared by their exact values: a 64-bit float is an integer, taken
//! times two to the 1074, the place of its lowest bit.
use vstd::arithmetic::power2::pow2;
use vstd::prelude::*;
use crate::bytecode::f8::F8Format;
use crate::bytecode::f8;

verus! {

// ---------------------------------------------------------------------------
// Exact values
// ---------------------------------------------------------------------------

/// The sign of a bit pattern.
pub open spec fn sign_of(bits: u64) -> int {
    if bits >= 0x8000_0000_0000_0000 {
        -1
    } else {
        1
    }
}

/// The exponent field of a bit pattern.
pub open spec fn exp_of(bits: u64) -> int {
    (bits as int / 0x10_0000_0000_0000) % 0x800
}

/// The mantissa field of a bit pattern.
pub open spec fn man_of(bits: u64) -> int {
    bits as int % 0x10_0000_0000_0000
}

/// Neither infinite nor a not-a-number.
pub open spec fn is_finite(bits: u64) -> bool {
    exp_of(bits) != 0x7FF
}

/// The absolute value, with these fields.
pub open spec fn magnitude(exp: int, man: int) -> int {
    if exp == 0 {
        man
    } else {
        (0x10_0000_0000_0000 + man) * pow2((exp - 1) as nat)
    }
}

/// The value of a finite bit pattern, times two to the 1074.
pub open spec fn exact(bits: u64) -> int {
    sign_of(bits) * magnitude(exp_of(bits), man_of(bits))
}

/// How far two values are apart.
pub open spec fn apart(a: int, b: int) -> int {
    if a <= b {
        b - a
    } else {
        a - b
    }
}

/// A format that is known.
pub open spec fn is_known(f: F8Format) -> bool {
    f == f8::e4m3fn() || f == f8::e5m2()
}

/// The place of the lowest bit of a format.
pub open spec fn low_place(f: F8Format) -> nat {
    (1075 - f.bias - f.man_bits) as nat
}

/// The value of a code in units of the lowest bit.
pub open spec fn units(f: F8Format, code: int) -> int {
    let e = code / f8::man_count(f);
    let m = code % f8::man_count(f);
    if e == 0 {
        m
    } else {
        (f8::man_count(f) + m) * pow2((e - 1) as nat)
    }
}

/// The value of a code.
pub open spec fn code_value(f: F8Format, code: int) -> int {
    units(f, code) * pow2(low_place(f))
}

proof fn lemma_split(a: nat, b: nat)
    ensures
        pow2(a + b) == pow2(a) * pow2(b),
        pow2(a) > 0,
{
    vstd::arithmetic::power2::lemma_pow2_adds(a, b);
    vstd::arithmetic::power2::lemma_pow2_pos(a);
}

proof fn lemma_units_step(f: F8Format, k: int)
    requires
        is_known(f),
        0 <= k,
    ensures
        units(f, k) < units(f, k + 1),
{
    let c = f8::man_count(f);
    let e = k / c;
    let m = k % c;
    vstd::arithmetic::power2::lemma2_to64();
    if m + 1 < c {
        assert((k + 1) / c == e && (k + 1) % c == m + 1);
        if e > 0 {
            let p = pow2((e - 1) as nat) as int;
            vstd::arithmetic::power2::lemma_pow2_pos((e - 1) as nat);
            assert((c + m) * p < (c + (m + 1)) * p) by (nonlinear_arith)
                requires
                    p > 0,
            ;
        }
    } else {
        assert((k + 1) / c == e + 1 && (k + 1) % c == 0);
        if e == 0 {
            let one = pow2(0) as int;
            assert((c + 0) * one == c) by (nonlinear_arith)
                requires
                    one == 1,
            ;
        } else {
            let p = pow2((e - 1) as nat) as int;
            lemma_split((e - 1) as nat, 1);
            assert((c + m) * p < (c + 0) * (p * 2)) by (nonlinear_arith)
                requires
                    p > 0,
                    m == c - 1,
            ;
        }
    }
}

proof fn lemma_units_grow(f: F8Format, a: int, b: int)
    requires
        is_known(f),
        0 <= a <= b,
    ensures
        units(f, a) <= units(f, b),
        a < b ==> units(f, a) < units(f, b),
        code_value(f, a) <= code_value(f, b),
        a < b ==> code_value(f, a) < code_value(f, b),
        0 <= code_value(f, a),
        a > 0 ==> 0 < code_value(f, a),
    decreases b,
{
    let p = pow2(low_place(f)) as int;
    vstd::arithmetic::power2::lemma_pow2_pos(low_place(f));
    assert(units(f, 0) == 0);
    if a < b {
        lemma_units_grow(f, a, b - 1);
        lemma_units_step(f, b - 1);
    } else if a > 0 {
        lemma_units_grow(f, 0, a - 1);
        lemma_units_step(f, a - 1);
    }
    let x = units(f, a);
    let y = units(f, b);
    assert(x * p <= y * p && 0 <= x * p) by (nonlinear_arith)
        requires
            0 <= x <= y,
            p > 0,
    ;
    if a < b {
        assert(x * p < y * p) by (nonlinear_arith)
            requires
                x < y,
                p > 0,
        ;
    }
    if a > 0 {
        assert(0 < x * p) by (nonlinear_arith)
            requires
                x > 0,
                p > 0,
        ;
    }
}

// ---------------------------------------------------------------------------
// The values of bytes
// ---------------------------------------------------------------------------

/// A byte stands for a finite value.
pub open spec fn finite_byte(f: F8Format, b: u8) -> bool {
    b as int % 128 <= (if f.finite_top {
        126int
    } else {
        123
    })
}

/// The value that a finite byte decodes to is that of its code, with its sign.
#[verifier::spinoff_prover]
pub proof fn lemma_byte_value(f: F8Format, b: u8)
    requires
        is_known(f),
        finite_byte(f, b),
    ensures
        0 <= f8::f64_bits(f, b) <= u64::MAX,
        is_finite(f8::f64_bits(f, b) as u64),
        exact(f8::f64_bits(f, b) as u64) == (if b >= 128 {
            -code_value(f, b as int % 128)
        } else {
            code_value(f, b as int % 128)
        }),
{
    let c = f8::man_count(f);
    let k = b as int % 128;
    let e = k / c;
    let m = k % c;
    assert(b as int % c == m);
    let bits = f8::f64_bits(f, b);
    let x = bits as u64;
    let low = bits % 0x8000_0000_0000_0000;
    let u = low_place(f);
    vstd::arithmetic::power2::lemma2_to64();
    vstd::arithmetic::power2::lemma2_to64_rest();
    if e == 0 && m == 0 {
        assert(exp_of(x) == 0 && man_of(x) == 0);
        assert(units(f, k) == 0);
        assert(0 * pow2(u) == 0) by (nonlinear_arith);
    } else if e == 0 {
        let h = f8::top_place(m);
        let unit = if h == 2 {
            0x4_0000_0000_0000int
        } else if h == 1 {
            0x8_0000_0000_0000
        } else {
            0x10_0000_0000_0000
        };
        assert(low == (1023 - f.bias - f.man_bits + h) * 0x10_0000_0000_0000 + m * unit);
        assert(man_of(x) == m * unit - 0x10_0000_0000_0000);
        assert(exp_of(x) == 1024 - f.bias - f.man_bits + h);
        let p = (exp_of(x) - 1) as nat;
        lemma_split((52 - h) as nat, p);
        assert((52 - h) as nat + p == u);
        assert(unit == pow2((52 - h) as nat));
        let y = pow2(p) as int;
        assert((m * unit) * y == m * (unit * y)) by (nonlinear_arith);
    } else {
        let unit = if f.man_bits == 3 { 0x2_0000_0000_0000int } else { 0x4_0000_0000_0000 };
        assert(exp_of(x) == 1023 + e - f.bias);
        assert(man_of(x) == m * unit);
        assert(0x10_0000_0000_0000 + m * unit == (c + m) * unit);
        let p = (exp_of(x) - 1) as nat;
        let r = (52 - f.man_bits) as nat;
        lemma_split(r, p);
        lemma_split((e - 1) as nat, u);
        assert(r + p == (e - 1) as nat + u);
        assert(unit == pow2(r));
        let y = pow2(p) as int;
        let z = pow2((e - 1) as nat) as int;
        let w = pow2(u) as int;
        let n = c + m;
        assert((n * unit) * y == n * (unit * y)) by (nonlinear_arith);
        assert((n * z) * w == n * (z * w)) by (nonlinear_arith);
    }
    let v = magnitude(exp_of(x), man_of(x));
    assert(v == code_value(f, k));
    assert(sign_of(x) == (if b >= 128 { -1int } else { 1 }));
    assert((-1) * v == -v && 1 * v == v);
}

// ---------------------------------------------------------------------------
// Rounding
// ---------------------------------------------------------------------------

/// What is rounded is at most half a unit off, and a half only where the result is
/// even.
proof fn lemma_rounded(value: int, shift: nat)
    requires
        value >= 0,
    ensures
        ({
            let p = pow2(shift) as int;
            let r = f8::round_half_even(value, shift);
            &&& p > 0
            &&& r >= 0
            &&& (2 * r - 1) * p <= 2 * value <= (2 * r + 1) * p
            &&& (2 * value == (2 * r - 1) * p || 2 * value == (2 * r + 1) * p) ==> r % 2 == 0
        }),
{
    let p = pow2(shift) as int;
    vstd::arithmetic::power2::lemma_pow2_pos(shift);
    let q = value / p;
    let d = value % p;
    vstd::arithmetic::div_mod::lemma_fundamental_div_mod(value, p);
    vstd::arithmetic::div_mod::lemma_mod_bound(value, p);
    vstd::arithmetic::div_mod::lemma_div_pos_is_pos(value, p);
    assert(p * q == q * p) by (nonlinear_arith);
    assert((2 * q - 1) * p == 2 * (q * p) - p) by (nonlinear_arith);
    assert((2 * q + 1) * p == 2 * (q * p) + p) by (nonlinear_arith);
    assert((2 * (q + 1) + 1) * p == 2 * (q * p) + 3 * p) by (nonlinear_arith);
    assert((2 * (q + 1) - 1) * p == 2 * (q * p) + p) by (nonlinear_arith);
}

/// A value lies between the middles to the codes beside a code, and on a middle only
/// where the code is even.
pub open spec fn centred(f: F8Format, v: int, c: int) -> bool {
    &&& 0 <= c
    &&& c > 0 ==> {
        let middle = code_value(f, c - 1) + code_value(f, c);
        2 * v >= middle && (2 * v == middle ==> c % 2 == 0)
    }
    &&& {
        let middle = code_value(f, c) + code_value(f, c + 1);
        2 * v <= middle && (2 * v == middle ==> c % 2 == 0)
    }
}

/// Below the least value that has a leading one.
#[verifier::spinoff_prover]
proof fn lemma_small(f: F8Format, s: int, e: int)
    requires
        is_known(f),
        0 < s < 0x20_0000_0000_0000,
        1 <= e,
        e - 1023 + f.bias <= 0,
    ensures
        ({
            let shift = 53 - f.man_bits - (e - 1023 + f.bias);
            let c = if shift >= 64 { 0 } else { f8::round_half_even(s, shift as nat) };
            centred(f, s * pow2((e - 1) as nat), c) && c <= f8::man_count(f)
        }),
{
    let shift = (53 - f.man_bits - (e - 1023 + f.bias)) as nat;
    let m = f8::man_count(f);
    let p = pow2(shift) as int;
    let q = pow2((e - 1) as nat) as int;
    let u = pow2(low_place(f)) as int;
    let v = s * q;
    lemma_split(shift, (e - 1) as nat);
    lemma_split((e - 1) as nat, shift);
    assert(shift + (e - 1) as nat == low_place(f));
    assert(u == p * q);
    vstd::arithmetic::power2::lemma2_to64();
    vstd::arithmetic::power2::lemma2_to64_rest();
    if shift >= 64 {
        if shift > 64 {
            vstd::arithmetic::power2::lemma_pow2_strictly_increases(64, shift);
        }
        assert(2 * (s * q) < p * q) by (nonlinear_arith)
            requires
                2 * s < p,
                q > 0,
        ;
        assert(units(f, 0) == 0 && units(f, 1) == 1);
        assert(0 * u == 0 && 1 * u == u);
    } else {
        let r = f8::round_half_even(s, shift);
        lemma_rounded(s, shift);
        let least = (53 - f.man_bits) as nat;
        if shift > least {
            vstd::arithmetic::power2::lemma_pow2_strictly_increases(least, shift);
        }
        assert(r <= m) by {
            if r > m {
                assert((2 * r - 1) * p >= (2 * m + 1) * p) by (nonlinear_arith)
                    requires
                        r >= m + 1,
                        p > 0,
                ;
                assert((2 * m + 1) * p >= (2 * m + 1) * pow2(least)) by (nonlinear_arith)
                    requires
                        p >= pow2(least),
                        m > 0,
                ;
            }
        }
        lemma_units_low(f, r);
        lemma_units_low(f, r + 1);
        lemma_scaled(s, r, p, q);
        assert(code_value(f, r) == r * (p * q));
        assert(code_value(f, r + 1) == (r + 1) * (p * q));
        if r > 0 {
            lemma_units_low(f, r - 1);
            assert(code_value(f, r - 1) == (r - 1) * (p * q));
        }
    }
}

/// The least codes are their own values.
proof fn lemma_units_low(f: F8Format, k: int)
    requires
        is_known(f),
        0 <= k < 2 * f8::man_count(f),
    ensures
        units(f, k) == k,
{
    vstd::arithmetic::power2::lemma2_to64();
    let c = f8::man_count(f);
    if k < c {
        assert(k / c == 0 && k % c == k);
    } else {
        assert(k / c == 1 && k % c == k - c);
        let one = pow2(0) as int;
        assert((c + (k - c)) * one == k) by (nonlinear_arith)
            requires
                one == 1,
        ;
    }
}

/// What holds of a rounded value holds of its multiples.
proof fn lemma_scaled(s: int, r: int, p: int, q: int)
    requires
        q > 0,
        (2 * r - 1) * p <= 2 * s <= (2 * r + 1) * p,
        (2 * s == (2 * r - 1) * p || 2 * s == (2 * r + 1) * p) ==> r % 2 == 0,
    ensures
        (r - 1) * (p * q) + r * (p * q) <= 2 * (s * q) <= r * (p * q) + (r + 1) * (p * q),
        (2 * (s * q) == (r - 1) * (p * q) + r * (p * q) || 2 * (s * q) == r * (p * q) + (r + 1) * (p
            * q)) ==> r % 2 == 0,
{
    let a = (2 * r - 1) * p;
    let b = (2 * r + 1) * p;
    assert((r - 1) * (p * q) + r * (p * q) == a * q) by (nonlinear_arith)
        requires
            a == (2 * r - 1) * p,
    ;
    assert(r * (p * q) + (r + 1) * (p * q) == b * q) by (nonlinear_arith)
        requires
            b == (2 * r + 1) * p,
    ;
    assert(2 * (s * q) == (2 * s) * q) by (nonlinear_arith);
    assert(a * q <= (2 * s) * q <= b * q) by (nonlinear_arith)
        requires
            a <= 2 * s <= b,
            q > 0,
    ;
    if (2 * s) * q == a * q {
        assert(2 * s == a) by (nonlinear_arith)
            requires
                (2 * s) * q == a * q,
                q > 0,
        ;
    }
    if (2 * s) * q == b * q {
        assert(2 * s == b) by (nonlinear_arith)
            requires
                (2 * s) * q == b * q,
                q > 0,
        ;
    }
}

/// Codes with a leading one, by their exponent.
proof fn lemma_units_at(f: F8Format, t: int, n: int)
    requires
        is_known(f),
        1 <= t,
        f8::man_count(f) <= n <= 2 * f8::man_count(f),
    ensures
        units(f, (t - 1) * f8::man_count(f) + n) == n * pow2((t - 1) as nat),
{
    let c = f8::man_count(f);
    let k = (t - 1) * c + n;
    let z = pow2((t - 1) as nat) as int;
    if n < 2 * c {
        assert(k / c == t && k % c == n - c);
    } else {
        assert(k / c == t + 1 && k % c == 0);
        lemma_split((t - 1) as nat, 1);
        vstd::arithmetic::power2::lemma2_to64();
        assert((c + 0) * (z * 2) == n * z) by (nonlinear_arith)
            requires
                n == 2 * c,
        ;
    }
}

/// Values that have a leading one, within the exponents of the format.
#[verifier::spinoff_prover]
proof fn lemma_normal(f: F8Format, s: int, e: int)
    requires
        is_known(f),
        0x10_0000_0000_0000 <= s < 0x20_0000_0000_0000,
        1 <= e - 1023 + f.bias,
    ensures
        ({
            let t = e - 1023 + f.bias;
            let c = (t - 1) * f8::man_count(f) + f8::round_half_even(s, (52 - f.man_bits) as nat);
            centred(f, s * pow2((e - 1) as nat), c)
        }),
{
    let t = e - 1023 + f.bias;
    let m = f8::man_count(f);
    let shift = (52 - f.man_bits) as nat;
    let r = f8::round_half_even(s, shift);
    let c = (t - 1) * m + r;
    let p = pow2(shift) as int;
    let q = pow2((e - 1) as nat) as int;
    let z = pow2((t - 1) as nat) as int;
    let u = pow2(low_place(f)) as int;
    let v = s * q;
    lemma_split(shift, (e - 1) as nat);
    lemma_split((e - 1) as nat, shift);
    lemma_split((t - 1) as nat, low_place(f));
    assert(shift + (e - 1) as nat == (t - 1) as nat + low_place(f));
    assert(p * q == z * u);
    vstd::arithmetic::power2::lemma_pow2_pos(low_place(f));
    vstd::arithmetic::power2::lemma2_to64();
    vstd::arithmetic::power2::lemma2_to64_rest();
    lemma_rounded(s, shift);
    assert(m <= r <= 2 * m) by {
        assert((2 * r - 1) * p <= 2 * s < 4 * m * p);
        if r > 2 * m {
            assert((2 * r - 1) * p >= (4 * m + 1) * p) by (nonlinear_arith)
                requires
                    r >= 2 * m + 1,
                    p > 0,
            ;
            assert((4 * m + 1) * p == 4 * m * p + p) by (nonlinear_arith);
        }
        if r < m {
            assert((2 * r + 1) * p <= (2 * m - 1) * p) by (nonlinear_arith)
                requires
                    r <= m - 1,
                    p > 0,
            ;
            assert((2 * m - 1) * p == 2 * m * p - p) by (nonlinear_arith);
        }
    }
    lemma_scaled(s, r, p, q);
    lemma_units_at(f, t, r);
    lemma_grouped(r, z, u);
    assert(c % 2 == r % 2) by {
        if f.man_bits == 3 {
            assert((t - 1) * m == 2 * (4 * (t - 1)));
        } else {
            assert((t - 1) * m == 2 * (2 * (t - 1)));
        }
    }
    if r > m {
        lemma_units_at(f, t, r - 1);
        lemma_grouped(r - 1, z, u);
    } else {
        assert(m * p * q <= s * q) by (nonlinear_arith)
            requires
                m * p <= s,
                q > 0,
        ;
        assert(m * p * q == m * (p * q)) by (nonlinear_arith);
        if c > 0 {
            lemma_units_grow(f, c - 1, c);
        }
    }
    if r < 2 * m {
        lemma_units_at(f, t, r + 1);
        lemma_grouped(r + 1, z, u);
    } else {
        assert((c + 1) / m == t + 1 && (c + 1) % m == 1);
        lemma_split((t - 1) as nat, 1);
        assert((m + 1) * (z * 2) == (r + 2) * z) by (nonlinear_arith)
            requires
                r == 2 * m,
        ;
        lemma_grouped(r + 2, z, u);
        assert(z * u > 0) by (nonlinear_arith)
            requires
                z > 0,
                u > 0,
        ;
        assert((r + 1) * (z * u) < (r + 2) * (z * u)) by (nonlinear_arith)
            requires
                z * u > 0,
        ;
    }
}

proof fn lemma_grouped(n: int, z: int, u: int)
    ensures
        (n * z) * u == n * (z * u),
{
    assert((n * z) * u == n * (z * u)) by (nonlinear_arith);
}

// ---------------------------------------------------------------------------
// The nearest value
// ---------------------------------------------------------------------------

/// The value of a finite 64-bit float lies around its code: above the middle to the code
/// below, and, unless it is too large, below the middle to the code above.
#[verifier::spinoff_prover]
proof fn lemma_centred(f: F8Format, exp: int, man: int)
    requires
        is_known(f),
        0 <= exp < 0x7FF,
        0 <= man < 0x10_0000_0000_0000,
    ensures
        ({
            let v = magnitude(exp, man);
            let r = f8::f8_code(f, exp, man);
            let o = f8::overflow_code(f);
            &&& v >= 0
            &&& 0 <= r <= o
            &&& r < o ==> centred(f, v, r)
            &&& r == o ==> {
                let middle = code_value(f, o - 1) + code_value(f, o);
                2 * v >= middle
            }
        }),
{
    let v = magnitude(exp, man);
    let r = f8::f8_code(f, exp, man);
    let o = f8::overflow_code(f);
    let s = if exp == 0 { man } else { 0x10_0000_0000_0000 + man };
    let e = if exp == 0 { 1 } else { exp };
    let t = e - 1023 + f.bias;
    let m = f8::man_count(f);
    let q = pow2((e - 1) as nat) as int;
    vstd::arithmetic::power2::lemma2_to64();
    vstd::arithmetic::power2::lemma_pow2_pos((e - 1) as nat);
    if exp == 0 {
        assert(s * q == s) by (nonlinear_arith)
            requires
                q == 1,
        ;
    }
    assert(v == s * q);
    assert(s * q >= 0) by (nonlinear_arith)
        requires
            s >= 0,
            q > 0,
    ;
    assert(o == (if f.finite_top { 126int } else { 124 }));
    if s == 0 {
        assert(v == 0) by (nonlinear_arith)
            requires
                v == s * q,
                s == 0,
        ;
        lemma_units_grow(f, 0, 1);
        assert(units(f, 0) == 0);
    } else if t > f8::top_exp(f) {
        lemma_normal(f, s, e);
        let c = (t - 1) * m + f8::round_half_even(s, (52 - f.man_bits) as nat);
        lemma_rounded(s, (52 - f.man_bits) as nat);
        assert(c >= o) by {
            assert((t - 1) * m >= f8::top_exp(f) * m) by (nonlinear_arith)
                requires
                    t - 1 >= f8::top_exp(f),
                    m > 0,
            ;
            lemma_at_least(f, s);
        }
        lemma_units_grow(f, o - 1, c - 1);
        lemma_units_grow(f, o, c);
    } else {
        let c = if t <= 0 {
            let shift = 53 - f.man_bits - t;
            if shift >= 64 { 0 } else { f8::round_half_even(s, shift as nat) }
        } else {
            (t - 1) * m + f8::round_half_even(s, (52 - f.man_bits) as nat)
        };
        if t <= 0 {
            lemma_small(f, s, e);
        } else {
            lemma_normal(f, s, e);
        }
        if c >= o {
            lemma_units_grow(f, o - 1, c - 1);
            lemma_units_grow(f, o, c);
        }
    }
}

/// A leading one stays.
proof fn lemma_at_least(f: F8Format, s: int)
    requires
        is_known(f),
        0x10_0000_0000_0000 <= s,
    ensures
        f8::round_half_even(s, (52 - f.man_bits) as nat) >= f8::man_count(f),
{
    vstd::arithmetic::power2::lemma2_to64();
    vstd::arithmetic::power2::lemma2_to64_rest();
    let m = f8::man_count(f);
    let shift = (52 - f.man_bits) as nat;
    let p = pow2(shift) as int;
    let r = f8::round_half_even(s, shift);
    lemma_rounded(s, shift);
    if r < m {
        assert((2 * r + 1) * p <= (2 * m - 1) * p) by (nonlinear_arith)
            requires
                r <= m - 1,
                p > 0,
        ;
        assert((2 * m - 1) * p == 2 * (m * p) - p) by (nonlinear_arith);
        assert(m * p == 0x10_0000_0000_0000);
    }
}

proof fn lemma_code_nearest(f: F8Format, v: int, r: int, k: int, top: int)
    requires
        is_known(f),
        0 <= v,
        0 <= r <= top,
        0 <= k <= top,
        r < top ==> centred(f, v, r),
        r == top ==> 2 * v >= code_value(f, r - 1) + code_value(f, r) && r > 0 && (2 * v
            == code_value(f, r - 1) + code_value(f, r) ==> r % 2 == 0),
    ensures
        apart(v, code_value(f, r)) <= apart(v, code_value(f, k)),
        apart(v, code_value(f, r)) == apart(v, code_value(f, k)) && r != k ==> r % 2 == 0,
{
    if k < r {
        lemma_units_grow(f, k, r - 1);
        lemma_units_grow(f, r - 1, r);
    } else if k > r {
        lemma_units_grow(f, r + 1, k);
        lemma_units_grow(f, r, r + 1);
    }
}

/// The fields of a bit pattern, and the byte that it is converted to.
proof fn lemma_fields(f: F8Format, bits: u64)
    requires
        is_known(f),
        is_finite(bits),
    ensures
        0 <= exp_of(bits) < 0x7FF,
        0 <= man_of(bits) < 0x10_0000_0000_0000,
        f8::f8_byte(f, bits) == f8::f8_code(f, exp_of(bits), man_of(bits)) + (if sign_of(bits) < 0 {
            128int
        } else {
            0
        }),
{
}

/// No finite byte is nearer to a finite 64-bit float than the one that it is converted
/// to, and where another value is as near, the byte is even. Its sign is that of the
/// float. Where the format has infinities, this is so of all that are not converted to
/// one.
pub proof fn lemma_nearest(f: F8Format, bits: u64, q: u8)
    requires
        is_known(f),
        is_finite(bits),
        finite_byte(f, q),
        f.finite_top || f8::f8_code(f, exp_of(bits), man_of(bits)) < f8::overflow_code(f),
    ensures
        0 <= f8::f8_byte(f, bits) <= 255,
        ({
            let r = f8::f8_byte(f, bits) as u8;
            let v = exact(bits);
            let near = exact(f8::f64_bits(f, r) as u64);
            let other = exact(f8::f64_bits(f, q) as u64);
            &&& finite_byte(f, r)
            &&& (r >= 128) == (bits >= 0x8000_0000_0000_0000)
            &&& apart(v, near) <= apart(v, other)
            &&& apart(v, near) == apart(v, other) && near != other ==> r % 2 == 0
        }),
{
    lemma_fields(f, bits);
    let v = magnitude(exp_of(bits), man_of(bits));
    let c = f8::f8_code(f, exp_of(bits), man_of(bits));
    let o = f8::overflow_code(f);
    assert(o == (if f.finite_top { 126int } else { 124 }));
    lemma_centred(f, exp_of(bits), man_of(bits));
    let r = f8::f8_byte(f, bits) as u8;
    let k = q as int % 128;
    assert(r as int % 128 == c);
    lemma_byte_value(f, r);
    lemma_byte_value(f, q);
    lemma_code_nearest(f, v, c, k, o);
    lemma_units_grow(f, k, k);
    lemma_units_grow(f, c, c);
    lemma_units_grow(f, 0, c);
    assert((-1) * v == -v && 1 * v == v);
    let w = code_value(f, c);
    let x = code_value(f, k);
    assert(apart(-v, -w) == apart(v, w) && apart(-v, -x) == apart(v, x));
    assert(r % 2 == 0 <==> c % 2 == 0);
    if (r >= 128) != (q >= 128) {
        // Zero has two bytes; any other value with the other sign is farther away.
        assert(apart(v, x) <= v + x);
        if v + x == apart(v, w) && x > 0 {
            assert(v == 0);
            lemma_code_nearest(f, v, c, 0, o);
            lemma_zero(f, w, c);
        }
    }
}

/// Nothing but zero is nearest to zero.
proof fn lemma_zero(f: F8Format, w: int, c: int)
    requires
        is_known(f),
        0 <= c,
        w == code_value(f, c),
        apart(0, w) <= apart(0, code_value(f, 0)),
    ensures
        c == 0,
{
    assert(units(f, 0) == 0);
    assert(0 * pow2(low_place(f)) == 0);
    lemma_units_grow(f, c, c);
}

/// In the format that has infinities, a finite 64-bit float is converted to one exactly
/// where it is not below the middle between the largest finite value and the next value
/// that the format would have.
pub proof fn lemma_infinite(bits: u64)
    requires
        is_finite(bits),
    ensures
        ({
            let f = f8::e5m2();
            let v = magnitude(exp_of(bits), man_of(bits));
            f8::f8_code(f, exp_of(bits), man_of(bits)) == f8::overflow_code(f) <==> 2 * v
                >= code_value(f, 123) + code_value(f, 124)
        }),
{
    let f = f8::e5m2();
    let v = magnitude(exp_of(bits), man_of(bits));
    let c = f8::f8_code(f, exp_of(bits), man_of(bits));
    lemma_fields(f, bits);
    lemma_centred(f, exp_of(bits), man_of(bits));
    assert(f8::overflow_code(f) == 124);
    if c < 124 {
        lemma_units_grow(f, c, 123);
        lemma_units_grow(f, c + 1, 124);
    }
}

} // verus!
