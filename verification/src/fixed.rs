//! Saturating fixed-point scalars.
//!
//! Every numeric value of this library is a `i64` holding `value * SCALE`,
//! with `SCALE = 2^40`. All operations saturate to the symmetric range
//! `[-RAW_MAX, RAW_MAX]`, so they are total and never panic. Each executable
//! operation is proved to return exactly what its spec-level counterpart
//! (`fadd`, `fmul`, ...) says on the mathematical integers.

use vstd::prelude::*;
use vstd::arithmetic::div_mod::*;
use vstd::arithmetic::mul::*;
use vstd::arithmetic::power2::*;

verus! {

/// Raw values represent `raw / SCALE`; `SCALE` is 2^40.
pub const SCALE: i64 = 1099511627776;

/// Largest raw magnitude; the representable range is symmetric.
pub const RAW_MAX: i64 = 9223372036854775807;

/// Raw value of the number one.
pub open spec fn one() -> int {
    SCALE as int
}

/// Saturate an unbounded integer into the representable raw range.
pub open spec fn clamp(x: int) -> int {
    if x > RAW_MAX as int {
        RAW_MAX as int
    } else if x < -(RAW_MAX as int) {
        -(RAW_MAX as int)
    } else {
        x
    }
}

/// Absolute value on the mathematical integers.
pub open spec fn sabs(x: int) -> int {
    if x < 0 { -x } else { x }
}

/// Division truncating toward zero (both signs), defined for `d != 0`.
pub open spec fn tdiv(n: int, d: int) -> int
    recommends d != 0,
{
    if (n < 0) == (d < 0) {
        sabs(n) / sabs(d)
    } else {
        -(sabs(n) / sabs(d))
    }
}

/// Saturating addition of raw values.
pub open spec fn fadd(a: int, b: int) -> int {
    clamp(a + b)
}

/// Saturating subtraction of raw values.
pub open spec fn fsub(a: int, b: int) -> int {
    clamp(a - b)
}

/// Saturating negation of a raw value.
pub open spec fn fneg(a: int) -> int {
    clamp(-a)
}

/// Saturating fixed-point multiplication: `(a * b) / SCALE`, truncated.
pub open spec fn fmul(a: int, b: int) -> int {
    clamp(tdiv(a * b, SCALE as int))
}

/// Saturating fixed-point division: `(a * SCALE) / b`, truncated; a zero
/// divisor saturates in the direction of the dividend's sign.
pub open spec fn fdiv(a: int, b: int) -> int {
    if b == 0 {
        if a > 0 {
            RAW_MAX as int
        } else if a < 0 {
            -(RAW_MAX as int)
        } else {
            0
        }
    } else {
        clamp(tdiv(a * SCALE as int, b))
    }
}

/// Divide a raw value by a positive count (used for averaging); this is
/// exact fixed-point division by the integer `n`, truncated.
pub open spec fn fdivn(a: int, n: int) -> int
    recommends n > 0,
{
    clamp(tdiv(a, n))
}

/// Magnitude of a raw value, as an unsigned word.
fn abs_u128(a: i64) -> (r: u128)
    ensures
        r == sabs(a as int),
        r <= 0x8000_0000_0000_0000u128,
{
    if a >= 0 {
        a as u128
    } else {
        (-(a as i128)) as u128
    }
}

/// Reassemble a sign and a magnitude into a saturated raw value.
fn sat_from_parts(neg: bool, mag: u128) -> (r: i64)
    ensures
        r as int == clamp(if neg { -(mag as int) } else { mag as int }),
{
    if neg {
        if mag > RAW_MAX as u128 {
            -RAW_MAX
        } else {
            -(mag as i64)
        }
    } else {
        if mag > RAW_MAX as u128 {
            RAW_MAX
        } else {
            mag as i64
        }
    }
}

pub fn fx_add(a: i64, b: i64) -> (r: i64)
    ensures r as int == fadd(a as int, b as int),
{
    let s: i128 = a as i128 + b as i128;
    if s > RAW_MAX as i128 {
        RAW_MAX
    } else if s < -(RAW_MAX as i128) {
        -RAW_MAX
    } else {
        s as i64
    }
}

pub fn fx_sub(a: i64, b: i64) -> (r: i64)
    ensures r as int == fsub(a as int, b as int),
{
    let s: i128 = a as i128 - b as i128;
    if s > RAW_MAX as i128 {
        RAW_MAX
    } else if s < -(RAW_MAX as i128) {
        -RAW_MAX
    } else {
        s as i64
    }
}

pub fn fx_neg(a: i64) -> (r: i64)
    ensures r as int == fneg(a as int),
{
    if a < -RAW_MAX {
        RAW_MAX
    } else {
        -a
    }
}

proof fn lemma_abs_mul(a: int, b: int)
    ensures
        sabs(a * b) == sabs(a) * sabs(b),
        (a * b < 0) <==> ((a < 0) != (b < 0) && a != 0 && b != 0),
{
    assert(sabs(a * b) == sabs(a) * sabs(b)) by (nonlinear_arith);
    assert((a * b < 0) <==> ((a < 0) != (b < 0) && a != 0 && b != 0)) by (nonlinear_arith);
}

pub fn fx_mul(a: i64, b: i64) -> (r: i64)
    ensures r as int == fmul(a as int, b as int),
{
    let neg = (a < 0) != (b < 0);
    let ma = abs_u128(a);
    let mb = abs_u128(b);
    proof {
        assert(ma * mb <= 0x8000_0000_0000_0000u128 * 0x8000_0000_0000_0000u128)
            by (nonlinear_arith)
            requires ma <= 0x8000_0000_0000_0000u128 && mb <= 0x8000_0000_0000_0000u128;
    }
    let p: u128 = ma * mb;
    let q: u128 = p / (SCALE as u128);
    proof {
        lemma_abs_mul(a as int, b as int);
        assert(p == sabs(a as int * b as int));
        assert(q == sabs(a as int * b as int) / (SCALE as int));
        if a as int * b as int == 0 {
            assert(q == 0);
        }
    }
    sat_from_parts(neg, q)
}

pub fn fx_div(a: i64, b: i64) -> (r: i64)
    ensures r as int == fdiv(a as int, b as int),
{
    if b == 0 {
        if a > 0 {
            RAW_MAX
        } else if a < 0 {
            -RAW_MAX
        } else {
            0
        }
    } else {
        let neg = (a < 0) != (b < 0);
        let ma = abs_u128(a);
        let mb = abs_u128(b);
        let n: u128 = ma * (SCALE as u128);
        let q: u128 = n / mb;
        proof {
            lemma_abs_mul(a as int, SCALE as int);
            assert(n == sabs(a as int * SCALE as int));
            assert(q == sabs(a as int * SCALE as int) / sabs(b as int));
            if a == 0 {
                assert(q == 0);
            }
        }
        sat_from_parts(neg, q)
    }
}

/// `log2(e)` in raw Q40 form, for the base-2 range reduction of `exp`.
pub const LOG2E: i64 = 1586259972792;

/// Taylor coefficients of `2^f = sum_k (f * ln 2)^k / k!` on `[0, 1)`,
/// in raw Q40 form: `EXP_Ck = round((ln 2)^k / k! * SCALE)`.
pub const EXP_C0: i64 = 1099511627776;

pub const EXP_C1: i64 = 762123384786;

pub const EXP_C2: i64 = 264131837702;

pub const EXP_C3: i64 = 61027412866;

pub const EXP_C4: i64 = 10575244791;

pub const EXP_C5: i64 = 1466040222;

pub const EXP_C6: i64 = 169363608;

pub const EXP_C7: i64 = 16770558;

pub const EXP_C8: i64 = 1453058;

pub const EXP_C9: i64 = 111909;

pub const EXP_C10: i64 = 7757;

pub const EXP_C11: i64 = 489;

/// Degree-11 Horner evaluation of the `2^f` Taylor polynomial on a raw
/// fraction `f` in `[0, SCALE)`.
pub open spec fn exp_poly(f: int) -> int {
    let p = EXP_C11 as int;
    let p = fadd(fmul(p, f), EXP_C10 as int);
    let p = fadd(fmul(p, f), EXP_C9 as int);
    let p = fadd(fmul(p, f), EXP_C8 as int);
    let p = fadd(fmul(p, f), EXP_C7 as int);
    let p = fadd(fmul(p, f), EXP_C6 as int);
    let p = fadd(fmul(p, f), EXP_C5 as int);
    let p = fadd(fmul(p, f), EXP_C4 as int);
    let p = fadd(fmul(p, f), EXP_C3 as int);
    let p = fadd(fmul(p, f), EXP_C2 as int);
    let p = fadd(fmul(p, f), EXP_C1 as int);
    let p = fadd(fmul(p, f), EXP_C0 as int);
    p
}

/// The natural exponential on raw values: `exp(x / SCALE) * SCALE`,
/// computed as `2^(x * log2 e)` with the power split into an integer part
/// (a shift) and a fractional part (the Taylor polynomial). Saturates to
/// `RAW_MAX` for large inputs and underflows to `0` for very negative ones.
pub open spec fn spec_exp(x: int) -> int {
    let t = fmul(x, LOG2E as int);
    let k = t / (SCALE as int);
    let f = t % (SCALE as int);
    let p = exp_poly(f);
    if k >= 23 {
        RAW_MAX as int
    } else if k <= -41 {
        0
    } else if k >= 0 {
        clamp(p * pow2(k as nat))
    } else {
        p / pow2((-k) as nat) as int
    }
}

proof fn lemma_fmul_nonneg(a: int, b: int)
    requires 0 <= a, 0 <= b,
    ensures 0 <= fmul(a, b) <= RAW_MAX as int,
{
    assert(a * b >= 0) by (nonlinear_arith) requires a >= 0 && b >= 0;
    lemma_div_pos_is_pos(a * b, SCALE as int);
}

proof fn lemma_exp_poly_nonneg(f: int)
    requires 0 <= f,
    ensures 0 <= exp_poly(f) <= RAW_MAX as int,
{
    let p11 = EXP_C11 as int;
    lemma_fmul_nonneg(p11, f);
    let p10 = fadd(fmul(p11, f), EXP_C10 as int);
    lemma_fmul_nonneg(p10, f);
    let p9 = fadd(fmul(p10, f), EXP_C9 as int);
    lemma_fmul_nonneg(p9, f);
    let p8 = fadd(fmul(p9, f), EXP_C8 as int);
    lemma_fmul_nonneg(p8, f);
    let p7 = fadd(fmul(p8, f), EXP_C7 as int);
    lemma_fmul_nonneg(p7, f);
    let p6 = fadd(fmul(p7, f), EXP_C6 as int);
    lemma_fmul_nonneg(p6, f);
    let p5 = fadd(fmul(p6, f), EXP_C5 as int);
    lemma_fmul_nonneg(p5, f);
    let p4 = fadd(fmul(p5, f), EXP_C4 as int);
    lemma_fmul_nonneg(p4, f);
    let p3 = fadd(fmul(p4, f), EXP_C3 as int);
    lemma_fmul_nonneg(p3, f);
    let p2 = fadd(fmul(p3, f), EXP_C2 as int);
    lemma_fmul_nonneg(p2, f);
    let p1 = fadd(fmul(p2, f), EXP_C1 as int);
    lemma_fmul_nonneg(p1, f);
}

/// The exponential is never negative, whatever raw value it is given.
pub proof fn lemma_exp_nonneg(x: int)
    ensures 0 <= spec_exp(x) <= RAW_MAX as int,
{
    let t = fmul(x, LOG2E as int);
    let k = t / (SCALE as int);
    let f = t % (SCALE as int);
    lemma_mod_bound(t, SCALE as int);
    lemma_exp_poly_nonneg(f);
    let p = exp_poly(f);
    if 0 <= k < 23 {
        lemma_pow2_pos(k as nat);
        lemma_mul_nonnegative(p, pow2(k as nat) as int);
    } else if -41 < k < 0 {
        lemma_pow2_pos((-k) as nat);
        lemma_div_pos_is_pos(p, pow2((-k) as nat) as int);
        lemma_div_is_ordered_by_denominator(p, 1, pow2((-k) as nat) as int);
    }
}

/// Euclidean quotient and remainder of a raw value by `SCALE`.
fn floor_divmod_scale(t: i64) -> (kf: (i64, i64))
    requires -(RAW_MAX as int) <= t as int <= RAW_MAX as int,
    ensures
        kf.0 as int == t as int / (SCALE as int),
        kf.1 as int == t as int % (SCALE as int),
{
    if t >= 0 {
        let tu = t as u64;
        let q = tu / (SCALE as u64);
        let r = tu % (SCALE as u64);
        proof {
            lemma_fundamental_div_mod(tu as int, SCALE as int);
            lemma_fundamental_div_mod_converse(
                t as int, SCALE as int, q as int, r as int);
        }
        (q as i64, r as i64)
    } else {
        let mu = (-(t as i128)) as u64;
        let q = mu / (SCALE as u64);
        let r = mu % (SCALE as u64);
        proof {
            lemma_fundamental_div_mod(mu as int, SCALE as int);
        }
        if r == 0 {
            proof {
                lemma_fundamental_div_mod_converse(
                    t as int, SCALE as int, -(q as int), 0);
            }
            (-(q as i64), 0)
        } else {
            proof {
                lemma_fundamental_div_mod_converse(
                    t as int, SCALE as int, -(q as int) - 1, SCALE as int - r as int);
            }
            (-(q as i64) - 1, SCALE - (r as i64))
        }
    }
}

/// Exponential on raw values; returns exactly `spec_exp`.
pub fn fx_exp(x: i64) -> (r: i64)
    ensures
        r as int == spec_exp(x as int),
        0 <= r,
{
    proof {
        lemma_exp_nonneg(x as int);
    }
    let t = fx_mul(x, LOG2E);
    let kf = floor_divmod_scale(t);
    let k = kf.0;
    let f = kf.1;
    proof {
        lemma_mod_bound(t as int, SCALE as int);
        lemma_exp_poly_nonneg(f as int);
    }
    let mut p = EXP_C11;
    p = fx_add(fx_mul(p, f), EXP_C10);
    p = fx_add(fx_mul(p, f), EXP_C9);
    p = fx_add(fx_mul(p, f), EXP_C8);
    p = fx_add(fx_mul(p, f), EXP_C7);
    p = fx_add(fx_mul(p, f), EXP_C6);
    p = fx_add(fx_mul(p, f), EXP_C5);
    p = fx_add(fx_mul(p, f), EXP_C4);
    p = fx_add(fx_mul(p, f), EXP_C3);
    p = fx_add(fx_mul(p, f), EXP_C2);
    p = fx_add(fx_mul(p, f), EXP_C1);
    p = fx_add(fx_mul(p, f), EXP_C0);
    proof {
        assert(p as int == exp_poly(f as int));
    }
    if k >= 23 {
        RAW_MAX
    } else if k <= -41 {
        0
    } else if k >= 0 {
        let kk: u64 = k as u64;
        let mut r: i64 = p;
        let mut i: u64 = 0;
        proof {
            lemma2_to64();
        }
        while i < kk
            invariant
                0 <= i <= kk,
                kk <= 22,
                0 <= p as int <= RAW_MAX as int,
                r as int == clamp(p as int * pow2(i as nat)),
                0 <= r,
            decreases kk - i,
        {
            proof {
                lemma_pow2_adds(i as nat, 1);
                assert(pow2(1) == 2) by {
                    lemma2_to64();
                }
                assert(p as int * (pow2(i as nat) * 2) == (p as int * pow2(i as nat)) * 2)
                    by (nonlinear_arith);
                lemma_mul_nonnegative(p as int, pow2(i as nat) as int);
            }
            r = fx_add(r, r);
            i = i + 1;
        }
        r
    } else {
        let j: u64 = (-(k as i128)) as u64;
        let mut r: i64 = p;
        let mut i: u64 = 0;
        proof {
            lemma_pow2_pos(0);
            assert(pow2(0) == 1) by {
                lemma2_to64();
            }
        }
        while i < j
            invariant
                0 <= i <= j,
                j <= 40,
                0 <= p as int <= RAW_MAX as int,
                r as int == p as int / pow2(i as nat) as int,
                0 <= r,
            decreases j - i,
        {
            proof {
                lemma_pow2_pos(i as nat);
                lemma_pow2_adds(i as nat, 1);
                assert(pow2(1) == 2) by {
                    lemma2_to64();
                }
                lemma_div_denominator(p as int, pow2(i as nat) as int, 2);
                lemma_div_pos_is_pos(r as int, 2);
            }
            r = ((r as u64) / 2u64) as i64;
            i = i + 1;
        }
        r
    }
}

/// Normalization of a raw value in `(0, SCALE]` by doublings: returns the
/// (nonpositive) binary exponent and a mantissa in `[SCALE, 2 * SCALE)`.
pub open spec fn norm_small(m: int) -> (int, int)
    decreases 2 * (SCALE as int) - m when 0 < m
{
    if m >= SCALE as int {
        (0, m)
    } else {
        let t = norm_small(2 * m);
        (t.0 - 1, t.1)
    }
}

/// Normalization of a raw value at least `SCALE` by halvings: returns the
/// (nonnegative) binary exponent and a mantissa in `[SCALE, 2 * SCALE)`.
pub open spec fn norm_big(m: int) -> (int, int)
    decreases m when m >= SCALE as int
{
    if m < 2 * SCALE as int {
        (0, m)
    } else {
        let t = norm_big(m / 2);
        (t.0 + 1, t.1)
    }
}

fn norm_up(m: i64) -> (r: (i64, i64))
    requires 0 < m, (m as int) < 2 * (SCALE as int),
    ensures
        r.0 as int == norm_small(m as int).0,
        r.1 as int == norm_small(m as int).1,
        -41 <= r.0 <= 0,
        SCALE as int <= r.1 as int,
        (r.1 as int) < 2 * (SCALE as int),
        m as int * pow2((-r.0) as nat) == r.1 as int,
    decreases 2 * (SCALE as int) - m as int,
{
    if m >= SCALE {
        proof {
            lemma2_to64();
        }
        (0, m)
    } else {
        let t = norm_up(m * 2);
        proof {
            lemma_pow2_adds((-t.0) as nat, 1);
            assert(pow2(1) == 2 && pow2(41) == 0x20000000000) by {
                lemma2_to64();
                lemma2_to64_rest();
            }
            assert(m as int * (pow2((-t.0) as nat) * 2) == (2 * m as int) * pow2((-t.0) as nat))
                by (nonlinear_arith);
            assert(pow2((-t.0 + 1) as nat) <= m as int * pow2((-t.0 + 1) as nat))
                by (nonlinear_arith)
                requires m as int >= 1 && pow2((-t.0 + 1) as nat) >= 0;
            if -t.0 + 1 > 41 {
                lemma_pow2_strictly_increases(41, (-t.0 + 1) as nat);
            }
        }
        (t.0 - 1, t.1)
    }
}

fn norm_down(m: i64) -> (r: (i64, i64))
    requires SCALE <= m,
    ensures
        r.0 as int == norm_big(m as int).0,
        r.1 as int == norm_big(m as int).1,
        0 <= r.0 <= 23,
        SCALE as int <= r.1 as int,
        (r.1 as int) < 2 * (SCALE as int),
        pow2(r.0 as nat) * SCALE as int <= m as int,
    decreases m as int,
{
    if m < 2 * SCALE {
        proof {
            lemma2_to64();
        }
        (0, m)
    } else {
        let h = ((m as u64) / 2u64) as i64;
        let t = norm_down(h);
        proof {
            lemma_pow2_adds(t.0 as nat, 1);
            assert(pow2(1) == 2 && pow2(24) == 0x1000000 && pow2(40) == SCALE as int) by {
                lemma2_to64();
                lemma2_to64_rest();
            }
            assert((pow2(t.0 as nat) * 2) * SCALE as int == 2 * (pow2(t.0 as nat) * SCALE as int))
                by (nonlinear_arith);
            if t.0 + 1 > 23 {
                lemma_pow2_adds(24, 40);
                assert(pow2((t.0 + 1) as nat) >= pow2(24)) by {
                    if t.0 + 1 > 24 {
                        lemma_pow2_strictly_increases(24, (t.0 + 1) as nat);
                    }
                }
                assert(pow2((t.0 + 1) as nat) * SCALE as int >= pow2(24) * SCALE as int)
                    by (nonlinear_arith)
                    requires pow2((t.0 + 1) as nat) >= pow2(24) && SCALE as int > 0;
            }
        }
        (t.0 + 1, t.1)
    }
}

/// The base-2 logarithm of a normalized mantissa in `[SCALE, 2 * SCALE)`,
/// through `log2(m) = log2(e) * 2 * atanh((m - 1) / (m + 1))` with the
/// arctanh series truncated after the 15th power.
pub open spec fn log2_frac(m: int) -> int {
    let u = fdiv(fsub(m, SCALE as int), fadd(m, SCALE as int));
    let u2 = fmul(u, u);
    let t3 = fmul(u, u2);
    let t5 = fmul(t3, u2);
    let t7 = fmul(t5, u2);
    let t9 = fmul(t7, u2);
    let t11 = fmul(t9, u2);
    let t13 = fmul(t11, u2);
    let t15 = fmul(t13, u2);
    let s = fadd(u, fadd(fdivn(t3, 3), fadd(fdivn(t5, 5), fadd(fdivn(t7, 7),
        fadd(fdivn(t9, 9), fadd(fdivn(t11, 11), fadd(fdivn(t13, 13), fdivn(t15, 15))))))));
    fmul(fadd(s, s), LOG2E as int)
}

/// The base-2 logarithm on raw values: `log2(x / SCALE) * SCALE`. A
/// nonpositive argument saturates to the most negative raw value.
pub open spec fn spec_log2(x: int) -> int {
    if x <= 0 {
        -(RAW_MAX as int)
    } else {
        let em = if x < SCALE as int { norm_small(x) } else { norm_big(x) };
        fadd(em.0 * SCALE as int, log2_frac(em.1))
    }
}

/// Base-2 logarithm on raw values; returns exactly `spec_log2`.
pub fn fx_log2(x: i64) -> (r: i64)
    ensures r as int == spec_log2(x as int),
{
    if x <= 0 {
        return -RAW_MAX;
    }
    let em = if x < SCALE { norm_up(x) } else { norm_down(x) };
    let e = em.0;
    let m = em.1;
    let u = fx_div(fx_sub(m, SCALE), fx_add(m, SCALE));
    let u2 = fx_mul(u, u);
    let t3 = fx_mul(u, u2);
    let t5 = fx_mul(t3, u2);
    let t7 = fx_mul(t5, u2);
    let t9 = fx_mul(t7, u2);
    let t11 = fx_mul(t9, u2);
    let t13 = fx_mul(t11, u2);
    let t15 = fx_mul(t13, u2);
    let s = fx_add(u, fx_add(fx_divn(t3, 3), fx_add(fx_divn(t5, 5), fx_add(fx_divn(t7, 7),
        fx_add(fx_divn(t9, 9), fx_add(fx_divn(t11, 11),
        fx_add(fx_divn(t13, 13), fx_divn(t15, 15))))))));
    let frac = fx_mul(fx_add(s, s), LOG2E);
    fx_add(e * SCALE, frac)
}

pub fn fx_divn(a: i64, n: u64) -> (r: i64)
    requires n > 0,
    ensures r as int == fdivn(a as int, n as int),
{
    let ma = abs_u128(a);
    let q: u128 = ma / (n as u128);
    proof {
        assert(q <= ma) by (nonlinear_arith)
            requires q == ma / (n as u128) && n >= 1;
    }
    sat_from_parts(a < 0, q)
}

} // verus!
