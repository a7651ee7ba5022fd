//! Fixed-point arithmetic helpers.
//!
//! Amplitudes are Q24 (`AMP_ONE` is full scale), filter and blend constants
//! are Q30, and pitch ratios, phases and offsets are Q32 (`RATIO_ONE` is
//! one).
use vstd::prelude::*;
use vstd::arithmetic::power2::{
    pow2, lemma_pow2_adds, lemma_pow2_strictly_increases, lemma2_to64, lemma2_to64_rest,
};
use vstd::arithmetic::div_mod::{lemma_fundamental_div_mod, lemma_fundamental_div_mod_converse};

verus! {

/// `2^e`, as an exec value.
pub fn pow2_u64(e: u64) -> (r: u64)
    requires
        e < 64,
    ensures
        r == pow2(e as nat),
        r >= 1,
{
    proof {
        lemma2_to64();
    }
    let mut r: u64 = 1;
    let mut i: u64 = 0;
    while i < e
        invariant
            i <= e < 64,
            r == pow2(i as nat),
            r >= 1,
        decreases e - i,
    {
        proof {
            lemma_pow2_adds(i as nat, 1);
            lemma2_to64();
            if ((i + 1) as nat) < 63 {
                lemma_pow2_strictly_increases((i + 1) as nat, 63);
            }
            lemma2_to64_rest();
        }
        r = r * 2;
        i = i + 1;
    }
    r
}

/// `2^e` as a `usize`, for small exponents.
pub fn pow2_usize(e: usize) -> (r: usize)
    requires
        e < 30,
    ensures
        r == pow2(e as nat),
        r >= 1,
{
    proof {
        lemma2_to64();
    }
    let mut r: usize = 1;
    let mut i: usize = 0;
    while i < e
        invariant
            i <= e < 30,
            r == pow2(i as nat),
            r >= 1,
        decreases e - i,
    {
        proof {
            lemma_pow2_adds(i as nat, 1);
            lemma2_to64();
            if ((i + 1) as nat) < 30 {
                lemma_pow2_strictly_increases((i + 1) as nat, 30);
            }
        }
        r = r * 2;
        i = i + 1;
    }
    r
}

/// Floor division of a signed value by a positive divisor.
///
/// Matches the mathematical (euclidean) quotient, which rounds toward
/// negative infinity; this is the rounding every fixed-point scaling step
/// of the library uses.
pub fn fdiv_i64(x: i64, d: u64) -> (r: i64)
    requires
        d >= 1,
        d <= 0x7fff_ffff_ffff_ffff,
    ensures
        r as int == (x as int) / (d as int),
{
    if x >= 0 {
        let q: u64 = (x as u64) / d;
        q as i64
    } else {
        let y: u64 = (-(x + 1)) as u64;
        let q: u64 = y / d;
        proof {
            lemma_fundamental_div_mod(y as int, d as int);
            let qi = q as int;
            let di = d as int;
            let ri = (y as int) % di;
            // x == -y - 1 == (-1 - q) * d + (d - 1 - y % d), with the
            // remainder in [0, d), so the euclidean quotient of x is -1 - q.
            assert(y as int == di * qi + ri);
            assert(x as int == -(y as int) - 1);
            assert((-1 - qi) * di + (di - 1 - ri) == -(di * qi + ri) - 1) by (nonlinear_arith);
            assert(x as int == (-1 - qi) * di + (di - 1 - ri));
            assert(0 <= di - 1 - ri < di);
            lemma_fundamental_div_mod_converse(x as int, di, -1 - qi, di - 1 - ri);
        }
        -1 - (q as i64)
    }
}

/// The Q30 scaling step: floor of `x / 2^30`.
pub open spec fn q30(x: int) -> int {
    x / 0x4000_0000
}

/// Multiply two Q-format values and drop 30 fractional bits.
pub fn mul_q30(a: i64, b: i64) -> (r: i64)
    requires
        -0x8000_0000_0000 <= a as int * b as int <= 0x7fff_ffff_ffff_ffff,
    ensures
        r as int == q30(a as int * b as int),
{
    let p: i64 = a * b;
    fdiv_i64(p, 0x4000_0000)
}

/// The Q32 constants `2^(2^-(i+1))` for `i` in `0..16`, the per-bit factors
/// of the binary-exponentiation ladder in `exp2_frac_q32`.
pub open spec fn exp2_frac_const_spec(i: int) -> u64 {
    if i == 0 { 6074001000 }
    else if i == 1 { 5107605667 }
    else if i == 2 { 4683695048 }
    else if i == 3 { 4485121744 }
    else if i == 4 { 4389014833 }
    else if i == 5 { 4341736423 }
    else if i == 6 { 4318288544 }
    else if i == 7 { 4306612134 }
    else if i == 8 { 4300785774 }
    else if i == 9 { 4297875550 }
    else if i == 10 { 4296421177 }
    else if i == 11 { 4295694175 }
    else if i == 12 { 4295330720 }
    else if i == 13 { 4295149004 }
    else if i == 14 { 4295058149 }
    else { 4295012722 }
}

fn exp2_frac_const(i: usize) -> (r: u64)
    requires
        i < 16,
    ensures
        r == exp2_frac_const_spec(i as int),
        0x1_0000_0000 < r <= 6074001000,
{
    if i == 0 { 6074001000 }
    else if i == 1 { 5107605667 }
    else if i == 2 { 4683695048 }
    else if i == 3 { 4485121744 }
    else if i == 4 { 4389014833 }
    else if i == 5 { 4341736423 }
    else if i == 6 { 4318288544 }
    else if i == 7 { 4306612134 }
    else if i == 8 { 4300785774 }
    else if i == 9 { 4297875550 }
    else if i == 10 { 4296421177 }
    else if i == 11 { 4295694175 }
    else if i == 12 { 4295330720 }
    else if i == 13 { 4295149004 }
    else if i == 14 { 4295058149 }
    else { 4295012722 }
}

/// The Q32 value of `2^(f/2^16)` after the first `n` bits of the Q16
/// fraction `f` have been folded in, most significant bit first. Each step
/// multiplies by the matching root of two and saturates at two, so the
/// result stays in `[1, 2]` in Q32.
pub open spec fn exp2_frac_rec(f: u64, n: nat) -> int
    decreases n,
{
    if n == 0 {
        0x1_0000_0000
    } else {
        let prev = exp2_frac_rec(f, (n - 1) as nat);
        let bit = ((f as int) / (pow2((16 - n) as nat) as int)) % 2;
        if bit == 1 {
            let m = prev * (exp2_frac_const_spec(n - 1) as int) / 0x1_0000_0000;
            if m > 0x2_0000_0000 { 0x2_0000_0000 } else { m }
        } else {
            prev
        }
    }
}

proof fn lemma_exp2_frac_zero(n: nat)
    requires
        n <= 16,
    ensures
        exp2_frac_rec(0, n) == 0x1_0000_0000,
    decreases n,
{
    if n > 0 {
        lemma_exp2_frac_zero((n - 1) as nat);
        vstd::arithmetic::power2::lemma_pow2_pos((16 - n) as nat);
    }
}

/// `2^(f/2^16)` in Q32 for a Q16 fraction `f` in `[0, 1)`.
pub fn exp2_frac_q32(f: u64) -> (r: u64)
    requires
        f < 0x1_0000,
    ensures
        r as int == exp2_frac_rec(f, 16),
        0x1_0000_0000 <= r <= 0x2_0000_0000,
{
    let mut r: u64 = 0x1_0000_0000;
    let mut i: usize = 0;
    while i < 16
        invariant
            f < 0x1_0000,
            i <= 16,
            r as int == exp2_frac_rec(f, i as nat),
            0x1_0000_0000 <= r <= 0x2_0000_0000,
        decreases 16 - i,
    {
        let bit: u64 = (f / pow2_u64((15 - i) as u64)) % 2;
        if bit == 1 {
            let c: u64 = exp2_frac_const(i);
            proof {
                assert((r as int) * (c as int) < 0x1_0000_0000_0000_0000_0000_0000
                    && (r as int) * (c as int) >= (r as int) * 0x1_0000_0000)
                    by (nonlinear_arith)
                    requires
                        0x1_0000_0000 <= r as int <= 0x2_0000_0000,
                        0x1_0000_0000 < c as int <= 6074001000,
                ;
                vstd::arithmetic::div_mod::lemma_div_multiples_vanish(
                    r as int, 0x1_0000_0000,
                );
                vstd::arithmetic::div_mod::lemma_div_is_ordered(
                    (r as int) * 0x1_0000_0000,
                    (r as int) * (c as int),
                    0x1_0000_0000,
                );
            }
            let m: u64 = mul_shift32_u64(r, c);
            r = if m > 0x2_0000_0000 { 0x2_0000_0000 } else { m };
        }
        i = i + 1;
    }
    r
}

/// `2^(x/2^16)` in Q32 for a Q16 exponent `x` measured in octaves.
pub open spec fn spec_exp2_q32(x: i64) -> int {
    let k = (x as int) / 0x1_0000;
    let f = (x as int) - k * 0x1_0000;
    let frac = exp2_frac_rec(f as u64, 16);
    if k >= 0 {
        frac * (pow2(k as nat) as int)
    } else {
        frac / (pow2((-k) as nat) as int)
    }
}

/// `2^(x/2^16)` in Q32, for up to sixteen octaves either way.
pub fn exp2_q32(x: i64) -> (r: u64)
    requires
        -0x10_0000 <= x <= 0x10_0000,
    ensures
        r as int == spec_exp2_q32(x),
        x == 0 ==> r == 0x1_0000_0000,
        r <= 0x2_0000_0000_0000,
{
    let k: i64 = fdiv_i64(x, 0x1_0000);
    proof {
        lemma_fundamental_div_mod(x as int, 0x1_0000);
    }
    let f: u64 = (x - k * 0x1_0000) as u64;
    let frac: u64 = exp2_frac_q32(f);
    proof {
        if x == 0 {
            lemma_exp2_frac_zero(16);
        }
    }
    if k >= 0 {
        let p: u64 = pow2_u64(k as u64);
        proof {
            lemma2_to64();
            lemma_pow2_strictly_increases(k as nat, 17);
            assert((frac as int) * (p as int) <= 0x2_0000_0000_0000) by (nonlinear_arith)
                requires
                    frac as int <= 0x2_0000_0000,
                    0 < p as int <= 0x1_0000,
            ;
        }
        frac * p
    } else {
        let p: u64 = pow2_u64((-k) as u64);
        frac / p
    }
}

/// Multiply two Q32 values: floor of `a * b / 2^32`.
pub fn mul_shift32_u64(a: u64, b: u64) -> (r: u64)
    requires
        (a as int) * (b as int) < 0x1_0000_0000_0000_0000_0000_0000,
    ensures
        r as int == (a as int) * (b as int) / 0x1_0000_0000,
{
    let p: u128 = (a as u128) * (b as u128);
    let q: u128 = p / 0x1_0000_0000;
    q as u64
}

} // verus!
