//! Band aggregation.
//!
//! The magnitude-bin axis (linear in Hz) is folded onto `num_bands`
//! perceptual buckets between the configured cutoffs.  Each scale bends
//! the Hz axis with a forward transform, cuts the bent axis into equal
//! steps, and maps each step boundary back to Hz with the inverse
//! transform; bins between two boundaries are summed and normalised by
//! the *total* bin count (a deliberate bias against narrow bands).

use vstd::prelude::*;

use crate::band_smoothing::{all_lt, sum_range, BAND_MAX};
use crate::config::{Banding, FrequencyScale, HZ_MAX};
use crate::exp2::{
    exp2_raw, exp2_raw_spec, lemma_exp2_raw_bounds, lemma_exp2_raw_monotone, lemma_log2_spec_below,
    lemma_log2_spec_at_least, lemma_log2_spec_monotone, log2_raw, log2_spec, EXP2_IN_MAX,
    LOG2_IN_MAX,
};
use crate::fixed::{isqrt, lemma_sqrt_floor_bounds, lemma_sqrt_floor_monotone, sqrt_floor, FP};

verus! {

/// `2595 * log10(2) * FP`: mel units per octave, Q16.
pub const C_MEL_FWD: u64 = 51194943;

/// `log2(10) / 2595`, scaled by `2^26`: octaves per mel unit.
pub const C_MEL_INV: u64 = 85908;

/// `7 * ln(2) * FP`: bark units per octave, Q16.
pub const C_BARK_FWD: u64 = 317983;

/// `log2(e) / 7`, scaled by `2^26`: octaves per bark unit.
pub const C_BARK_INV: u64 = 13831089;

/// Forward transform: Q16 Hz onto the selected perceptual axis.
pub open spec fn fwd_spec(scale: FrequencyScale, hz: u64) -> u64 {
    match scale {
        FrequencyScale::Linear => hz,
        FrequencyScale::Logarithmic => log2_spec(hz),
        FrequencyScale::Mel => {
            let u = (FP + hz / 700) as u64;
            ((C_MEL_FWD * (log2_spec(u) - 16 * FP)) / (FP as int)) as u64
        },
        FrequencyScale::Bark => {
            let x = hz / 600;
            let x2 = (x * x) / (FP as int);
            let s = sqrt_floor(((x2 + FP) * FP) as nat);
            let u = (x + s) as u64;
            ((C_BARK_FWD * (log2_spec(u) - 16 * FP)) / (FP as int)) as u64
        },
    }
}

/// Inverse transform: a perceptual-axis value back to Q16 Hz.
pub open spec fn inv_spec(scale: FrequencyScale, s: u64) -> u64 {
    match scale {
        FrequencyScale::Linear => s,
        FrequencyScale::Logarithmic => exp2_raw_spec(s),
        FrequencyScale::Mel => {
            let e = ((s * C_MEL_INV) / 0x400_0000) as u64;
            let q = exp2_raw_spec((16 * FP + e) as u64);
            (700 * (q - FP)) as u64
        },
        FrequencyScale::Bark => {
            let e = ((s * C_BARK_INV) / 0x400_0000) as u64;
            let et = exp2_raw_spec((16 * FP + e) as u64);
            let em = (FP * FP) as u64 / et;
            if et > em {
                (300 * (et - em)) as u64
            } else {
                0
            }
        },
    }
}

/// Upper bound of each scale's forward image over valid cutoffs.
pub open spec fn fwd_cap(scale: FrequencyScale) -> u64 {
    match scale {
        FrequencyScale::Linear => HZ_MAX,
        FrequencyScale::Logarithmic => (39 * FP) as u64,
        FrequencyScale::Mel => 671000000,
        FrequencyScale::Bark => 5500000,
    }
}

/// `x / 700 + FP` for a valid Hz value stays in `log2_spec`'s domain
/// and below `2^29`.
proof fn lemma_mel_u_bounds(hz: u64)
    requires
        1 <= hz <= HZ_MAX,
    ensures
        FP <= FP + hz / 700 < 0x2000_0000,
        log2_spec((FP + hz / 700) as u64) < 29 * FP,
        16 * FP <= log2_spec((FP + hz / 700) as u64),
{
    let u = (FP + hz / 700) as u64;
    assert(hz / 700 <= HZ_MAX / 700);
    vstd::arithmetic::power2::lemma2_to64();
    assert(vstd::arithmetic::power2::pow2(29) == 0x2000_0000);
    lemma_log2_spec_below(u, 29);
    lemma_log2_spec_at_least(u, 16);
}

/// The intermediate values of the bark forward transform are bounded.
proof fn lemma_bark_u_bounds(hz: u64)
    requires
        1 <= hz <= HZ_MAX,
    ensures
        ({
            let x = hz / 600;
            let x2 = (x * x) / (FP as int);
            let s = sqrt_floor(((x2 + FP) * FP) as nat);
            &&& x < 0x2000_0000
            &&& x * x < 0x400_0000_0000_0000
            &&& x2 < 0x400_0000_0000
            &&& (x2 + FP) * FP < 0x4000_0000_0000_0000
            &&& FP <= s < 0x8000_0000
            &&& FP <= x + s < 0x1_0000_0000
            &&& log2_spec((x + s) as u64) < 33 * FP
            &&& 16 * FP <= log2_spec((x + s) as u64)
        }),
{
    let x = hz / 600;
    assert(x <= HZ_MAX / 600);
    assert(x * x < 0x2000_0000 * 0x2000_0000) by (nonlinear_arith)
        requires
            0 <= x < 0x2000_0000,
    ;
    let x2 = (x * x) / (FP as int);
    assert(x2 < 0x400_0000_0000) by (nonlinear_arith)
        requires
            0 <= x * x < 0x400_0000_0000_0000,
            x2 == (x * x) / (FP as int),
            FP == 65536u64,
    ;
    assert(x2 >= 0) by (nonlinear_arith)
        requires
            x * x >= 0,
            x2 == (x * x) / (FP as int),
            FP == 65536u64,
    ;
    assert((x2 + FP) * FP < 0x4000_0000_0000_0000) by (nonlinear_arith)
        requires
            0 <= x2 < 0x400_0000_0000,
            FP == 65536u64,
    ;
    let s = sqrt_floor(((x2 + FP) * FP) as nat);
    lemma_sqrt_floor_bounds(((x2 + FP) * FP) as nat);
    assert(s * s <= (x2 + FP) * FP);
    assert(s < 0x8000_0000) by (nonlinear_arith)
        requires
            s * s <= (x2 + FP) * FP,
            (x2 + FP) * FP < 0x4000_0000_0000_0000,
            s >= 0,
    ;
    assert(FP * FP <= (x2 + FP) * FP) by (nonlinear_arith)
        requires
            x2 >= 0,
            FP == 65536u64,
    ;
    assert(FP <= s) by (nonlinear_arith)
        requires
            FP * FP <= (x2 + FP) * FP,
            (x2 + FP) * FP < (s + 1) * (s + 1),
            FP == 65536u64,
            s >= 0,
    ;
    let u = (x + s) as u64;
    vstd::arithmetic::power2::lemma2_to64();
    vstd::arithmetic::power2::lemma2_to64_rest();
    assert(vstd::arithmetic::power2::pow2(33) == 0x2_0000_0000);
    lemma_log2_spec_below(u, 33);
    lemma_log2_spec_at_least(u, 16);
}

/// The forward image of any valid Hz value is under the scale's cap.
pub proof fn lemma_fwd_in_cap(scale: FrequencyScale, hz: u64)
    requires
        1 <= hz <= HZ_MAX,
    ensures
        fwd_spec(scale, hz) <= fwd_cap(scale),
{
    match scale {
        FrequencyScale::Linear => {},
        FrequencyScale::Logarithmic => {
            vstd::arithmetic::power2::lemma2_to64();
            vstd::arithmetic::power2::lemma2_to64_rest();
            assert(vstd::arithmetic::power2::pow2(39) == 0x80_0000_0000);
            lemma_log2_spec_below(hz, 39);
        },
        FrequencyScale::Mel => {
            lemma_mel_u_bounds(hz);
            let u = (FP + hz / 700) as u64;
            let d = log2_spec(u) - 16 * FP;
            assert(0 <= d < 13 * FP);
            assert((C_MEL_FWD * d) / (FP as int) <= 671000000) by (nonlinear_arith)
                requires
                    0 <= d < 13 * FP,
                    FP == 65536u64,
                    C_MEL_FWD == 51194943u64,
            ;
        },
        FrequencyScale::Bark => {
            lemma_bark_u_bounds(hz);
            let x = hz / 600;
            let x2 = (x * x) / (FP as int);
            let s = sqrt_floor(((x2 + FP) * FP) as nat);
            let u = (x + s) as u64;
            let d = log2_spec(u) - 16 * FP;
            assert(0 <= d < 17 * FP);
            assert((C_BARK_FWD * d) / (FP as int) <= 5500000) by (nonlinear_arith)
                requires
                    0 <= d < 17 * FP,
                    FP == 65536u64,
                    C_BARK_FWD == 317983u64,
            ;
        },
    }
}

/// The forward transforms never fall as the frequency grows.
pub proof fn lemma_fwd_monotone(scale: FrequencyScale, h1: u64, h2: u64)
    requires
        1 <= h1 <= h2 <= HZ_MAX,
    ensures
        fwd_spec(scale, h1) <= fwd_spec(scale, h2),
{
    match scale {
        FrequencyScale::Linear => {},
        FrequencyScale::Logarithmic => {
            lemma_log2_spec_monotone(h1, h2);
        },
        FrequencyScale::Mel => {
            lemma_mel_u_bounds(h1);
            lemma_mel_u_bounds(h2);
            let u1 = (FP + h1 / 700) as u64;
            let u2 = (FP + h2 / 700) as u64;
            vstd::arithmetic::div_mod::lemma_div_is_ordered(h1 as int, h2 as int, 700);
            lemma_log2_spec_monotone(u1, u2);
            let d1 = log2_spec(u1) - 16 * FP;
            let d2 = log2_spec(u2) - 16 * FP;
            assert((C_MEL_FWD * d1) / (FP as int) <= (C_MEL_FWD * d2) / (FP as int))
                by (nonlinear_arith)
                requires
                    0 <= d1 <= d2,
                    C_MEL_FWD >= 0,
                    FP == 65536u64,
            ;
        },
        FrequencyScale::Bark => {
            lemma_bark_u_bounds(h1);
            lemma_bark_u_bounds(h2);
            let x1 = h1 / 600;
            let x2h = h2 / 600;
            vstd::arithmetic::div_mod::lemma_div_is_ordered(h1 as int, h2 as int, 600);
            let a1 = (x1 * x1) / (FP as int);
            let a2 = (x2h * x2h) / (FP as int);
            assert(x1 * x1 <= x2h * x2h) by (nonlinear_arith)
                requires
                    0 <= x1 <= x2h,
            ;
            vstd::arithmetic::div_mod::lemma_div_is_ordered(
                (x1 * x1) as int,
                (x2h * x2h) as int,
                FP as int,
            );
            assert((a1 + FP) * FP <= (a2 + FP) * FP) by (nonlinear_arith)
                requires
                    a1 <= a2,
                    FP == 65536u64,
            ;
            lemma_sqrt_floor_monotone(((a1 + FP) * FP) as nat, ((a2 + FP) * FP) as nat);
            let s1 = sqrt_floor(((a1 + FP) * FP) as nat);
            let s2 = sqrt_floor(((a2 + FP) * FP) as nat);
            lemma_log2_spec_monotone((x1 + s1) as u64, (x2h + s2) as u64);
            let d1 = log2_spec((x1 + s1) as u64) - 16 * FP;
            let d2 = log2_spec((x2h + s2) as u64) - 16 * FP;
            assert((C_BARK_FWD * d1) / (FP as int) <= (C_BARK_FWD * d2) / (FP as int))
                by (nonlinear_arith)
                requires
                    0 <= d1 <= d2,
                    C_BARK_FWD >= 0,
                    FP == 65536u64,
            ;
        },
    }
}

/// Exponent bounds shared by the mel and bark inverses: the product of
/// a capped scale value with its inverse constant lands the `exp2`
/// argument strictly inside the curve's domain and under 34 octaves.
proof fn lemma_inv_exponent_bounds(s: u64, c: u64)
    requires
        s * c <= 79000000000000,
    ensures
        0 <= (s * c) / 0x400_0000 < 18 * FP,
        16 * FP + (s * c) / 0x400_0000 < 34 * FP,
        16 * FP + (s * c) / 0x400_0000 < EXP2_IN_MAX,
        ({
            let arg = (16 * FP + (s * c) / 0x400_0000) as u64;
            &&& FP <= exp2_raw_spec(arg)
            &&& exp2_raw_spec(arg) <= 0x4_0000_0000
        }),
{
    assert((s * c) / 0x400_0000 < 18 * FP) by (nonlinear_arith)
        requires
            0 <= s * c <= 79000000000000,
            FP == 65536u64,
    ;
    let e = (s * c) / 0x400_0000;
    let arg = (16 * FP + e) as u64;
    let k = (arg / FP) as nat;
    lemma_exp2_raw_bounds(arg);
    vstd::arithmetic::div_mod::lemma_fundamental_div_mod(arg as int, FP as int);
    assert(16 <= k <= 33) by (nonlinear_arith)
        requires
            k * FP <= arg < (k + 1) * FP,
            16 * FP <= arg < 34 * FP,
            FP == 65536u64,
    ;
    vstd::arithmetic::power2::lemma2_to64();
    vstd::arithmetic::power2::lemma2_to64_rest();
    if k > 16 {
        vstd::arithmetic::power2::lemma_pow2_strictly_increases(16, k);
    }
    if k + 1 < 34 {
        vstd::arithmetic::power2::lemma_pow2_strictly_increases((k + 1) as nat, 34);
    }
    assert(vstd::arithmetic::power2::pow2(16) <= vstd::arithmetic::power2::pow2(k));
    assert(vstd::arithmetic::power2::pow2((k + 1) as nat) <= vstd::arithmetic::power2::pow2(34));
    assert(vstd::arithmetic::power2::pow2(34) == 0x4_0000_0000);
}

/// The inverse transforms never fall as the scale value grows.
pub proof fn lemma_inv_monotone(scale: FrequencyScale, s1: u64, s2: u64)
    requires
        s1 <= s2 <= fwd_cap(scale),
    ensures
        inv_spec(scale, s1) <= inv_spec(scale, s2),
{
    match scale {
        FrequencyScale::Linear => {},
        FrequencyScale::Logarithmic => {
            lemma_exp2_raw_monotone(s1, s2);
        },
        FrequencyScale::Mel => {
            assert(s2 * C_MEL_INV <= 79000000000000 && s1 * C_MEL_INV <= s2 * C_MEL_INV)
                by (nonlinear_arith)
                requires
                    0 <= s1 <= s2 <= 671000000,
                    C_MEL_INV == 85908u64,
            ;
            lemma_inv_exponent_bounds(s1, C_MEL_INV);
            lemma_inv_exponent_bounds(s2, C_MEL_INV);
            let e1 = ((s1 * C_MEL_INV) / 0x400_0000) as u64;
            let e2 = ((s2 * C_MEL_INV) / 0x400_0000) as u64;
            vstd::arithmetic::div_mod::lemma_div_is_ordered(
                (s1 * C_MEL_INV) as int,
                (s2 * C_MEL_INV) as int,
                0x400_0000,
            );
            lemma_exp2_raw_monotone((16 * FP + e1) as u64, (16 * FP + e2) as u64);
            let q1 = exp2_raw_spec((16 * FP + e1) as u64);
            let q2 = exp2_raw_spec((16 * FP + e2) as u64);
            assert(FP <= q1 <= q2 <= 0x4_0000_0000);
            assert(700 * (q1 - FP) <= 700 * (q2 - FP)) by (nonlinear_arith)
                requires
                    0 <= q1 - FP <= q2 - FP,
            ;
            assert(700 * (q2 - FP) <= 700 * 0x4_0000_0000) by (nonlinear_arith)
                requires
                    0 <= q2 - FP <= 0x4_0000_0000,
            ;
        },
        FrequencyScale::Bark => {
            assert(s2 * C_BARK_INV <= 79000000000000 && s1 * C_BARK_INV <= s2 * C_BARK_INV)
                by (nonlinear_arith)
                requires
                    0 <= s1 <= s2 <= 5500000,
                    C_BARK_INV == 13831089u64,
            ;
            lemma_inv_exponent_bounds(s1, C_BARK_INV);
            lemma_inv_exponent_bounds(s2, C_BARK_INV);
            let e1 = ((s1 * C_BARK_INV) / 0x400_0000) as u64;
            let e2 = ((s2 * C_BARK_INV) / 0x400_0000) as u64;
            vstd::arithmetic::div_mod::lemma_div_is_ordered(
                (s1 * C_BARK_INV) as int,
                (s2 * C_BARK_INV) as int,
                0x400_0000,
            );
            lemma_exp2_raw_monotone((16 * FP + e1) as u64, (16 * FP + e2) as u64);
            let t1 = exp2_raw_spec((16 * FP + e1) as u64);
            let t2 = exp2_raw_spec((16 * FP + e2) as u64);
            assert(FP <= t1 <= t2 <= 0x4_0000_0000);
            let m1 = (FP * FP) as u64 / t1;
            let m2 = (FP * FP) as u64 / t2;
            vstd::arithmetic::div_mod::lemma_div_is_ordered_by_denominator(
                (FP * FP) as int,
                t1 as int,
                t2 as int,
            );
            assert(m2 <= m1);
            if t1 > m1 {
                assert(t1 - m1 <= t2 - m2);
                assert(t2 > m2);
                assert(300 * (t1 - m1) <= 300 * (t2 - m2)) by (nonlinear_arith)
                    requires
                        0 <= t1 - m1 <= t2 - m2,
                ;
                assert(300 * (t2 - m2) <= 300 * 0x4_0000_0000) by (nonlinear_arith)
                    requires
                        0 <= t2 - m2 <= 0x4_0000_0000,
                ;
            }
        },
    }
}

/// `exp2` at exactly 16 octaves is `FP`.
proof fn lemma_exp2_whole_16()
    ensures
        exp2_raw_spec((16 * FP) as u64) == FP,
{
    crate::exp2::lemma_exp2_whole_octave(16);
    vstd::arithmetic::power2::lemma2_to64();
}

/// Exec mirror of [`fwd_spec`].
pub fn forward(scale: FrequencyScale, hz: u64) -> (r: u64)
    requires
        1 <= hz <= HZ_MAX,
    ensures
        r == fwd_spec(scale, hz),
        r <= fwd_cap(scale),
{
    proof {
        lemma_fwd_in_cap(scale, hz);
    }
    match scale {
        FrequencyScale::Linear => hz,
        FrequencyScale::Logarithmic => log2_raw(hz),
        FrequencyScale::Mel => {
            proof {
                lemma_mel_u_bounds(hz);
            }
            let u: u64 = FP + hz / 700;
            let l: u64 = log2_raw(u);
            proof {
                assert(C_MEL_FWD * (l - 16 * FP) < C_MEL_FWD * (13 * FP)) by (nonlinear_arith)
                    requires
                        0 <= l - 16 * FP < 13 * FP,
                        C_MEL_FWD == 51194943u64,
                ;
            }
            (C_MEL_FWD * (l - 16 * FP)) / FP
        },
        FrequencyScale::Bark => {
            proof {
                lemma_bark_u_bounds(hz);
            }
            let x: u64 = hz / 600;
            let x2: u64 = (x * x) / FP;
            let s: u64 = isqrt((x2 + FP) * FP);
            let u: u64 = x + s;
            let l: u64 = log2_raw(u);
            proof {
                assert(C_BARK_FWD * (l - 16 * FP) < C_BARK_FWD * (17 * FP)) by (nonlinear_arith)
                    requires
                        0 <= l - 16 * FP < 17 * FP,
                        C_BARK_FWD == 317983u64,
                ;
            }
            (C_BARK_FWD * (l - 16 * FP)) / FP
        },
    }
}

/// Exec mirror of [`inv_spec`]; the result always fits well under
/// `2^48`, so a bin ceiling never overflows.
pub fn inverse(scale: FrequencyScale, s: u64) -> (r: u64)
    requires
        s <= fwd_cap(scale),
    ensures
        r == inv_spec(scale, s),
        r <= 0x1_0000_0000_0000,
{
    match scale {
        FrequencyScale::Linear => s,
        FrequencyScale::Logarithmic => {
            proof {
                lemma_exp2_raw_bounds(s);
                vstd::arithmetic::div_mod::lemma_div_is_ordered(
                    s as int,
                    (39 * FP) as int,
                    FP as int,
                );
                vstd::arithmetic::div_mod::lemma_div_by_multiple(39, FP as int);
                assert(s / FP <= 39);
                let kk = (s / FP + 1) as nat;
                if kk < 40 {
                    vstd::arithmetic::power2::lemma_pow2_strictly_increases(kk, 40);
                }
                vstd::arithmetic::power2::lemma2_to64_rest();
                assert(vstd::arithmetic::power2::pow2(40) == 0x100_0000_0000);
            }
            exp2_raw(s)
        },
        FrequencyScale::Mel => {
            proof {
                assert(s * C_MEL_INV <= 79000000000000) by (nonlinear_arith)
                    requires
                        0 <= s <= 671000000,
                        C_MEL_INV == 85908u64,
                ;
                lemma_inv_exponent_bounds(s, C_MEL_INV);
            }
            let e: u64 = (s * C_MEL_INV) / 0x400_0000;
            let q: u64 = exp2_raw(16 * FP + e);
            proof {
                assert(700 * (q - FP) <= 700 * 0x4_0000_0000) by (nonlinear_arith)
                    requires
                        0 <= q - FP <= 0x4_0000_0000,
                ;
            }
            700 * (q - FP)
        },
        FrequencyScale::Bark => {
            proof {
                assert(s * C_BARK_INV <= 79000000000000) by (nonlinear_arith)
                    requires
                        0 <= s <= 5500000,
                        C_BARK_INV == 13831089u64,
                ;
                lemma_inv_exponent_bounds(s, C_BARK_INV);
            }
            let e: u64 = (s * C_BARK_INV) / 0x400_0000;
            let et: u64 = exp2_raw(16 * FP + e);
            let em: u64 = (FP * FP) / et;
            if et > em {
                proof {
                    assert(300 * (et - em) <= 300 * 0x4_0000_0000) by (nonlinear_arith)
                        requires
                            0 <= et - em <= 0x4_0000_0000,
                    ;
                }
                300 * (et - em)
            } else {
                0
            }
        },
    }
}

/// Scale-domain boundary `i` of `n` equal steps from `lo_s` to `hi_s`.
pub open spec fn scale_step(lo_s: u64, hi_s: u64, n: u64, i: int) -> u64 {
    (lo_s + (i * (hi_s - lo_s)) / (n as int)) as u64
}

/// Boundary `i` of the band partition, mapped back to Q16 Hz.
pub open spec fn boundary_hz(scale: FrequencyScale, low: u64, high: u64, n: u64, i: int) -> u64 {
    inv_spec(scale, scale_step(fwd_spec(scale, low), fwd_spec(scale, high), n, i))
}

/// Scale-domain boundaries are ordered and stay inside the image of
/// the cutoff range.
proof fn lemma_scale_step_ordered(lo_s: u64, hi_s: u64, n: u64, i: int, j: int)
    requires
        lo_s <= hi_s,
        1 <= n,
        0 <= i <= j <= n,
    ensures
        lo_s <= scale_step(lo_s, hi_s, n, i) <= scale_step(lo_s, hi_s, n, j) <= hi_s,
        scale_step(lo_s, hi_s, n, 0) == lo_s,
        scale_step(lo_s, hi_s, n, n as int) == hi_s,
{
    let d = hi_s - lo_s;
    assert(0 * d == 0) by (nonlinear_arith);
    assert(i * d <= j * d <= n * d) by (nonlinear_arith)
        requires
            0 <= i <= j <= n,
            d >= 0,
    ;
    vstd::arithmetic::div_mod::lemma_div_is_ordered(i * d, j * d, n as int);
    vstd::arithmetic::div_mod::lemma_div_is_ordered(j * d, n * d, n as int);
    vstd::arithmetic::div_mod::lemma_div_multiples_vanish(d, n as int);
    assert(n * d == (n as int) * d);
    assert((n * d) / (n as int) == d);
    vstd::arithmetic::div_mod::lemma_div_pos_is_pos(i * d, n as int);
}

/// The band partition law: for any valid cutoff range, scale and band
/// count, the `n + 1` boundary frequencies are monotonically
/// non-decreasing, neighbouring bands share their boundary (band `b`
/// spans boundaries `b` and `b + 1` by construction), and the first and
/// last boundaries are the images of the two cutoffs — exactly the
/// cutoffs themselves on the linear scale.
pub proof fn lemma_band_partition(
    scale: FrequencyScale,
    low: u64,
    high: u64,
    n: u64,
    i: int,
    j: int,
)
    requires
        1 <= low < high <= HZ_MAX,
        1 <= n,
        0 <= i <= j <= n,
    ensures
        boundary_hz(scale, low, high, n, i) <= boundary_hz(scale, low, high, n, j),
        boundary_hz(scale, low, high, n, 0) == inv_spec(scale, fwd_spec(scale, low)),
        boundary_hz(scale, low, high, n, n as int) == inv_spec(scale, fwd_spec(scale, high)),
        scale == FrequencyScale::Linear ==> boundary_hz(scale, low, high, n, 0) == low
            && boundary_hz(scale, low, high, n, n as int) == high,
{
    let lo_s = fwd_spec(scale, low);
    let hi_s = fwd_spec(scale, high);
    lemma_fwd_monotone(scale, low, high);
    lemma_fwd_in_cap(scale, high);
    lemma_scale_step_ordered(lo_s, hi_s, n, i, j);
    lemma_scale_step_ordered(lo_s, hi_s, n, 0, n as int);
    lemma_inv_monotone(scale, scale_step(lo_s, hi_s, n, i), scale_step(lo_s, hi_s, n, j));
}


/// Q16 width of one magnitude bin in Hz.
pub open spec fn hz_per_spec(sample_rate: u32, total: int) -> u64 {
    (((sample_rate * FP) / 2) / (total - 1)) as u64
}

/// First magnitude bin of a band: the floor bin of its lower boundary,
/// capped at the bin count.
pub open spec fn bin_lo(hz: u64, hz_per: u64, total: int) -> int {
    let b = hz as int / hz_per as int;
    if b < total {
        b
    } else {
        total
    }
}

/// One past the last magnitude bin of a band: the ceiling bin of its
/// upper boundary, capped at the bin count.
pub open spec fn bin_hi(hz: u64, hz_per: u64, total: int) -> int {
    let b = (hz + hz_per - 1) as int / hz_per as int;
    if b < total {
        b
    } else {
        total
    }
}

/// The aggregated magnitude of band `b`: the sum of its bins divided by
/// the *total* bin count, or zero when the bin range is empty.
pub open spec fn band_value_spec(
    mags: Seq<u64>,
    scale: FrequencyScale,
    low: u64,
    high: u64,
    n: u64,
    sample_rate: u32,
    b: int,
) -> u64 {
    let total = mags.len() as int;
    let hp = hz_per_spec(sample_rate, total);
    let s = bin_lo(boundary_hz(scale, low, high, n, b), hp, total);
    let e = bin_hi(boundary_hz(scale, low, high, n, b + 1), hp, total);
    if s < e {
        (sum_range(mags, s, e) / (total as nat)) as u64
    } else {
        0
    }
}

/// Folds the magnitude bins into `band_magnitudes.len()` perceptual
/// bands between the configured cutoffs, on the configured scale.
pub fn aggregate_bands(
    band_magnitudes: &mut Vec<u64>,
    magnitudes: &Vec<u64>,
    sample_rate: u32,
    banding: &Banding,
)
    requires
        banding.wf(),
        2 <= magnitudes@.len() <= 4097,
        1 <= sample_rate,
        old(band_magnitudes)@.len() <= 65536,
        all_lt(magnitudes@, BAND_MAX),
    ensures
        final(band_magnitudes)@.len() == old(band_magnitudes)@.len(),
        all_lt(final(band_magnitudes)@, BAND_MAX),
        forall|b: int|
            0 <= b < final(band_magnitudes)@.len() ==> #[trigger] final(band_magnitudes)@[b]
                == band_value_spec(
                magnitudes@,
                banding.scale,
                banding.frequency_cutoff.low,
                banding.frequency_cutoff.high,
                old(band_magnitudes)@.len() as u64,
                sample_rate,
                b,
            ),
{
    let total: usize = magnitudes.len();
    let n: usize = band_magnitudes.len();
    if n == 0 {
        return ;
    }
    let scale: FrequencyScale = banding.scale;
    let low: u64 = banding.frequency_cutoff.low;
    let high: u64 = banding.frequency_cutoff.high;
    proof {
        assert(sample_rate * FP >= 65536) by (nonlinear_arith)
            requires
                sample_rate >= 1,
                FP == 65536u64,
        ;
        assert(sample_rate * FP <= 0x1_0000_0000u64 * FP) by (nonlinear_arith)
            requires
                sample_rate <= 0x1_0000_0000u64,
                FP == 65536u64,
        ;
        vstd::arithmetic::div_mod::lemma_div_is_ordered_by_denominator(
            32768,
            total - 1,
            4096,
        );
        vstd::arithmetic::div_mod::lemma_div_is_ordered(
            65536,
            (sample_rate * FP) as int,
            2,
        );
        vstd::arithmetic::div_mod::lemma_div_is_ordered(
            32768,
            ((sample_rate * FP) / 2) as int,
            (total - 1) as int,
        );
    }
    let hz_per: u64 = ((sample_rate as u64 * FP) / 2) / (total as u64 - 1);
    proof {
        assert(hz_per == hz_per_spec(sample_rate, total as int));
        assert(hz_per >= 8);
    }
    let s_lo: u64 = forward(scale, low);
    let s_hi: u64 = forward(scale, high);
    proof {
        lemma_fwd_monotone(scale, low, high);
        lemma_fwd_in_cap(scale, high);
        lemma_scale_step_ordered(s_lo, s_hi, n as u64, 0, 0);
        assert(0 * (s_hi - s_lo) == 0) by (nonlinear_arith);
        assert(scale_step(s_lo, s_hi, n as u64, 0) == s_lo);
    }
    let mut prev_hz: u64 = inverse(scale, s_lo);
    let mut b: usize = 0;
    while b < n
        invariant
            n == band_magnitudes@.len(),
            n == old(band_magnitudes)@.len(),
            0 < n <= 65536,
            2 <= total <= 4097,
            total == magnitudes@.len(),
            b <= n,
            1 <= low < high <= HZ_MAX,
            all_lt(magnitudes@, BAND_MAX),
            s_lo == fwd_spec(scale, low),
            s_hi == fwd_spec(scale, high),
            s_lo <= s_hi <= fwd_cap(scale),
            hz_per == hz_per_spec(sample_rate, total as int),
            hz_per >= 8,
            prev_hz == boundary_hz(scale, low, high, n as u64, b as int),
            forall|k: int|
                0 <= k < b ==> #[trigger] band_magnitudes@[k] == band_value_spec(
                    magnitudes@,
                    scale,
                    low,
                    high,
                    n as u64,
                    sample_rate,
                    k,
                ),
            forall|k: int| 0 <= k < b ==> #[trigger] band_magnitudes@[k] < BAND_MAX,
        decreases n - b,
    {
        proof {
            lemma_scale_step_ordered(s_lo, s_hi, n as u64, b + 1, n as int);
            lemma_scale_step_ordered(s_lo, s_hi, n as u64, 0, b + 1);
            assert((b + 1) * (s_hi - s_lo) <= 65536 * (s_hi - s_lo)) by (nonlinear_arith)
                requires
                    0 <= b + 1 <= 65536,
                    s_hi - s_lo >= 0,
            ;
            assert(65536 * (s_hi - s_lo) <= 65536 * 0x40_0000_0000u64) by (nonlinear_arith)
                requires
                    0 <= s_hi - s_lo <= 0x40_0000_0000u64,
            ;
        }
        let s_b: u64 = s_lo + ((b as u64 + 1) * (s_hi - s_lo)) / (n as u64);
        proof {
            assert(s_b == scale_step(s_lo, s_hi, n as u64, b + 1));
        }
        let next_hz: u64 = inverse(scale, s_b);
        let start0: u64 = prev_hz / hz_per;
        let start: usize = if start0 < total as u64 {
            start0 as usize
        } else {
            total
        };
        let endc: u64 = (next_hz + hz_per - 1) / hz_per;
        let end: usize = if endc < total as u64 {
            endc as usize
        } else {
            total
        };
        proof {
            assert(start == bin_lo(prev_hz, hz_per, total as int));
            assert(end == bin_hi(next_hz, hz_per, total as int));
        }
        let value: u64 = if start < end {
            let mut acc: u64 = 0;
            let mut j: usize = start;
            while j < end
                invariant
                    total == magnitudes@.len(),
                    all_lt(magnitudes@, BAND_MAX),
                    start <= j <= end,
                    end <= total <= 4097,
                    acc == sum_range(magnitudes@, start as int, j as int),
                    acc <= (j - start) * (BAND_MAX - 1),
                decreases end - j,
            {
                proof {
                    lemma_sum_extend_bands(magnitudes@, start as int, j as int);
                    assert((j - start) * (BAND_MAX - 1) + (BAND_MAX - 1) == (j + 1 - start) * (
                    BAND_MAX - 1)) by (nonlinear_arith);
                    assert((j + 1 - start) * (BAND_MAX - 1) <= 4097 * BAND_MAX)
                        by (nonlinear_arith)
                        requires
                            0 <= j + 1 - start <= 4097,
                            BAND_MAX == 0x1_0000_0000u64,
                    ;
                }
                acc = acc + magnitudes[j];
                j = j + 1;
            }
            proof {
                assert(acc / (total as u64) < BAND_MAX) by (nonlinear_arith)
                    requires
                        acc <= (end - start) * (BAND_MAX - 1),
                        0 < end - start <= total,
                        total <= 4097,
                        BAND_MAX == 0x1_0000_0000u64,
                ;
            }
            acc / (total as u64)
        } else {
            0
        };
        band_magnitudes.set(b, value);
        prev_hz = next_hz;
        b = b + 1;
    }
}

/// `sum_range` grows by the next element (local restatement).
proof fn lemma_sum_extend_bands(s: Seq<u64>, a: int, b: int)
    requires
        0 <= a <= b < s.len(),
    ensures
        sum_range(s, a, b + 1) == sum_range(s, a, b) + s[b],
    decreases b - a,
{
    if a < b {
        lemma_sum_extend_bands(s, a + 1, b);
        assert(sum_range(s, a, b + 1) == s[a] + sum_range(s, a + 1, b + 1));
    } else {
        assert(sum_range(s, b + 1, b + 1) == 0);
        assert(sum_range(s, a, b + 1) == s[b] + sum_range(s, b + 1, b + 1));
    }
}


} // verus!
