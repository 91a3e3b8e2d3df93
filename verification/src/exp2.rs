//! Base-2 exponential and logarithm in Q16 fixed point.
//!
//! Both directions are defined by one 16-segment interpolation table for
//! the fractional octave, so they are exact inverses at whole octaves
//! and monotone everywhere — the property the band partition rests on.

use vstd::prelude::*;

use crate::fixed::FP;

verus! {

/// `round(2^(j/16) * FP)` for `j` in `0..=16`: one octave in 16 steps.
pub open spec fn octave_table(j: int) -> u64 {
    if j <= 0 {
        65536
    } else if j == 1 {
        68438
    } else if j == 2 {
        71468
    } else if j == 3 {
        74632
    } else if j == 4 {
        77936
    } else if j == 5 {
        81386
    } else if j == 6 {
        84990
    } else if j == 7 {
        88752
    } else if j == 8 {
        92682
    } else if j == 9 {
        96785
    } else if j == 10 {
        101070
    } else if j == 11 {
        105545
    } else if j == 12 {
        110218
    } else if j == 13 {
        115098
    } else if j == 14 {
        120194
    } else if j == 15 {
        125515
    } else {
        131072
    }
}

/// The table rises strictly from `FP` to `2 * FP`.
pub proof fn lemma_octave_table_increases(a: int, b: int)
    requires
        0 <= a < b <= 16,
    ensures
        octave_table(a) < octave_table(b),
        65536 <= octave_table(a),
        octave_table(b) <= 131072,
    decreases b - a,
{
    if a + 1 < b {
        lemma_octave_table_increases(a, b - 1);
        lemma_octave_table_increases(b - 1, b);
    }
}

/// Exact exec mirror of [`octave_table`].
fn octave_entry(j: usize) -> (r: u64)
    requires
        j <= 16,
    ensures
        r == octave_table(j as int),
{
    let table: [u64; 17] = [
        65536,
        68438,
        71468,
        74632,
        77936,
        81386,
        84990,
        88752,
        92682,
        96785,
        101070,
        105545,
        110218,
        115098,
        120194,
        125515,
        131072,
    ];
    table[j]
}

/// Fractional power of two: a piecewise-linear `2^(f / FP)` in Q16 over
/// one octave, `f` in `[0, FP]`.
pub open spec fn exp2_frac_spec(f: u64) -> u64 {
    let q = if f >= FP {
        15
    } else {
        (f / 4096) as int
    };
    let r = f - q * 4096;
    (octave_table(q) + ((octave_table(q + 1) - octave_table(q)) * r) / 4096) as u64
}

/// `exp2_frac_spec` stays within its octave.
pub proof fn lemma_exp2_frac_bounds(f: u64)
    requires
        f <= FP,
    ensures
        FP <= exp2_frac_spec(f) <= 2 * FP,
{
    let q = if f >= FP {
        15int
    } else {
        (f / 4096) as int
    };
    let r = f - q * 4096;
    let d = octave_table(q + 1) - octave_table(q);
    vstd::arithmetic::div_mod::lemma_fundamental_div_mod(f as int, 4096);
    assert(0 <= r <= 4096);
    lemma_octave_table_increases(q, q + 1);
    assert((d * r) / 4096 <= d) by (nonlinear_arith)
        requires
            0 <= r <= 4096,
            d >= 0,
    ;
    assert((d * r) / 4096 >= 0) by (nonlinear_arith)
        requires
            r >= 0,
            d >= 0,
    ;
    if q > 0 {
        lemma_octave_table_increases(0, q);
    }
    assert(octave_table(q + 1) <= 131072);
}

/// Within one segment the interpolation is monotone; across segments it
/// never reaches the next entry, so the whole curve is monotone.
pub proof fn lemma_exp2_frac_monotone(f1: u64, f2: u64)
    requires
        f1 <= f2 <= FP,
    ensures
        exp2_frac_spec(f1) <= exp2_frac_spec(f2),
{
    let q1 = if f1 >= FP {
        15int
    } else {
        (f1 / 4096) as int
    };
    let q2 = if f2 >= FP {
        15int
    } else {
        (f2 / 4096) as int
    };
    let r1 = f1 - q1 * 4096;
    let r2 = f2 - q2 * 4096;
    let d1 = octave_table(q1 + 1) - octave_table(q1);
    let d2 = octave_table(q2 + 1) - octave_table(q2);
    vstd::arithmetic::div_mod::lemma_fundamental_div_mod(f1 as int, 4096);
    vstd::arithmetic::div_mod::lemma_fundamental_div_mod(f2 as int, 4096);
    lemma_exp2_frac_bounds(f1);
    lemma_exp2_frac_bounds(f2);
    lemma_octave_table_increases(q1, q1 + 1);
    lemma_octave_table_increases(q2, q2 + 1);
    if q1 == q2 {
        assert(0 <= r1 <= r2 <= 4096);
        assert((d1 * r1) / 4096 <= (d1 * r2) / 4096) by (nonlinear_arith)
            requires
                0 <= r1 <= r2,
                d1 >= 0,
        ;
        assert((d1 * r2) / 4096 <= d1) by (nonlinear_arith)
            requires
                0 <= r2 <= 4096,
                d1 >= 0,
        ;
        assert(exp2_frac_spec(f1) <= exp2_frac_spec(f2));
    } else {
        assert(q1 < q2);
        if f1 >= FP {
            assert(f1 == f2);
            assert(false);
        } else {
            assert(0 <= r1 < 4096);
            assert((d1 * r1) / 4096 < d1) by (nonlinear_arith)
                requires
                    0 <= r1 < 4096,
                    d1 >= 1,
            ;
            assert(exp2_frac_spec(f1) < octave_table(q1 + 1));
            if q1 + 1 < q2 {
                lemma_octave_table_increases(q1 + 1, q2);
            }
            assert(0 <= r2 <= 4096);
            assert((d2 * r2) / 4096 >= 0) by (nonlinear_arith)
                requires
                    r2 >= 0,
                    d2 >= 0,
            ;
            assert((d2 * r2) / 4096 <= d2) by (nonlinear_arith)
                requires
                    0 <= r2 <= 4096,
                    d2 >= 0,
            ;
            assert(octave_table(q2) <= exp2_frac_spec(f2));
            assert(exp2_frac_spec(f1) <= exp2_frac_spec(f2));
        }
    }
}

/// Exec mirror of [`exp2_frac_spec`].
pub fn exp2_frac(f: u64) -> (r: u64)
    requires
        f <= FP,
    ensures
        r == exp2_frac_spec(f),
        FP <= r <= 2 * FP,
{
    let q: usize = if f >= FP {
        15
    } else {
        (f / 4096) as usize
    };
    let base: u64 = octave_entry(q);
    let next: u64 = octave_entry(q + 1);
    let r0: u64 = f - (q as u64) * 4096;
    proof {
        lemma_octave_table_increases(q as int, q as int + 1);
        assert((next - base) * r0 <= 5557 * 4096) by (nonlinear_arith)
            requires
                next - base <= 5557,
                r0 <= 4096,
        ;
        lemma_exp2_frac_bounds(f);
    }
    base + ((next - base) * r0) / 4096
}

/// One past the largest argument [`exp2_raw`] accepts: 62 octaves.
pub const EXP2_IN_MAX: u64 = 4063232;

/// `2^(y / FP)` as a raw integer: the interpolated fractional octave
/// shifted into place.  Arguments below 16 octaves divide instead of
/// multiply, so results below 1 floor towards zero.
pub open spec fn exp2_raw_spec(y: u64) -> u64 {
    let k = y / FP;
    let f = y % FP;
    if k >= 16 {
        (exp2_frac_spec(f) * vstd::arithmetic::power2::pow2((k - 16) as nat)) as u64
    } else {
        (exp2_frac_spec(f) as nat / vstd::arithmetic::power2::pow2((16 - k) as nat)) as u64
    }
}

/// `exp2_raw_spec(y)` lies between the powers of two around its octave,
/// and its defining product stays inside `u64`.
pub proof fn lemma_exp2_raw_bounds(y: u64)
    requires
        y < EXP2_IN_MAX,
    ensures
        vstd::arithmetic::power2::pow2((y / FP) as nat) <= exp2_raw_spec(y),
        exp2_raw_spec(y) <= vstd::arithmetic::power2::pow2((y / FP + 1) as nat),
        y / FP >= 16 ==> exp2_frac_spec(y % FP) * vstd::arithmetic::power2::pow2(
            (y / FP - 16) as nat,
        ) <= 0x4000_0000_0000_0000,
{
    let k = (y / FP) as nat;
    let f = y % FP;
    let e = exp2_frac_spec(f);
    assert(k <= 61);
    lemma_exp2_frac_bounds(f);
    vstd::arithmetic::power2::lemma2_to64();
    if k >= 16 {
        let p = vstd::arithmetic::power2::pow2((k - 16) as nat);
        vstd::arithmetic::power2::lemma_pow2_adds((k - 16) as nat, 16);
        vstd::arithmetic::power2::lemma_pow2_adds((k - 16) as nat, 17);
        vstd::arithmetic::power2::lemma_pow2_pos((k - 16) as nat);
        assert(e * p >= 65536 * p) by (nonlinear_arith)
            requires
                e >= 65536,
                p >= 0,
        ;
        assert(e * p <= 131072 * p) by (nonlinear_arith)
            requires
                e <= 131072,
                p >= 0,
        ;
        if k - 16 <= 32 {
        } else {
            vstd::arithmetic::power2::lemma2_to64_rest();
        }
        vstd::arithmetic::power2::lemma_pow2_strictly_increases((k - 16) as nat, 46);
        vstd::arithmetic::power2::lemma2_to64_rest();
        assert(131072 * p <= 131072 * 0x200000000000) by (nonlinear_arith)
            requires
                0 <= p <= 0x200000000000,
        ;
    } else {
        let p = vstd::arithmetic::power2::pow2((16 - k) as nat);
        vstd::arithmetic::power2::lemma_pow2_pos((16 - k) as nat);
        vstd::arithmetic::power2::lemma_pow2_adds((16 - k) as nat, k);
        // lower bound: e / p >= 2^16 / p == 2^k exactly
        vstd::arithmetic::div_mod::lemma_div_is_ordered(65536, e as int, p as int);
        assert(vstd::arithmetic::power2::pow2(16) as int / (p as int) == vstd::arithmetic::power2::pow2(k) as int) by {
            vstd::arithmetic::power::lemma_pow_subtracts(2, (16 - k) as nat, 16);
            vstd::arithmetic::power2::lemma_pow2((16 - k) as nat);
            vstd::arithmetic::power2::lemma_pow2(16);
            vstd::arithmetic::power2::lemma_pow2(k);
        }
        // upper bound: e / p <= 2^17 / p == 2^(k+1)
        vstd::arithmetic::div_mod::lemma_div_is_ordered(e as int, 131072, p as int);
        assert(131072 as int / (p as int) == vstd::arithmetic::power2::pow2((k + 1) as nat) as int) by {
            vstd::arithmetic::power::lemma_pow_subtracts(2, (16 - k) as nat, 17);
            vstd::arithmetic::power2::lemma_pow2((16 - k) as nat);
            vstd::arithmetic::power2::lemma_pow2(17);
            vstd::arithmetic::power2::lemma_pow2((k + 1) as nat);
            assert(vstd::arithmetic::power2::pow2(17) == 131072);
        }
    }
}

/// `exp2_raw_spec` never falls as its argument grows.
pub proof fn lemma_exp2_raw_monotone(y1: u64, y2: u64)
    requires
        y1 <= y2 < EXP2_IN_MAX,
    ensures
        exp2_raw_spec(y1) <= exp2_raw_spec(y2),
{
    let k1 = y1 / FP;
    let k2 = y2 / FP;
    let f1 = y1 % FP;
    let f2 = y2 % FP;
    vstd::arithmetic::div_mod::lemma_div_is_ordered(y1 as int, y2 as int, FP as int);
    lemma_exp2_raw_bounds(y1);
    lemma_exp2_raw_bounds(y2);
    if k1 == k2 {
        vstd::arithmetic::div_mod::lemma_fundamental_div_mod(y1 as int, FP as int);
        vstd::arithmetic::div_mod::lemma_fundamental_div_mod(y2 as int, FP as int);
        assert(f1 <= f2);
        lemma_exp2_frac_monotone(f1, f2);
        let e1 = exp2_frac_spec(f1);
        let e2 = exp2_frac_spec(f2);
        if k1 >= 16 {
            let p = vstd::arithmetic::power2::pow2((k1 - 16) as nat);
            assert(e1 * p <= e2 * p) by (nonlinear_arith)
                requires
                    e1 <= e2,
                    p >= 0,
            ;
        } else {
            let p = vstd::arithmetic::power2::pow2((16 - k1) as nat);
            vstd::arithmetic::power2::lemma_pow2_pos((16 - k1) as nat);
            vstd::arithmetic::div_mod::lemma_div_is_ordered(e1 as int, e2 as int, p as int);
        }
    } else {
        assert(k1 < k2);
        vstd::arithmetic::power2::lemma_pow2_strictly_increases((k1 + 1) as nat, (k2 + 1) as nat);
        if k1 + 1 < k2 {
            vstd::arithmetic::power2::lemma_pow2_strictly_increases((k1 + 1) as nat, k2 as nat);
        }
        assert(exp2_raw_spec(y1) <= vstd::arithmetic::power2::pow2((k1 + 1) as nat));
        assert(vstd::arithmetic::power2::pow2(k2 as nat) <= exp2_raw_spec(y2));
    }
}

/// `2^k` as an executable value.
fn pow2_exec(k: u64) -> (r: u64)
    requires
        k <= 63,
    ensures
        r == vstd::arithmetic::power2::pow2(k as nat),
{
    let mut p: u64 = 1;
    let mut i: u64 = 0;
    proof {
        vstd::arithmetic::power2::lemma2_to64();
    }
    while i < k
        invariant
            i <= k <= 63,
            p == vstd::arithmetic::power2::pow2(i as nat),
        decreases k - i,
    {
        proof {
            vstd::arithmetic::power2::lemma_pow2_strictly_increases(i as nat, 63);
            vstd::arithmetic::power2::lemma2_to64_rest();
            vstd::arithmetic::power2::lemma_pow2_unfold((i + 1) as nat);
        }
        p = p * 2;
        i = i + 1;
    }
    p
}

/// Exec mirror of [`exp2_raw_spec`].
pub fn exp2_raw(y: u64) -> (r: u64)
    requires
        y < EXP2_IN_MAX,
    ensures
        r == exp2_raw_spec(y),
{
    let k: u64 = y / FP;
    let f: u64 = y % FP;
    let e: u64 = exp2_frac(f);
    proof {
        lemma_exp2_raw_bounds(y);
    }
    if k >= 16 {
        let p: u64 = pow2_exec(k - 16);
        e * p
    } else {
        let p: u64 = pow2_exec(16 - k);
        proof {
            vstd::arithmetic::power2::lemma_pow2_pos((16 - k) as nat);
        }
        e / p
    }
}

/// Largest argument [`log2_raw`] accepts.
pub const LOG2_IN_MAX: u64 = 0x2000_0000_0000_0000;

/// Fixed-point base-2 logarithm by binary search: the unique `r` with
/// `exp2_raw_spec(r) <= x < exp2_raw_spec(r + 1)`.
pub fn log2_raw(x: u64) -> (r: u64)
    requires
        1 <= x < LOG2_IN_MAX,
    ensures
        exp2_raw_spec(r) <= x,
        x < exp2_raw_spec((r + 1) as u64),
        r < EXP2_IN_MAX - 1,
        r == log2_spec(x),
{
    let mut lo: u64 = 0;
    let mut hi: u64 = EXP2_IN_MAX - 1;
    proof {
        vstd::arithmetic::power2::lemma2_to64();
        assert(octave_table(0) == 65536 && octave_table(1) == 68438);
        assert((octave_table(1) - octave_table(0)) * (0u64 - 0 * 4096) == 0) by (nonlinear_arith);
        assert(exp2_frac_spec(0) == 65536);
        assert(65536 as nat / vstd::arithmetic::power2::pow2(16) == 1) by {
            assert(vstd::arithmetic::power2::pow2(16) == 65536);
        }
        assert(exp2_raw_spec(0) == 1);
        lemma_exp2_raw_bounds((EXP2_IN_MAX - 1) as u64);
        assert((EXP2_IN_MAX - 1) as u64 / FP == 61);
        vstd::arithmetic::power2::lemma2_to64_rest();
        assert(vstd::arithmetic::power2::pow2(61) == 0x2000_0000_0000_0000);
    }
    while lo + 1 < hi
        invariant
            lo < hi < EXP2_IN_MAX,
            exp2_raw_spec(lo) <= x,
            x < exp2_raw_spec(hi),
        decreases hi - lo,
    {
        let mid: u64 = lo + (hi - lo) / 2;
        let v: u64 = exp2_raw(mid);
        if v <= x {
            lo = mid;
        } else {
            hi = mid;
        }
    }
    proof {
        lemma_log2_spec_char(x);
        lemma_log2_unique(x, lo, log2_spec(x));
    }
    lo
}

/// The logarithm inherits monotonicity from its characterization.
pub proof fn lemma_log2_result_monotone(x1: u64, x2: u64, r1: u64, r2: u64)
    requires
        x1 <= x2,
        r1 < EXP2_IN_MAX - 1,
        r2 < EXP2_IN_MAX - 1,
        exp2_raw_spec(r1) <= x1,
        x1 < exp2_raw_spec((r1 + 1) as u64),
        exp2_raw_spec(r2) <= x2,
        x2 < exp2_raw_spec((r2 + 1) as u64),
    ensures
        r1 <= r2,
{
    if r1 > r2 {
        lemma_exp2_raw_monotone((r2 + 1) as u64, r1);
        assert(exp2_raw_spec((r2 + 1) as u64) <= exp2_raw_spec(r1));
        assert(false);
    }
}


/// `l` is the Q16 floor logarithm of `x`: the largest Q16 exponent
/// whose power of two does not exceed `x`.
pub open spec fn log2_char(l: u64, x: u64) -> bool {
    &&& l < EXP2_IN_MAX - 1
    &&& exp2_raw_spec(l) <= x
    &&& x < exp2_raw_spec((l + 1) as u64)
}

/// The Q16 floor logarithm as a spec value.
pub open spec fn log2_spec(x: u64) -> u64 {
    choose|l: u64| log2_char(l, x)
}

/// A witness below `hi` exists whenever `x` sits under `exp2` of `hi`.
proof fn lemma_log2_exists_below(x: u64, hi: u64)
    requires
        1 <= x,
        0 < hi < EXP2_IN_MAX,
        exp2_raw_spec(0) <= x,
        x < exp2_raw_spec(hi),
    ensures
        exists|l: u64| log2_char(l, x) && l < hi,
    decreases hi,
{
    if x < exp2_raw_spec((hi - 1) as u64) {
        lemma_exp2_raw_bounds(0);
        vstd::arithmetic::power2::lemma2_to64();
        assert(exp2_raw_spec(0) >= 1);
        assert(hi - 1 > 0);
        lemma_log2_exists_below(x, (hi - 1) as u64);
        let l = choose|l: u64| log2_char(l, x) && l < (hi - 1) as u64;
        assert(log2_char(l, x) && l < hi);
    } else {
        assert(log2_char((hi - 1) as u64, x));
    }
}

/// `log2_spec(x)` really is the floor logarithm, and it is unique.
pub proof fn lemma_log2_spec_char(x: u64)
    requires
        1 <= x < LOG2_IN_MAX,
    ensures
        log2_char(log2_spec(x), x),
{
    vstd::arithmetic::power2::lemma2_to64();
    assert(octave_table(0) == 65536 && octave_table(1) == 68438);
    assert((octave_table(1) - octave_table(0)) * (0u64 - 0 * 4096) == 0) by (nonlinear_arith);
    assert(exp2_frac_spec(0) == 65536);
    assert(65536 as nat / vstd::arithmetic::power2::pow2(16) == 1) by {
        assert(vstd::arithmetic::power2::pow2(16) == 65536);
    }
    assert(exp2_raw_spec(0) == 1);
    lemma_exp2_raw_bounds((EXP2_IN_MAX - 1) as u64);
    assert((EXP2_IN_MAX - 1) as u64 / FP == 61);
    vstd::arithmetic::power2::lemma2_to64_rest();
    assert(vstd::arithmetic::power2::pow2(61) == 0x2000_0000_0000_0000);
    lemma_log2_exists_below(x, (EXP2_IN_MAX - 1) as u64);
    let l = choose|l: u64| log2_char(l, x) && l < (EXP2_IN_MAX - 1) as u64;
    assert(log2_char(l, x));
    assert(log2_char(log2_spec(x), x)) by {
        assert(exists|k: u64| log2_char(k, x));
    }
}

/// Two floor logarithms of the same value are the same.
pub proof fn lemma_log2_unique(x: u64, l1: u64, l2: u64)
    requires
        log2_char(l1, x),
        log2_char(l2, x),
    ensures
        l1 == l2,
{
    if l1 < l2 {
        lemma_exp2_raw_monotone((l1 + 1) as u64, l2);
        assert(false);
    }
    if l2 < l1 {
        lemma_exp2_raw_monotone((l2 + 1) as u64, l1);
        assert(false);
    }
}

/// The floor logarithm never falls as its argument grows.
pub proof fn lemma_log2_spec_monotone(x1: u64, x2: u64)
    requires
        1 <= x1 <= x2 < LOG2_IN_MAX,
    ensures
        log2_spec(x1) <= log2_spec(x2),
{
    lemma_log2_spec_char(x1);
    lemma_log2_spec_char(x2);
    lemma_log2_result_monotone(x1, x2, log2_spec(x1), log2_spec(x2));
}


/// At whole octaves the curve is exact: `exp2` of `k * FP` is `2^k`.
pub proof fn lemma_exp2_whole_octave(k: u64)
    requires
        k <= 61,
    ensures
        exp2_raw_spec((k * FP) as u64) == vstd::arithmetic::power2::pow2(k as nat),
{
    let y = (k * FP) as u64;
    assert(y / FP == k && y % FP == 0) by (nonlinear_arith)
        requires
            y == k * FP,
            FP == 65536u64,
            k <= 61,
    ;
    assert(octave_table(0) == 65536 && octave_table(1) == 68438);
    assert((octave_table(1) - octave_table(0)) * (0u64 - 0 * 4096) == 0) by (nonlinear_arith);
    assert(exp2_frac_spec(0) == 65536);
    vstd::arithmetic::power2::lemma2_to64();
    if k >= 16 {
        vstd::arithmetic::power2::lemma_pow2_adds(16, (k - 16) as nat);
        assert(65536 * vstd::arithmetic::power2::pow2((k - 16) as nat)
            == vstd::arithmetic::power2::pow2(k as nat));
        vstd::arithmetic::power2::lemma2_to64_rest();
        if k < 61 {
            vstd::arithmetic::power2::lemma_pow2_strictly_increases(k as nat, 61);
        }
        assert(vstd::arithmetic::power2::pow2(k as nat) <= 0x2000_0000_0000_0000);
    } else {
        vstd::arithmetic::power2::lemma_pow2_adds((16 - k) as nat, k as nat);
        let p = vstd::arithmetic::power2::pow2((16 - k) as nat);
        let q = vstd::arithmetic::power2::pow2(k as nat);
        vstd::arithmetic::power2::lemma_pow2_pos((16 - k) as nat);
        vstd::arithmetic::power2::lemma_pow2_pos(k as nat);
        assert((p * q) as nat / p == q) by (nonlinear_arith)
            requires
                p > 0,
                q > 0,
        ;
        assert(65536 as nat / p == q);
    }
}

/// A value below `2^k` has its floor logarithm below `k` octaves.
pub proof fn lemma_log2_spec_below(x: u64, k: u64)
    requires
        1 <= x < LOG2_IN_MAX,
        k <= 61,
        x < vstd::arithmetic::power2::pow2(k as nat),
    ensures
        log2_spec(x) < k * FP,
{
    lemma_log2_spec_char(x);
    let l = log2_spec(x);
    if l >= k * FP {
        lemma_exp2_whole_octave(k);
        lemma_exp2_raw_monotone((k * FP) as u64, l);
        assert(false);
    }
}

/// A value of at least `2^k` has its floor logarithm at `k` octaves or
/// above.
pub proof fn lemma_log2_spec_at_least(x: u64, k: u64)
    requires
        1 <= x < LOG2_IN_MAX,
        k <= 61,
        x >= vstd::arithmetic::power2::pow2(k as nat),
    ensures
        log2_spec(x) >= k * FP,
{
    lemma_log2_spec_char(x);
    let l = log2_spec(x);
    if l < k * FP {
        lemma_exp2_whole_octave(k);
        lemma_exp2_raw_monotone((l + 1) as u64, (k * FP) as u64);
        assert(false);
    }
}

} // verus!
