//! Band smoothing.
//!
//! Two selectable smoothers over the band-indexed magnitude sequence.
//! The exponential variant deliberately mixes time and space: band 0 is
//! averaged against its own previous frame, while every later band reads
//! the value its lower neighbour was just given in the same pass.  The
//! moving-average variant is purely spatial.

use vstd::prelude::*;

use crate::config::BandSmoothing;
use crate::fixed::FP;

verus! {

/// Strict upper bound on every raw or smoothed band magnitude; keeps all
/// smoothing arithmetic inside `u64`.
pub const BAND_MAX: u64 = 0x1_0000_0000;

/// Every element of `s` is below `b`.
pub open spec fn all_lt(s: Seq<u64>, b: u64) -> bool {
    forall|i: int| 0 <= i < s.len() ==> #[trigger] s[i] < b
}

/// The exponential recurrence: band 0 blends the raw value with its own
/// previous smoothed value; band `i > 0` blends with the value band
/// `i - 1` received earlier in the same pass.
pub open spec fn exp_val(raw: Seq<u64>, prior: Seq<u64>, factor: u64, i: int) -> nat
    decreases i,
{
    if i <= 0 {
        ((factor * raw[0] + (FP - factor) * prior[0]) / (FP as int)) as nat
    } else {
        ((factor * raw[i] + (FP - factor) * exp_val(raw, prior, factor, i - 1)) / (
        FP as int)) as nat
    }
}

/// First band index inside the moving-average window centred at `i`.
pub open spec fn ma_lo(i: int, half: int) -> int {
    if i >= half {
        i - half
    } else {
        0
    }
}

/// One past the last band index inside the window centred at `i`.
pub open spec fn ma_hi(i: int, half: int, n: int) -> int {
    if i + half + 1 <= n {
        i + half + 1
    } else {
        n
    }
}

/// Sum of `s[a..b)`.
pub open spec fn sum_range(s: Seq<u64>, a: int, b: int) -> nat
    decreases b - a,
{
    if a >= b {
        0
    } else {
        (s[a] + sum_range(s, a + 1, b)) as nat
    }
}

/// The value the selected smoother gives band `i`, from the raw
/// magnitudes of this frame and the smoothed magnitudes of the last.
pub open spec fn smoothed_value(raw: Seq<u64>, prior: Seq<u64>, config: BandSmoothing, i: int) -> u64 {
    match config {
        BandSmoothing::Exponential { factor } => exp_val(
            raw,
            prior,
            crate::fixed::clamp_unit_spec(factor),
            i,
        ) as u64,
        BandSmoothing::MovingAverage { window_size } => {
            let ws = if window_size >= 1 {
                window_size
            } else {
                1
            };
            (sum_range(raw, ma_lo(i, ws as int / 2), ma_hi(i, ws as int / 2, raw.len() as int)) / (
            ma_hi(i, ws as int / 2, raw.len() as int) - ma_lo(i, ws as int / 2)) as nat) as u64
        },
    }
}

/// A weighted average of two values below the bound stays below it.
proof fn lemma_blend_bounded(f: u64, a: u64, b: u64)
    requires
        f <= FP,
        a < BAND_MAX,
        b < BAND_MAX,
    ensures
        (f * a + (FP - f) * b) / (FP as int) < BAND_MAX,
{
    assert((f * a + (FP - f) * b) / (FP as int) < BAND_MAX) by (nonlinear_arith)
        requires
            f <= FP,
            a < BAND_MAX,
            b < BAND_MAX,
            FP == 65536u64,
            BAND_MAX == 0x1_0000_0000u64,
    ;
}

/// Every value of the exponential recurrence stays below `BAND_MAX`.
proof fn lemma_exp_val_bounded(raw: Seq<u64>, prior: Seq<u64>, factor: u64, i: int)
    requires
        factor <= FP,
        raw.len() > 0,
        prior.len() == raw.len(),
        i < raw.len(),
        all_lt(raw, BAND_MAX),
        all_lt(prior, BAND_MAX),
    ensures
        exp_val(raw, prior, factor, i) < BAND_MAX,
    decreases i,
{
    if i <= 0 {
        lemma_blend_bounded(factor, raw[0], prior[0]);
    } else {
        lemma_exp_val_bounded(raw, prior, factor, i - 1);
        let prev = exp_val(raw, prior, factor, i - 1);
        lemma_blend_bounded(factor, raw[i], prev as u64);
    }
}

/// Applies the selected smoother: `smoothed` is rewritten from
/// `magnitudes` (and, for the exponential variant, from its own prior
/// contents).  Empty band sets are left untouched.
pub fn apply_band_smoothing(smoothed: &mut Vec<u64>, magnitudes: &Vec<u64>, config: &BandSmoothing)
    requires
        old(smoothed)@.len() == magnitudes@.len(),
        magnitudes@.len() < 0x8000_0000,
        all_lt(magnitudes@, BAND_MAX),
        all_lt(old(smoothed)@, BAND_MAX),
    ensures
        final(smoothed)@.len() == magnitudes@.len(),
        all_lt(final(smoothed)@, BAND_MAX),
        forall|i: int|
            0 <= i < magnitudes@.len() ==> #[trigger] final(smoothed)@[i] == smoothed_value(
                magnitudes@,
                old(smoothed)@,
                *config,
                i,
            ),
        magnitudes@.len() == 0 ==> final(smoothed)@ == old(smoothed)@,
{
    let num_bands: usize = magnitudes.len();
    if num_bands == 0 {
        return ;
    }
    match config {
        BandSmoothing::Exponential { factor } => {
            let f: u64 = crate::fixed::clamp_unit(*factor);
            let mut i: usize = 0;
            while i < num_bands
                invariant
                    num_bands == magnitudes@.len(),
                    0 < num_bands < 0x8000_0000,
                    f <= FP,
                    i <= num_bands,
                    smoothed@.len() == num_bands,
                    old(smoothed)@.len() == num_bands,
                    all_lt(magnitudes@, BAND_MAX),
                    all_lt(smoothed@, BAND_MAX),
                    all_lt(old(smoothed)@, BAND_MAX),
                    forall|k: int| i <= k < num_bands ==> smoothed@[k] == old(smoothed)@[k],
                    forall|k: int|
                        0 <= k < i ==> #[trigger] smoothed@[k] == exp_val(
                            magnitudes@,
                            old(smoothed)@,
                            f,
                            k,
                        ),
                decreases num_bands - i,
            {
                let prev: u64 = if i == 0 {
                    smoothed[0]
                } else {
                    smoothed[i - 1]
                };
                proof {
                    if i > 0 {
                        assert(prev == exp_val(magnitudes@, old(smoothed)@, f, i - 1));
                        lemma_exp_val_bounded(magnitudes@, old(smoothed)@, f, i as int - 1);
                    }
                    assert(f * magnitudes@[i as int] + (FP - f) * prev <= u64::MAX)
                        by (nonlinear_arith)
                        requires
                            f <= FP,
                            FP == 65536u64,
                            magnitudes@[i as int] < BAND_MAX,
                            prev < BAND_MAX,
                            BAND_MAX == 0x1_0000_0000u64,
                    ;
                    lemma_blend_bounded(f, magnitudes@[i as int], prev);
                }
                let value: u64 = (f * magnitudes[i] + (FP - f) * prev) / FP;
                smoothed.set(i, value);
                i = i + 1;
            }
        },
        BandSmoothing::MovingAverage { window_size } => {
            let ws: usize = if *window_size >= 1 {
                *window_size
            } else {
                1
            };
            let half: usize = ws / 2;
            let mut i: usize = 0;
            while i < num_bands
                invariant
                    num_bands == magnitudes@.len(),
                    0 < num_bands < 0x8000_0000,
                    half == ws / 2,
                    i <= num_bands,
                    smoothed@.len() == num_bands,
                    all_lt(magnitudes@, BAND_MAX),
                    all_lt(smoothed@, BAND_MAX),
                    forall|k: int|
                        0 <= k < i ==> #[trigger] smoothed@[k] == sum_range(
                            magnitudes@,
                            ma_lo(k, half as int),
                            ma_hi(k, half as int, num_bands as int),
                        ) / (ma_hi(k, half as int, num_bands as int) - ma_lo(
                            k,
                            half as int,
                        )) as nat,
                decreases num_bands - i,
            {
                let start: usize = if i >= half {
                    i - half
                } else {
                    0
                };
                let end: usize = if num_bands - i > half {
                    i + half + 1
                } else {
                    num_bands
                };
                proof {
                    assert(start == ma_lo(i as int, half as int));
                    assert(end == ma_hi(i as int, half as int, num_bands as int));
                }
                let count: usize = end - start;
                let mut acc: u64 = 0;
                let mut j: usize = start;
                while j < end
                    invariant
                        num_bands == magnitudes@.len(),
                        all_lt(magnitudes@, BAND_MAX),
                        start <= j <= end,
                        end <= num_bands < 0x8000_0000,
                        acc == sum_range(magnitudes@, start as int, j as int),
                        acc <= (j - start) * (BAND_MAX - 1),
                    decreases end - j,
                {
                    proof {
                        lemma_sum_range_extend(magnitudes@, start as int, j as int);
                        assert((j - start) * (BAND_MAX - 1) + (BAND_MAX - 1) == (j + 1 - start) * (
                        BAND_MAX - 1)) by (nonlinear_arith);
                        assert((j + 1 - start) * (BAND_MAX - 1) <= 0x8000_0000u64 * BAND_MAX)
                            by (nonlinear_arith)
                            requires
                                j + 1 - start <= 0x8000_0000u64,
                                BAND_MAX == 0x1_0000_0000u64,
                        ;
                    }
                    acc = acc + magnitudes[j];
                    j = j + 1;
                }
                let value: u64 = acc / (count as u64);
                proof {
                    assert(value < BAND_MAX) by (nonlinear_arith)
                        requires
                            value == acc / (count as u64),
                            acc <= (count as u64) * (BAND_MAX - 1),
                            0 < count,
                            BAND_MAX == 0x1_0000_0000u64,
                    ;
                }
                smoothed.set(i, value);
                i = i + 1;
            }
        },
    }
}

/// `sum_range` grows by the next element.
proof fn lemma_sum_range_extend(s: Seq<u64>, a: int, b: int)
    requires
        0 <= a <= b < s.len(),
    ensures
        sum_range(s, a, b + 1) == sum_range(s, a, b) + s[b],
    decreases b - a,
{
    if a < b {
        lemma_sum_range_extend(s, a + 1, b);
        assert(sum_range(s, a, b + 1) == s[a] + sum_range(s, a + 1, b + 1));
    } else {
        assert(sum_range(s, b + 1, b + 1) == 0);
        assert(sum_range(s, a, b + 1) == s[b] + sum_range(s, b + 1, b + 1));
    }
}

/// Moving-average smoothing is idempotent on a flat input: when every
/// raw band magnitude is the same value `v`, every smoothed band equals
/// `v` again, whatever the window size.  Together with the contract of
/// [`apply_band_smoothing`] this pins the smoothed sequence itself.
pub proof fn lemma_moving_average_idempotent(raw: Seq<u64>, v: u64, half: int)
    requires
        raw.len() > 0,
        half >= 0,
        forall|i: int| 0 <= i < raw.len() ==> #[trigger] raw[i] == v,
    ensures
        forall|i: int|
            0 <= i < raw.len() ==> #[trigger] sum_range(
                raw,
                ma_lo(i, half),
                ma_hi(i, half, raw.len() as int),
            ) / (ma_hi(i, half, raw.len() as int) - ma_lo(i, half)) as nat == v,
{
    assert forall|i: int| 0 <= i < raw.len() implies #[trigger] sum_range(
        raw,
        ma_lo(i, half),
        ma_hi(i, half, raw.len() as int),
    ) / (ma_hi(i, half, raw.len() as int) - ma_lo(i, half)) as nat == v by {
        let lo = ma_lo(i, half);
        let hi = ma_hi(i, half, raw.len() as int);
        assert(0 <= lo <= i < hi <= raw.len());
        lemma_moving_average_flat(raw, v, lo, hi);
    }
}

/// A flat raw sequence is a fixed point of the moving average: every
/// window averages equal values back to that value.
pub proof fn lemma_moving_average_flat(s: Seq<u64>, v: u64, a: int, b: int)
    requires
        0 <= a < b <= s.len(),
        forall|i: int| 0 <= i < s.len() ==> #[trigger] s[i] == v,
    ensures
        sum_range(s, a, b) == (b - a) * v,
        sum_range(s, a, b) / ((b - a) as nat) == v,
    decreases b - a,
{
    if a + 1 == b {
        assert(sum_range(s, a, b) == v + sum_range(s, a + 1, b));
        assert(sum_range(s, a, b) == 1 * v) by (nonlinear_arith)
            requires
                sum_range(s, a, b) == v + 0,
        ;
    } else {
        lemma_moving_average_flat(s, v, a + 1, b);
        assert(sum_range(s, a, b) == v + (b - a - 1) * v);
        assert(v + (b - a - 1) * v == (b - a) * v) by (nonlinear_arith);
    }
    assert(((b - a) * v) as nat / ((b - a) as nat) == v) by (nonlinear_arith)
        requires
            b - a >= 1,
            v >= 0,
    ;
}

} // verus!
