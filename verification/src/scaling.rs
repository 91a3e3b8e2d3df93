//! Volume scaling.
//!
//! Maps the smoothed band magnitudes onto the displayable `[0, FP]`
//! range, either by normalising against twice the frame's maximum or by
//! a decibel mapping of `[-60 dB, 0 dB]` onto `[0, FP]`.  The result
//! overwrites the raw band magnitudes, which then feed peak smoothing.

use vstd::prelude::*;

use crate::band_smoothing::{all_lt, BAND_MAX};
use crate::config::VolumeScale;
use crate::exp2::{log2_raw, log2_spec, EXP2_IN_MAX};
use crate::fixed::{clamp_unit, clamp_unit_spec, FP};

verus! {

/// Q16 logarithm of the quietest displayable magnitude: `-60 dB`, i.e.
/// `(16 - 60 / (20 * log10(2))) * FP`.
pub const DB_FLOOR_LOG: u64 = 395499;

/// Width of the displayable range in Q16 log units: `16 * FP - DB_FLOOR_LOG`.
pub const DB_RANGE_LOG: u64 = 653077;

/// Maximum of `s[0..n]`.
pub open spec fn max_of(s: Seq<u64>, n: int) -> u64
    decreases n,
{
    if n <= 1 {
        s[0]
    } else {
        let m = max_of(s, n - 1);
        if s[n - 1] > m {
            s[n - 1]
        } else {
            m
        }
    }
}

/// Linear scaling of one band against twice the clamped frame maximum;
/// a silent frame (zero maximum) scales to zero.
pub open spec fn linear_scaled(s: u64, max2: u64) -> u64 {
    if max2 == 0 {
        0
    } else {
        clamp_unit_spec(((s * FP) / (max2 as int)) as u64)
    }
}

/// Decibel remap of a Q16 logarithm: `[-60 dB, 0 dB]` onto `[0, FP]`.
pub open spec fn log_scaled(l: u64) -> u64 {
    if l <= DB_FLOOR_LOG {
        0
    } else {
        clamp_unit_spec((((l - DB_FLOOR_LOG) * FP) / (DB_RANGE_LOG as int)) as u64)
    }
}

/// The displayable value the selected volume scale gives band `i` of
/// the smoothed sequence.
pub open spec fn scaled_value(smoothed: Seq<u64>, config: VolumeScale, i: int) -> u64 {
    match config {
        VolumeScale::Linear => linear_scaled(smoothed[i], linear_divisor(smoothed)),
        VolumeScale::Logarithmic => if smoothed[i] == 0 {
            0
        } else {
            log_scaled(log2_spec(smoothed[i]))
        },
    }
}

/// Applies the selected volume scale: every band of `magnitudes` is
/// overwritten with the scaled value of the corresponding `smoothed`
/// band.  Zero smoothed magnitudes always scale to zero.
pub fn apply_scaling(magnitudes: &mut Vec<u64>, smoothed: &Vec<u64>, config: &VolumeScale)
    requires
        old(magnitudes)@.len() == smoothed@.len(),
        all_lt(smoothed@, BAND_MAX),
    ensures
        final(magnitudes)@.len() == smoothed@.len(),
        all_lt(final(magnitudes)@, BAND_MAX),
        forall|i: int|
            0 <= i < smoothed@.len() ==> #[trigger] final(magnitudes)@[i] <= FP,
        forall|i: int|
            0 <= i < smoothed@.len() ==> #[trigger] final(magnitudes)@[i] == scaled_value(
                smoothed@,
                *config,
                i,
            ),
{
    let n: usize = smoothed.len();
    match config {
        VolumeScale::Linear => {
            let mut max2: u64 = 0;
            if n > 0 {
                let mut m: u64 = smoothed[0];
                let mut i: usize = 1;
                while i < n
                    invariant
                        n == smoothed@.len(),
                        n > 0,
                        1 <= i <= n,
                        m == max_of(smoothed@, i as int),
                    decreases n - i,
                {
                    if smoothed[i] > m {
                        m = smoothed[i];
                    }
                    i = i + 1;
                }
                max2 = 2 * clamp_unit(m);
                proof {
                    assert(max2 == linear_divisor(smoothed@));
                }
            }
            let mut j: usize = 0;
            while j < n
                invariant
                    n == smoothed@.len(),
                    j <= n,
                    magnitudes@.len() == n,
                    all_lt(smoothed@, BAND_MAX),
                    max2 <= 2 * FP,
                    n > 0 ==> max2 == linear_divisor(smoothed@),
                    forall|k: int|
                        0 <= k < j ==> #[trigger] magnitudes@[k] == linear_scaled(
                            smoothed@[k],
                            max2,
                        ),
                    forall|k: int| 0 <= k < j ==> #[trigger] magnitudes@[k] <= FP,
                decreases n - j,
            {
                let value: u64 = if max2 == 0 {
                    0
                } else {
                    let s: u64 = smoothed[j];
                    proof {
                        assert(s * FP < BAND_MAX * FP) by (nonlinear_arith)
                            requires
                                s < BAND_MAX,
                                FP > 0,
                        ;
                        assert((s * FP) / (max2 as int) >= 0) by (nonlinear_arith)
                            requires
                                s >= 0,
                                FP > 0,
                                max2 > 0,
                        ;
                        assert((s * FP) / (max2 as int) <= s * FP) by (nonlinear_arith)
                            requires
                                s >= 0,
                                FP > 0,
                                max2 >= 1,
                        ;
                    }
                    clamp_unit((s * FP) / max2)
                };
                magnitudes.set(j, value);
                j = j + 1;
            }
        },
        VolumeScale::Logarithmic => {
            let mut j: usize = 0;
            while j < n
                invariant
                    n == smoothed@.len(),
                    j <= n,
                    magnitudes@.len() == n,
                    all_lt(smoothed@, BAND_MAX),
                    forall|k: int|
                        0 <= k < j && #[trigger] smoothed@[k] == 0 ==> magnitudes@[k] == 0,
                    forall|k: int|
                        0 <= k < j && #[trigger] smoothed@[k] != 0 ==> magnitudes@[k]
                            == log_scaled(log2_spec(smoothed@[k])),
                    forall|k: int| 0 <= k < j ==> #[trigger] magnitudes@[k] <= FP,
                decreases n - j,
            {
                let s: u64 = smoothed[j];
                if s == 0 {
                    magnitudes.set(j, 0);
                } else {
                    let l: u64 = log2_raw(s);
                    let value: u64 = if l <= DB_FLOOR_LOG {
                        0
                    } else {
                        proof {
                            assert((l - DB_FLOOR_LOG) * FP >= 0) by (nonlinear_arith)
                                requires
                                    l >= DB_FLOOR_LOG,
                            ;
                            assert((l - DB_FLOOR_LOG) * FP <= EXP2_IN_MAX * FP)
                                by (nonlinear_arith)
                                requires
                                    l <= EXP2_IN_MAX,
                                    FP > 0,
                            ;
                            assert(((l - DB_FLOOR_LOG) * FP) / (DB_RANGE_LOG as int) <= (l
                                - DB_FLOOR_LOG) * FP) by (nonlinear_arith)
                                requires
                                    (l - DB_FLOOR_LOG) * FP >= 0,
                                    DB_RANGE_LOG >= 1,
                            ;
                        }
                        clamp_unit(((l - DB_FLOOR_LOG) * FP) / DB_RANGE_LOG)
                    };
                    magnitudes.set(j, value);
                    proof {
                        assert(l == log2_spec(smoothed@[j as int]));
                        assert(magnitudes@[j as int] == log_scaled(l));
                    }
                }
                j = j + 1;
            }
        },
    }
}

/// The divisor the linear scale normalises by: twice the clamped
/// maximum of the whole smoothed sequence.
pub open spec fn linear_divisor(s: Seq<u64>) -> u64 {
    (2 * clamp_unit_spec(max_of(s, s.len() as int))) as u64
}

} // verus!
