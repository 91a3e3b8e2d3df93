use scram::bands::{aggregate_bands, forward, inverse};
use scram::config::{Banding, FrequencyCutoff, FrequencyScale};
use scram::fixed::FP;

#[test]
fn linear_bands_sum_their_bins_over_the_total_count() {
    // Sixteen Hz sample rate over nine bins: exactly 1 Hz per bin.
    let mags: Vec<u64> = vec![10, 20, 30, 40, 50, 60, 70, 80, 90];
    let mut bands: Vec<u64> = vec![0, 0];
    let banding = Banding {
        frequency_cutoff: FrequencyCutoff { low: FP, high: 5 * FP },
        scale: FrequencyScale::Linear,
    };
    aggregate_bands(&mut bands, &mags, 16, &banding);
    // Band 0 covers bins [1, 3), band 1 bins [3, 5); both divide by
    // the *total* bin count of 9.
    assert_eq!(bands, vec![(20 + 30) / 9, (40 + 50) / 9]);
}

#[test]
fn empty_bin_ranges_produce_zero_bands() {
    let mags: Vec<u64> = vec![100; 1025];
    let mut bands: Vec<u64> = vec![7; 4];
    // Cutoffs far below one bin width: every band rounds to an empty
    // or single-bin range near zero.
    let banding = Banding {
        frequency_cutoff: FrequencyCutoff { low: 1, high: 2 },
        scale: FrequencyScale::Linear,
    };
    aggregate_bands(&mut bands, &mags, 48000, &banding);
    assert_eq!(bands.len(), 4);
    for v in bands {
        assert!(v <= 100 / 1025 + 1);
    }
}

fn boundaries(scale: FrequencyScale, low: u64, high: u64, n: u64) -> Vec<u64> {
    let s_lo = forward(scale, low);
    let s_hi = forward(scale, high);
    let mut out = Vec::new();
    for i in 0..=n {
        let s = s_lo + (i * (s_hi - s_lo)) / n;
        out.push(inverse(scale, s));
    }
    out
}

#[test]
fn all_four_scales_partition_the_cutoff_range_monotonically() {
    let low = 20 * FP;
    let high = 18000 * FP;
    for scale in [
        FrequencyScale::Linear,
        FrequencyScale::Logarithmic,
        FrequencyScale::Mel,
        FrequencyScale::Bark,
    ] {
        let b = boundaries(scale, low, high, 16);
        assert_eq!(b.len(), 17);
        for w in b.windows(2) {
            assert!(w[0] <= w[1], "{scale:?}: {} > {}", w[0], w[1]);
        }
        // The partition is anchored at the cutoffs (up to the scale
        // transforms' fixed-point rounding).
        let tol = high / 500;
        assert!(b[0].abs_diff(low) <= tol, "{scale:?} low end {}", b[0]);
        assert!(b[16].abs_diff(high) <= tol, "{scale:?} high end {}", b[16]);
    }
}

#[test]
fn linear_boundaries_hit_the_cutoffs_exactly() {
    let b = boundaries(FrequencyScale::Linear, 20 * FP, 18000 * FP, 10);
    assert_eq!(b[0], 20 * FP);
    assert_eq!(b[10], 18000 * FP);
}

#[test]
fn mel_scale_widens_towards_high_frequencies() {
    let b = boundaries(FrequencyScale::Mel, 20 * FP, 18000 * FP, 8);
    // Perceptual scales put more bands at the bottom: the first band
    // is narrower in Hz than the last.
    assert!(b[1] - b[0] < b[8] - b[7]);
}
