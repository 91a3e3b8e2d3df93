use scram::band_smoothing::apply_band_smoothing;
use scram::config::{BandSmoothing, PeakSmoothing, VolumeScale};
use scram::fixed::{clamp_unit, isqrt, FP};
use scram::magnitudes::calculate_magnitudes;
use scram::peak_smoothing::apply_peak_smoothing;
use scram::process::Frequency;
use scram::scaling::apply_scaling;

#[test]
fn isqrt_exact_values() {
    assert_eq!(isqrt(0), 0);
    assert_eq!(isqrt(1), 1);
    assert_eq!(isqrt(15), 3);
    assert_eq!(isqrt(16), 4);
    assert_eq!(isqrt(65536 * 65536), 65536);
    assert_eq!(isqrt(u64::MAX), 4294967295);
}

#[test]
fn clamp_unit_caps_at_one() {
    assert_eq!(clamp_unit(0), 0);
    assert_eq!(clamp_unit(FP), FP);
    assert_eq!(clamp_unit(FP + 1), FP);
}

#[test]
fn magnitude_extraction_folds_the_packed_spectrum() {
    // Packed layout: DC, (re, im) pair, Nyquist.
    let raw: Vec<i64> = vec![196608, 65536, 0, -131072];
    let mut mags: Vec<u64> = vec![0; 3];
    calculate_magnitudes(&mut mags, &raw);
    assert_eq!(mags, vec![196608, 65536, 131072]);
}

#[test]
fn magnitude_extraction_uses_the_euclidean_norm() {
    // 3-4-5 triangle, scaled by FP.
    let raw: Vec<i64> = vec![0, 3 * 65536, 4 * 65536, 0];
    let mut mags: Vec<u64> = vec![0; 3];
    calculate_magnitudes(&mut mags, &raw);
    assert_eq!(mags[1], 5 * 65536);
}

#[test]
fn exponential_smoothing_couples_time_and_space() {
    let raw: Vec<u64> = vec![FP, FP, FP];
    let mut smoothed: Vec<u64> = vec![0, 0, 0];
    apply_band_smoothing(&mut smoothed, &raw, &BandSmoothing::Exponential { factor: FP / 2 });
    // Band 0 averages against its own past; bands 1 and 2 against their
    // freshly updated lower neighbour.
    assert_eq!(smoothed, vec![32768, 49152, 57344]);
}

#[test]
fn exponential_smoothing_band_zero_reads_its_prior_value() {
    let raw: Vec<u64> = vec![0, 0];
    let mut smoothed: Vec<u64> = vec![FP, FP];
    apply_band_smoothing(&mut smoothed, &raw, &BandSmoothing::Exponential { factor: FP / 2 });
    // Band 0 halves against its prior frame; band 1 then halves against
    // band 0's fresh value, not its own past.
    assert_eq!(smoothed, vec![32768, 16384]);
}

#[test]
fn moving_average_spreads_energy_spatially() {
    let raw: Vec<u64> = vec![0, FP, 0];
    let mut smoothed: Vec<u64> = vec![0, 0, 0];
    apply_band_smoothing(&mut smoothed, &raw, &BandSmoothing::MovingAverage { window_size: 3 });
    assert_eq!(smoothed, vec![32768, 21845, 32768]);
}

#[test]
fn moving_average_is_idempotent_on_flat_input() {
    let raw: Vec<u64> = vec![4242; 7];
    for ws in [1usize, 2, 3, 5, 9, 100] {
        let mut smoothed: Vec<u64> = vec![0; 7];
        apply_band_smoothing(&mut smoothed, &raw, &BandSmoothing::MovingAverage {
            window_size: ws,
        });
        assert_eq!(smoothed, raw, "window size {ws}");
    }
}

#[test]
fn linear_scaling_normalises_against_twice_the_maximum() {
    let smoothed: Vec<u64> = vec![32768, FP];
    let mut out: Vec<u64> = vec![0, 0];
    apply_scaling(&mut out, &smoothed, &VolumeScale::Linear);
    assert_eq!(out, vec![16384, 32768]);
}

#[test]
fn linear_scaling_of_silence_is_silence() {
    let smoothed: Vec<u64> = vec![0, 0, 0];
    let mut out: Vec<u64> = vec![9, 9, 9];
    apply_scaling(&mut out, &smoothed, &VolumeScale::Linear);
    assert_eq!(out, vec![0, 0, 0]);
}

#[test]
fn logarithmic_scaling_maps_sixty_decibels_onto_the_unit_range() {
    let smoothed: Vec<u64> = vec![FP, FP / 2, 1, 0];
    let mut out: Vec<u64> = vec![0; 4];
    apply_scaling(&mut out, &smoothed, &VolumeScale::Logarithmic);
    // Full scale holds 1.0; half scale loses about 6 dB of 60; one
    // Q16 unit is far below the -60 dB floor; silence stays silence.
    assert_eq!(out, vec![65536, 58959, 0, 0]);
}

fn default_peaks() -> PeakSmoothing {
    PeakSmoothing { attack_rate: 20 * FP, decay_rate: FP / 2, decay_limit: FP, peak_threshold: 7 }
}

#[test]
fn attack_reaches_a_full_step_within_the_rate_bound() {
    // One frame of 1/attack_rate seconds (dt = FP / 20, rounded up)
    // covers a full-scale step exactly.
    let mut freqs = vec![Frequency { value: 0, peak: 0, ts_us: 0 }];
    let bands: Vec<u64> = vec![FP];
    apply_peak_smoothing(&mut freqs, &bands, 50_000, 3277, &default_peaks());
    assert_eq!(freqs[0].value, FP);
    assert_eq!(freqs[0].peak, FP);
    assert_eq!(freqs[0].ts_us, 50_000);
}

#[test]
fn attack_moves_by_rate_times_dt_until_it_arrives() {
    let mut freqs = vec![Frequency { value: 0, peak: 0, ts_us: 0 }];
    let bands: Vec<u64> = vec![FP];
    // dt of 25 ms in Q16 seconds is 1638; the step is 20 * 1638.
    apply_peak_smoothing(&mut freqs, &bands, 25_000, 1638, &default_peaks());
    assert_eq!(freqs[0].value, 32760);
    apply_peak_smoothing(&mut freqs, &bands, 50_000, 1638, &default_peaks());
    assert_eq!(freqs[0].value, 65520);
    apply_peak_smoothing(&mut freqs, &bands, 75_000, 1638, &default_peaks());
    assert_eq!(freqs[0].value, FP);
}

#[test]
fn decay_with_emptied_envelope_and_covered_fall_reaches_zero() {
    let mut freqs = vec![Frequency { value: FP, peak: FP, ts_us: 0 }];
    let bands: Vec<u64> = vec![0];
    // Two seconds later: the peak envelope has fully emptied (past
    // decay_limit) and the linear fall of 0.5/s covers the whole value.
    apply_peak_smoothing(&mut freqs, &bands, 2_000_000, 2 * FP, &default_peaks());
    assert_eq!(freqs[0].value, 0);
    assert_eq!(freqs[0].peak, 0);
}

#[test]
fn below_threshold_both_fields_snap_and_stay_at_zero() {
    let mut freqs = vec![Frequency { value: 5, peak: 5, ts_us: 0 }];
    let bands: Vec<u64> = vec![0];
    apply_peak_smoothing(&mut freqs, &bands, 10_000, 655, &default_peaks());
    assert_eq!(freqs[0].value, 0);
    assert_eq!(freqs[0].peak, 0);
    for step in 1..5u64 {
        apply_peak_smoothing(&mut freqs, &bands, 10_000 + step * 10_000, 655, &default_peaks());
        assert_eq!(freqs[0].value, 0);
        assert_eq!(freqs[0].peak, 0);
    }
}

#[test]
fn decay_respects_the_instantaneous_input_floor() {
    let mut freqs = vec![Frequency { value: FP, peak: FP, ts_us: 0 }];
    let bands: Vec<u64> = vec![FP / 4];
    apply_peak_smoothing(&mut freqs, &bands, 10_000_000, 10 * FP, &default_peaks());
    // The fall and the emptied envelope would both go below the input,
    // so the value lands exactly on the input.
    assert_eq!(freqs[0].value, FP / 4);
    assert_eq!(freqs[0].peak, FP);
}
