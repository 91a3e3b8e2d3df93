use scram::buffer::WindowBuffer;
use scram::config::{
    BandSmoothing, Banding, Config, FrequencyCutoff, FrequencyScale, PeakSmoothing, VolumeScale,
    Window,
};
use scram::fixed::FP;
use scram::process::{deinterleave, Processor};

fn mel_config() -> Config {
    Config {
        banding: Banding {
            frequency_cutoff: FrequencyCutoff { low: 20 * FP, high: 18000 * FP },
            scale: FrequencyScale::Mel,
        },
        window: Window::Blackman,
        scaling: VolumeScale::Logarithmic,
        band_smoothing: BandSmoothing::Exponential { factor: FP / 2 },
        peak_smoothing: PeakSmoothing {
            attack_rate: 20 * FP,
            decay_rate: FP / 2,
            decay_limit: FP,
            peak_threshold: 7,
        },
    }
}

fn to_fixed(x: f32) -> i64 {
    (x * 65536.0) as i64
}

/// The front half of the pipeline as the application runs it: window
/// the mono block, transform it, and pack the spectrum.
fn spectrum_of_1024(mono: &[f32]) -> Vec<i64> {
    let mut buf: [f32; 1024] = mono.try_into().unwrap();
    let out = microfft::real::rfft_1024(&mut buf);
    let mut packed = Vec::new();
    packed.push(to_fixed(out[0].re));
    for c in &out[1..] {
        packed.push(to_fixed(c.re));
        packed.push(to_fixed(c.im));
    }
    packed.push(to_fixed(out[0].im));
    packed
}

#[test]
fn ten_silent_blocks_leave_every_band_and_peak_at_zero() {
    let mut processor = Processor::new(48000, 2048, mel_config(), 0);
    processor.set_bands(32);
    let mut window: WindowBuffer<f32> = WindowBuffer::new(2048);

    let mut now_us: u64 = 0;
    let mut processed = 0;
    while processed < 10 {
        // The capture side hands 512-sample chunks of silence.
        window.push(&vec![0.0f32; 512]);
        if let Some(block) = window.try_take_block() {
            let (left, right) = deinterleave(&block);
            let left_spectrum = spectrum_of_1024(&left);
            let right_spectrum = spectrum_of_1024(&right);
            now_us += 21_333;
            assert!(processor.process_spectra(&left_spectrum, &right_spectrum, now_us));
            processed += 1;
        }
    }

    let (left, right) = processor.current_frequencies();
    assert_eq!(left.len(), 32);
    assert_eq!(right.len(), 32);
    for f in left.iter().chain(right.iter()) {
        assert_eq!(f.value, 0);
        assert_eq!(f.peak, 0);
    }
}

#[test]
fn a_mismatched_spectrum_is_discarded_without_an_update() {
    let mut processor = Processor::new(48000, 2048, mel_config(), 0);
    processor.set_bands(8);
    let short: Vec<i64> = vec![0; 100];
    assert!(!processor.process_spectra(&short, &short, 1000));
}

#[test]
fn a_loud_block_raises_bands_and_silence_then_decays_them() {
    let mut processor = Processor::new(48000, 2048, mel_config(), 0);
    processor.set_bands(16);

    // A 1 kHz tone at full scale, same on both channels.
    let tone: Vec<f32> = (0..1024)
        .map(|t| 0.9 * (core::f32::consts::TAU * 1000.0 * t as f32 / 48000.0).sin())
        .collect();
    let spectrum = spectrum_of_1024(&tone);
    assert!(processor.process_spectra(&spectrum, &spectrum, 21_333));
    let (left, _) = processor.current_frequencies();
    let peak_energy: u64 = left.iter().map(|f| f.value).sum();
    assert!(peak_energy > 0, "a loud tone must light up some band");

    // Long silence empties every envelope again.
    let silent = vec![0i64; 1024];
    let mut now = 21_333u64;
    for _ in 0..200 {
        now += 100_000;
        assert!(processor.process_spectra(&silent, &silent, now));
    }
    let (left, right) = processor.current_frequencies();
    for f in left.iter().chain(right.iter()) {
        assert_eq!(f.value, 0);
        assert_eq!(f.peak, 0);
    }
}

#[test]
fn the_block_length_is_clamped_and_rounded_to_a_power_of_two() {
    for (requested, expect) in
        [(0usize, 32usize), (32, 32), (33, 64), (100, 128), (2048, 2048), (5000, 4096)] {
        let p = Processor::new(48000, requested, mel_config(), 0);
        // The defensive length check tells the block length apart.
        let probe: Vec<i64> = vec![0; expect / 2];
        let mut p = p;
        p.set_bands(4);
        assert!(p.process_spectra(&probe, &probe, 1), "requested {requested}");
    }
}
