//! Processing configuration.
//!
//! Frequencies, smoothing factors and envelope rates are Q16 fixed-point
//! scalars (see [`crate::fixed::FP`]): `FP` units stand for 1.0 (or 1 Hz,
//! or 1 second, depending on the field).

use vstd::prelude::*;

use crate::fixed::FP;

verus! {

/// Largest cutoff frequency the pipeline accepts, in Q16 Hz
/// (about 4.2 MHz: far above any audio Nyquist the capture side offers).
pub const HZ_MAX: u64 = 0x40_0000_0000;

/// Inclusive band-pass range of the band aggregation, in Q16 Hz.
#[derive(Clone, Copy, Debug, PartialEq, Eq, Structural)]
pub struct FrequencyCutoff {
    pub low: u64,
    pub high: u64,
}

impl FrequencyCutoff {
    /// The range is valid: positive, ordered, and small enough that the
    /// scale transforms stay within 64-bit intermediate values.
    pub open spec fn wf(&self) -> bool {
        1 <= self.low < self.high <= HZ_MAX
    }
}

impl Default for FrequencyCutoff {
    /// 20 Hz .. 18 kHz.
    fn default() -> (r: Self)
        ensures
            r.low == 20 * FP,
            r.high == 18000 * FP,
            r.wf(),
    {
        FrequencyCutoff { low: 20 * FP, high: 18000 * FP }
    }
}

/// How the Hz axis is bent before it is cut into equal-width bands.
#[derive(Clone, Copy, Debug, PartialEq, Eq, Structural)]
pub enum FrequencyScale {
    Linear,
    Logarithmic,
    Bark,
    Mel,
}

impl Default for FrequencyScale {
    fn default() -> (r: Self)
        ensures
            r == FrequencyScale::Mel,
    {
        FrequencyScale::Mel
    }
}

/// Cutoff range plus scale: everything the band aggregation needs.
#[derive(Clone, Copy, Debug, PartialEq, Eq, Structural)]
pub struct Banding {
    pub frequency_cutoff: FrequencyCutoff,
    pub scale: FrequencyScale,
}

impl Banding {
    pub open spec fn wf(&self) -> bool {
        self.frequency_cutoff.wf()
    }
}

impl Default for Banding {
    fn default() -> (r: Self)
        ensures
            r.frequency_cutoff.low == 20 * FP,
            r.frequency_cutoff.high == 18000 * FP,
            r.scale == FrequencyScale::Mel,
            r.wf(),
    {
        Banding { frequency_cutoff: FrequencyCutoff::default(), scale: FrequencyScale::default() }
    }
}

/// Cosine-sum taper applied to each time-domain block before the
/// spectral transform.  The taper itself is evaluated by the caller that
/// owns the transform; this selector only records the choice.
#[derive(Clone, Copy, Debug, PartialEq, Eq, Structural)]
pub enum Window {
    Hann,
    Hamming,
    Blackman,
}

impl Default for Window {
    fn default() -> (r: Self)
        ensures
            r == Window::Blackman,
    {
        Window::Blackman
    }
}

/// How smoothed band magnitudes are mapped to the displayable `[0, 1]`.
#[derive(Clone, Copy, Debug, PartialEq, Eq, Structural)]
pub enum VolumeScale {
    Linear,
    Logarithmic,
}

impl Default for VolumeScale {
    fn default() -> (r: Self)
        ensures
            r == VolumeScale::Logarithmic,
    {
        VolumeScale::Logarithmic
    }
}

/// Spatial/temporal smoothing applied to the raw band magnitudes.
#[derive(Clone, Copy, Debug, PartialEq, Eq, Structural)]
pub enum BandSmoothing {
    /// `smoothed[i] = factor * raw[i] + (FP - factor) * smoothed[prev(i)]`,
    /// with `factor` in Q16 clamped to `[0, FP]`.
    Exponential { factor: u64 },
    /// Average of the raw magnitudes over a centred index window.
    MovingAverage { window_size: usize },
}

impl Default for BandSmoothing {
    fn default() -> (r: Self)
        ensures
            r == (BandSmoothing::Exponential { factor: FP / 2 }),
    {
        BandSmoothing::Exponential { factor: FP / 2 }
    }
}

/// Attack/decay envelope parameters, all Q16 and all positive:
/// rates in units per second, `decay_limit` in seconds,
/// `peak_threshold` in units.
#[derive(Clone, Copy, Debug, PartialEq, Eq, Structural)]
pub struct PeakSmoothing {
    pub attack_rate: u64,
    pub decay_rate: u64,
    pub decay_limit: u64,
    pub peak_threshold: u64,
}

impl PeakSmoothing {
    pub open spec fn wf(&self) -> bool {
        &&& 0 < self.attack_rate <= 0x1_0000_0000
        &&& 0 < self.decay_rate <= 0x1_0000_0000
        &&& 0 < self.decay_limit <= 0x1_0000_0000
        &&& 0 < self.peak_threshold
    }
}

impl Default for PeakSmoothing {
    /// Attack 20 units/s, decay 0.5 units/s, a one-second decay window,
    /// and a reset threshold of about 1e-4.
    fn default() -> (r: Self)
        ensures
            r.attack_rate == 20 * FP,
            r.decay_rate == FP / 2,
            r.decay_limit == FP,
            r.peak_threshold == 7,
            r.wf(),
    {
        PeakSmoothing { attack_rate: 20 * FP, decay_rate: FP / 2, decay_limit: FP, peak_threshold: 7 }
    }
}

/// Immutable-per-frame snapshot of every stage's parameters.
#[derive(Clone, Copy, Debug, PartialEq, Eq, Structural)]
pub struct Config {
    pub banding: Banding,
    pub window: Window,
    pub scaling: VolumeScale,
    pub band_smoothing: BandSmoothing,
    pub peak_smoothing: PeakSmoothing,
}

impl Config {
    pub open spec fn wf(&self) -> bool {
        &&& self.banding.wf()
        &&& self.peak_smoothing.wf()
    }
}

impl Default for Config {
    fn default() -> (r: Self)
        ensures
            r.banding.frequency_cutoff.low == 20 * FP,
            r.banding.frequency_cutoff.high == 18000 * FP,
            r.banding.scale == FrequencyScale::Mel,
            r.window == Window::Blackman,
            r.scaling == VolumeScale::Logarithmic,
            r.band_smoothing == (BandSmoothing::Exponential { factor: FP / 2 }),
            r.peak_smoothing.attack_rate == 20 * FP,
            r.peak_smoothing.decay_rate == FP / 2,
            r.peak_smoothing.decay_limit == FP,
            r.peak_smoothing.peak_threshold == 7,
            r.wf(),
    {
        Config {
            banding: Banding::default(),
            window: Window::default(),
            scaling: VolumeScale::default(),
            band_smoothing: BandSmoothing::default(),
            peak_smoothing: PeakSmoothing::default(),
        }
    }
}

} // verus!
