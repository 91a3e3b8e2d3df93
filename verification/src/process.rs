//! The processor: per-channel state and the stage sequence run once for
//! every complete sample block.

use vstd::prelude::*;

use crate::band_smoothing::{all_lt, apply_band_smoothing, smoothed_value, BAND_MAX};
use crate::bands::{aggregate_bands, band_value_spec};
use crate::config::Config;
use crate::fixed::FP;
use crate::magnitudes::{calculate_magnitudes, magnitudes_spec, spectrum_bounded};
use crate::peak_smoothing::{apply_peak_smoothing, peak_step, DT_MAX};
use crate::scaling::{apply_scaling, scaled_value};

verus! {

/// One displayable band: current value, most recent local maximum, and
/// the time (microseconds) of the last rise.  `value` and `peak` are
/// Q16, clamped to `[0, FP]`.
#[derive(Clone, Copy, Debug, PartialEq, Eq, Structural)]
pub struct Frequency {
    pub value: u64,
    pub peak: u64,
    pub ts_us: u64,
}

impl Frequency {
    /// A silent band whose clock starts at `now_us`.
    pub fn empty(now_us: u64) -> (r: Frequency)
        ensures
            r.value == 0,
            r.peak == 0,
            r.ts_us == now_us,
    {
        Frequency { value: 0, peak: 0, ts_us: now_us }
    }

    /// Both envelope fields are displayable.
    pub open spec fn wf(&self) -> bool {
        self.value <= FP && self.peak <= FP
    }
}

/// Per-channel working storage: the magnitude bins of the last block
/// and the three parallel band-indexed sequences.
pub struct Channel {
    pub fft_magnitudes: Vec<u64>,
    pub band_magnitudes: Vec<u64>,
    pub smoothed_band_magnitudes: Vec<u64>,
    pub frequencies: Vec<Frequency>,
}

impl Channel {
    /// The channel invariant: the magnitude buffer matches the block
    /// half-length, the three band sequences share one length, and
    /// every stored value is in range.
    pub open spec fn wf(&self, time_len: int) -> bool {
        &&& self.fft_magnitudes@.len() == time_len / 2 + 1
        &&& self.band_magnitudes@.len() == self.smoothed_band_magnitudes@.len()
        &&& self.band_magnitudes@.len() == self.frequencies@.len()
        &&& self.band_magnitudes@.len() <= 65536
        &&& all_lt(self.band_magnitudes@, BAND_MAX)
        &&& all_lt(self.smoothed_band_magnitudes@, BAND_MAX)
        &&& forall|i: int|
            0 <= i < self.frequencies@.len() ==> (#[trigger] self.frequencies@[i]).wf()
    }

    /// Zeroed storage for blocks of `time_len` mono samples, with no
    /// bands yet.
    pub fn empty(time_len: usize) -> (r: Channel)
        requires
            time_len <= 4096,
        ensures
            r.wf(time_len as int),
            r.band_magnitudes@.len() == 0,
            r.frequencies@.len() == 0,
    {
        let bins: usize = time_len / 2 + 1;
        let mut mags: Vec<u64> = Vec::new();
        let mut i: usize = 0;
        while i < bins
            invariant
                i <= bins,
                mags@.len() == i,
                forall|k: int| 0 <= k < i ==> #[trigger] mags@[k] == 0,
            decreases bins - i,
        {
            mags.push(0);
            i = i + 1;
        }
        Channel {
            fft_magnitudes: mags,
            band_magnitudes: Vec::new(),
            smoothed_band_magnitudes: Vec::new(),
            frequencies: Vec::new(),
        }
    }
}

/// Splits one interleaved stereo block into its two mono channels:
/// even positions to the left, odd positions to the right.
pub fn deinterleave<T: Copy>(samples: &Vec<T>) -> (r: (Vec<T>, Vec<T>))
    ensures
        r.0@.len() == samples@.len() / 2,
        r.1@.len() == samples@.len() / 2,
        forall|i: int| 0 <= i < r.0@.len() ==> #[trigger] r.0@[i] == samples@[2 * i],
        forall|i: int| 0 <= i < r.1@.len() ==> #[trigger] r.1@[i] == samples@[2 * i + 1],
{
    let n: usize = samples.len();
    let half: usize = n / 2;
    let mut left: Vec<T> = Vec::new();
    let mut right: Vec<T> = Vec::new();
    let mut i: usize = 0;
    proof {
        vstd::arithmetic::div_mod::lemma_fundamental_div_mod(samples@.len() as int, 2);
    }
    while i < half
        invariant
            n == samples@.len(),
            2 * half <= samples@.len(),
            i <= half,
            left@.len() == i,
            right@.len() == i,
            forall|k: int| 0 <= k < i ==> #[trigger] left@[k] == samples@[2 * k],
            forall|k: int| 0 <= k < i ==> #[trigger] right@[k] == samples@[2 * k + 1],
        decreases half - i,
    {
        let l: T = samples[2 * i];
        let r: T = samples[2 * i + 1];
        left.push(l);
        right.push(r);
        i = i + 1;
    }
    (left, right)
}

/// Rounds a requested block length into the supported set: clamped to
/// `[32, 4096]` and rounded up to the next power of two.
pub open spec fn block_len_spec(requested: int) -> usize {
    if requested <= 32 {
        32
    } else if requested <= 64 {
        64
    } else if requested <= 128 {
        128
    } else if requested <= 256 {
        256
    } else if requested <= 512 {
        512
    } else if requested <= 1024 {
        1024
    } else if requested <= 2048 {
        2048
    } else {
        4096
    }
}

/// The Q16 frame delta between two clock readings, saturating at zero
/// and capped at [`DT_MAX`].
pub open spec fn dt_fp_spec(last_us: u64, now_us: u64) -> u64 {
    let dus = if now_us > last_us {
        if now_us - last_us > 0x100_0000_0000 {
            0x100_0000_0000 as int
        } else {
            now_us - last_us
        }
    } else {
        0
    };
    let dt = (dus * FP) / 1000000;
    if dt > DT_MAX {
        DT_MAX
    } else {
        dt as u64
    }
}

/// Orchestrates the stage sequence over both stereo channels, once per
/// complete sample block.
pub struct Processor {
    config: Config,
    sample_rate: u32,
    left: Channel,
    right: Channel,
    last_update_us: u64,
    sample_size: usize,
}

impl Processor {
    /// Smallest supported sample-block length.
    pub const MIN_SAMPLE_SIZE: usize = 32;

    /// Largest supported sample-block length.
    pub const MAX_SAMPLE_SIZE: usize = 4096;

    pub closed spec fn spec_config(&self) -> Config {
        self.config
    }

    pub closed spec fn spec_sample_rate(&self) -> u32 {
        self.sample_rate
    }

    pub closed spec fn spec_sample_size(&self) -> usize {
        self.sample_size
    }

    pub closed spec fn spec_last_update_us(&self) -> u64 {
        self.last_update_us
    }

    pub closed spec fn spec_left(&self) -> &Channel {
        &self.left
    }

    pub closed spec fn spec_right(&self) -> &Channel {
        &self.right
    }

    /// The processor invariant: a supported block length, a valid
    /// configuration, a usable sample rate, and two well-formed
    /// channels of equal band count.
    pub closed spec fn wf(&self) -> bool {
        &&& self.sample_size == block_len_spec(self.sample_size as int)
        &&& self.config.wf()
        &&& 1 <= self.sample_rate
        &&& self.left.wf(self.sample_size as int / 2)
        &&& self.right.wf(self.sample_size as int / 2)
        &&& self.left.band_magnitudes@.len() == self.right.band_magnitudes@.len()
    }

    /// Builds a processor for blocks of (at most) `sample_size`
    /// interleaved samples: the length is clamped to `[32, 4096]` and
    /// rounded up to a power of two, and both channels start silent
    /// with no bands.
    pub fn new(sample_rate: u32, sample_size: usize, config: Config, now_us: u64) -> (r: Processor)
        requires
            1 <= sample_rate,
            config.wf(),
        ensures
            r.wf(),
            r.spec_sample_size() == block_len_spec(sample_size as int),
            r.spec_sample_rate() == sample_rate,
            r.spec_config() == config,
            r.spec_last_update_us() == now_us,
            r.spec_left().band_magnitudes@.len() == 0,
            r.spec_right().band_magnitudes@.len() == 0,
    {
        let size: usize = if sample_size <= 32 {
            32
        } else if sample_size <= 64 {
            64
        } else if sample_size <= 128 {
            128
        } else if sample_size <= 256 {
            256
        } else if sample_size <= 512 {
            512
        } else if sample_size <= 1024 {
            1024
        } else if sample_size <= 2048 {
            2048
        } else {
            4096
        };
        Processor {
            config,
            sample_rate,
            left: Channel::empty(size / 2),
            right: Channel::empty(size / 2),
            last_update_us: now_us,
            sample_size: size,
        }
    }

    /// Replaces the configuration snapshot for later frames.
    pub fn set_config(&mut self, config: Config)
        requires
            old(self).wf(),
            config.wf(),
        ensures
            final(self).wf(),
            final(self).spec_config() == config,
            final(self).spec_left() == old(self).spec_left(),
            final(self).spec_right() == old(self).spec_right(),
            final(self).spec_sample_size() == old(self).spec_sample_size(),
            final(self).spec_sample_rate() == old(self).spec_sample_rate(),
            final(self).spec_last_update_us() == old(self).spec_last_update_us(),
    {
        self.config = config;
    }

    /// Reads the current configuration snapshot.
    pub fn config(&self) -> (r: Config)
        ensures
            r == self.spec_config(),
    {
        self.config
    }

    /// Resizes all three band-indexed sequences in both channels to
    /// `bands`, resetting every band magnitude and envelope record to
    /// silence — a hard discontinuity, not a smoothed transition.
    pub fn set_bands(&mut self, bands: usize)
        requires
            old(self).wf(),
            bands <= 65536,
        ensures
            final(self).wf(),
            final(self).spec_config() == old(self).spec_config(),
            final(self).spec_sample_size() == old(self).spec_sample_size(),
            final(self).spec_sample_rate() == old(self).spec_sample_rate(),
            final(self).spec_last_update_us() == old(self).spec_last_update_us(),
            final(self).spec_left().band_magnitudes@.len() == bands,
            final(self).spec_right().band_magnitudes@.len() == bands,
            forall|i: int|
                0 <= i < bands ==> #[trigger] final(self).spec_left().smoothed_band_magnitudes@[i]
                    == 0,
            forall|i: int|
                0 <= i < bands ==> #[trigger] final(self).spec_right().smoothed_band_magnitudes@[i]
                    == 0,
            forall|i: int|
                0 <= i < bands ==> (#[trigger] final(self).spec_left().frequencies@[i]).value == 0
                    && final(self).spec_left().frequencies@[i].peak == 0,
            forall|i: int|
                0 <= i < bands ==> (#[trigger] final(self).spec_right().frequencies@[i]).value == 0
                    && final(self).spec_right().frequencies@[i].peak == 0,
    {
        let now: u64 = self.last_update_us;
        reset_bands(&mut self.left, bands, now);
        reset_bands(&mut self.right, bands, now);
    }

    /// Read-only views of both channels' output records.
    pub fn current_frequencies(&self) -> (r: (&Vec<Frequency>, &Vec<Frequency>))
        ensures
            r.0 == &self.spec_left().frequencies,
            r.1 == &self.spec_right().frequencies,
    {
        (&self.left.frequencies, &self.right.frequencies)
    }

    /// Runs stages magnitude extraction through peak smoothing over
    /// both packed spectra.  Spectra whose length does not match the
    /// configured block half-length are discarded unprocessed and the
    /// call reports no update.
    pub fn process_spectra(
        &mut self,
        left_spectrum: &Vec<i64>,
        right_spectrum: &Vec<i64>,
        now_us: u64,
    ) -> (updated: bool)
        requires
            old(self).wf(),
            spectrum_bounded(left_spectrum@),
            spectrum_bounded(right_spectrum@),
        ensures
            final(self).wf(),
            updated == (left_spectrum@.len() == old(self).spec_sample_size() / 2
                && right_spectrum@.len() == old(self).spec_sample_size() / 2),
            !updated ==> *final(self) == *old(self),
            updated ==> channel_processed(
                old(self).spec_left(),
                final(self).spec_left(),
                left_spectrum@,
                *old(self),
                now_us,
            ),
            updated ==> channel_processed(
                old(self).spec_right(),
                final(self).spec_right(),
                right_spectrum@,
                *old(self),
                now_us,
            ),
            updated ==> final(self).spec_last_update_us() == now_us,
            final(self).spec_config() == old(self).spec_config(),
            final(self).spec_sample_size() == old(self).spec_sample_size(),
            final(self).spec_sample_rate() == old(self).spec_sample_rate(),
    {
        let half: usize = self.sample_size / 2;
        if left_spectrum.len() != half || right_spectrum.len() != half {
            return false;
        }
        let dt: u64 = frame_delta(self.last_update_us, now_us);
        proof {
            assert(half >= 16) by {
                assert(self.sample_size == block_len_spec(self.sample_size as int));
            }
        }
        process_channel(
            &mut self.left,
            left_spectrum,
            self.sample_rate,
            &self.config,
            now_us,
            dt,
        );
        process_channel(
            &mut self.right,
            right_spectrum,
            self.sample_rate,
            &self.config,
            now_us,
            dt,
        );
        self.last_update_us = now_us;
        true
    }
}

/// What one processed frame does to one channel: the magnitude bins
/// come from the packed spectrum; the smoothed bands from this frame's
/// aggregated raw bands and the previous smoothed bands; the band
/// magnitudes hold the scaled values; and each envelope record takes
/// one `peak_step` against its scaled band.
pub open spec fn channel_processed(
    before: &Channel,
    after: &Channel,
    spectrum: Seq<i64>,
    prior: Processor,
    now_us: u64,
) -> bool {
    let cfg = prior.spec_config();
    let n = before.band_magnitudes@.len() as int;
    let raw = Seq::new(
        n as nat,
        |b: int|
            band_value_spec(
                magnitudes_spec(spectrum),
                cfg.banding.scale,
                cfg.banding.frequency_cutoff.low,
                cfg.banding.frequency_cutoff.high,
                n as u64,
                prior.spec_sample_rate(),
                b,
            ),
    );
    let dt = dt_fp_spec(prior.spec_last_update_us(), now_us);
    &&& after.fft_magnitudes@ == magnitudes_spec(spectrum)
    &&& after.band_magnitudes@.len() == n
    &&& after.smoothed_band_magnitudes@.len() == n
    &&& after.frequencies@.len() == n
    &&& forall|i: int|
        0 <= i < n ==> #[trigger] after.smoothed_band_magnitudes@[i] == smoothed_value(
            raw,
            before.smoothed_band_magnitudes@,
            cfg.band_smoothing,
            i,
        )
    &&& forall|i: int|
        0 <= i < n ==> #[trigger] after.band_magnitudes@[i] == scaled_value(
            after.smoothed_band_magnitudes@,
            cfg.scaling,
            i,
        )
    &&& forall|i: int|
        0 <= i < n ==> #[trigger] after.frequencies@[i] == peak_step(
            before.frequencies@[i],
            after.band_magnitudes@[i],
            now_us,
            dt,
            cfg.peak_smoothing,
        )
}

/// Exec mirror of [`dt_fp_spec`].
fn frame_delta(last_us: u64, now_us: u64) -> (r: u64)
    ensures
        r == dt_fp_spec(last_us, now_us),
        r <= DT_MAX,
{
    let dus: u64 = if now_us > last_us {
        if now_us - last_us > 0x100_0000_0000 {
            0x100_0000_0000
        } else {
            now_us - last_us
        }
    } else {
        0
    };
    proof {
        assert(dus * FP <= 0x100_0000_0000u64 * FP) by (nonlinear_arith)
            requires
                dus <= 0x100_0000_0000u64,
                FP > 0,
        ;
        assert((dus * FP) / 1000000 >= 0) by (nonlinear_arith)
            requires
                dus >= 0,
                FP > 0,
        ;
    }
    let dt: u64 = (dus * FP) / 1000000;
    if dt > DT_MAX {
        DT_MAX
    } else {
        dt
    }
}

/// Rebuilds one channel's band sequences at a new band count, silent.
fn reset_bands(channel: &mut Channel, bands: usize, now_us: u64)
    requires
        bands <= 65536,
    ensures
        final(channel).fft_magnitudes == old(channel).fft_magnitudes,
        final(channel).band_magnitudes@.len() == bands,
        final(channel).smoothed_band_magnitudes@.len() == bands,
        final(channel).frequencies@.len() == bands,
        forall|i: int| 0 <= i < bands ==> #[trigger] final(channel).band_magnitudes@[i] == 0,
        forall|i: int|
            0 <= i < bands ==> #[trigger] final(channel).smoothed_band_magnitudes@[i] == 0,
        forall|i: int|
            0 <= i < bands ==> ((#[trigger] final(channel).frequencies@[i]).value == 0
                && final(channel).frequencies@[i].peak == 0
                && final(channel).frequencies@[i].wf()),
    {
    let mut raw: Vec<u64> = Vec::new();
    let mut smoothed: Vec<u64> = Vec::new();
    let mut freqs: Vec<Frequency> = Vec::new();
    let mut i: usize = 0;
    while i < bands
        invariant
            i <= bands,
            raw@.len() == i,
            smoothed@.len() == i,
            freqs@.len() == i,
            forall|k: int| 0 <= k < i ==> #[trigger] raw@[k] == 0,
            forall|k: int| 0 <= k < i ==> #[trigger] smoothed@[k] == 0,
            forall|k: int|
                0 <= k < i ==> (#[trigger] freqs@[k]).value == 0 && freqs@[k].peak == 0
                    && freqs@[k].ts_us == now_us,
        decreases bands - i,
    {
        raw.push(0);
        smoothed.push(0);
        freqs.push(Frequency::empty(now_us));
        i = i + 1;
    }
    channel.band_magnitudes = raw;
    channel.smoothed_band_magnitudes = smoothed;
    channel.frequencies = freqs;
}

/// Runs the four per-channel stages in order against one spectrum.
fn process_channel(
    channel: &mut Channel,
    spectrum: &Vec<i64>,
    sample_rate: u32,
    config: &Config,
    now_us: u64,
    dt: u64,
)
    requires
        old(channel).wf(spectrum@.len() as int),
        spectrum_bounded(spectrum@),
        16 <= spectrum@.len() <= 2048,
        config.wf(),
        1 <= sample_rate,
        dt <= DT_MAX,
    ensures
        final(channel).wf(spectrum@.len() as int),
        final(channel).band_magnitudes@.len() == old(channel).band_magnitudes@.len(),
        channel_processed_one(
            old(channel),
            final(channel),
            spectrum@,
            sample_rate,
            *config,
            now_us,
            dt,
        ),
{
    let ghost n = channel.band_magnitudes@.len() as int;
    calculate_magnitudes(&mut channel.fft_magnitudes, spectrum);
    let ghost raw_expect = Seq::new(
        n as nat,
        |b: int|
            band_value_spec(
                magnitudes_spec(spectrum@),
                config.banding.scale,
                config.banding.frequency_cutoff.low,
                config.banding.frequency_cutoff.high,
                n as u64,
                sample_rate,
                b,
            ),
    );
    aggregate_bands(
        &mut channel.band_magnitudes,
        &channel.fft_magnitudes,
        sample_rate,
        &config.banding,
    );
    proof {
        assert(channel.band_magnitudes@ =~= raw_expect);
    }
    apply_band_smoothing(
        &mut channel.smoothed_band_magnitudes,
        &channel.band_magnitudes,
        &config.band_smoothing,
    );
    apply_scaling(&mut channel.band_magnitudes, &channel.smoothed_band_magnitudes, &config.scaling);
    apply_peak_smoothing(
        &mut channel.frequencies,
        &channel.band_magnitudes,
        now_us,
        dt,
        &config.peak_smoothing,
    );
}

/// [`channel_processed`] restated over the loose pieces a channel call
/// sees.
pub open spec fn channel_processed_one(
    before: &Channel,
    after: &Channel,
    spectrum: Seq<i64>,
    sample_rate: u32,
    cfg: Config,
    now_us: u64,
    dt: u64,
) -> bool {
    let n = before.band_magnitudes@.len() as int;
    let raw = Seq::new(
        n as nat,
        |b: int|
            band_value_spec(
                magnitudes_spec(spectrum),
                cfg.banding.scale,
                cfg.banding.frequency_cutoff.low,
                cfg.banding.frequency_cutoff.high,
                n as u64,
                sample_rate,
                b,
            ),
    );
    &&& after.fft_magnitudes@ == magnitudes_spec(spectrum)
    &&& after.band_magnitudes@.len() == n
    &&& after.smoothed_band_magnitudes@.len() == n
    &&& after.frequencies@.len() == n
    &&& forall|i: int|
        0 <= i < n ==> #[trigger] after.smoothed_band_magnitudes@[i] == smoothed_value(
            raw,
            before.smoothed_band_magnitudes@,
            cfg.band_smoothing,
            i,
        )
    &&& forall|i: int|
        0 <= i < n ==> #[trigger] after.band_magnitudes@[i] == scaled_value(
            after.smoothed_band_magnitudes@,
            cfg.scaling,
            i,
        )
    &&& forall|i: int|
        0 <= i < n ==> #[trigger] after.frequencies@[i] == peak_step(
            before.frequencies@[i],
            after.band_magnitudes@[i],
            now_us,
            dt,
            cfg.peak_smoothing,
        )
}


/// `sum_range` of an all-zero sequence is zero.
proof fn lemma_sum_range_zero(s: Seq<u64>, a: int, b: int)
    requires
        forall|i: int| 0 <= i < s.len() ==> #[trigger] s[i] == 0,
        0 <= a,
        b <= s.len(),
    ensures
        crate::band_smoothing::sum_range(s, a, b) == 0,
    decreases b - a,
{
    if a < b {
        lemma_sum_range_zero(s, a + 1, b);
    }
}

/// The exponential recurrence over all-zero inputs stays at zero.
proof fn lemma_exp_val_zero(raw: Seq<u64>, prior: Seq<u64>, factor: u64, i: int)
    requires
        raw.len() > 0,
        prior.len() >= raw.len(),
        0 <= i < raw.len(),
        factor <= FP,
        forall|k: int| 0 <= k < raw.len() ==> #[trigger] raw[k] == 0,
        forall|k: int| 0 <= k < prior.len() ==> #[trigger] prior[k] == 0,
    ensures
        crate::band_smoothing::exp_val(raw, prior, factor, i) == 0,
    decreases i,
{
    if i <= 0 {
        assert(factor * raw[0] == 0) by (nonlinear_arith)
            requires
                raw[0] == 0,
        ;
        assert((FP - factor) * prior[0] == 0) by (nonlinear_arith)
            requires
                prior[0] == 0,
        ;
    } else {
        lemma_exp_val_zero(raw, prior, factor, i - 1);
        assert(factor * raw[i] == 0) by (nonlinear_arith)
            requires
                raw[i] == 0,
        ;
        assert((FP - factor) * 0 == 0) by (nonlinear_arith);
    }
}

/// The maximum of an all-zero prefix is zero.
proof fn lemma_max_of_zero(s: Seq<u64>, n: int)
    requires
        s.len() > 0,
        n <= s.len(),
        forall|k: int| 0 <= k < s.len() ==> #[trigger] s[k] == 0,
    ensures
        crate::scaling::max_of(s, n) == 0,
    decreases n,
{
    if n > 1 {
        lemma_max_of_zero(s, n - 1);
    }
}

/// Silence in, silence out: a processed frame whose spectrum is all
/// zero, starting from zero smoothed state and zeroed envelope
/// records, leaves every band value and peak at exactly zero — under
/// any banding, either smoother and either volume scale.  Chained over
/// frames, a silent stream can never light a band up.
pub proof fn lemma_silent_frame_stays_silent(
    before: &Channel,
    after: &Channel,
    spectrum: Seq<i64>,
    sample_rate: u32,
    cfg: Config,
    now_us: u64,
    dt: u64,
)
    requires
        channel_processed_one(before, after, spectrum, sample_rate, cfg, now_us, dt),
        2 <= spectrum.len() <= 4096,
        1 <= sample_rate,
        before.band_magnitudes@.len() == before.smoothed_band_magnitudes@.len(),
        before.band_magnitudes@.len() == before.frequencies@.len(),
        forall|i: int| 0 <= i < spectrum.len() ==> #[trigger] spectrum[i] == 0,
        forall|i: int|
            0 <= i < before.smoothed_band_magnitudes@.len()
                ==> #[trigger] before.smoothed_band_magnitudes@[i] == 0,
        forall|i: int|
            0 <= i < before.frequencies@.len() ==> (#[trigger] before.frequencies@[i]).value == 0
                && before.frequencies@[i].peak == 0,
    ensures
        forall|i: int|
            0 <= i < after.frequencies@.len() ==> (#[trigger] after.frequencies@[i]).value == 0
                && after.frequencies@[i].peak == 0,
{
    let n = before.band_magnitudes@.len() as int;
    let mags = magnitudes_spec(spectrum);
    assert forall|k: int| 0 <= k < mags.len() implies #[trigger] mags[k] == 0 by {
        if 0 < k < spectrum.len() / 2 {
            assert(spectrum[2 * k - 1] == 0 && spectrum[2 * k] == 0);
            assert(spectrum[2 * k - 1] * spectrum[2 * k - 1] == 0) by (nonlinear_arith)
                requires
                    spectrum[2 * k - 1] == 0,
            ;
            assert(spectrum[2 * k] * spectrum[2 * k] == 0) by (nonlinear_arith)
                requires
                    spectrum[2 * k] == 0,
            ;
        }
    }
    let raw = Seq::new(
        n as nat,
        |b: int|
            band_value_spec(
                mags,
                cfg.banding.scale,
                cfg.banding.frequency_cutoff.low,
                cfg.banding.frequency_cutoff.high,
                n as u64,
                sample_rate,
                b,
            ),
    );
    assert forall|b: int| 0 <= b < n implies #[trigger] raw[b] == 0 by {
        let total = mags.len() as int;
        let hp = crate::bands::hz_per_spec(sample_rate, total);
        let lo = crate::bands::bin_lo(
            crate::bands::boundary_hz(
                cfg.banding.scale,
                cfg.banding.frequency_cutoff.low,
                cfg.banding.frequency_cutoff.high,
                n as u64,
                b,
            ),
            hp,
            total,
        );
        let hi = crate::bands::bin_hi(
            crate::bands::boundary_hz(
                cfg.banding.scale,
                cfg.banding.frequency_cutoff.low,
                cfg.banding.frequency_cutoff.high,
                n as u64,
                b + 1,
            ),
            hp,
            total,
        );
        if lo < hi {
            assert(sample_rate * FP >= 65536) by (nonlinear_arith)
                requires
                    sample_rate >= 1,
                    FP == 65536u64,
            ;
            vstd::arithmetic::div_mod::lemma_div_is_ordered(
                65536,
                (sample_rate * FP) as int,
                2,
            );
            vstd::arithmetic::div_mod::lemma_div_is_ordered_by_denominator(
                32768,
                total - 1,
                4096,
            );
            vstd::arithmetic::div_mod::lemma_div_is_ordered(
                32768,
                ((sample_rate * FP) / 2) as int,
                total - 1,
            );
            assert(hp >= 1);
            vstd::arithmetic::div_mod::lemma_div_pos_is_pos(
                crate::bands::boundary_hz(
                    cfg.banding.scale,
                    cfg.banding.frequency_cutoff.low,
                    cfg.banding.frequency_cutoff.high,
                    n as u64,
                    b,
                ) as int,
                hp as int,
            );
            assert(0 <= lo);
            lemma_sum_range_zero(mags, lo, hi);
        }
    }
    assert forall|i: int| 0 <= i < n implies #[trigger] after.smoothed_band_magnitudes@[i]
        == 0 by {
        match cfg.band_smoothing {
            crate::config::BandSmoothing::Exponential { factor } => {
                lemma_exp_val_zero(
                    raw,
                    before.smoothed_band_magnitudes@,
                    crate::fixed::clamp_unit_spec(factor),
                    i,
                );
            },
            crate::config::BandSmoothing::MovingAverage { window_size } => {
                let ws = if window_size >= 1 {
                    window_size as int
                } else {
                    1
                };
                let lo = crate::band_smoothing::ma_lo(i, ws / 2);
                let hi = crate::band_smoothing::ma_hi(i, ws / 2, n);
                lemma_sum_range_zero(raw, lo, hi);
            },
        }
    }
    assert forall|i: int| 0 <= i < n implies #[trigger] after.band_magnitudes@[i] == 0 by {
        match cfg.scaling {
            crate::config::VolumeScale::Linear => {
                lemma_max_of_zero(
                    after.smoothed_band_magnitudes@,
                    after.smoothed_band_magnitudes@.len() as int,
                );
            },
            crate::config::VolumeScale::Logarithmic => {},
        }
    }
    assert forall|i: int| 0 <= i < after.frequencies@.len() implies (
    #[trigger] after.frequencies@[i]).value == 0 && after.frequencies@[i].peak == 0 by {
        crate::peak_smoothing::lemma_silence_absorbing(
            before.frequencies@[i],
            now_us,
            dt,
            cfg.peak_smoothing,
        );
    }
}


} // verus!
