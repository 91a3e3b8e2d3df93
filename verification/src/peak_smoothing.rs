//! Peak-envelope smoothing.
//!
//! Classic level-meter ballistics per band: a fast linear attack
//! towards the scaled input, then a decay bounded below by both a
//! linear fall and a peak-memory envelope that empties over
//! `decay_limit` seconds; values that sink under `peak_threshold` snap
//! to silence.

use vstd::prelude::*;

use crate::config::PeakSmoothing;
use crate::fixed::FP;
use crate::process::Frequency;

verus! {

/// Upper bound on one frame delta, in Q16 seconds (about 9 hours).
pub const DT_MAX: u64 = 0x8000_0000;

/// Cap on the microsecond gap fed into the decay envelope; longer gaps
/// behave as if the envelope had fully emptied long ago.
pub const ELAPSED_US_CAP: u64 = 0x100_0000_0000;

/// Decay progress in `[0, FP]`: how much of `decay_limit` has passed
/// since the last rise at `ts_us`.
pub open spec fn progress_spec(now_us: u64, ts_us: u64, decay_limit: u64) -> u64 {
    let dus = if now_us > ts_us {
        if now_us - ts_us > ELAPSED_US_CAP {
            ELAPSED_US_CAP as int
        } else {
            now_us - ts_us
        }
    } else {
        0
    };
    let elapsed_fp = (dus * FP) / 1000000;
    let p = (elapsed_fp * FP) / (decay_limit as int);
    if p > FP {
        FP
    } else {
        p as u64
    }
}

/// One band's envelope step: attack when the input is above the value,
/// decay when below, identity when equal.
pub open spec fn peak_step(
    f: Frequency,
    band: u64,
    now_us: u64,
    dt: u64,
    cfg: PeakSmoothing,
) -> Frequency {
    if band > f.value {
        let step = (cfg.attack_rate * dt) / (FP as int);
        let v = if f.value + step < band {
            (f.value + step) as u64
        } else {
            band
        };
        Frequency { value: v, peak: v, ts_us: now_us }
    } else if band < f.value {
        let fall = (cfg.decay_rate * dt) / (FP as int);
        let linear = if f.value - fall > band {
            (f.value - fall) as u64
        } else {
            band
        };
        let progress = progress_spec(now_us, f.ts_us, cfg.decay_limit);
        let target = ((f.peak * (FP - progress)) / (FP as int)) as u64;
        let v0 = if linear > target {
            linear
        } else {
            target
        };
        let v = if v0 > FP {
            FP
        } else {
            v0
        };
        if v < cfg.peak_threshold {
            Frequency { value: 0, peak: 0, ts_us: f.ts_us }
        } else {
            Frequency { value: v, peak: f.peak, ts_us: f.ts_us }
        }
    } else {
        f
    }
}

/// The step keeps both fields displayable.
pub proof fn lemma_peak_step_wf(f: Frequency, band: u64, now_us: u64, dt: u64, cfg: PeakSmoothing)
    requires
        f.wf(),
        band <= FP,
    ensures
        peak_step(f, band, now_us, dt, cfg).wf(),
{
}

/// Runs the envelope over every band: `frequencies[i]` becomes
/// `peak_step` of its old record and the scaled input `bands[i]`.
pub fn apply_peak_smoothing(
    frequencies: &mut Vec<Frequency>,
    bands: &Vec<u64>,
    now_us: u64,
    dt: u64,
    config: &PeakSmoothing,
)
    requires
        old(frequencies)@.len() == bands@.len(),
        dt <= DT_MAX,
        config.wf(),
        forall|i: int| 0 <= i < bands@.len() ==> #[trigger] bands@[i] <= FP,
        forall|i: int| 0 <= i < old(frequencies)@.len() ==> #[trigger] old(frequencies)@[i].wf(),
    ensures
        final(frequencies)@.len() == old(frequencies)@.len(),
        forall|i: int|
            0 <= i < bands@.len() ==> #[trigger] final(frequencies)@[i] == peak_step(
                old(frequencies)@[i],
                bands@[i],
                now_us,
                dt,
                *config,
            ),
        forall|i: int| 0 <= i < bands@.len() ==> #[trigger] final(frequencies)@[i].wf(),
{
    let n: usize = frequencies.len();
    let mut i: usize = 0;
    while i < n
        invariant
            n == bands@.len(),
            n == frequencies@.len(),
            n == old(frequencies)@.len(),
            i <= n,
            dt <= DT_MAX,
            config.wf(),
            forall|k: int| 0 <= k < n ==> #[trigger] bands@[k] <= FP,
            forall|k: int| 0 <= k < n ==> #[trigger] old(frequencies)@[k].wf(),
            forall|k: int| i <= k < n ==> frequencies@[k] == old(frequencies)@[k],
            forall|k: int|
                0 <= k < i ==> #[trigger] frequencies@[k] == peak_step(
                    old(frequencies)@[k],
                    bands@[k],
                    now_us,
                    dt,
                    *config,
                ),
            forall|k: int| 0 <= k < i ==> #[trigger] frequencies@[k].wf(),
        decreases n - i,
    {
        let band: u64 = bands[i];
        let f: Frequency = frequencies[i];
        let next: Frequency = envelope_step(f, band, now_us, dt, config);
        frequencies.set(i, next);
        i = i + 1;
    }
}

/// Exec mirror of [`peak_step`] for a single band.
fn envelope_step(f: Frequency, band: u64, now_us: u64, dt: u64, config: &PeakSmoothing) -> (r:
    Frequency)
    requires
        f.wf(),
        band <= FP,
        dt <= DT_MAX,
        config.wf(),
    ensures
        r == peak_step(f, band, now_us, dt, *config),
        r.wf(),
{
    if band > f.value {
        proof {
            assert(config.attack_rate * dt <= 0x1_0000_0000u64 * DT_MAX) by (nonlinear_arith)
                requires
                    config.attack_rate <= 0x1_0000_0000u64,
                    dt <= DT_MAX,
            ;
        }
        let step: u64 = (config.attack_rate * dt) / FP;
        let v: u64 = if f.value + step < band {
            f.value + step
        } else {
            band
        };
        Frequency { value: v, peak: v, ts_us: now_us }
    } else if band < f.value {
        proof {
            assert(config.decay_rate * dt <= 0x1_0000_0000u64 * DT_MAX) by (nonlinear_arith)
                requires
                    config.decay_rate <= 0x1_0000_0000u64,
                    dt <= DT_MAX,
            ;
        }
        let fall: u64 = (config.decay_rate * dt) / FP;
        let linear: u64 = if f.value > fall && f.value - fall > band {
            f.value - fall
        } else {
            band
        };
        proof {
            assert(linear == (if f.value - fall > band {
                (f.value - fall) as u64
            } else {
                band
            })) by {
                if f.value <= fall {
                    assert(f.value - fall <= 0 <= band);
                }
            }
        }
        let progress: u64 = decay_progress(now_us, f.ts_us, config.decay_limit);
        proof {
            assert(f.peak * (FP - progress) <= FP * FP) by (nonlinear_arith)
                requires
                    f.peak <= FP,
                    progress <= FP,
            ;
            assert((f.peak * (FP - progress)) / (FP as int) >= 0) by (nonlinear_arith)
                requires
                    f.peak >= 0,
                    progress <= FP,
            ;
        }
        let target: u64 = (f.peak * (FP - progress)) / FP;
        let v0: u64 = if linear > target {
            linear
        } else {
            target
        };
        let v: u64 = if v0 > FP {
            FP
        } else {
            v0
        };
        if v < config.peak_threshold {
            Frequency { value: 0, peak: 0, ts_us: f.ts_us }
        } else {
            Frequency { value: v, peak: f.peak, ts_us: f.ts_us }
        }
    } else {
        f
    }
}

/// Exec mirror of [`progress_spec`].
fn decay_progress(now_us: u64, ts_us: u64, decay_limit: u64) -> (r: u64)
    requires
        0 < decay_limit,
    ensures
        r == progress_spec(now_us, ts_us, decay_limit),
        r <= FP,
{
    let dus: u64 = if now_us > ts_us {
        if now_us - ts_us > ELAPSED_US_CAP {
            ELAPSED_US_CAP
        } else {
            now_us - ts_us
        }
    } else {
        0
    };
    proof {
        assert(dus * FP <= ELAPSED_US_CAP * FP) by (nonlinear_arith)
            requires
                dus <= ELAPSED_US_CAP,
                FP > 0,
        ;
        assert((dus * FP) / 1000000 * FP <= ELAPSED_US_CAP * FP) by (nonlinear_arith)
            requires
                dus * FP <= ELAPSED_US_CAP * FP,
                FP > 0,
        ;
        assert((dus * FP) / 1000000 >= 0 && ((dus * FP) / 1000000) * FP >= 0)
            by (nonlinear_arith)
            requires
                dus >= 0,
                FP > 0,
        ;
    }
    let elapsed_fp: u64 = (dus * FP) / 1000000;
    let p: u64 = (elapsed_fp * FP) / decay_limit;
    if p > FP {
        FP
    } else {
        p
    }
}

/// The whole-frame attack step in Q16 units for one frame delta.
pub open spec fn attack_amount(dt: u64, cfg: PeakSmoothing) -> int {
    (cfg.attack_rate * dt) / (FP as int)
}

/// Envelope state after a run of frames with one constant input.
pub open spec fn run_steps(
    f: Frequency,
    band: u64,
    now_us: u64,
    dts: Seq<u64>,
    cfg: PeakSmoothing,
) -> Frequency
    decreases dts.len(),
{
    if dts.len() == 0 {
        f
    } else {
        run_steps(peak_step(f, band, now_us, dts[0], cfg), band, now_us, dts.skip(1), cfg)
    }
}

/// Total attack movement over a run of frame deltas.
pub open spec fn attack_sum(dts: Seq<u64>, cfg: PeakSmoothing) -> int
    decreases dts.len(),
{
    if dts.len() == 0 {
        0
    } else {
        attack_amount(dts[0], cfg) + attack_sum(dts.skip(1), cfg)
    }
}

/// Attack ballistics, exactly: holding a constant input at or above the
/// current value, the value after any sequence of frames is the input,
/// capped sum of the per-frame attack steps.  In particular the value
/// reaches the input as soon as the accumulated attack movement covers
/// the initial deficit — for a full-scale step input, within
/// `1 / attack_rate` seconds of accumulated frame time.
pub proof fn lemma_attack_convergence(
    f: Frequency,
    band: u64,
    now_us: u64,
    dts: Seq<u64>,
    cfg: PeakSmoothing,
)
    requires
        f.wf(),
        cfg.wf(),
        band <= FP,
        f.value <= band,
    ensures
        run_steps(f, band, now_us, dts, cfg).value == (if f.value + attack_sum(dts, cfg) < band {
            f.value + attack_sum(dts, cfg)
        } else {
            band as int
        }),
    decreases dts.len(),
{
    if dts.len() == 0 {
    } else {
        let s0 = attack_amount(dts[0], cfg);
        assert(s0 >= 0) by (nonlinear_arith)
            requires
                cfg.attack_rate >= 0,
                dts[0] >= 0,
                s0 == (cfg.attack_rate * dts[0]) / (FP as int),
        ;
        let g = peak_step(f, band, now_us, dts[0], cfg);
        assert(g.value == (if f.value + s0 < band {
            f.value + s0
        } else {
            band as int
        }));
        assert(g.wf());
        lemma_attack_convergence(g, band, now_us, dts.skip(1), cfg);
        lemma_attack_sum_nonneg(dts.skip(1), cfg);
    }
}

/// Each term of the attack sum is nonnegative.
pub proof fn lemma_attack_sum_nonneg(dts: Seq<u64>, cfg: PeakSmoothing)
    requires
        cfg.wf(),
    ensures
        attack_sum(dts, cfg) >= 0,
    decreases dts.len(),
{
    if dts.len() > 0 {
        assert(attack_amount(dts[0], cfg) >= 0) by (nonlinear_arith)
            requires
                cfg.attack_rate >= 0,
                dts[0] >= 0,
                attack_amount(dts[0], cfg) == (cfg.attack_rate * dts[0]) / (FP as int),
        ;
        lemma_attack_sum_nonneg(dts.skip(1), cfg);
    }
}

/// Decay completion: once the peak envelope has fully emptied
/// (`progress` at its limit) and the linear fall covers the remaining
/// value, a silent input snaps both value and peak to exactly zero.
pub proof fn lemma_decay_completes(f: Frequency, now_us: u64, dt: u64, cfg: PeakSmoothing)
    requires
        f.wf(),
        cfg.wf(),
        f.value > 0,
        progress_spec(now_us, f.ts_us, cfg.decay_limit) == FP,
        cfg.decay_rate * dt >= f.value * FP,
    ensures
        peak_step(f, 0, now_us, dt, cfg).value == 0,
        peak_step(f, 0, now_us, dt, cfg).peak == 0,
{
    let fall = (cfg.decay_rate * dt) / (FP as int);
    assert(fall >= f.value) by (nonlinear_arith)
        requires
            cfg.decay_rate * dt >= f.value * FP,
            fall == (cfg.decay_rate * dt) / (FP as int),
            FP == 65536u64,
            f.value >= 0,
    ;
    assert(f.peak * (FP - FP) == 0) by (nonlinear_arith);
}

/// Silence is absorbing: a fully reset band fed silence stays exactly
/// zero on every later frame.
pub proof fn lemma_silence_absorbing(f: Frequency, now_us: u64, dt: u64, cfg: PeakSmoothing)
    requires
        f.value == 0,
        f.peak == 0,
    ensures
        peak_step(f, 0, now_us, dt, cfg) == f,
{
}


} // verus!
