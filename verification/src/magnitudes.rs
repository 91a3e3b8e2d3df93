//! Magnitude extraction.
//!
//! The spectral transform leaves each channel with a packed spectrum:
//! index 0 holds the DC real component, the final index the Nyquist real
//! component, and the interior alternates real/imaginary pairs.  This
//! stage folds that layout into one magnitude per frequency bin.

use vstd::prelude::*;

use crate::fixed::sqrt_floor;

verus! {

/// Largest admissible spectrum component, in Q16 units; keeps every
/// `re * re + im * im` within `u64`.
pub const AMP_MAX: i64 = 0x8000_0000;

/// Absolute value of a spectrum component.
pub open spec fn abs_spec(x: int) -> int {
    if x < 0 {
        -x
    } else {
        x
    }
}

/// The magnitude of interior bin `k`: the floor square root of
/// `re^2 + im^2` for the pair belonging to that bin.
pub open spec fn pair_magnitude(raw: Seq<i64>, k: int) -> nat {
    sqrt_floor((raw[2 * k - 1] * raw[2 * k - 1] + raw[2 * k] * raw[2 * k]) as nat)
}

/// Every component of the packed spectrum is within `AMP_MAX`.
pub open spec fn spectrum_bounded(raw: Seq<i64>) -> bool {
    forall|i: int| 0 <= i < raw.len() ==> -AMP_MAX <= #[trigger] raw[i] <= AMP_MAX
}

/// The whole magnitude sequence of a packed spectrum.
pub open spec fn magnitudes_spec(raw: Seq<i64>) -> Seq<u64> {
    Seq::new(
        (raw.len() / 2 + 1) as nat,
        |k: int|
            if k == 0 {
                abs_spec(raw[0] as int) as u64
            } else if k == raw.len() / 2 {
                abs_spec(raw[raw.len() - 1] as int) as u64
            } else {
                pair_magnitude(raw, k) as u64
            },
    )
}

/// Converts the packed spectrum `raw` into `raw.len() / 2 + 1` magnitude
/// bins: bin 0 is `|DC|`, the last bin `|Nyquist|`, and interior bin `k`
/// the floor square root of `re^2 + im^2` of its pair.
pub fn calculate_magnitudes(magnitudes: &mut Vec<u64>, raw: &Vec<i64>)
    requires
        raw@.len() >= 2,
        old(magnitudes)@.len() == raw@.len() / 2 + 1,
        spectrum_bounded(raw@),
    ensures
        final(magnitudes)@.len() == old(magnitudes)@.len(),
        final(magnitudes)@ == magnitudes_spec(raw@),
        crate::band_smoothing::all_lt(final(magnitudes)@, crate::band_smoothing::BAND_MAX),
{
    let nyquist: usize = raw.len();
    let bins: usize = nyquist / 2 + 1;
    let dc: u64 = abs_component(raw[0]);
    magnitudes.set(0, dc);
    proof {
        vstd::arithmetic::div_mod::lemma_fundamental_div_mod(raw@.len() as int, 2);
        assert(2 * bins <= raw@.len() + 2);
    }
    let mut i: usize = 0;
    while i < bins - 2
        invariant
            nyquist == raw@.len(),
            bins == raw@.len() / 2 + 1,
            2 * bins <= raw@.len() + 2,
            raw@.len() >= 2,
            i <= bins - 2,
            magnitudes@.len() == bins,
            spectrum_bounded(raw@),
            magnitudes@[0] == abs_spec(raw@[0] as int),
            forall|k: int| 1 <= k <= i ==> #[trigger] magnitudes@[k] == pair_magnitude(raw@, k),
        decreases bins - 2 - i,
    {
        let re: i64 = raw[1 + i * 2];
        let im: i64 = raw[1 + i * 2 + 1];
        let re_a: u64 = abs_component(re);
        let im_a: u64 = abs_component(im);
        proof {
            assert(re_a * re_a + im_a * im_a <= u64::MAX) by (nonlinear_arith)
                requires
                    re_a <= 0x8000_0000u64,
                    im_a <= 0x8000_0000u64,
            ;
            assert(re_a * re_a == raw@[1 + i * 2] * raw@[1 + i * 2]) by (nonlinear_arith)
                requires
                    re_a == abs_spec(raw@[1 + i * 2] as int),
            ;
            assert(im_a * im_a == raw@[2 + i * 2] * raw@[2 + i * 2]) by (nonlinear_arith)
                requires
                    im_a == abs_spec(raw@[2 + i * 2] as int),
            ;
        }
        let mag: u64 = crate::fixed::isqrt(re_a * re_a + im_a * im_a);
        magnitudes.set(i + 1, mag);
        i = i + 1;
    }
    let ny: u64 = abs_component(raw[nyquist - 1]);
    magnitudes.set(bins - 1, ny);
    proof {
        assert forall|k: int| 0 <= k < magnitudes@.len() implies #[trigger] magnitudes@[k]
            < crate::band_smoothing::BAND_MAX by {
            if 1 <= k < bins - 1 {
                let v = magnitudes@[k] as nat;
                let sum = (raw@[2 * k - 1] * raw@[2 * k - 1] + raw@[2 * k] * raw@[2 * k]) as nat;
                assert(magnitudes@[k] == pair_magnitude(raw@, k));
                crate::fixed::lemma_sqrt_floor_bounds(sum);
                assert(v == sqrt_floor(sum));
                assert(v * v <= sum);
                assert(sum <= 0x8000_0000_0000_0000) by (nonlinear_arith)
                    requires
                        sum == (raw@[2 * k - 1] * raw@[2 * k - 1] + raw@[2 * k] * raw@[2 * k]) as nat,
                        -0x8000_0000 <= raw@[2 * k - 1] <= 0x8000_0000,
                        -0x8000_0000 <= raw@[2 * k] <= 0x8000_0000,
                ;
                assert(v < 0x1_0000_0000) by (nonlinear_arith)
                    requires
                        v * v <= sum,
                        sum <= 0x8000_0000_0000_0000,
                        v >= 0,
                ;
            }
        }
        assert(magnitudes@ =~= magnitudes_spec(raw@));
    }
}

/// Absolute value of one component, under the `AMP_MAX` bound.
fn abs_component(x: i64) -> (r: u64)
    requires
        -AMP_MAX <= x <= AMP_MAX,
    ensures
        r == abs_spec(x as int),
        r <= 0x8000_0000u64,
{
    if x < 0 {
        (-x) as u64
    } else {
        x as u64
    }
}

} // verus!
