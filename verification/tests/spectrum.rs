use scram::magnitudes::calculate_magnitudes;

fn to_fixed(x: f32) -> i64 {
    (x * 65536.0) as i64
}

/// Packs a real FFT result into the pipeline's layout: DC first,
/// Nyquist last, interior real/imaginary pairs between them.
fn pack(dc: f32, nyquist: f32, pairs: &[(f32, f32)]) -> Vec<i64> {
    let mut out = Vec::new();
    out.push(to_fixed(dc));
    for &(re, im) in pairs {
        out.push(to_fixed(re));
        out.push(to_fixed(im));
    }
    out.push(to_fixed(nyquist));
    out
}

fn sine_block(len: usize, bin: usize) -> Vec<f32> {
    (0..len)
        .map(|t| 0.5 * (core::f32::consts::TAU * bin as f32 * t as f32 / len as f32).sin())
        .collect()
}

fn spectrum_of(mono: &[f32]) -> Vec<i64> {
    let mut buf = mono.to_vec();
    let (dc, nyq, pairs): (f32, f32, Vec<(f32, f32)>) = match buf.len() {
        16 => {
            let out = microfft::real::rfft_16(<&mut [f32; 16]>::try_from(buf.as_mut_slice()).unwrap());
            (out[0].re, out[0].im, out[1..].iter().map(|c| (c.re, c.im)).collect())
        }
        32 => {
            let out = microfft::real::rfft_32(<&mut [f32; 32]>::try_from(buf.as_mut_slice()).unwrap());
            (out[0].re, out[0].im, out[1..].iter().map(|c| (c.re, c.im)).collect())
        }
        64 => {
            let out = microfft::real::rfft_64(<&mut [f32; 64]>::try_from(buf.as_mut_slice()).unwrap());
            (out[0].re, out[0].im, out[1..].iter().map(|c| (c.re, c.im)).collect())
        }
        128 => {
            let out = microfft::real::rfft_128(<&mut [f32; 128]>::try_from(buf.as_mut_slice()).unwrap());
            (out[0].re, out[0].im, out[1..].iter().map(|c| (c.re, c.im)).collect())
        }
        256 => {
            let out = microfft::real::rfft_256(<&mut [f32; 256]>::try_from(buf.as_mut_slice()).unwrap());
            (out[0].re, out[0].im, out[1..].iter().map(|c| (c.re, c.im)).collect())
        }
        512 => {
            let out = microfft::real::rfft_512(<&mut [f32; 512]>::try_from(buf.as_mut_slice()).unwrap());
            (out[0].re, out[0].im, out[1..].iter().map(|c| (c.re, c.im)).collect())
        }
        1024 => {
            let out = microfft::real::rfft_1024(<&mut [f32; 1024]>::try_from(buf.as_mut_slice()).unwrap());
            (out[0].re, out[0].im, out[1..].iter().map(|c| (c.re, c.im)).collect())
        }
        2048 => {
            let out = microfft::real::rfft_2048(<&mut [f32; 2048]>::try_from(buf.as_mut_slice()).unwrap());
            (out[0].re, out[0].im, out[1..].iter().map(|c| (c.re, c.im)).collect())
        }
        other => panic!("unsupported block length {other}"),
    };
    pack(dc, nyq, &pairs)
}

#[test]
fn sine_energy_lands_in_the_nearest_bin_for_every_block_length() {
    // Stereo block lengths 32..4096 give mono transforms of 16..2048.
    for mono_len in [16usize, 32, 64, 128, 256, 512, 1024, 2048] {
        let bin = 5usize;
        let spectrum = spectrum_of(&sine_block(mono_len, bin));
        let mut mags: Vec<u64> = vec![0; mono_len / 2 + 1];
        calculate_magnitudes(&mut mags, &spectrum);
        let interior = &mags[1..mags.len() - 1];
        let (argmax, _) = interior
            .iter()
            .enumerate()
            .max_by_key(|&(_, v)| *v)
            .unwrap();
        assert_eq!(argmax + 1, bin, "block of {mono_len} mono samples");
    }
}

#[test]
fn a_silent_block_has_a_silent_spectrum() {
    let spectrum = spectrum_of(&vec![0.0f32; 64]);
    let mut mags: Vec<u64> = vec![0; 33];
    calculate_magnitudes(&mut mags, &spectrum);
    assert!(mags.iter().all(|&m| m == 0));
}
