//! Transform sizing, decimation, bin layout, peaks and the waterfall.

use num_complex::Complex;
use rfsoc_sim::decimation::{
    apply_decimation, build_decimation_chain, decimation_stage_factors, odd_tap_count, run_stage,
    tap_window, DecimationChain,
};
use rfsoc_sim::display::{find_spectral_peaks, keep_distinct, spectral_maxima, Level};
use rfsoc_sim::smooth::{next_smooth_size, smooth_size_cost};
use rfsoc_sim::spectrum::{
    analysed_len, analysis_fft_size, axis_bins, capture_length, compute_spectrum_padded,
    compute_spectrum_positive_padded, display_pad_factor, fft_shift, fold_positive, mirror_bin,
    shape_real_spectrum, required_tile_samples, signed_bin_of, FftWindow, LeakageZone, SpectrumAnalysis,
    SpectrumDetail, ANALYSIS_FFT_MAX, ANALYSIS_FFT_SIZE, MAX_WIDEBAND_SAMPLES,
};
use rfsoc_sim::scratch::{pick_buffer, ScratchPool, POOL_LIMIT};
use rfsoc_sim::transform::{
    chunks, fft_split, pack_bins, pack_pairs, runs_parallel, transpose,
    unpack_bins, unpack_pairs, Chunk, PAR_CHUNK, PAR_MIN_LEN,
};
use rfsoc_sim::waterfall::{column_range, columns, held_columns, max_hold, Waterfall};
use rustfft::FftPlanner;
use std::f64::consts::PI;

fn mhz(x: f64) -> i64 {
    (x * 1e6).round() as i64
}

fn bessel_i0(x: f64) -> f64 {
    let mut sum = 1.0;
    let mut term = 1.0;
    for k in 1..80 {
        term *= x * x / 4.0 / (k as f64 * k as f64);
        sum += term;
    }
    sum
}

/// Kaiser-windowed sinc, 90 dB down, flat to 0.4 of the output rate.
fn kaiser(prior: usize, m: usize, factor: u32) -> Vec<f64> {
    let fp = 0.4 * prior as f64 / factor as f64;
    let fst = (1.0 / m as f64 - fp).max(fp + 1e-6);
    let transition = (fst - fp).max(1e-6);
    let atten = 90.0;
    let beta = 0.1102 * (atten - 8.7);
    let wanted = ((atten - 8.0) / (2.285 * 2.0 * PI * transition)).ceil() as usize + 1;
    let n = odd_tap_count(wanted);
    let half = (n / 2) as isize;
    let fc = 0.5 * (fp + fst);
    let mut taps: Vec<f64> = (0..n as isize)
        .map(|i| {
            let k = i - half;
            let sinc = if k == 0 {
                2.0 * fc
            } else {
                (2.0 * PI * fc * k as f64).sin() / (PI * k as f64)
            };
            let r = k as f64 / half as f64;
            sinc * bessel_i0(beta * (1.0 - r * r).max(0.0).sqrt()) / bessel_i0(beta)
        })
        .collect();
    let sum: f64 = taps.iter().sum();
    for tap in &mut taps {
        *tap /= sum;
    }
    taps
}

fn mac(acc: Complex<f64>, x: Complex<f64>, tap: f64) -> Complex<f64> {
    acc + x * tap
}

fn decimate(samples: &Vec<Complex<f64>>, factor: u32) -> Vec<Complex<f64>> {
    let chain = build_decimation_chain(factor, kaiser);
    apply_decimation(samples, factor, &chain, Complex::new(0.0, 0.0), &mac)
}

#[test]
fn decimation_reduces_sample_count() {
    let samples: Vec<Complex<f64>> = (0..1024).map(|i| Complex::new(i as f64, 0.0)).collect();

    // 1024/8 = 128 raw output samples, minus the chain's settling time, which is
    // discarded so callers only ever see fully settled samples.
    let warmup = 128 - decimate(&samples, 8).len();
    assert!(
        warmup > 0 && warmup < 32,
        "×8 settling should cost a handful of output samples, got {warmup}"
    );
    assert_eq!(decimate(&samples, 1).len(), 1024, "×1 must bypass");
}

#[test]
fn decimation_passes_dc_at_unit_gain() {
    let samples = vec![Complex::new(1.0, -0.5); 4096];
    for factor in [2, 3, 5, 8, 12, 24, 40] {
        let out = decimate(&samples, factor);
        assert!(!out.is_empty());
        let whole = 4096 / factor as usize;
        let chain: DecimationChain<f64> = build_decimation_chain(factor, kaiser);
        assert_eq!(out.len(), whole.saturating_sub(chain.warmup_out_samples));
        let middle = out[out.len() / 2];
        assert!((middle - Complex::new(1.0, -0.5)).norm() < 1e-3, "×{factor}: {middle}");
    }
}

#[test]
fn a_record_too_short_to_settle_gives_nothing() {
    // Eight samples are one raw output sample, and it has not settled.
    let chain: DecimationChain<f64> = build_decimation_chain(8, kaiser);
    assert!(chain.warmup_out_samples >= 1);
    let one = Complex::new(1.0, 0.0);
    assert!(chain.apply(&vec![one; 8], Complex::new(0.0, 0.0), &mac).is_empty());
    assert!(decimate(&vec![one; 8], 8).is_empty());
    let just = 8 * (chain.warmup_out_samples + 1);
    assert_eq!(decimate(&vec![one; just], 8).len(), 1);
}

#[test]
fn stages_halve_first() {
    assert_eq!(decimation_stage_factors(1), Vec::<usize>::new());
    assert_eq!(decimation_stage_factors(40), vec![2, 2, 2, 5]);
    assert_eq!(decimation_stage_factors(24), vec![2, 2, 2, 3]);
    assert_eq!(decimation_stage_factors(2 * 3 * 5 * 7 * 11), vec![2, 3, 5, 7, 11]);
    for n in 1..500u32 {
        let product: usize = decimation_stage_factors(n).iter().product();
        assert_eq!(product, n as usize);
    }
    let chain = build_decimation_chain(12, |prior, m, factor| vec![(prior, m, factor); 5]);
    let stages: Vec<(usize, usize)> = chain.stages.iter().map(|s| (s.prior, s.factor)).collect();
    assert_eq!(stages, vec![(1, 2), (2, 2), (4, 3)]);
    // ceil(2/2) = 1, ceil((1+2)/2) = 2, ceil((2+2)/3) = 2.
    assert_eq!(chain.warmup_out_samples, 2);
}

#[test]
fn windows_are_clipped_at_the_edges() {
    let w = tap_window(0, 100, 5);
    assert_eq!((w.first_sample, w.first_tap, w.count), (0, 2, 3));
    let w = tap_window(50, 100, 5);
    assert_eq!((w.first_sample, w.first_tap, w.count), (48, 0, 5));
    let w = tap_window(99, 100, 5);
    assert_eq!((w.first_sample, w.first_tap, w.count), (97, 0, 3));
    let out = run_stage(&vec![1i64, 2, 3, 4, 5, 6], &vec![1i64, 10, 100], 2, 0, &|a, x, t| a + x * t);
    // [10*1 + 100*2, 1*2 + 10*3 + 100*4, 1*4 + 10*5 + 100*6]
    assert_eq!(out, vec![210, 432, 654]);
    assert_eq!(odd_tap_count(0), 3);
    assert_eq!(odd_tap_count(64), 65);
    assert_eq!(odd_tap_count(9999), 2049);
}

#[test]
fn smooth_size_rounds_up_to_2_3_5_factors() {
    for n in [4096usize, 8161, 12345, 17701, 100_001] {
        let s = next_smooth_size(n);
        assert!(s >= n, "{s} must be >= {n}");
        // Must factor into 2s, 3s and 5s only.
        let mut r = s;
        for p in [2usize, 3, 5] {
            while r % p == 0 {
                r /= p;
            }
        }
        assert_eq!(r, 1, "{s} (from {n}) is not 5-smooth");
        // And it must not overshoot badly.
        assert!((s as f64) < 1.25 * n as f64, "{s} overshoots {n} by more than 25%");
    }
    assert_eq!(next_smooth_size(1024), 1024, "already-smooth sizes are kept");
}

#[test]
fn smooth_size_is_smooth_and_never_shrinks() {
    for n in [1usize, 2, 3, 100, 4095, 4096, 4097, 100_000, 124_000, 125_001] {
        let size = next_smooth_size(n);
        assert!(size >= n, "next_smooth_size({n}) = {size} is smaller than its input");
        assert!(
            smooth_size_cost(size).is_some(),
            "next_smooth_size({n}) = {size} is not 5-smooth"
        );
    }

    // The wideband ceiling is itself a power of two, so sizing up from the clamped target
    // lands exactly on it rather than overshooting the budget.
    assert_eq!(
        next_smooth_size(MAX_WIDEBAND_SAMPLES),
        MAX_WIDEBAND_SAMPLES,
        "sizing overshot the wideband sample budget"
    );
}

#[test]
fn smooth_size_avoids_radix_five_heavy_lengths() {
    let size = next_smooth_size(124_000);
    assert_ne!(size, 125_000, "picked the radix-5-heavy length");
    assert!(smooth_size_cost(size).unwrap() < smooth_size_cost(125_000).unwrap());
}

#[test]
fn smooth_costs_weigh_their_factors() {
    assert_eq!(smooth_size_cost(1024), Some(1024 * 10_000));
    assert_eq!(smooth_size_cost(9), Some(9 * (10_000 + 2 * 96)));
    assert_eq!(smooth_size_cost(50), Some(50 * (10_000 + 2 * 132)));
    assert_eq!(smooth_size_cost(7), None);
    // The choice is the cheapest of everything within 30 percent.
    for n in 2..400usize {
        let size = next_smooth_size(n);
        let best = (n..=n * 13 / 10).filter_map(smooth_size_cost).min().unwrap();
        assert_eq!(smooth_size_cost(size), Some(best));
    }
}

#[test]
fn analysis_fft_grows_with_the_available_record() {
    assert_eq!(analysis_fft_size(0), ANALYSIS_FFT_SIZE);
    assert_eq!(analysis_fft_size(ANALYSIS_FFT_SIZE - 1), ANALYSIS_FFT_SIZE);
    assert_eq!(analysis_fft_size(ANALYSIS_FFT_SIZE), ANALYSIS_FFT_SIZE);
    // Rounds down to a power of two rather than up past what is available.
    assert_eq!(analysis_fft_size(ANALYSIS_FFT_SIZE * 2 - 1), ANALYSIS_FFT_SIZE);
    assert_eq!(analysis_fft_size(ANALYSIS_FFT_SIZE * 2), ANALYSIS_FFT_SIZE * 2);
    assert_eq!(analysis_fft_size(usize::MAX), ANALYSIS_FFT_MAX);
}

#[test]
fn padding_is_the_least_power_of_two() {
    assert_eq!(display_pad_factor(0), 1);
    assert_eq!(display_pad_factor(1), 4096);
    assert_eq!(display_pad_factor(512), 8);
    assert_eq!(display_pad_factor(1365), 4);
    assert_eq!(display_pad_factor(4096), 1);
    assert_eq!(display_pad_factor(usize::MAX), 1);
    assert_eq!(analysed_len(512, 99), 98);
    assert_eq!(analysed_len(512, 9999), 512);
    assert_eq!(analysed_len(7, 9999), 6);
}

#[test]
fn tile_samples_cover_bins_settling_and_headroom() {
    assert_eq!(required_tile_samples(1, SpectrumDetail::Fast, 99), 2048 + 128);
    assert_eq!(required_tile_samples(0, SpectrumDetail::Fast, 99), 2048 + 128);
    assert_eq!(required_tile_samples(8, SpectrumDetail::Balanced, 10), 2048 * 8 + 80 + 128);
    // 2176 tile samples at 3.75 times the rate.
    assert_eq!(capture_length(2176, mhz(15_000.0), mhz(4_000.0)), next_smooth_size(8160));
    assert_eq!(capture_length(10, mhz(15_000.0), mhz(4_000.0)), 4096);
    assert_eq!(capture_length(10_000_000, mhz(15_000.0), mhz(4_000.0)), 524_288);
    assert_eq!(capture_length(5000, mhz(15_000.0), mhz(20_000.0)), next_smooth_size(5000));
}

#[test]
fn details_have_their_names() {
    assert_eq!(SpectrumDetail::Fine.label(), "Fine (8192 bins)");
    assert_eq!(SpectrumAnalysis::default().window, FftWindow::BlackmanHarris);
    assert_eq!(FftWindow::FlatTop.label(), "Flat-Top");
    assert_eq!(FftWindow::FlatTop.coherent_gain(), 21_557_895);
}

#[test]
fn leakage_outlines_follow_their_zones() {
    let w = FftWindow::Hanning;
    assert_eq!(w.leakage_envelope_db(mhz(-2.0)), LeakageZone::MainLobe);
    assert_eq!(w.leakage_envelope_db(mhz(2.5)), LeakageZone::Plateau { db: mhz(31.5) });
    assert_eq!(
        w.leakage_envelope_db(mhz(-6.0)),
        LeakageZone::RollOff { db: mhz(31.5), rolloff_db: mhz(17.3), from: mhz(3.0) }
    );
}

#[test]
fn bins_know_their_sign_and_mirror() {
    let signed: Vec<i128> = (0..8).map(|i| signed_bin_of(i, 8)).collect();
    assert_eq!(signed, vec![0, 1, 2, 3, 4, -3, -2, -1]);
    assert_eq!(mirror_bin(0, 8), None);
    assert_eq!(mirror_bin(4, 8), None);
    assert_eq!(mirror_bin(3, 8), Some(5));
    assert_eq!(mirror_bin(3, 7), Some(4));
    assert_eq!(fold_positive(&vec![1, 2, 3, 4], &|x| x + 10), vec![1, 12, 13, 4]);
    assert_eq!(fold_positive(&vec![1, 2], &|x| x + 10), vec![1, 2]);
}

#[test]
fn spectra_are_laid_out_by_side() {
    // Five samples analyse as four, doubled by the window and padded to eight points.
    let record = vec![1, 2, 3, 4, 5];
    let hann = FftWindow::Hanning;
    let shape = |w: FftWindow, i: usize, n: usize, x: i32| {
        assert_eq!(w, FftWindow::Hanning);
        2 * x + (i as i32) * 100 + (n as i32) * 1000
    };
    let levels = |_: FftWindow, buffer: Vec<i32>, _: usize| buffer;
    let (spectrum, bins) = compute_spectrum_padded(&record, 6, hann, 2, 7, &shape, &levels);
    assert_eq!(spectrum, vec![7, 7, 7, 7, 4002, 4104, 4206, 4308]);
    assert_eq!(bins, vec![-4, -3, -2, -1, 0, 1, 2, 3]);
    let (none, axis) = compute_spectrum_padded(&vec![1], 6, hann, 2, 7, &shape, &levels);
    assert!(none.is_empty() && axis.is_empty());
    let half = |_: FftWindow, buffer: Vec<i32>, n: usize| vec![n as i32; buffer.len() / 2 + 1];
    let lift = |x: i32| x * 10;
    let nine = vec![0; 9];
    let (spectrum, bins) =
        compute_spectrum_positive_padded(&nine, 4, hann, 0, 0, &shape, &half, &lift);
    assert_eq!(spectrum, vec![4, 40, 4]);
    assert_eq!(bins, vec![0, 1, 2]);
    assert_eq!(axis_bins(5, true), vec![-2, -1, 0, 1, 2]);
    assert_eq!(axis_bins(3, false), vec![0, 1, 2]);
    // A shift moves zero frequency to the middle, and a second one back.
    assert_eq!(fft_shift(&vec![1, 2, 3, 4, 5]), vec![3, 4, 5, 1, 2]);
    assert_eq!(fft_shift(&fft_shift(&vec![1, 2, 3, 4])), vec![1, 2, 3, 4]);
}

#[test]
fn shaped_spectra_stay_those_of_real_signals() {
    for n in [1usize, 2, 3, 8, 9] {
        let mut bins: Vec<Complex<f64>> =
            (0..n).map(|i| Complex::new(i as f64 + 1.0, 0.5)).collect();
        shape_real_spectrum(
            &mut bins,
            |i, b: Complex<f64>| b * Complex::new(0.0, i as f64 + 1.0),
            |b| b.conj(),
            |b| Complex::new(b.re, 0.0),
        );
        assert_eq!(bins[0].im, 0.0);
        for i in 1..n {
            assert_eq!(bins[i], bins[n - i].conj(), "bin {i} of {n}");
        }
        let mut time = bins.clone();
        FftPlanner::new().plan_fft_inverse(n).process(&mut time);
        assert!(time.iter().all(|c| c.im.abs() < 1e-9), "length {n} is not real");
    }
}

#[test]
fn packing_pairs_round_trips() {
    let samples: Vec<i32> = (0..10).collect();
    let pairs = pack_pairs(&samples);
    assert_eq!(pairs[3], (6, 7));
    assert_eq!(unpack_pairs(&pairs), samples);
}

#[test]
fn real_spectrum_comes_out_of_a_half_length_transform() {
    let n = 32;
    let half = n / 2;
    let samples: Vec<f64> = (0..n).map(|i| (i as f64 * 0.7).sin() + 0.1 * i as f64).collect();
    let mut packed: Vec<Complex<f64>> =
        pack_pairs(&samples).into_iter().map(|(a, b)| Complex::new(a, b)).collect();
    FftPlanner::new().plan_fft_forward(half).process(&mut packed);
    let twiddle = |k: usize, sign: f64| {
        Complex::from_polar(1.0, sign * 2.0 * PI * k as f64 / n as f64)
    };
    let bins = unpack_bins(
        &packed,
        |z: Complex<f64>| (Complex::new(z.re + z.im, 0.0), Complex::new(z.re - z.im, 0.0)),
        |k, a: Complex<f64>, b: Complex<f64>| {
            let b = b.conj();
            (a + b) * 0.5 + twiddle(k, -1.0) * (a - b) * Complex::new(0.0, -0.5)
        },
    );
    let mut whole: Vec<Complex<f64>> = samples.iter().map(|v| Complex::new(*v, 0.0)).collect();
    FftPlanner::new().plan_fft_forward(n).process(&mut whole);
    for k in 0..=half {
        assert!((bins[k] - whole[k]).norm() < 1e-9, "bin {k}");
    }
    let mut back = pack_bins(&bins, |k, a: Complex<f64>, b: Complex<f64>| {
        let b = b.conj();
        (a + b) * 0.5 + Complex::new(0.0, 1.0) * (a - b) * 0.5 * twiddle(k, 1.0)
    });
    FftPlanner::new().plan_fft_inverse(half).process(&mut back);
    let pairs: Vec<(f64, f64)> = back.iter().map(|z| (2.0 * z.re, 2.0 * z.im)).collect();
    for (a, b) in unpack_pairs(&pairs).iter().zip(&samples) {
        assert!((a / n as f64 - b).abs() < 1e-9);
    }
}

#[test]
fn long_transforms_split_into_halves() {
    assert_eq!(fft_split(1 << 15), None);
    assert_eq!(fft_split(1 << 16), Some((256, 256)));
    assert_eq!(fft_split(1 << 17), Some((256, 512)));
    assert_eq!(fft_split(3 << 16), None);
    assert_eq!(fft_split(100_000), None);
}

#[test]
fn transposing_twice_is_the_identity() {
    let (rows, cols) = (37, 70);
    let src: Vec<usize> = (0..rows * cols).collect();
    let mut dst = vec![0; rows * cols];
    transpose(&src, &mut dst, rows, cols);
    for i in 0..rows {
        for j in 0..cols {
            assert_eq!(dst[j * rows + i], src[i * cols + j]);
        }
    }
    let mut back = vec![0; rows * cols];
    transpose(&dst, &mut back, cols, rows);
    assert_eq!(back, src);
}

#[test]
fn chunks_cover_a_buffer_once() {
    assert!(chunks(0).is_empty());
    assert_eq!(chunks(PAR_CHUNK), vec![Chunk { start: 0, len: PAR_CHUNK }]);
    let list = chunks(PAR_MIN_LEN + 77);
    assert_eq!(list.len(), 5);
    assert_eq!(list[4], Chunk { start: PAR_MIN_LEN, len: 77 });
    assert_eq!(list.iter().map(|c| c.len).sum::<usize>(), PAR_MIN_LEN + 77);
    assert!(runs_parallel(PAR_MIN_LEN) && !runs_parallel(PAR_MIN_LEN - 1));
}

#[test]
fn pools_prefer_the_first_buffer_with_room() {
    assert_eq!(pick_buffer(&vec![], 4), None);
    assert_eq!(pick_buffer(&vec![1, 8, 9], 4), Some(1));
    assert_eq!(pick_buffer(&vec![1, 2, 3], 4), Some(2));
}

#[test]
fn pools_hand_buffers_out_and_take_them_back() {
    let mut pool: ScratchPool<u32> = ScratchPool::new();
    assert_eq!(pool.take_zeroed(3, 7), vec![7, 7, 7]);
    assert_eq!(pool.take_overwritten(2, 9), vec![9, 9]);
    pool.recycle(vec![1, 2, 3]);
    assert_eq!(pool.len(), 1);
    assert_eq!(pool.take_overwritten(5, 0), vec![1, 2, 3, 0, 0]);
    assert_eq!(pool.len(), 0);
    pool.recycle(vec![4, 5, 6]);
    pool.recycle(Vec::with_capacity(100));
    // Only the second one has room, so it goes and the first stays.
    let buffer = pool.take(100);
    assert!(buffer.is_empty() && buffer.capacity() >= 100);
    assert_eq!(pool.take_overwritten(3, 0), vec![4, 5, 6]);
    for _ in 0..20 {
        pool.recycle(vec![0; 4]);
    }
    assert_eq!(pool.len(), POOL_LIMIT);
}

// ---------------------------------------------------------------------------
// Peaks
// ---------------------------------------------------------------------------

fn tones(n: usize, fs: f64, entries: &[(f64, f64)]) -> Vec<Complex<f64>> {
    (0..n)
        .map(|i| {
            let t = i as f64 / fs;
            entries.iter().fold(Complex::new(0.0, 0.0), |acc, &(f_mhz, amp)| {
                let a = 2.0 * PI * f_mhz * t;
                acc + Complex::new(amp * a.cos(), amp * a.sin())
            })
        })
        .collect()
}

/// Hanning-windowed, zero-padded spectrum in dBFS, zero frequency in the middle.
fn spectrum(samples: &[Complex<f64>], fs: f64, pad: usize) -> (Vec<f64>, Vec<f64>) {
    let n = samples.len();
    let len = n * pad;
    let mut buffer: Vec<Complex<f64>> = samples
        .iter()
        .enumerate()
        .map(|(i, s)| s * (0.5 * (1.0 - (2.0 * PI * i as f64 / n as f64).cos())))
        .collect();
    buffer.resize(len, Complex::new(0.0, 0.0));
    FftPlanner::new().plan_fft_forward(len).process(&mut buffer);
    let gain = FftWindow::Hanning.coherent_gain() as f64 / 1e8;
    let norm = 1.0 / (n as f64 * gain);
    let dbfs: Vec<f64> =
        buffer.iter().map(|c| 10.0 * (c.norm_sqr() * norm * norm).max(1e-30).log10()).collect();
    let axis = (0..len).map(|i| (i as f64 - (len / 2) as f64) * fs / len as f64).collect();
    (fft_shift(&dbfs), axis)
}

fn leakage_db(bins: f64) -> f64 {
    match FftWindow::Hanning.leakage_envelope_db(mhz(bins)) {
        LeakageZone::MainLobe => 0.0,
        LeakageZone::Plateau { db } => db as f64 / 1e6,
        LeakageZone::RollOff { db, rolloff_db, from } => {
            (db as f64 + rolloff_db as f64 * (bins / (from as f64 / 1e6)).log2()) / 1e6
        }
    }
}

fn peaks(spec: &[f64], axis: &[f64], threshold: f64, rbw: f64) -> Vec<usize> {
    let levels: Vec<Level> = spec.iter().map(|v| Level { bits: v.to_bits() }).collect();
    find_spectral_peaks(
        &levels,
        axis.len(),
        Level { bits: threshold.to_bits() },
        rbw > 0.0,
        |kept: &Vec<usize>, bin: usize| {
            let power: f64 = kept
                .iter()
                .map(|&k| {
                    let bins = (axis[k] - axis[bin]).abs() / rbw;
                    10.0_f64.powf((spec[k] - leakage_db(bins)) / 10.0)
                })
                .sum();
            power <= 0.0 || spec[bin] >= 10.0 * power.log10() + 3.0
        },
    )
}

#[test]
fn peak_finder_reports_one_peak_for_one_tone() {
    let n = 512;
    let fs = 500.0;
    let rbw = fs / n as f64;
    let samples = tones(n, fs, &[(100.0, 0.5)]);
    let (spec, freq) = spectrum(&samples, fs, 8);

    let raw = peaks(&spec, &freq, -100.0, 0.0);
    assert!(
        raw.len() > 10,
        "padded trace should expose sidelobes as local maxima, else this proves nothing; got {}",
        raw.len()
    );

    let found = peaks(&spec, &freq, -100.0, rbw);
    assert_eq!(found.len(), 1, "one tone should report one peak, got {}", found.len());
    assert!((freq[found[0]] - 100.0).abs() < 1.0);
}

#[test]
fn peak_finder_keeps_a_real_second_tone() {
    let n = 512;
    let fs = 500.0;
    let rbw = fs / n as f64;
    // Second tone 12 dB down — far above Hanning's -31.5 dB first sidelobe.
    let samples = tones(n, fs, &[(100.0, 0.5), (150.0, 0.125)]);
    let (spec, freq) = spectrum(&samples, fs, 8);

    let found = peaks(&spec, &freq, -100.0, rbw);
    assert_eq!(found.len(), 2, "expected exactly the two tones");
    assert!((freq[found[0]] - 100.0).abs() < 1.0);
    assert!(
        (freq[found[1]] - 150.0).abs() < 1.0,
        "second peak should be the 150 MHz tone, got {:.2} MHz",
        freq[found[1]]
    );
}

#[test]
fn peak_finder_keeps_a_close_tone_above_the_skirt() {
    let n = 512;
    let fs = 500.0;
    let rbw = fs / n as f64;
    // 8 bins out, 25 dB down: Hanning leakage there is ~-53 dB, so this stands clear.
    let samples = tones(n, fs, &[(100.0, 0.5), (100.0 + 8.0 * rbw, 0.028)]);
    let (spec, freq) = spectrum(&samples, fs, 8);

    let found = peaks(&spec, &freq, -100.0, rbw);
    assert_eq!(found.len(), 2, "close-in tone above the skirt should survive");
}

fn level(x: f64) -> Level {
    Level { bits: x.to_bits() }
}

#[test]
fn levels_compare_as_numbers() {
    let numbers =
        [f64::NEG_INFINITY, -1e300, -2.5, -1e-310, -0.0, 0.0, 1e-310, 3.5, 1e300, f64::INFINITY];
    for &a in &numbers {
        for &b in &numbers {
            assert_eq!(level(a).is_above(level(b)), a > b, "{a} > {b}");
        }
        assert!(!level(a).is_above(level(f64::NAN)));
        assert!(!level(f64::NAN).is_above(level(a)));
    }
    assert_eq!(level(-f64::NAN).order_key(), None);
    assert_eq!(level(-0.0).order_key(), Some(0));
}

#[test]
fn maxima_come_strongest_first_and_equal_ones_in_order() {
    let trace: Vec<Level> =
        [0.0, 5.0, 1.0, 7.0, 2.0, 5.0, 5.0, 1.0, 5.0, 0.0].iter().map(|v| level(*v)).collect();
    // A plateau is no peak, nor is an end.
    assert_eq!(spectral_maxima(&trace, level(-1.0)), vec![3, 1, 8]);
    assert_eq!(spectral_maxima(&trace, level(5.0)), vec![3]);
    let clears = |kept: &Vec<usize>, bin: usize| kept.iter().all(|k| bin.abs_diff(*k) > 2);
    assert_eq!(keep_distinct(&vec![3, 1, 8], clears), vec![3, 8]);
    assert!(find_spectral_peaks(&trace, 9, level(-1.0), false, clears).is_empty());
    let short = vec![level(0.0), level(1.0)];
    assert!(find_spectral_peaks(&short, 2, level(-1.0), false, clears).is_empty());
}

// ---------------------------------------------------------------------------
// Waterfall
// ---------------------------------------------------------------------------

#[test]
fn waterfall_buffer_handles_length_changes() {
    let mut history = Waterfall::new();
    history.clear();

    // Push 5 frames of length 100
    for capture in 0..5 {
        history.push_frame(capture, vec![level(-50.0); 100], false);
    }
    assert_eq!(history.len(), 5);

    // Simulate changing FFT size to 200: length mismatch
    let new_len = 200;
    history.push_frame(5, vec![level(-50.0); new_len], false);

    assert_eq!(history.len(), 1);
    assert_eq!(history.row(0).len(), 200);
}

#[test]
fn waterfall_keeps_the_latest_rows() {
    let mut history = Waterfall::new();
    for i in 0..300 {
        history.push_frame(i, vec![level(i as f64); 3], false);
    }
    assert_eq!(history.len(), 256);
    assert_eq!(history.row(0)[0], level(299.0));
    assert_eq!(history.row(255)[0], level(44.0));
    // Paused, nothing is added, but a new length still clears.
    history.push_frame(300, vec![level(0.0); 3], true);
    assert_eq!(history.row(0)[0], level(299.0));
    history.push_frame(301, vec![level(0.0); 4], true);
    assert_eq!(history.len(), 0);
    history.push_frame(302, vec![], false);
    assert_eq!(history.len(), 0);
}

#[test]
fn a_repaint_leaves_the_waterfall_alone() {
    let mut history = Waterfall::new();
    let row = vec![level(-50.0); 4];
    history.push_frame(7, row.clone(), false);
    history.push_frame(7, row.clone(), false);
    assert_eq!(history.len(), 1, "the same capture twice is one row");
    // The next capture of a still signal looks the same and is a row of its own.
    history.push_frame(8, row.clone(), false);
    assert_eq!(history.len(), 2);
    history.clear();
    history.push_frame(8, row.clone(), false);
    assert_eq!(history.len(), 0);
    history.push_frame(9, row, false);
    assert_eq!(history.len(), 1);
}

#[test]
fn columns_tile_a_spectrum() {
    for len in [1usize, 7, 1023, 1024, 1025, 4097, 65_536] {
        let width = columns(len);
        let mut next = 0;
        for col in 0..width {
            let (lo, hi) = column_range(col, len, width);
            assert_eq!(lo, next);
            assert!(hi > lo);
            next = hi;
        }
        assert_eq!(next, len);
    }
}

#[test]
fn columns_hold_their_strongest_level() {
    let row: Vec<Level> = [1.0, f64::NAN, 3.0, -2.0].iter().map(|v| level(*v)).collect();
    assert_eq!(max_hold(&row, 0, 4), level(3.0));
    assert_eq!(max_hold(&row, 1, 2), level(f64::NEG_INFINITY));
    let mut wide = vec![level(-100.0); 4096];
    wide[4001] = level(-3.0);
    let held = held_columns(&wide);
    assert_eq!(held.len(), 1024);
    assert_eq!(held[1000], level(-3.0));
    assert_eq!(held.iter().filter(|l| **l == level(-3.0)).count(), 1);
}
