//! Captures from the pin to the programmable logic, with the arithmetic of each stage filled in.

use num_complex::Complex;
use rfsoc_sim::adc::{apply_digital_non_idealities, clamp_code, impairments};
use rfsoc_sim::capture::{
    process_adc_block, sample_adc_at_tile_rate, Analyser, AnalogStage, Capture, CapturePlan,
    DataPath, DdcSettings, Digitiser, DownConverter, FineMixerScale, MixerGain, Pane,
    ResamplePoint, Sampler, RESAMPLER_PHASES, RESAMPLER_RADIUS, RESAMPLER_TAPS,
};
use rfsoc_sim::decimation::{apply_decimation, build_decimation_chain, odd_tap_count};
use rfsoc_sim::display::{find_spectral_peaks, Level};
use rfsoc_sim::noise::{converter_seed, unit_bits, xorshift64};
use rfsoc_sim::rfdc::{
    AdcBlock, AdcNonIdealities, AdcTile, CoarseMixFreq, DecimationFactor, MixerMode,
};
use rfsoc_sim::signal::{Instant, SignalGenerator, Tone, ToneModulation, ToneRecipe};
use rfsoc_sim::spectrum::{
    capture_length, compute_spectrum_padded, compute_spectrum_positive_padded,
    required_tile_samples, FftWindow, LeakageZone, SpectrumAnalysis, SpectrumDetail,
    DEFAULT_DISPLAY_WINDOW, DISPLAY_FFT_SIZE, MAX_WIDEBAND_SAMPLES,
};
use rfsoc_sim::transform::{
    chunks, fft_split, pack_bins, pack_pairs, runs_parallel, transpose, unpack_bins, unpack_pairs,
    PAR_MIN_LEN,
};
use rfsoc_sim::units::Ratio;
use realfft::RealFftPlanner;
use rustfft::FftPlanner;
use std::f64::consts::PI;

const DDC_PASSBAND_FRAC: f64 = 0.4;

type C64 = Complex<f64>;

fn mhz(x: f64) -> i64 {
    (x * 1e6).round() as i64
}

fn f(x: i64) -> f64 {
    x as f64 / 1e6
}

fn bessel_i0(x: f64) -> f64 {
    let mut sum = 1.0;
    let mut term = 1.0;
    for k in 1..80 {
        term *= x * x / 4.0 / (k as f64 * k as f64);
        sum += term;
    }
    sum
}

/// Kaiser-windowed sinc, 90 dB down, flat to 0.4 of the output rate.
fn kaiser(prior: usize, m: usize, factor: u32) -> Vec<f64> {
    let fp = DDC_PASSBAND_FRAC * prior as f64 / factor as f64;
    let fst = (1.0 / m as f64 - fp).max(fp + 1e-6);
    let transition = (fst - fp).max(1e-6);
    let atten = 90.0;
    let beta = 0.1102 * (atten - 8.7);
    let wanted = ((atten - 8.0) / (2.285 * 2.0 * PI * transition)).ceil() as usize + 1;
    let n = odd_tap_count(wanted);
    let half = (n / 2) as isize;
    let fc = 0.5 * (fp + fst);
    let mut taps: Vec<f64> = (0..n as isize)
        .map(|i| {
            let k = i - half;
            let sinc = if k == 0 {
                2.0 * fc
            } else {
                (2.0 * PI * fc * k as f64).sin() / (PI * k as f64)
            };
            let r = k as f64 / half as f64;
            sinc * bessel_i0(beta * (1.0 - r * r).max(0.0).sqrt()) / bessel_i0(beta)
        })
        .collect();
    let sum: f64 = taps.iter().sum();
    for tap in &mut taps {
        *tap /= sum;
    }
    taps
}

fn decimate(samples: &Vec<C64>, factor: u32) -> Vec<C64> {
    let chain = build_decimation_chain(factor.max(1), kaiser);
    let mac = |acc: C64, x: C64, tap: f64| acc + x * tap;
    apply_decimation(samples, factor, &chain, C64::new(0.0, 0.0), &mac)
}

fn warmup(factor: u32) -> usize {
    build_decimation_chain(factor, kaiser).warmup_out_samples
}

fn coefficient(window: FftWindow, i: usize, n: usize) -> f64 {
    let phi = 2.0 * PI * i as f64 / n as f64;
    match window {
        FftWindow::Hanning => 0.5 * (1.0 - phi.cos()),
        FftWindow::BlackmanHarris => {
            0.35875 - 0.48829 * phi.cos() + 0.14128 * (2.0 * phi).cos()
                - 0.01168 * (3.0 * phi).cos()
        }
        FftWindow::Hamming => 0.54 - 0.46 * phi.cos(),
        FftWindow::FlatTop => {
            0.21557895 - 0.41663158 * phi.cos() + 0.277263158 * (2.0 * phi).cos()
                - 0.083578947 * (3.0 * phi).cos()
                + 0.006947368 * (4.0 * phi).cos()
        }
        FftWindow::Rectangular => 1.0,
    }
}

fn decibels(bins: &[C64], n: usize, window: FftWindow) -> Vec<f64> {
    let norm = 1.0 / (n as f64 * window.coherent_gain() as f64 / 1e8);
    bins.iter().map(|c| 10.0 * (c.norm_sqr() * norm * norm).max(1e-30).log10()).collect()
}

fn shape(window: FftWindow, i: usize, n: usize, x: C64) -> C64 {
    x * coefficient(window, i, n)
}

fn shape_real(window: FftWindow, i: usize, n: usize, x: f64) -> f64 {
    x * coefficient(window, i, n)
}

fn levels(window: FftWindow, mut buffer: Vec<C64>, n: usize) -> Vec<f64> {
    FftPlanner::new().plan_fft_forward(buffer.len()).process(&mut buffer);
    decibels(&buffer, n, window)
}

fn half_levels(window: FftWindow, buffer: Vec<C64>, n: usize) -> Vec<f64> {
    let half = buffer.len() / 2 + 1;
    let mut bins = levels(window, buffer, n);
    bins.truncate(half);
    bins
}

fn real_levels(window: FftWindow, mut buffer: Vec<f64>, n: usize) -> Vec<f64> {
    let fft = RealFftPlanner::<f64>::new().plan_fft_forward(buffer.len());
    let mut bins = fft.make_output_vec();
    fft.process(&mut buffer, &mut bins).unwrap();
    decibels(&bins, n, window)
}

fn lift(db: f64) -> f64 {
    db + 20.0 * 2.0_f64.log10()
}

fn two_sided(
    samples: &Vec<C64>,
    fft_size: usize,
    window: FftWindow,
    pad: usize,
) -> (Vec<f64>, Vec<i128>) {
    let zero = C64::new(0.0, 0.0);
    compute_spectrum_padded(samples, fft_size, window, pad, zero, &shape, &levels)
}

fn one_sided(
    samples: &Vec<C64>,
    fft_size: usize,
    window: FftWindow,
    pad: usize,
) -> (Vec<f64>, Vec<i128>) {
    let zero = C64::new(0.0, 0.0);
    compute_spectrum_positive_padded(
        samples,
        fft_size,
        window,
        pad,
        zero,
        &shape,
        &half_levels,
        &lift,
    )
}

/// As `one_sided`, by a transform of real samples.
fn one_sided_real(
    samples: &Vec<f64>,
    fft_size: usize,
    window: FftWindow,
    pad: usize,
) -> (Vec<f64>, Vec<i128>) {
    compute_spectrum_positive_padded(
        samples,
        fft_size,
        window,
        pad,
        0.0,
        &shape_real,
        &real_levels,
        &lift,
    )
}

fn highest(spectrum: &[f64]) -> f64 {
    spectrum.iter().cloned().fold(f64::NEG_INFINITY, f64::max)
}

fn complex(samples: &[f64]) -> Vec<C64> {
    samples.iter().map(|&v| C64::new(v, 0.0)).collect()
}

/// The resampling kernel at every tabulated fractional position.
fn kernel_table() -> Vec<Vec<f64>> {
    let radius = RESAMPLER_RADIUS as f64;
    (0..=RESAMPLER_PHASES)
        .map(|p| {
            let frac = p as f64 / RESAMPLER_PHASES as f64;
            (0..RESAMPLER_TAPS)
                .map(|j| {
                    let dx: f64 = frac + radius - j as f64;
                    let x = dx.abs() / (radius + 1.0);
                    if x >= 1.0 {
                        return 0.0;
                    }
                    let sinc = if dx.abs() < 1e-9 { 1.0 } else { (PI * dx).sin() / (PI * dx) };
                    sinc * (0.35875
                        + 0.48829 * (PI * x).cos()
                        + 0.14128 * (2.0 * PI * x).cos()
                        + 0.01168 * (3.0 * PI * x).cos())
                })
                .collect()
        })
        .collect()
}

fn accumulate(
    table: &Vec<Vec<f64>>,
    rate: f64,
    (val, weight): (f64, f64),
    x: f64,
    j: usize,
    p: ResamplePoint,
) -> (f64, f64) {
    let t = p.between as f64 / rate;
    let tap = table[p.phase][j] + t * (table[p.phase + 1][j] - table[p.phase][j]);
    (val + x * tap, weight + tap)
}

fn finish((val, weight): (f64, f64), _: ResamplePoint) -> f64 {
    if weight.abs() > 1e-9 { val / weight } else { 0.0 }
}

fn resample(record: &Vec<f64>, sim_fs: f64, tile_fs: f64) -> Vec<f64> {
    let table = kernel_table();
    let rate = mhz(tile_fs) as f64;
    sample_adc_at_tile_rate(
        record,
        mhz(sim_fs),
        mhz(tile_fs),
        (0.0, 0.0),
        &|acc, x, j, p| accumulate(&table, rate, acc, x, j, p),
        &finish,
    )
}

fn clip(v: f64) -> (f64, bool) {
    (v.clamp(-1.0, 1.0), v > 1.0 || v < -1.0)
}

fn quantise(v: f64, half: i64) -> f64 {
    clamp_code((v * half as f64).round() as i64, half) as f64 / half as f64
}

fn digitise(samples: &Vec<f64>, config: &AdcNonIdealities) -> (Vec<f64>, bool) {
    let found = impairments(config);
    apply_digital_non_idealities(samples, &found, &|_, v| v, &|v, _| v, &clip, &quantise)
}

/// Processes a record through a block with an ideal front end.
fn process(
    record: &[f64],
    sim_fs: f64,
    block: &AdcBlock,
    tile: &AdcTile,
    ddc: DdcSettings,
    analysis: SpectrumAnalysis,
) -> Capture<C64, f64> {
    let fs = f(tile.sample_rate_mhz());
    let rate = tile.sample_rate_mhz() as f64;
    let table = kernel_table();
    let mix = |plan: &CapturePlan, i: usize, x: f64| {
        let scale = match plan.mixer_gain {
            MixerGain::Unity => 1.0,
            MixerGain::HalfPower => std::f64::consts::FRAC_1_SQRT_2,
        };
        match plan.mixer_shift_mhz {
            Some(shift) => C64::from_polar(x * scale, -2.0 * PI * f(shift) * i as f64 / fs),
            None => C64::new(x, 0.0),
        }
    };
    let capture = process_adc_block(
        record.to_vec(),
        mhz(sim_fs),
        block,
        tile,
        ddc,
        &build_decimation_chain(block.decimation.factor(), kaiser),
        analysis,
        &|_: AnalogStage, v: Vec<f64>| v,
        &Sampler {
            zero: (0.0, 0.0),
            accumulate: |acc: (f64, f64), x: f64, j: usize, p: ResamplePoint| {
                accumulate(&table, rate, acc, x, j, p)
            },
            finish,
        },
        &Digitiser { noise: |_: usize, v: f64| v, spur: |v: f64, _: (i8, i8)| v, clip, quantise },
        &DownConverter {
            zero: C64::new(0.0, 0.0),
            mix,
            correct: |z: C64| z,
            mac: |acc: C64, x: C64, tap: f64| acc + x * tap,
        },
        &Analyser {
            zero: 0.0,
            shape: shape_real,
            levels: real_levels,
            iq_shape: shape,
            iq_levels: levels,
            iq_half_levels: half_levels,
            lift,
        },
    );
    for (pane, spectrum) in [
        (Pane::Input, &capture.input),
        (Pane::Folded, &capture.folded),
        (Pane::PostMixer, &capture.post_mixer),
        (Pane::Output, &capture.output),
    ] {
        assert_eq!(spectrum.len(), capture.plan.axis(pane).len(), "{pane:?} and its axis");
    }
    assert_eq!(capture.signal.len(), capture.plan.output_len, "the plan tells the output length");
    capture
}

/// An exact quotient as a number of its unit.
fn exact(x: Ratio) -> f64 {
    x.over as f64 / x.under as f64 / 1e6
}

/// The output axis in MHz.
fn output_axis(plan: &CapturePlan) -> Vec<f64> {
    let axis = plan.axis(Pane::Output);
    let points = axis.len() as f64;
    axis.iter().map(|&k| k as f64 * exact(plan.output_sample_rate_mhz) / points).collect()
}

fn envelope_db(window: FftWindow, bins: f64) -> f64 {
    match window.leakage_envelope_db(mhz(bins)) {
        LeakageZone::MainLobe => 0.0,
        LeakageZone::Plateau { db } => f(db),
        LeakageZone::RollOff { db, rolloff_db, from } => {
            f(db) + f(rolloff_db) * (bins.abs() / f(from)).log2()
        }
    }
}

/// Peaks of the output as (frequency, level), strongest first.
fn peaks(capture: &Capture<C64, f64>, threshold: f64) -> Vec<(f64, f64)> {
    let level = |db: f64| Level { bits: db.to_bits() };
    let spectrum = &capture.output;
    let axis = output_axis(&capture.plan);
    let rbw = exact(capture.plan.output_rbw_mhz);
    let window = capture.plan.window;
    let trace: Vec<Level> = spectrum.iter().map(|&db| level(db)).collect();
    let clears = |kept: &Vec<usize>, bin: usize| {
        let leakage: f64 = kept
            .iter()
            .map(|&k| {
                let bins = (axis[k] - axis[bin]).abs() / rbw;
                10.0_f64.powf((spectrum[k] - envelope_db(window, bins)) / 10.0)
            })
            .sum();
        leakage <= 0.0 || spectrum[bin] >= 10.0 * leakage.log10() + 3.0
    };
    find_spectral_peaks(&trace, axis.len(), level(threshold), rbw > 0.0, clears)
        .into_iter()
        .map(|i| (axis[i], spectrum[i]))
        .collect()
}

/// Carriers at (frequency, level), without noise.
fn carriers(tones: &[(f64, f64)], n: usize, sim_fs: f64) -> Vec<f64> {
    let generator = SignalGenerator {
        tones: tones
            .iter()
            .map(|&(freq, dbfs)| Tone {
                frequency_mhz: mhz(freq),
                amplitude_dbfs: mhz(dbfs),
                phase_deg: 0,
                bandwidth_mhz: 0,
                modulation: ToneModulation::Cw,
            })
            .collect(),
        noise_floor_dbfs: mhz(-110.0),
        noise_enabled: false,
    };
    generator.generate(
        n,
        mhz(sim_fs),
        0.0,
        |tone: &Tone, _: ToneRecipe, instant: Instant| match instant {
            Instant::Carrier { carrier } => {
                let turn = carrier.position as f64 / carrier.whole as f64;
                10.0_f64.powf(f(tone.amplitude_dbfs) / 20.0) * (2.0 * PI * turn).cos()
            }
            other => panic!("a carrier stands at {other:?}"),
        },
        |a: f64, b: f64| a + b,
        |v: f64, _: usize| v,
    )
}

fn run_pipeline(
    decim: DecimationFactor,
    analysis: SpectrumAnalysis,
    nco: f64,
    tones: &[(f64, f64)],
) -> Capture<C64, f64> {
    let sim_fs = 15000.0;
    let mut tile = AdcTile::new(0);
    tile.sample_rate_gsps = 4_000_000;
    tile.blocks[0].decimation = decim;
    tile.blocks[0].mixer_mode = MixerMode::FineMix;
    tile.blocks[0].nco_freq_mhz = mhz(nco);
    let factor = decim.factor();
    let needed = required_tile_samples(factor, analysis.detail, warmup(factor));
    let num = capture_length(needed, mhz(sim_fs), tile.sample_rate_mhz());
    let record = carriers(tones, num, sim_fs);
    process(&record, sim_fs, &tile.blocks[0], &tile, DdcSettings::default(), analysis)
}

fn with(detail: SpectrumDetail) -> SpectrumAnalysis {
    SpectrumAnalysis { window: DEFAULT_DISPLAY_WINDOW, detail }
}

#[test]
fn output_resolution_improves_with_decimation() {
    let detail = SpectrumDetail::Balanced;
    let mut previous_rbw = f64::INFINITY;

    for decim in DecimationFactor::ALL {
        let out = run_pipeline(decim, with(detail), -300.0, &[(300.0, -6.0)]).plan;

        // Balanced never outruns the sample budget, so the request is honoured exactly.
        assert_eq!(
            out.output_bins_analysed,
            detail.output_bins(),
            "×{} fell short of the requested bin count",
            decim.factor()
        );

        let rbw = exact(out.output_rbw_mhz);
        let expected = exact(out.output_sample_rate_mhz) / detail.output_bins() as f64;
        assert!(
            (rbw - expected).abs() < 1e-12,
            "×{}: RBW {rbw} MHz, expected {expected} MHz",
            decim.factor()
        );

        // Strictly finer at every step up.
        assert!(
            rbw < previous_rbw,
            "×{}: RBW {rbw} MHz did not improve on {previous_rbw} MHz",
            decim.factor()
        );
        previous_rbw = rbw;
    }
}

#[test]
fn budget_clipping_is_reported_honestly() {
    let detail = SpectrumDetail::Max;
    let capture = run_pipeline(DecimationFactor::X40, with(detail), -300.0, &[(300.0, -6.0)]);
    let out = capture.plan;

    assert!(
        out.output_bins_analysed < out.output_bins_requested,
        "×40 at Max was expected to outrun the {MAX_WIDEBAND_SAMPLES}-sample budget"
    );
    assert_eq!(out.output_bins_requested, detail.output_bins());
    // An even count of the samples there are.
    assert_eq!(out.output_bins_analysed, capture.signal.len() / 2 * 2);

    // The reported RBW tracks what was transformed, not what was requested.
    let rbw = exact(out.output_rbw_mhz);
    let expected = exact(out.output_sample_rate_mhz) / out.output_bins_analysed as f64;
    assert!(
        (rbw - expected).abs() < 1e-12,
        "RBW {rbw} does not match {} analysed bins",
        out.output_bins_analysed
    );
    assert!(rbw > exact(out.output_sample_rate_mhz) / out.output_bins_requested as f64);
}

#[test]
fn every_display_spectrum_reaches_the_display_point_count() {
    for decim in DecimationFactor::ALL {
        let analysis = SpectrumAnalysis::default();
        let out = run_pipeline(decim, analysis, -300.0, &[(300.0, -6.0)]);

        // One-sided spectra land on DISPLAY_FFT_SIZE/2 + 1 points, two-sided on the full count.
        let floor = DISPLAY_FFT_SIZE / 2;
        for (name, len) in [
            ("input", out.input.len()),
            ("folded", out.folded.len()),
            ("post-mixer", out.post_mixer.len()),
            ("output", out.output.len()),
        ] {
            assert!(len >= floor, "{name} spectrum at ×{} has only {len} points", decim.factor());
        }
    }
}

#[test]
fn detail_resolves_two_close_tones() {
    // 1.5 MHz apart at ×16: ~12 Balanced bins, clear of the Blackman-Harris main lobe, but only
    // ~3 Fast bins, which is inside it.
    let tones = [(300.0, -6.0), (301.5, -9.0)];
    let x16 = DecimationFactor::X16;

    let fine = run_pipeline(x16, with(SpectrumDetail::Balanced), -300.0, &tones);
    let fine_peaks = peaks(&fine, -100.0);
    assert!(fine_peaks.len() >= 2, "Balanced resolved {fine_peaks:?}; expected both tones");
    let separation = (fine_peaks[0].0 - fine_peaks[1].0).abs();
    assert!(
        (separation - 1.5).abs() < exact(fine.plan.output_rbw_mhz) * 2.0,
        "peaks {separation} MHz apart, expected ~1.5 MHz"
    );

    // Fast puts both tones inside one main lobe, so only one peak survives.
    let coarse = run_pipeline(x16, with(SpectrumDetail::Fast), -300.0, &tones);
    assert_eq!(peaks(&coarse, -100.0).len(), 1, "Fast should merge the tones");
}

#[test]
fn pipeline_honours_the_selected_display_window() {
    // Worst leakage well outside either window's main lobe.
    let skirt_db = |window: FftWindow| {
        let analysis = SpectrumAnalysis { window, ..SpectrumAnalysis::default() };
        let out = run_pipeline(DecimationFactor::X8, analysis, -250.0, &[(300.0, -6.0)]);
        assert_eq!(out.plan.window, window);
        let spec = &out.output;
        let freq = output_axis(&out.plan);
        let peak = spec.iter().cloned().fold(f64::NEG_INFINITY, f64::max);
        let pk_f = freq[spec.iter().position(|&v| v == peak).unwrap()];
        let mut worst = f64::NEG_INFINITY;
        for (i, &x) in freq.iter().enumerate() {
            if (x - pk_f).abs() / exact(out.plan.output_rbw_mhz) > 12.0 {
                worst = worst.max(spec[i]);
            }
        }
        (peak, peak - worst)
    };

    let (han_peak, han_skirt) = skirt_db(FftWindow::Hanning);
    let (bh_peak, bh_skirt) = skirt_db(FftWindow::BlackmanHarris);

    // Both must read the tone at the same level — the window changes leakage, not amplitude.
    assert!(
        (han_peak - bh_peak).abs() < 0.5,
        "window changed the reported tone level: {han_peak:.2} vs {bh_peak:.2} dBFS"
    );
    assert!(
        bh_skirt > han_skirt + 20.0,
        "Blackman-Harris should push the leakage skirt far below Hanning's; got {bh_skirt:.1} vs {han_skirt:.1} dB"
    );
}

#[test]
fn process_adc_block_auto_tuned_higher_zone() {
    // Fs = 1.96608 GSPS (1966.08 MHz), Target = 2400 MHz (Zone 3)
    let mut tile = AdcTile::new(0);
    tile.sample_rate_gsps = 1_966_080;
    let auto_res = tile.auto_tune(mhz(2400.0));
    tile.blocks[0].nyquist_zone = auto_res.nyquist_zone;
    tile.blocks[0].planner_zone = auto_res.zone_index;
    tile.blocks[0].mixer_mode = MixerMode::FineMix;
    tile.blocks[0].nco_freq_mhz = auto_res.nco_freq_mhz;

    let sim_fs = 10000.0;
    let record = carriers(&[(2400.0, -6.0)], 1024, sim_fs);
    let analysis = SpectrumAnalysis::default();
    let processed =
        process(&record, sim_fs, &tile.blocks[0], &tile, DdcSettings::default(), analysis);

    let found = peaks(&processed, -20.0);
    assert!(!found.is_empty(), "Should detect peak near 0 Hz baseband");
    // At ×1 there is no decimation filter, so the mixer's negative image survives at the same
    // level as the wanted tone; ask for the one at DC by frequency.
    let dc_peak = found
        .iter()
        .find(|pk| pk.0.abs() < 10.0)
        .unwrap_or_else(|| panic!("no peak at 0 Hz baseband, strongest was {:.1} MHz", found[0].0));
    assert!(
        (dc_peak.1 - (-12.0)).abs() < 3.0,
        "Peak magnitude should be close to -12 dBFS, got {:.1} dBFS",
        dc_peak.1
    );
}

#[test]
fn auto_tune_nco_lands_signal_at_dc_with_correct_sense() {
    // Auto-tune emits the alias already signed for the zone, and stays inside +/-Fs/2 so
    // the wrap convention never applies. An RF tone above the tuned centre lands above DC.
    let mut tile = AdcTile::new(0); // Fs = 4000 MHz
    let mut block = tile.blocks[0];
    let at = block.auto_tune(tile.sample_rate_gsps, mhz(2400.0)); // zone 2, NCO -1600
    assert_eq!(at.zone_index, 2);
    assert!((f(at.nco_freq_mhz) - (-1600.0)).abs() < 1e-9);
    block.decimation = DecimationFactor::X8;
    tile.blocks[0] = block;

    let baseband_of = |rf_mhz: f64| -> f64 {
        let record = carriers(&[(rf_mhz, -6.0)], 16384, 15000.0);
        let analysis = SpectrumAnalysis::default();
        let processed =
            process(&record, 15000.0, &block, &tile, DdcSettings::default(), analysis);
        let found = peaks(&processed, -60.0);
        assert!(!found.is_empty(), "no peak found for {rf_mhz} MHz");
        found[0].0
    };

    let below = baseband_of(2350.0);
    let above = baseband_of(2450.0);
    assert!(
        (below + 50.0).abs() < 5.0,
        "RF 50 MHz below centre should land at -50 MHz, got {below:.1}"
    );
    assert!(
        (above - 50.0).abs() < 5.0,
        "RF 50 MHz above centre should land at +50 MHz, got {above:.1}"
    );
}

#[test]
fn nyquist_folding_second_zone() {
    // Fold by actually sampling: a real 1300 MHz tone sampled at Fs = 2000 MHz sits in zone 2
    // and must appear mirrored at 700 MHz.
    let sim_fs = 12000.0;
    let tile_fs = 2000.0;
    let n = 8192;
    let wideband: Vec<f64> =
        (0..n).map(|i| (2.0 * PI * 1300.0 * i as f64 / sim_fs).cos()).collect();

    let sampled = resample(&wideband, sim_fs, tile_fs);
    let (folded, bins) = one_sided(&complex(&sampled), 2048, FftWindow::Hanning, 1);
    let points = 2 * (folded.len() - 1);
    let (peak_idx, _) = folded
        .iter()
        .enumerate()
        .max_by(|(_, a), (_, b)| a.partial_cmp(b).unwrap())
        .unwrap();
    let peak_freq = bins[peak_idx] as f64 * tile_fs / points as f64;
    assert!(
        (peak_freq - 700.0).abs() < 2.0 * tile_fs / 2048.0,
        "Folded peak at {peak_freq} MHz, expected ~700 MHz"
    );
}

#[test]
fn odd_sample_count_fft_shift_does_not_panic() {
    let samples: Vec<C64> = (0..683).map(|i| C64::new(i as f64, 0.0)).collect();

    let (spec, freq) = two_sided(&samples, 2048, FftWindow::Hanning, 1);
    assert!(!spec.is_empty());
    assert_eq!(spec.len(), freq.len());
    assert_eq!(spec.len() % 2, 0);
    assert_eq!((spec.len(), freq[0], freq[341]), (682, -341, 0));
}

#[test]
fn fine_mixer_scale_auto_r2c_vs_c2c() {
    let n = 256;
    let fs = 1000.0;
    let samples: Vec<f64> =
        (0..n).map(|i| (2.0 * PI * 100.0 * i as f64 / fs).cos()).collect();

    let mut tile = AdcTile::new(0);
    tile.sample_rate_gsps = 1_000_000;
    tile.blocks[0].mixer_mode = MixerMode::FineMix;
    tile.blocks[0].nco_freq_mhz = mhz(100.0);
    let mixed = |path: DataPath, scale: FineMixerScale| -> f64 {
        let ddc = DdcSettings { path, scale };
        let analysis = SpectrumAnalysis::default();
        let capture = process(&samples, fs, &tile.blocks[0], &tile, ddc, analysis);
        assert_eq!(capture.plan.mixer_shift_mhz, Some(mhz(100.0)));
        capture.signal.iter().map(|s| s.norm_sqr()).sum::<f64>() / n as f64
    };

    // C2C should have ~3 dB less power than R2C due to 0.7071 scaling
    let power_r2c = mixed(DataPath::RealToIq, FineMixerScale::Auto);
    let power_c2c = mixed(DataPath::IqToIq, FineMixerScale::Auto);
    let ratio_db = 10.0 * (power_r2c / power_c2c).log10();
    assert!(
        (ratio_db - 3.0).abs() < 0.5,
        "R2C/C2C power ratio should be ~3 dB, got {ratio_db:.1} dB"
    );
    // A scale that is set is kept.
    assert_eq!(mixed(DataPath::IqToIq, FineMixerScale::OnePointZero), power_r2c);
    assert_eq!(mixed(DataPath::RealToIq, FineMixerScale::ZeroPointSeven), power_c2c);
    assert_eq!(mixed(DataPath::RealToReal, FineMixerScale::Auto), power_r2c);
}

#[test]
fn clipping_overrange_flag() {
    let samples: Vec<f64> = vec![1.5, -1.5, 0.5];
    let non = AdcNonIdealities::default(); // disabled, but clipping still applies
    let (processed, overrange) = digitise(&samples, &non);

    assert!(overrange);
    assert_eq!(processed[0], 1.0);
    assert_eq!(processed[1], -1.0);
    assert_eq!(processed[2], 0.5);
    let (_, overrange) = digitise(&vec![1.0, -1.0, 0.5], &non);
    assert!(!overrange);
}

#[test]
fn quantised_codes_stop_one_short_of_full_scale() {
    let non = AdcNonIdealities { enabled: true, ..AdcNonIdealities::default() };
    let (out, over) = digitise(&vec![0.5, 1.5, -2.0], &non);
    assert!(over);
    assert_eq!(out, vec![0.5, 2047.0 / 2048.0, -1.0]);
    let (empty, over) = digitise(&vec![], &non);
    assert!(empty.is_empty() && !over);
}

#[test]
fn the_start_of_a_record_is_digitised_as_within_the_whole() {
    let non = AdcNonIdealities { enabled: true, ..AdcNonIdealities::default() };
    let found = impairments(&non);
    let whole: Vec<f64> = (0..40_000).map(|i| (i as f64 * 0.37).sin()).collect();
    let run = |samples: &Vec<f64>| {
        apply_digital_non_idealities(
            samples,
            &found,
            &|i, v| v + 1e-3 * (i as f64 * 12.9898).sin(),
            &|v, (a, b)| v + 1e-4 * (a + b) as f64,
            &clip,
            &quantise,
        )
    };
    let (out, over) = run(&whole);
    for k in [0, 1, 8192, 32_767, 40_000] {
        let (start, _) = run(&whole[..k].to_vec());
        assert_eq!(start, out[..k], "the first {k}");
    }
    assert_eq!(run(&whole), (out, over), "and repeating gives the same");
}

#[test]
fn decimation_rejects_out_of_band_aliases() {
    // A tone that would alias into the DDC passband must be rejected, not folded in.
    let n = 16384;
    let factor = 8u32;
    let f_out = 1.0 / factor as f64;

    let tone = |fnorm: f64| -> f64 {
        let s: Vec<C64> = (0..n)
            .map(|i| {
                let a = 2.0 * PI * fnorm * i as f64;
                C64::new(a.cos(), a.sin())
            })
            .collect();
        let out = decimate(&s, factor);
        let mid = &out[out.len() / 8..7 * out.len() / 8];
        let p: f64 = mid.iter().map(|c| c.norm_sqr()).sum::<f64>() / mid.len() as f64;
        10.0 * p.max(1e-30).log10()
    };

    let reference = tone(1e-6);

    // In-band: must pass essentially untouched across the usable bandwidth.
    let in_band = tone(DDC_PASSBAND_FRAC * f_out) - reference;
    assert!(in_band.abs() < 0.5, "passband edge should be flat, got {in_band:.2} dB");

    // Anything above (1 − 0.4)·Fout folds back inside the usable band, as does anything near a
    // multiple of Fout. All of it must be suppressed.
    for &x in &[
        (1.0 - DDC_PASSBAND_FRAC) * f_out + 0.002,
        0.999 * f_out,
        f_out,
        2.0 * f_out,
        3.0 * f_out,
    ] {
        let leak = tone(x) - reference;
        assert!(
            leak < -80.0,
            "alias at {x:.4}·Fs leaked into the DDC band at {leak:.1} dB (need < -80)"
        );
    }
}

#[test]
fn stages_run_in_order_and_panes_look_between_them() {
    // Samples are numbers that every stage appends a digit to, and a pane shows its first sample.
    let mut tile = AdcTile::new(0);
    tile.blocks[0].non_idealities =
        AdcNonIdealities { enabled: true, quantization_bits: 0, ..AdcNonIdealities::default() };
    let append = |x: i64, digit: i64| 10 * x + digit;
    let capture = process_adc_block(
        vec![0i64; 4096],
        mhz(4_000.0),
        &tile.blocks[0],
        &tile,
        DdcSettings::default(),
        &build_decimation_chain(1, kaiser),
        SpectrumAnalysis::default(),
        &|stage: AnalogStage, mut v: Vec<i64>| {
            let digit = match stage {
                AnalogStage::Attenuate => 1,
                AnalogStage::LimitBandwidth => 2,
                AnalogStage::Distort => 3,
            };
            v[0] = append(v[0], digit);
            v
        },
        &Sampler {
            zero: 0i64,
            accumulate: |acc: i64, x: i64, _: usize, _: ResamplePoint| acc + x,
            finish: |acc: i64, _: ResamplePoint| append(acc, 4),
        },
        &Digitiser {
            noise: |_: usize, v: i64| append(v, 5),
            spur: |v: i64, _: (i8, i8)| v,
            clip: |v: i64| (append(v, 6), false),
            quantise: |v: i64, _: i64| append(v, 0),
        },
        &DownConverter {
            zero: 0i64,
            mix: |_: &CapturePlan, _: usize, v: i64| append(v, 7),
            correct: |z: i64| append(z, 8),
            mac: |acc: i64, x: i64, tap: f64| acc + x * tap as i64,
        },
        &Analyser {
            zero: 0i64,
            shape: |_: FftWindow, _: usize, _: usize, x: i64| x,
            levels: |_: FftWindow, v: Vec<i64>, _: usize| vec![v[0]; v.len() / 2 + 1],
            iq_shape: |_: FftWindow, _: usize, _: usize, x: i64| x,
            iq_levels: |_: FftWindow, v: Vec<i64>, _: usize| vec![v[0]; v.len()],
            iq_half_levels: |_: FftWindow, v: Vec<i64>, _: usize| vec![v[0]; v.len() / 2 + 1],
            lift: |x: i64| x,
        },
    );
    assert_eq!(capture.input[0], 123);
    assert_eq!(capture.folded[0], 123_456);
    assert_eq!(capture.post_mixer[0], 1_234_567);
    assert_eq!(capture.output[0], 12_345_678);
    assert_eq!(capture.signal[0], 12_345_678);
    assert_eq!((capture.plan.tile_len, capture.plan.output_len), (4096, 4096));
    assert_eq!(capture.input.len(), 2049);
    assert!(!capture.overrange);
}

/// The converter's noise for every sample, one stream per chunk seeded from where it starts.
fn converter_noise(len: usize) -> Vec<f64> {
    let mut noise = Vec::new();
    for piece in chunks(len) {
        let mut state = converter_seed(piece.start);
        for _ in 0..piece.len {
            let mut unit = || {
                state = xorshift64(state);
                unit_bits(state) as f64 / (1u64 << 53) as f64
            };
            let (u1, u2) = (unit().max(1e-300), unit());
            noise.push((-2.0 * u1.ln()).sqrt() * (2.0 * PI * u2).cos());
        }
    }
    noise
}

#[test]
fn chunked_stages_agree_across_the_parallel_threshold() {
    let short = PAR_MIN_LEN / 2;
    let long = PAR_MIN_LEN * 2 + 77; // deliberately not a multiple of the chunk size
    let sim_fs = 15000.0;
    let tile_fs = 4000.0;
    let wave = |i: usize| {
        let t = i as f64 / sim_fs;
        (2.0 * PI * 1234.5 * t).sin() + 0.3 * (2.0 * PI * 6789.0 * t).cos()
    };
    let short_in: Vec<f64> = (0..short).map(wave).collect();
    let long_in: Vec<f64> = (0..long).map(wave).collect();

    let worst = |a: &[f64], b: &[f64]| {
        a.iter().zip(b).map(|(x, y)| (x - y).abs()).fold(0.0_f64, f64::max)
    };

    // Resampler: the shorter run is a prefix of the longer one, bar the last few outputs whose
    // kernel runs off the end of the shorter buffer.
    let a = resample(&short_in, sim_fs, tile_fs);
    let b = resample(&long_in, sim_fs, tile_fs);
    let settled = a.len() - RESAMPLER_TAPS as usize;
    assert!(
        worst(&a[..settled], &b[..settled]) < 1e-12,
        "resampler disagrees either side of the parallel threshold"
    );

    // Digital non-idealities: the noise realisation is seeded from the absolute index, so
    // the shorter run has to reproduce the longer one's opening samples exactly.
    let non = AdcNonIdealities {
        enabled: true,
        enob: 10_000_000,
        ..AdcNonIdealities::default()
    };
    let found = impairments(&non);
    assert!(found.noise && !runs_parallel(short) && runs_parallel(long));
    let half = found.half_levels.unwrap() as f64;
    let total = 0.5 * 10.0_f64.powf(-(6.02 * 10.0 + 1.76) / 10.0);
    let sigma = (total - (1.0 / half).powi(2) / 12.0).max(0.0).sqrt();
    let spur_amp = 10.0_f64.powf(f(non.interleaving_spur_dbc) / 20.0);
    let run = |samples: &Vec<f64>| {
        let noise = converter_noise(samples.len());
        apply_digital_non_idealities(
            samples,
            &found,
            &|i: usize, v: f64| v + sigma * noise[i],
            &|v: f64, (half_rate, quarter_rate): (i8, i8)| {
                let scaled = v + v * spur_amp * (half_rate as f64 + quarter_rate as f64) * 0.5;
                scaled + spur_amp * half_rate as f64 * 0.1
            },
            &clip,
            &quantise,
        )
    };
    let (a, _) = run(&short_in);
    let (b, _) = run(&long_in);
    assert_ne!(a, digitise(&short_in, &non).0, "there is noise");
    assert_eq!(
        worst(&a, &b[..a.len()]),
        0.0,
        "the ADC noise floor is not reproducible across the parallel threshold"
    );
}

#[test]
fn a_sufficient_record_decimates_to_the_bins() {
    for detail in [SpectrumDetail::Fast, SpectrumDetail::Balanced] {
        for decim in DecimationFactor::ALL {
            let factor = decim.factor();
            let needed = required_tile_samples(factor, detail, warmup(factor));
            let record = vec![C64::new(1.0, 0.0); needed];
            let out = decimate(&record, factor);
            assert!(out.len() >= detail.output_bins(), "×{factor}");
            let settling = if factor > 1 { warmup(factor) } else { 0 };
            assert_eq!(out.len(), needed / factor as usize - settling);
        }
    }
}

#[test]
fn a_longer_record_is_sampled_alike_at_its_start() {
    let record: Vec<f64> = (0..6000).map(|i| (i as f64 * 0.61).sin()).collect();
    let whole = resample(&record, 15_000.0, 4_000.0);
    let start = resample(&record[..3000].to_vec(), 15_000.0, 4_000.0);
    // The kernel reaches past the end of the shorter record at its last few points.
    let settled = start.len() - 8;
    assert_eq!(start[..settled], whole[..settled]);
    assert_ne!(start.last(), Some(&whole[start.len() - 1]));
}

#[test]
fn samples_after_the_analysed_ones_have_no_effect() {
    let short: Vec<C64> = (0..512).map(|i| C64::new((i as f64 * 0.3).cos(), 0.0)).collect();
    let mut long = short.clone();
    long.extend((0..700).map(|i| C64::new(i as f64, 1.0)));
    let window = FftWindow::BlackmanHarris;
    assert_eq!(two_sided(&long, 512, window, 4), two_sided(&short, 512, window, 4));
    assert_eq!(one_sided(&long, 512, window, 4), one_sided(&short, 512, window, 4));
    // One sample more than is analysed in pairs.
    assert_eq!(two_sided(&long[..513].to_vec(), 2048, window, 1), two_sided(&short, 512, window, 1));
}

#[test]
fn fft_single_tone_peak_location() {
    // Generate a 100 MHz tone sampled at 1000 MHz
    let n = 1024;
    let fs = 1000.0;
    let f_tone = 100.0;
    let samples: Vec<C64> =
        (0..n).map(|i| C64::from_polar(1.0, 2.0 * PI * f_tone * i as f64 / fs)).collect();

    let (spectrum, bins) = one_sided(&samples, n, FftWindow::Hanning, 1);

    // Find the peak
    let (peak_idx, _) = spectrum
        .iter()
        .enumerate()
        .max_by(|(_, a), (_, b)| a.partial_cmp(b).unwrap())
        .unwrap();

    let peak_freq = bins[peak_idx] as f64 * fs / n as f64;
    assert!(
        (peak_freq - f_tone).abs() < fs / n as f64,
        "Peak at {peak_freq} MHz, expected ~{f_tone} MHz"
    );
}

#[test]
fn coarse_mixer_fs_over_4() {
    let n = 256;
    let fs = 1000.0;
    // The mixer sees the converter's real output, so this is a cosine, not a phasor.
    let samples: Vec<f64> =
        (0..n).map(|i| (2.0 * PI * 250.0 * i as f64 / fs).cos()).collect(); // 250 MHz = Fs/4

    let mut tile = AdcTile::new(0);
    tile.sample_rate_gsps = 1_000_000;
    tile.blocks[0].mixer_mode = MixerMode::CoarseMix(CoarseMixFreq::FsOver4);
    let capture = process(
        &samples,
        fs,
        &tile.blocks[0],
        &tile,
        DdcSettings::default(),
        SpectrumAnalysis::default(),
    );
    let mixed = &capture.signal;
    assert_eq!(mixed.len(), n);

    // After mixing with −Fs/4, a real tone at Fs/4 puts its positive-frequency half at DC.
    // Its negative half lands on −Fs/2, i.e. the Nyquist bin, and is just as strong — so
    // this checks the level at DC rather than where the strongest bin happens to be.
    let (spectrum, bins) = two_sided(mixed, n, FftWindow::Hanning, 1);
    let peak = highest(&spectrum);
    let dc_idx = bins.iter().position(|&k| k == 0).unwrap();
    assert!(
        spectrum[dc_idx] > peak - 0.5,
        "After Fs/4 mix, DC should carry the tone: DC {:.1} dBFS vs peak {peak:.1} dBFS",
        spectrum[dc_idx]
    );
}

#[test]
fn r2c_mixer_image_generation() {
    let fs = 1000.0;
    let n = 256;
    let f_in = 100.0;

    // Real tone
    let samples: Vec<f64> = (0..n).map(|i| (2.0 * PI * f_in * i as f64 / fs).cos()).collect();

    // Mix with 100 MHz NCO (shifts signal down by 100 MHz)
    let mut tile = AdcTile::new(0);
    tile.sample_rate_gsps = 1_000_000;
    tile.blocks[0].mixer_mode = MixerMode::FineMix;
    tile.blocks[0].nco_freq_mhz = mhz(100.0);
    let capture = process(
        &samples,
        fs,
        &tile.blocks[0],
        &tile,
        DdcSettings::default(),
        SpectrumAnalysis::default(),
    );

    // We should have energy at DC (100 - 100 = 0) AND at -200 MHz (-100 - 100 = -200)
    let (spectrum, _) = two_sided(&capture.signal, n, FftWindow::Hanning, 1);

    // Find DC and -200 MHz bins
    let dc_idx = n / 2;
    let image_idx = n / 2 - (200.0 / fs * n as f64) as usize;

    assert!(spectrum[dc_idx] > -20.0, "Missing DC component from mixing");
    assert!(spectrum[image_idx] > -20.0, "Missing -2w image from real-to-complex mixing");
}

#[test]
fn other_nyquist_zone_interferes_if_unfiltered() {
    let mut tile = AdcTile::new(0);
    tile.sample_rate_gsps = 1_966_080;

    let auto_res = tile.auto_tune(mhz(2400.0));
    tile.blocks[0].nyquist_zone = auto_res.nyquist_zone;
    tile.blocks[0].planner_zone = auto_res.zone_index;
    tile.blocks[0].mixer_mode = MixerMode::FineMix;
    tile.blocks[0].nco_freq_mhz = auto_res.nco_freq_mhz;

    let sim_fs = 15000.0;
    let record = carriers(&[(2400.0, -6.0), (433.92, -6.0)], 1024, sim_fs);
    let analysis = SpectrumAnalysis::default();
    let processed =
        process(&record, sim_fs, &tile.blocks[0], &tile, DdcSettings::default(), analysis);

    let found = peaks(&processed, -20.0);
    assert!(!found.is_empty());
    assert!(found[0].0.abs() < 10.0, "Both signals construct peak at 0 Hz baseband");
}

#[test]
fn out_of_band_interferer_does_not_alias_into_ddc() {
    // Fs = 4000 MHz, tuned to 2600 MHz (zone 2), ×8 decimation → ±250 MHz output band.
    // A second tone 300 MHz away is outside that band, so the PL must not see it.
    let mut tile = AdcTile::new(0);
    let mut block = tile.blocks[0];
    block.auto_tune(tile.sample_rate_gsps, mhz(2600.0));
    block.decimation = DecimationFactor::X8;
    tile.blocks[0] = block;

    let sim_fs = 15000.0;
    let record = carriers(&[(2600.0, -6.0), (2900.0, -6.0)], 16384, sim_fs);
    let analysis = SpectrumAnalysis::default();
    let processed = process(&record, sim_fs, &block, &tile, DdcSettings::default(), analysis);

    let found = peaks(&processed, -200.0);
    assert!(!found.is_empty());

    let wanted = found[0];
    assert!(wanted.0.abs() < 10.0, "tuned tone should sit at DC, got {:.1} MHz", wanted.0);

    // The interferer folds to −200 MHz if the decimation filter leaks.
    let worst_alias = found
        .iter()
        .filter(|p| p.0.abs() > 50.0)
        .map(|p| p.1)
        .fold(f64::NEG_INFINITY, f64::max);
    let rejection = worst_alias - wanted.1;
    assert!(
        rejection < -70.0,
        "out-of-band tone aliased into the DDC output at {rejection:.1} dBc (need < -70)"
    );
}

#[test]
fn pre_adc_and_folded_levels_agree() {
    // The pre-ADC plot and the folded plot must report the same level for the same signal.
    let tile = AdcTile::new(0);
    let mut block = tile.blocks[0];
    block.mixer_mode = MixerMode::Bypass;
    block.decimation = DecimationFactor::X1;

    let record = carriers(&[(1024.0, 0.0)], 8192, 15000.0);
    let analysis = SpectrumAnalysis::default();
    let processed = process(&record, 15000.0, &block, &tile, DdcSettings::default(), analysis);

    let pre = highest(&processed.input);
    let folded = highest(&processed.folded);
    assert!(
        (pre - folded).abs() < 1.0,
        "pre-ADC {pre:.2} dBFS vs folded {folded:.2} dBFS"
    );
}

#[test]
fn dbfs_calibration() {
    let n = 2048;
    let fs = 1024.0; // Use power of 2 so f=100 lands on exact bin 200 (avoids scalloping loss)

    // Full scale complex tone (amplitude 1.0)
    let samples: Vec<C64> =
        (0..n).map(|i| C64::from_polar(1.0, 2.0 * PI * 100.0 * i as f64 / fs)).collect();
    let (spectrum, _) = two_sided(&samples, n, FftWindow::Hanning, 1);
    let peak_dbfs = highest(&spectrum);

    // Peak should be 0.0 dBFS for a full scale complex tone
    assert!(
        peak_dbfs.abs() < 0.1,
        "Full scale complex tone should be 0 dBFS, got {peak_dbfs:.2} dBFS"
    );

    // Full scale real tone (amplitude 1.0), one-sided positive spectrum
    let samples_real: Vec<C64> =
        (0..n).map(|i| C64::new((2.0 * PI * 100.0 * i as f64 / fs).cos(), 0.0)).collect();
    let (spectrum_pos, _) = one_sided(&samples_real, n, FftWindow::Hanning, 1);
    let peak_pos_dbfs = highest(&spectrum_pos);

    // Peak should be 0.0 dBFS for a full scale real tone in a one-sided spectrum
    assert!(
        peak_pos_dbfs.abs() < 0.1,
        "Full scale real tone should be 0 dBFS in one-sided spectrum, got {peak_pos_dbfs:.2} dBFS"
    );
}

#[test]
fn display_padding_resolves_the_main_lobe_of_a_bin_centred_tone() {
    let n = 256;
    // Exactly on bin 0 of the shifted spectrum: the worst case for a raw FFT trace.
    let samples: Vec<C64> = (0..n).map(|_| C64::new(0.5, 0.0)).collect();

    let (raw, _) = two_sided(&samples, n, FftWindow::Hanning, 1);
    let (padded, _) = two_sided(&samples, n, FftWindow::Hanning, 16);

    // Count points within 20 dB of the peak — the visible width of the drawn lobe.
    let lobe = |s: &[f64]| {
        let p = highest(s);
        s.iter().filter(|&&v| v > p - 20.0).count()
    };

    assert_eq!(lobe(&raw), 3, "raw trace should show the classic 3-bin Hanning lobe");
    assert!(
        lobe(&padded) >= 24,
        "padded trace should sample the same lobe with many points, got {}",
        lobe(&padded)
    );
    // Padding must not change the level: it adds no energy.
    assert!(
        (highest(&padded) - highest(&raw)).abs() < 0.01,
        "padding changed the peak level: {:.3} vs {:.3} dBFS",
        highest(&padded),
        highest(&raw)
    );
}

#[test]
fn display_padding_removes_scalloping_loss() {
    let n = 256;
    let fs = 500.0;
    let bin = fs / n as f64;

    let tone = |f_mhz: f64| -> Vec<C64> {
        (0..n).map(|i| C64::from_polar(0.5, 2.0 * PI * f_mhz * i as f64 / fs)).collect()
    };
    let peak = |f_mhz: f64, pad: usize| {
        highest(&two_sided(&tone(f_mhz), n, FftWindow::Hanning, pad).0)
    };

    let on_bin = peak(10.0 * bin, 16);
    let half_bin = peak(10.5 * bin, 16);
    let raw_half_bin = peak(10.5 * bin, 1);

    assert!(
        (on_bin - half_bin).abs() < 0.1,
        "padded peak should not depend on bin alignment: {on_bin:.2} vs {half_bin:.2} dBFS"
    );
    // Hanning scallops by ~1.4 dB at the half-bin worst case without padding.
    assert!(
        on_bin - raw_half_bin > 1.0,
        "expected the unpadded half-bin tone to read low, got {:.2} dB of loss",
        on_bin - raw_half_bin
    );
}

#[test]
fn window_leakage_envelope_matches_the_real_transform() {
    let n = 512;
    for window in FftWindow::ALL {
        // A DC tone: the transform of the window itself.
        let ones: Vec<C64> = (0..n).map(|_| C64::new(1.0, 0.0)).collect();
        let (spec, axis) = two_sided(&ones, n, window, 16);
        let peak = highest(&spec);

        let mut worst_excess: f64 = f64::NEG_INFINITY;
        let mut worst_at = 0.0;
        for (i, &k) in axis.iter().enumerate() {
            let bins = (k as f64 / 16.0).abs();
            // Beyond the main lobe, and short of the floor where rounding dominates.
            if !(2.0..=64.0).contains(&bins) || spec[i] < peak - 160.0 {
                continue;
            }
            let predicted = peak - envelope_db(window, bins);
            if spec[i] - predicted > worst_excess {
                worst_excess = spec[i] - predicted;
                worst_at = bins;
            }
        }
        assert!(
            worst_excess < 3.0,
            "{window:?} sidelobes rise {worst_excess:.1} dB above the modelled envelope at {worst_at:.1} bins; the model must bound them from below"
        );
    }
}

#[test]
fn real_spectrum_matches_the_complex_transform() {
    let n = 4096;
    let fs = 4000.0;
    let real: Vec<f64> = (0..n)
        .map(|i| {
            let t = i as f64 / fs;
            (2.0 * PI * 317.0 * t).cos() + 0.01 * (2.0 * PI * 1123.0 * t).sin()
        })
        .collect();
    let complex = complex(&real);

    for window in FftWindow::ALL {
        for pad in [1usize, 4] {
            let (a, fa) = one_sided_real(&real, n, window, pad);
            let (b, fb) = one_sided(&complex, n, window, pad);
            assert_eq!(a.len(), b.len(), "{window:?} pad {pad}: bin count differs");
            assert_eq!(fa, fb, "{window:?} pad {pad}: frequency axis differs");
            let peak = highest(&b);
            let worst_of = |floor_db: f64| {
                a.iter()
                    .zip(&b)
                    .filter(|&(_, &y)| y > peak - floor_db)
                    .map(|(x, y)| (x - y).abs())
                    .fold(0.0_f64, f64::max)
            };
            // Anywhere a signal lives, the two transforms agree to well past display
            // precision. The last 100 dB is each algorithm's own rounding noise, where a
            // vanishing absolute difference still reads as a visible one in dB.
            assert!(
                worst_of(150.0) < 1e-6,
                "{window:?} pad {pad}: differs by {:.3e} dB above −150 dBc",
                worst_of(150.0)
            );
            assert!(
                worst_of(400.0) < 1e-3,
                "{window:?} pad {pad}: differs by {:.3e} dB at the floor",
                worst_of(400.0)
            );
        }
    }
}

fn twiddle(k: usize, n: usize, sign: f64) -> C64 {
    C64::from_polar(1.0, sign * 2.0 * PI * k as f64 / n as f64)
}

/// A transform by rows and columns, of a length that splits.
fn split_fft(buf: &mut Vec<C64>, inverse: bool) {
    let n = buf.len();
    let (n1, n2) = fft_split(n).expect("length should qualify");
    let mut planner = FftPlanner::new();
    let sign = if inverse { 1.0 } else { -1.0 };
    let (inner1, inner2) = if inverse {
        (planner.plan_fft_inverse(n1), planner.plan_fft_inverse(n2))
    } else {
        (planner.plan_fft_forward(n1), planner.plan_fft_forward(n2))
    };
    let mut a = vec![C64::new(0.0, 0.0); n];
    let mut b = a.clone();
    transpose(buf, &mut a, n1, n2);
    for (r, row) in a.chunks_mut(n1).enumerate() {
        inner1.process(row);
        for (c, v) in row.iter_mut().enumerate() {
            *v *= twiddle(r * c, n, sign);
        }
    }
    transpose(&a, &mut b, n2, n1);
    for row in b.chunks_mut(n2) {
        inner2.process(row);
    }
    transpose(&b, buf, n1, n2);
}

fn split_real_forward(samples: &Vec<f64>) -> Vec<C64> {
    let n = samples.len();
    let mut packed: Vec<C64> =
        pack_pairs(samples).into_iter().map(|(a, b)| C64::new(a, b)).collect();
    split_fft(&mut packed, false);
    unpack_bins(
        &packed,
        |z: C64| (C64::new(z.re + z.im, 0.0), C64::new(z.re - z.im, 0.0)),
        |k, a: C64, b: C64| {
            let b = b.conj();
            (a + b) * 0.5 + twiddle(k, n, -1.0) * (a - b) * C64::new(0.0, -0.5)
        },
    )
}

fn split_real_inverse(spectrum: &Vec<C64>, n: usize) -> Vec<f64> {
    let mut packed = pack_bins(spectrum, |k, a: C64, b: C64| {
        let b = b.conj();
        (a + b) * 0.5 + C64::new(0.0, 1.0) * (a - b) * 0.5 * twiddle(k, n, 1.0)
    });
    split_fft(&mut packed, true);
    let pairs: Vec<(f64, f64)> = packed.iter().map(|z| (2.0 * z.re, 2.0 * z.im)).collect();
    unpack_pairs(&pairs)
}

#[test]
fn parallel_transform_matches_the_single_threaded_one() {
    // A real transform of `n` runs a complex one of `n/2`, so `n` has to be twice
    // the shortest length that splits to qualify at all.
    assert!(fft_split((1 << 16) - 1).is_none() && fft_split(1 << 16).is_some());
    for n in [2 << 16, 1 << 18, 1 << 19] {
        // Something with structure and something without, so a bin-aligned tone cannot
        // hide an indexing mistake that broadband noise would expose.
        let mut seed = 0x1234_5678_9ABC_DEF0u64;
        let x: Vec<f64> = (0..n)
            .map(|i| {
                seed = seed.wrapping_mul(6364136223846793005).wrapping_add(1442695040888963407);
                let noise = (seed >> 11) as f64 / (1u64 << 53) as f64 - 0.5;
                (2.0 * PI * 97.0 * i as f64 / n as f64).cos() + 0.25 * noise
            })
            .collect();

        // Forward: against one transform of the whole record.
        let parallel = split_real_forward(&x);
        let fft = RealFftPlanner::<f64>::new().plan_fft_forward(n);
        let mut input = x.clone();
        let mut reference = fft.make_output_vec();
        fft.process(&mut input, &mut reference).unwrap();

        let scale = reference.iter().map(|c| c.norm()).fold(0.0_f64, f64::max);
        let worst = parallel
            .iter()
            .zip(&reference)
            .map(|(a, b)| (a - b).norm())
            .fold(0.0_f64, f64::max);
        assert_eq!(parallel.len(), reference.len());
        assert!(
            worst < 1e-9 * scale,
            "n = {n}: forward differs by {worst:.3e} against a peak of {scale:.3e}"
        );

        // Inverse: round-tripping has to give the record back, scaled by n as the
        // single-threaded path scales it.
        let back = split_real_inverse(&parallel, n);
        let worst = back
            .iter()
            .zip(&x)
            .map(|(a, b)| (a / n as f64 - b).abs())
            .fold(0.0_f64, f64::max);
        assert_eq!(back.len(), n);
        assert!(worst < 1e-12, "n = {n}: round trip differs by {worst:.3e}");

        // And against the inverse of the whole spectrum at once.
        let ifft = RealFftPlanner::<f64>::new().plan_fft_inverse(n);
        let mut spectrum = parallel.clone();
        let mut ref_back = vec![0.0; n];
        ifft.process(&mut spectrum, &mut ref_back).unwrap();
        let scale = ref_back.iter().map(|v| v.abs()).fold(0.0_f64, f64::max);
        let worst = back
            .iter()
            .zip(&ref_back)
            .map(|(a, b)| (a - b).abs())
            .fold(0.0_f64, f64::max);
        assert!(
            worst < 1e-9 * scale,
            "n = {n}: inverse differs by {worst:.3e} against a peak of {scale:.3e}"
        );
    }
}
