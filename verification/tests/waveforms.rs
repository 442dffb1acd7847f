//! The waveforms a generator produces, sampled where the library says each tone stands.

use num_complex::Complex;
use rfsoc_sim::clock::{SampleClock, Turn};
use rfsoc_sim::noise::{
    channel_seed, floor_seed, hop_channel, qpsk_quadrant, unit_bits, xorshift64,
};
use rfsoc_sim::signal::{
    top_harmonic_mhz, HarmonicSeries, Instant, PulseRegion, SignalGenerator, Tone, ToneModulation,
    ToneRecipe, RRC_SPAN,
};
use rustfft::FftPlanner;
use std::cell::RefCell;
use std::f64::consts::PI;

const FS: f64 = 15000.0;
/// A record length where a 3000 MHz carrier lands exactly on a bin, so the DFT is coherent
/// and leakage cannot be mistaken for occupied bandwidth. 15000 samples at 15 GHz is 1 µs.
const N: usize = 15000;
/// Ten microseconds, for anything whose repetition interval is measured in microseconds.
const N_LONG: usize = 150_000;

type C64 = Complex<f64>;

fn micro(x: f64) -> i64 {
    (x * 1e6).round() as i64
}

fn f(x: i64) -> f64 {
    x as f64 / 1e6
}

fn angle(turn: Turn) -> f64 {
    2.0 * PI * (turn.position as f64 / turn.whole as f64)
}

fn fraction(turn: Turn) -> f64 {
    turn.position as f64 / turn.whole as f64
}

fn chirp_phase(start: f64, bw: f64, period: f64, tau: f64, triangular: bool) -> f64 {
    if !triangular {
        return 2.0 * PI * (start * tau + 0.5 * bw / period * tau * tau);
    }
    let half = period / 2.0;
    let rate = bw / half;
    if tau < half {
        2.0 * PI * (start * tau + 0.5 * rate * tau * tau)
    } else {
        let up = 2.0 * PI * (start * half + 0.5 * rate * half * half);
        let sigma = tau - half;
        up + 2.0 * PI * ((start + bw) * sigma - 0.5 * rate * sigma * sigma)
    }
}

/// Root-raised-cosine impulse response at `x` symbol periods from the centre.
fn rrc(x: f64, alpha: f64) -> f64 {
    let general = |x: f64| {
        let px = PI * x;
        let num = (px * (1.0 - alpha)).sin() + 4.0 * alpha * x * (px * (1.0 + alpha)).cos();
        num / (px * (1.0 - 16.0 * alpha * alpha * x * x))
    };
    let eps = 1e-7;
    if x.abs() < eps {
        return 1.0 - alpha + 4.0 * alpha / PI;
    }
    let singular = 1.0 / (4.0 * alpha);
    if (x.abs() - singular).abs() < eps {
        let s = x.signum() * singular;
        return 0.5 * (general(s - 10.0 * eps) + general(s + 10.0 * eps));
    }
    general(x)
}

fn rrc_power_norm(alpha: f64) -> f64 {
    let steps = 2048;
    let span = RRC_SPAN as f64;
    let dx = 2.0 * span / steps as f64;
    let energy: f64 =
        (0..steps).map(|i| rrc(-span + (i as f64 + 0.5) * dx, alpha).powi(2) * dx).sum();
    1.0 / energy.sqrt()
}

fn qpsk_symbol(k: i64) -> C64 {
    let angle = qpsk_quadrant(k) as f64 * PI / 2.0 + PI / 4.0;
    C64::new(angle.cos(), angle.sin())
}

fn unit(state: &mut u64) -> f64 {
    *state = xorshift64(*state);
    unit_bits(*state) as f64 / (1u64 << 53) as f64
}

fn gaussian(state: &mut u64) -> f64 {
    let u1 = unit(state).max(1e-300);
    let u2 = unit(state);
    (-2.0 * u1.ln()).sqrt() * (2.0 * PI * u2).cos()
}

fn linear_amplitude(tone: &Tone) -> f64 {
    10.0_f64.powf(f(tone.amplitude_dbfs) / 20.0)
}

/// What the shape of a tone needs besides its settings.
struct Voice {
    tone: Tone,
    terms: Vec<(f64, f64)>,
    channel: Vec<f64>,
    norm: f64,
}

impl Voice {
    fn new(tone: Tone, n: usize) -> Voice {
        let rate = micro(FS);
        let series = HarmonicSeries::new(&tone.modulation, tone.frequency_mhz, rate);
        let mut terms: Vec<(f64, f64)> = series
            .terms
            .iter()
            .map(|t| (t.number as f64, if t.negative { -1.0 } else { 1.0 } / t.divisor as f64))
            .collect();
        let sum = |terms: &Vec<(f64, f64)>, theta: f64| -> f64 {
            terms.iter().map(|&(k, a)| a * (k * theta).sin()).sum()
        };
        let peak = (0..1024)
            .map(|i| sum(&terms, 2.0 * PI * i as f64 / 1024.0).abs())
            .fold(0.0_f64, f64::max);
        for term in &mut terms {
            term.1 /= peak;
        }
        let mut channel = Vec::new();
        if tone.is_channel() {
            let state = RefCell::new(channel_seed(f(tone.frequency_mhz).to_bits(), 0));
            let draw = |_: usize| {
                let mut state = state.borrow_mut();
                C64::new(gaussian(&mut state), gaussian(&mut state))
            };
            let zero = C64::new(0.0, 0.0);
            let mut bins =
                tone.synthesise_channel(n, rate, zero, draw, |b: C64| b.conj()).unwrap();
            let raw: f64 = bins.iter().map(|c| c.norm_sqr()).sum();
            let scale = (linear_amplitude(&tone).powi(2) / 2.0 / raw).sqrt();
            FftPlanner::new().plan_fft_inverse(n).process(&mut bins);
            assert!(bins.iter().all(|b| b.im.abs() < 1e-6 * raw.sqrt()), "a channel is real");
            channel = bins.iter().map(|b| b.re * scale).collect();
        }
        let norm = match tone.recipe(rate) {
            ToneRecipe::Qpsk { alpha, .. } => rrc_power_norm(f(alpha)),
            _ => 1.0,
        };
        Voice { tone, terms, channel, norm }
    }

    fn voltage(&self, recipe: ToneRecipe, instant: Instant) -> f64 {
        let phase = f(self.tone.phase_deg) * PI / 180.0;
        let wave = match (instant, recipe) {
            (Instant::Redrawn { index }, ToneRecipe::Channel) => return self.channel[index],
            (Instant::Carrier { carrier }, ToneRecipe::Carrier) => (angle(carrier) + phase).cos(),
            (Instant::Carrier { carrier }, ToneRecipe::Harmonics { .. }) => {
                let theta = angle(carrier) + phase;
                self.terms.iter().map(|&(k, a)| a * (k * theta).sin()).sum()
            }
            (Instant::Modulated { carrier, modulating }, ToneRecipe::Am { depth_percent, .. }) => {
                let envelope = 1.0 + f(depth_percent) / 100.0 * angle(modulating).cos();
                envelope * (angle(carrier) + phase).cos()
            }
            (
                Instant::Modulated { carrier, modulating },
                ToneRecipe::Fm { dev_mhz, mod_freq_khz },
            ) => {
                let beta = f(dev_mhz) / (f(mod_freq_khz) / 1000.0);
                (angle(carrier) + phase + beta * angle(modulating).sin()).cos()
            }
            (
                Instant::Swept { sweep },
                ToneRecipe::Chirp { period_us, bandwidth_mhz, twice_start_mhz, triangular },
            ) => {
                let tau = fraction(sweep) * f(period_us);
                let start = f(twice_start_mhz) / 2.0;
                let bw = f(bandwidth_mhz);
                (chirp_phase(start, bw, f(period_us), tau, triangular) + phase).cos()
            }
            (
                Instant::Pulsed { carrier, interval, region },
                ToneRecipe::Pulse { pri_us, width_us, rise_ns, chirp_mhz },
            ) => {
                let unit = interval.whole as f64 / f(pri_us);
                let envelope = match region {
                    PulseRegion::Off => 0.0,
                    PulseRegion::Edge { depth } => {
                        0.5 * (1.0 - (PI * depth as f64 / (rise_ns as f64 / 1e6 * unit)).cos())
                    }
                    PulseRegion::Flat => 1.0,
                };
                let mut theta = angle(carrier) + phase;
                if chirp_mhz > 0 {
                    let (width, chirp) = (f(width_us), f(chirp_mhz));
                    let tau = (interval.position as f64 / unit).min(width);
                    theta += chirp_phase(-chirp / 2.0, chirp, width, tau, false);
                }
                envelope * theta.cos()
            }
            (Instant::Hopped { carrier, .. }, ToneRecipe::Hopping { .. }) => {
                (angle(carrier) + phase).cos()
            }
            (Instant::Keyed { carrier, symbol, into }, ToneRecipe::Qpsk { alpha, .. }) => {
                let mut acc = C64::new(0.0, 0.0);
                for k in -RRC_SPAN..=RRC_SPAN {
                    let x = fraction(into) - k as f64;
                    // The table of the pulse ends at the span.
                    if x.abs() <= RRC_SPAN as f64 {
                        acc += qpsk_symbol(symbol as i64 + k) * rrc(x, f(alpha));
                    }
                }
                let theta = angle(carrier) + phase;
                self.norm * (acc.re * theta.cos() - acc.im * theta.sin())
            }
            (instant, recipe) => panic!("{instant:?} is no instant of {recipe:?}"),
        };
        linear_amplitude(&self.tone) * wave
    }
}

fn at(start_samples: usize) -> SampleClock {
    // Whole microseconds ahead, with a run-up back to the sample.
    let frames = start_samples.div_ceil(N);
    SampleClock {
        start_time_us: frames as i128 * 1_000_000,
        sample_rate_mhz: micro(FS),
        lead: frames * N - start_samples,
    }
}

/// The block of a generator that starts so many samples after time zero.
fn generate_at(g: &SignalGenerator, n: usize, start_samples: usize) -> Vec<C64> {
    let voices: Vec<Voice> = g.tones.iter().map(|t| Voice::new(*t, n)).collect();
    let amp = 10.0_f64.powf(f(g.noise_floor_dbfs) / 20.0);
    let state = RefCell::new(floor_seed((start_samples as f64 / FS).to_bits()));
    g.generate_at_time(
        n,
        &at(start_samples),
        C64::new(0.0, 0.0),
        |tone: &Tone, recipe: ToneRecipe, instant: Instant| {
            let voice = voices.iter().find(|v| v.tone == *tone).unwrap();
            C64::new(voice.voltage(recipe, instant), 0.0)
        },
        |a: C64, b: C64| a + b,
        |v: C64, _: usize| v + amp * gaussian(&mut state.borrow_mut()),
    )
}

fn generate(g: &SignalGenerator, n: usize) -> Vec<C64> {
    generate_at(g, n, 0)
}

fn make_gen(modulation: ToneModulation, freq_mhz: f64, bandwidth_mhz: f64) -> SignalGenerator {
    SignalGenerator {
        tones: vec![Tone {
            frequency_mhz: micro(freq_mhz),
            amplitude_dbfs: 0,
            phase_deg: 0,
            bandwidth_mhz: micro(bandwidth_mhz),
            modulation,
        }],
        noise_floor_dbfs: micro(-300.0),
        noise_enabled: false,
    }
}

/// Amplitude of the component at `f_mhz`, by coherent detection.
fn probe(samples: &[C64], f_mhz: f64) -> f64 {
    let mut acc = C64::new(0.0, 0.0);
    for (i, v) in samples.iter().enumerate() {
        let th = -2.0 * PI * f_mhz * i as f64 / FS;
        acc += v.re * C64::new(th.cos(), th.sin());
    }
    2.0 * acc.norm() / samples.len() as f64
}

fn probe_db(samples: &[C64], f_mhz: f64) -> f64 {
    20.0 * probe(samples, f_mhz).max(1e-300).log10()
}

/// One-sided power spectrum, windowed with Blackman-Harris.
fn spectrum(samples: &[C64]) -> Vec<f64> {
    let n = samples.len();
    let mut buf: Vec<C64> = samples
        .iter()
        .enumerate()
        .map(|(i, s)| {
            let x = 2.0 * PI * i as f64 / n as f64;
            let w = 0.35875 - 0.48829 * x.cos() + 0.14128 * (2.0 * x).cos()
                - 0.01168 * (3.0 * x).cos();
            C64::new(s.re * w, 0.0)
        })
        .collect();
    FftPlanner::new().plan_fft_forward(n).process(&mut buf);
    buf.iter().take(n / 2).map(|c| c.norm_sqr()).collect()
}

/// Span around `centre_mhz` holding `frac` of the total power, in MHz.
fn occupied_bw(samples: &[C64], centre_mhz: f64, frac: f64) -> f64 {
    let mag = spectrum(samples);
    let total: f64 = mag.iter().sum();
    let df = FS / samples.len() as f64;
    let centre = (centre_mhz / df).round() as usize;
    let mut acc = mag[centre];
    let mut half = 0usize;
    while acc < frac * total && half < mag.len() / 2 {
        half += 1;
        acc += mag.get(centre + half).copied().unwrap_or(0.0);
        acc += mag.get(centre.saturating_sub(half)).copied().unwrap_or(0.0);
    }
    2.0 * half as f64 * df
}

fn mean_power(samples: &[C64]) -> f64 {
    samples.iter().map(|s| s.re * s.re).sum::<f64>() / samples.len() as f64
}

/// Bessel function of the first kind, by its power series.
fn bessel_j(n: i32, x: f64) -> f64 {
    let mut sum = 0.0;
    for k in 0..40 {
        let mut term = (-1.0_f64).powi(k as i32) / (factorial(k) * factorial(k + n as usize));
        term *= (x / 2.0).powi(2 * k as i32 + n);
        sum += term;
    }
    sum
}

fn factorial(n: usize) -> f64 {
    (1..=n).map(|v| v as f64).product::<f64>().max(1.0)
}

#[test]
fn generator_produces_correct_sample_count() {
    let generator = SignalGenerator::default();
    let block = generator.generate(
        1024,
        micro(1000.0),
        0.0,
        |tone: &Tone, _: ToneRecipe, instant: Instant| match instant {
            Instant::Carrier { carrier } => linear_amplitude(tone) * angle(carrier).cos(),
            _ => 0.0,
        },
        |a: f64, b: f64| a + b,
        |v: f64, _: usize| v,
    );
    assert_eq!(block.len(), 1024);
    // 300 MHz at 1000 MHz: three tenths of a turn per sample.
    let step = linear_amplitude(&generator.tones[0]) * (0.6 * PI).cos();
    assert!((block[1] - step).abs() < 1e-12);
}

#[test]
fn samples_are_taken_at_absolute_times() {
    // cos(2πt) at 0.5, 1.0 and 1.5 µs, not at times counted from the start of the frame.
    let mut g = make_gen(ToneModulation::Cw, 1.0, 0.0);
    g.tones[0].amplitude_dbfs = 0;
    let clock =
        SampleClock { start_time_us: 500_000, sample_rate_mhz: micro(2.0), lead: 0 };
    let voice = Voice::new(g.tones[0], 3);
    let block = g.generate_at_time(
        3,
        &clock,
        0.0,
        |_: &Tone, recipe: ToneRecipe, instant: Instant| voice.voltage(recipe, instant),
        |a: f64, b: f64| a + b,
        |v: f64, _: usize| v,
    );
    for (v, expected) in block.iter().zip([-1.0, 1.0, -1.0]) {
        assert!((v - expected).abs() < 1e-12, "{block:?}");
    }
}

#[test]
fn every_waveform_is_real_and_carries_power() {
    for modulation in ToneModulation::all_variants() {
        let label = modulation.label();
        // Long enough, and starting early enough, to catch a pulse from the pulsed modes.
        let s = generate(&make_gen(modulation, 3000.0, 100.0), N_LONG);
        let imag: f64 = s.iter().map(|v| v.im.abs()).sum();
        assert!(imag < 1e-12, "{label} produced imaginary voltage: {imag}");
        assert!(mean_power(&s) > 1e-6, "{label} produced no power");
    }
}

#[test]
fn every_waveform_joins_across_frames() {
    // The generator's contract: a frame starting at t is the same samples a longer run
    // through t would have produced.
    let n = 512;
    for modulation in ToneModulation::all_variants() {
        let label = modulation.label();
        // The noise-like channel is redrawn per frame by design, so exclude that case.
        let g = make_gen(modulation, 3000.0, 0.0);
        let continuous = generate(&g, 2 * n);
        let second = generate_at(&g, n, n);
        let worst = second
            .iter()
            .zip(continuous[n..].iter())
            .map(|(a, b)| (a.re - b.re).abs())
            .fold(0.0f64, f64::max);
        assert!(worst < 1e-9, "{label} jumped by {worst} at the frame boundary");
    }
}

#[test]
fn amplitude_is_the_peak_of_the_waveform() {
    for modulation in [
        ToneModulation::Cw,
        ToneModulation::Square,
        ToneModulation::Sawtooth,
        ToneModulation::Triangle,
    ] {
        let label = modulation.label();
        let s = generate(&make_gen(modulation, 100.0, 0.0), N);
        let peak = s.iter().map(|v| v.re.abs()).fold(0.0f64, f64::max);
        assert!((peak - 1.0).abs() < 0.02, "{label} peaked at {peak}, expected full scale");
    }
}

#[test]
fn cw_is_a_single_line_at_the_right_level() {
    for dbfs in [0.0, -6.0, -40.0] {
        let mut g = make_gen(ToneModulation::Cw, 3000.0, 0.0);
        g.tones[0].amplitude_dbfs = micro(dbfs);
        let s = generate(&g, N);
        assert!(
            (probe_db(&s, 3000.0) - dbfs).abs() < 0.01,
            "{dbfs} dBFS carrier measured {}",
            probe_db(&s, 3000.0)
        );
        let mag = spectrum(&s);
        let total: f64 = mag.iter().sum();
        let bin = (3000.0 / (FS / N as f64)).round() as usize;
        let in_line: f64 = mag[bin - 3..=bin + 3].iter().sum();
        assert!(in_line > 0.999 * total, "line holds {} of the power", in_line / total);
    }
}

#[test]
fn phase_control_turns_a_cosine_into_a_sine() {
    let mut g = make_gen(ToneModulation::Cw, 3000.0, 0.0);
    g.tones[0].phase_deg = micro(-90.0);
    let s = generate(&g, N);
    // A -90 degree cosine starts at zero and rises.
    assert!(s[0].re.abs() < 1e-9, "starts at {}", s[0].re);
    assert!(s[1].re > 0.0);
    // The level is unchanged.
    assert!(probe_db(&s, 3000.0).abs() < 0.01);
}

#[test]
fn square_wave_has_the_right_harmonics_and_no_aliases() {
    let f0 = 100.0;
    let s = generate(&make_gen(ToneModulation::Square, f0, 0.0), N);
    let fundamental = probe(&s, f0);

    // Odd harmonics fall as 1/n; even ones are absent.
    for n in [3.0, 5.0, 7.0, 9.0, 11.0] {
        let ratio = probe(&s, n * f0) / fundamental;
        assert!((ratio - 1.0 / n).abs() < 0.02, "harmonic {n}: ratio {ratio}");
    }
    for n in [2.0, 4.0, 6.0] {
        assert!(probe(&s, n * f0) / fundamental < 1e-6, "even harmonic {n} should be absent");
    }

    // Nothing above the harmonic ceiling, and in particular nothing folded back down.
    let top = top_harmonic_mhz(&ToneModulation::Square, micro(f0), micro(FS)) as f64 / 1e6;
    assert!(top <= FS / 2.0, "top harmonic {top} is above Nyquist");
    let mag = spectrum(&s);
    let df = FS / N as f64;
    let above: f64 = mag
        .iter()
        .enumerate()
        .filter(|(i, _)| *i as f64 * df > top + f0)
        .map(|(_, m)| *m)
        .sum();
    let total: f64 = mag.iter().sum();
    assert!(above / total < 1e-9, "energy above the band limit: {}", above / total);
}

#[test]
fn sawtooth_and_triangle_follow_their_series() {
    let f0 = 100.0;
    let saw = generate(&make_gen(ToneModulation::Sawtooth, f0, 0.0), N);
    let fund = probe(&saw, f0);
    for n in [2.0, 3.0, 4.0, 5.0] {
        let ratio = probe(&saw, n * f0) / fund;
        assert!((ratio - 1.0 / n).abs() < 0.02, "sawtooth harmonic {n}: {ratio}");
    }
    let tri = generate(&make_gen(ToneModulation::Triangle, f0, 0.0), N);
    let fund = probe(&tri, f0);
    for n in [3.0, 5.0, 7.0] {
        let ratio = probe(&tri, n * f0) / fund;
        assert!((ratio - 1.0 / (n * n)).abs() < 0.02, "triangle harmonic {n}: {ratio}");
    }
    assert!(probe(&tri, 2.0 * f0) / fund < 1e-6);
}

#[test]
fn am_sidebands_sit_at_half_the_depth() {
    let f_c = 3000.0;
    let f_m_khz = 10_000.0;
    for depth in [25.0, 50.0, 100.0] {
        let am = ToneModulation::AmModulated {
            depth_percent: micro(depth),
            mod_freq_khz: micro(f_m_khz),
        };
        let s = generate(&make_gen(am, f_c, 0.0), N);
        let carrier = probe(&s, f_c);
        let upper = probe(&s, f_c + f_m_khz / 1000.0);
        let lower = probe(&s, f_c - f_m_khz / 1000.0);
        let m = depth / 100.0;
        assert!(
            (upper / carrier - m / 2.0).abs() < 0.01,
            "depth {depth}%: upper sideband ratio {}",
            upper / carrier
        );
        assert!((lower - upper).abs() < 1e-6, "sidebands should be symmetric");
    }
}

#[test]
fn am_envelope_peaks_above_the_carrier() {
    let am = ToneModulation::AmModulated {
        depth_percent: micro(100.0),
        mod_freq_khz: micro(10_000.0),
    };
    let mut g = make_gen(am, 3000.0, 0.0);
    g.tones[0].amplitude_dbfs = micro(-6.0);
    let s = generate(&g, N);
    let peak = s.iter().map(|v| v.re.abs()).fold(0.0f64, f64::max);
    let carrier_amp = 10.0_f64.powf(-6.0 / 20.0);
    assert!((peak - 2.0 * carrier_amp).abs() < 0.02, "peak {peak}");
}

#[test]
fn fm_sidebands_follow_the_bessel_functions() {
    let f_c = 3000.0;
    let f_m = 20.0;
    let beta = 2.0;
    let fm = ToneModulation::FmModulated {
        dev_mhz: micro(beta * f_m),
        mod_freq_khz: micro(f_m * 1000.0),
    };
    let s = generate(&make_gen(fm, f_c, 0.0), N);
    for n in 0..=4 {
        let expected = bessel_j(n, beta).abs();
        let measured = probe(&s, f_c + n as f64 * f_m);
        assert!(
            (measured - expected).abs() < 0.02,
            "sideband {n}: measured {measured}, J_{n}({beta}) = {expected}"
        );
    }
}

#[test]
fn fm_carrier_nulls_at_the_first_bessel_zero() {
    let f_c = 3000.0;
    let f_m = 20.0;
    let fm = ToneModulation::FmModulated {
        dev_mhz: micro(2.404_825_557_695_773 * f_m),
        mod_freq_khz: micro(f_m * 1000.0),
    };
    let s = generate(&make_gen(fm, f_c, 0.0), N);
    let carrier = probe_db(&s, f_c);
    let sideband = probe_db(&s, f_c + f_m);
    assert!(
        carrier < sideband - 40.0,
        "carrier {carrier} dB should have nulled well below the sideband {sideband} dB"
    );
}

#[test]
fn chirp_sweeps_the_requested_band() {
    let f_c = 3000.0;
    for bw in [50.0, 200.0, 800.0] {
        let chirp =
            ToneModulation::SweptChirp { sweep_period_us: micro(1.0), triangular: false };
        let s = generate(&make_gen(chirp, f_c, bw), N_LONG);
        let occupied = occupied_bw(&s, f_c, 0.99);
        assert!(
            (occupied - bw).abs() < 0.25 * bw,
            "asked for {bw} MHz, occupied {occupied:.1} MHz"
        );
    }
}

#[test]
fn triangular_chirp_is_continuous_through_the_turn() {
    let period = 1.0;
    let bw = 200.0;
    let chirp = ToneModulation::SweptChirp { sweep_period_us: micro(period), triangular: true };
    let s = generate(&make_gen(chirp, 3000.0, bw), N_LONG);
    // Sample either side of the turning point and check the waveform has no step in it.
    let turn = (period / 2.0 * FS) as usize;
    let step = |i: usize| (s[i + 1].re - s[i].re).abs();
    let typical: f64 = (100..200).map(step).sum::<f64>() / 100.0;
    assert!(
        step(turn) < 5.0 * typical.max(1e-6),
        "step of {} at the turn against a typical {typical}",
        step(turn)
    );
    // And it still covers the band.
    assert!((occupied_bw(&s, 3000.0, 0.99) - bw).abs() < 0.3 * bw);
}

fn pulsed(width_us: f64, pri_us: f64, rise_ns: f64, chirp_mhz: f64) -> SignalGenerator {
    let pulse = ToneModulation::PulsedRadar {
        pulse_width_us: micro(width_us),
        pri_us: micro(pri_us),
        rise_ns: micro(rise_ns),
        chirp_mhz: micro(chirp_mhz),
    };
    make_gen(pulse, 3000.0, 0.0)
}

#[test]
fn pulse_duty_cycle_sets_the_average_power() {
    let pw = 0.1;
    let pri = 1.0;
    let s = generate(&pulsed(pw, pri, 0.0, 0.0), N);
    // A full-scale sine at 10% duty averages 0.5 x 0.1.
    let expected = 0.5 * pw / pri;
    let measured = mean_power(&s);
    assert!((measured / expected - 1.0).abs() < 0.05, "measured {measured}");
}

#[test]
fn pulse_spectrum_has_lines_at_the_prf() {
    let pri = 1.0;
    let s = generate(&pulsed(0.1, pri, 0.0, 0.0), N_LONG);
    let prf = 1.0 / pri;
    // Lines at the carrier and at multiples of the PRF; nothing halfway between.
    let on_line = probe(&s, 3000.0 + prf);
    let off_line = probe(&s, 3000.0 + prf / 2.0);
    assert!(on_line > 100.0 * off_line, "line {on_line} against the gap {off_line}");
}

#[test]
fn pulse_rise_time_softens_the_skirts() {
    let sharp = generate(&pulsed(0.2, 1.0, 0.0, 0.0), N_LONG);
    let soft = generate(&pulsed(0.2, 1.0, 50.0, 0.0), N_LONG);
    // Far out in the skirts, a finite edge is worth a lot of suppression.
    let far = 3000.0 + 60.0;
    assert!(
        probe_db(&soft, far) < probe_db(&sharp, far) - 15.0,
        "soft {} vs sharp {} dB at {far} MHz",
        probe_db(&soft, far),
        probe_db(&sharp, far)
    );
    // The mean square of a raised-cosine ramp is 3/8, so a pulse of width w with ramps of r
    // carries w - 1.25r.
    let pw = 0.2;
    let rise = 0.05;
    let expected = (pw - 1.25 * rise) / pw;
    let ratio = mean_power(&soft) / mean_power(&sharp);
    assert!((ratio - expected).abs() < 0.03, "edge energy ratio {ratio}, expected {expected}");
}

#[test]
fn intra_pulse_chirp_widens_the_pulse_spectrum() {
    let plain = generate(&pulsed(0.5, 2.0, 10.0, 0.0), N_LONG);
    let chirped = generate(&pulsed(0.5, 2.0, 10.0, 100.0), N_LONG);
    let plain_bw = occupied_bw(&plain, 3000.0, 0.9);
    let chirped_bw = occupied_bw(&chirped, 3000.0, 0.9);
    assert!(plain_bw < 20.0, "plain pulse occupied {plain_bw} MHz");
    assert!(
        (chirped_bw - 100.0).abs() < 30.0,
        "chirped pulse occupied {chirped_bw} MHz, expected about 100"
    );
}

#[test]
fn hopping_lands_on_the_channel_grid() {
    let step = 20.0;
    let n_chan = 8usize;
    let f_c = 3000.0;
    let hop_rate = 1e6; // 1 µs dwell
    let hopping = ToneModulation::FreqHopping {
        hop_step_mhz: micro(step),
        num_channels: n_chan,
        hop_rate_hz: micro(hop_rate),
    };
    let g = make_gen(hopping, f_c, 0.0);

    // Look at one dwell at a time and confirm the tone is on a grid point.
    let dwell_samples = (1e6 / hop_rate * FS) as usize;
    for hop in 0..8i64 {
        let s = generate_at(&g, dwell_samples, hop as usize * dwell_samples);
        let expected_chan = hop_channel(hop, n_chan);
        let expected_f = f_c + (expected_chan as f64 - (n_chan as f64 - 1.0) / 2.0) * step;
        let mut best = (0.0, 0.0);
        for c in 0..n_chan {
            let f = f_c + (c as f64 - (n_chan as f64 - 1.0) / 2.0) * step;
            let p = probe(&s, f);
            if p > best.0 {
                best = (p, f);
            }
        }
        assert!(
            (best.1 - expected_f).abs() < 1e-6,
            "hop {hop}: strongest at {} MHz, expected {expected_f}",
            best.1
        );
    }
}

#[test]
fn qpsk_occupies_one_plus_alpha_symbol_rates() {
    let f_c = 3000.0;
    for (rs, alpha) in [(20.0, 0.35), (50.0, 0.2), (100.0, 0.5)] {
        let qpsk = ToneModulation::DigitalQpsk {
            symbol_rate_msps: micro(rs),
            rrc_alpha: micro(alpha),
        };
        let s = generate(&make_gen(qpsk, f_c, 0.0), N);
        let occupied = occupied_bw(&s, f_c, 0.99);
        let expected = (1.0 + alpha) * rs;
        assert!(
            (occupied - expected).abs() < 0.3 * expected,
            "Rs {rs} alpha {alpha}: occupied {occupied:.1} MHz, expected about {expected:.1}"
        );
    }
}

#[test]
fn channel_bandwidth_actually_occupies_the_band() {
    for bw in [20.0, 100.0, 500.0] {
        let s = generate(&make_gen(ToneModulation::Cw, 3000.0, bw), N);
        let occupied = occupied_bw(&s, 3000.0, 0.99);
        assert!(
            occupied > 0.5 * bw && occupied < 2.0 * bw,
            "asked for {bw} MHz, occupied {occupied:.1} MHz"
        );
    }
}

#[test]
fn channel_carries_the_same_power_as_the_carrier() {
    // Switching the bandwidth on should not move the level.
    let line = generate(&make_gen(ToneModulation::Cw, 3000.0, 0.0), N);
    let channel = generate(&make_gen(ToneModulation::Cw, 3000.0, 200.0), N);
    let db = 10.0 * (mean_power(&channel) / mean_power(&line)).log10();
    assert!(db.abs() < 0.1, "channel is {db} dB off the carrier it replaced");
}

#[test]
fn noise_floor_lands_on_its_setting() {
    for floor in [-40.0, -80.0, -120.0] {
        let g = SignalGenerator {
            tones: vec![],
            noise_floor_dbfs: micro(floor),
            noise_enabled: true,
        };
        let s = generate_at(&g, 1 << 15, 112_500);
        let db = 10.0 * mean_power(&s).log10();
        assert!((db - floor).abs() < 0.5, "asked for {floor} dBFS, measured {db}");
        let q: f64 = s.iter().map(|v| v.im.abs()).sum();
        assert!(q < 1e-12, "the analog domain is real, but Q carried {q}");
    }
}

#[test]
fn tones_add_independently() {
    // Two tones at the same level should each read at that level, and together carry 3 dB
    // more power than one.
    let tone = |mhz: f64| Tone {
        frequency_mhz: micro(mhz),
        amplitude_dbfs: micro(-6.0),
        phase_deg: 0,
        bandwidth_mhz: 0,
        modulation: ToneModulation::Cw,
    };
    let of = |tones: Vec<Tone>| SignalGenerator {
        tones,
        noise_floor_dbfs: micro(-300.0),
        noise_enabled: false,
    };
    let s = generate(&of(vec![tone(2000.0), tone(2020.0)]), N);
    assert!((probe_db(&s, 2000.0) + 6.0).abs() < 0.01);
    assert!((probe_db(&s, 2020.0) + 6.0).abs() < 0.01);
    let single = 0.5 * 10.0_f64.powf(-6.0 / 10.0);
    assert!((10.0 * (mean_power(&s) / single).log10() - 3.01).abs() < 0.05);
    // Sample by sample, the two together are the sum of each alone.
    let a = generate(&of(vec![tone(2000.0)]), N);
    let b = generate(&of(vec![tone(2020.0)]), N);
    assert!((0..N).all(|i| (s[i] - a[i] - b[i]).norm() < 1e-12));
}
