//! Signal sources: tones and their modulation, band-limited harmonic series, and the sampling
//! clock.

use vstd::arithmetic::div_mod::*;
use vstd::prelude::*;
use crate::clock::{times_by, turn_at, SampleClock, Turn, BLOCK_LIMIT, RATE_LIMIT};
use crate::noise::{hop_channel, hop_hash};
use crate::units::{div_floor, within_limit, Micro};

verus! {

// ---------------------------------------------------------------------------
// Tones
// ---------------------------------------------------------------------------

/// Modulation applied to a tone. Every variant is a real waveform.
#[derive(Clone, Copy, Debug, PartialEq, Eq, Structural)]
pub enum ToneModulation {
    /// Unmodulated carrier; with a bandwidth, a modulated channel of that width.
    Cw,
    /// Square wave, band-limited to a finite number of harmonics.
    Square,
    /// Sawtooth ramp, band-limited.
    Sawtooth,
    /// Triangle wave, band-limited.
    Triangle,
    /// Amplitude modulation at a given depth.
    AmModulated { depth_percent: Micro, mod_freq_khz: Micro },
    /// Frequency modulation, `dev_mhz` peak deviation.
    FmModulated { dev_mhz: Micro, mod_freq_khz: Micro },
    /// Linear FM chirp across the tone's bandwidth, sawtooth or triangular retrace.
    SweptChirp { sweep_period_us: Micro, triangular: bool },
    /// Pulsed radar, optionally with a chirp inside each pulse for pulse compression.
    PulsedRadar {
        pulse_width_us: Micro,
        pri_us: Micro,
        /// Edge transition time in ns. Zero gives an ideal rectangle.
        rise_ns: Micro,
        /// Intra-pulse LFM sweep width in MHz. Zero gives an unmodulated pulse.
        chirp_mhz: Micro,
    },
    /// Frequency-hopping spread spectrum over a channel grid.
    FreqHopping { hop_step_mhz: Micro, num_channels: usize, hop_rate_hz: Micro },
    /// QPSK with pseudo-random data and root-raised-cosine pulse shaping.
    DigitalQpsk { symbol_rate_msps: Micro, rrc_alpha: Micro },
}

impl Default for ToneModulation {
    fn default() -> (modulation: Self)
        ensures
            modulation == ToneModulation::Cw,
    {
        ToneModulation::Cw
    }
}

/// Every modulation with its starting parameters, in the order a selector lists them.
pub open spec fn modulation_catalogue() -> Seq<ToneModulation> {
    seq![
        ToneModulation::Cw,
        ToneModulation::Square,
        ToneModulation::Sawtooth,
        ToneModulation::Triangle,
        ToneModulation::AmModulated { depth_percent: 50_000_000, mod_freq_khz: 1_000_000_000 },
        ToneModulation::FmModulated { dev_mhz: 10_000_000, mod_freq_khz: 1_000_000_000 },
        ToneModulation::SweptChirp { sweep_period_us: 100_000_000, triangular: false },
        ToneModulation::PulsedRadar {
            pulse_width_us: 2_000_000,
            pri_us: 20_000_000,
            rise_ns: 10_000_000,
            chirp_mhz: 0,
        },
        ToneModulation::FreqHopping {
            hop_step_mhz: 20_000_000,
            num_channels: 8,
            hop_rate_hz: 500_000_000_000,
        },
        ToneModulation::DigitalQpsk { symbol_rate_msps: 20_000_000, rrc_alpha: 350_000 },
    ]
}

impl ToneModulation {
    /// Every variant, with sensible starting parameters, for building a selector.
    pub fn all_variants() -> (variants: Vec<ToneModulation>)
        ensures
            variants@ == modulation_catalogue(),
    {
        let variants: Vec<ToneModulation> = vec![
            ToneModulation::Cw,
            ToneModulation::Square,
            ToneModulation::Sawtooth,
            ToneModulation::Triangle,
            ToneModulation::AmModulated { depth_percent: 50_000_000, mod_freq_khz: 1_000_000_000 },
            ToneModulation::FmModulated { dev_mhz: 10_000_000, mod_freq_khz: 1_000_000_000 },
            ToneModulation::SweptChirp { sweep_period_us: 100_000_000, triangular: false },
            ToneModulation::PulsedRadar {
                pulse_width_us: 2_000_000,
                pri_us: 20_000_000,
                rise_ns: 10_000_000,
                chirp_mhz: 0,
            },
            ToneModulation::FreqHopping {
                hop_step_mhz: 20_000_000,
                num_channels: 8,
                hop_rate_hz: 500_000_000_000,
            },
            ToneModulation::DigitalQpsk { symbol_rate_msps: 20_000_000, rrc_alpha: 350_000 },
        ];
        assert(variants@ =~= modulation_catalogue());
        variants
    }

    pub open spec fn bandwidth_text(self) -> Option<Seq<char>> {
        match self {
            ToneModulation::Cw => Some("Channel BW"@),
            ToneModulation::SweptChirp { .. } => Some("Sweep BW"@),
            _ => None,
        }
    }

    /// Whether the bandwidth of a tone means anything for this modulation, and what to call it.
    pub fn bandwidth_label(&self) -> (label: Option<&'static str>)
        ensures
            label is Some <==> self.bandwidth_text() is Some,
            label is Some ==> label->0@ == self.bandwidth_text()->0,
    {
        match self {
            ToneModulation::Cw => Some("Channel BW"),
            ToneModulation::SweptChirp { .. } => Some("Sweep BW"),
            _ => None,
        }
    }

    pub open spec fn label_text(self) -> Seq<char> {
        match self {
            ToneModulation::Cw => "CW Carrier"@,
            ToneModulation::Square => "Square"@,
            ToneModulation::Sawtooth => "Sawtooth"@,
            ToneModulation::Triangle => "Triangle"@,
            ToneModulation::AmModulated { .. } => "AM Modulated"@,
            ToneModulation::FmModulated { .. } => "FM Modulated"@,
            ToneModulation::SweptChirp { triangular, .. } => if triangular {
                "FMCW Chirp (triangular)"@
            } else {
                "FMCW Chirp (sawtooth)"@
            },
            ToneModulation::PulsedRadar { chirp_mhz, .. } => if chirp_mhz > 0 {
                "Pulsed Radar (chirped)"@
            } else {
                "Pulsed Radar"@
            },
            ToneModulation::FreqHopping { .. } => "Frequency Hopping"@,
            ToneModulation::DigitalQpsk { .. } => "Digital QPSK"@,
        }
    }

    /// Name shown to the user.
    pub fn label(&self) -> (text: &'static str)
        ensures
            text@ == self.label_text(),
    {
        match self {
            ToneModulation::Cw => "CW Carrier",
            ToneModulation::Square => "Square",
            ToneModulation::Sawtooth => "Sawtooth",
            ToneModulation::Triangle => "Triangle",
            ToneModulation::AmModulated { .. } => "AM Modulated",
            ToneModulation::FmModulated { .. } => "FM Modulated",
            ToneModulation::SweptChirp { triangular, .. } => {
                if *triangular {
                    "FMCW Chirp (triangular)"
                } else {
                    "FMCW Chirp (sawtooth)"
                }
            },
            ToneModulation::PulsedRadar { chirp_mhz, .. } => {
                if *chirp_mhz > 0 {
                    "Pulsed Radar (chirped)"
                } else {
                    "Pulsed Radar"
                }
            },
            ToneModulation::FreqHopping { .. } => "Frequency Hopping",
            ToneModulation::DigitalQpsk { .. } => "Digital QPSK",
        }
    }
}

/// A single tone or modulated signal component in the signal generator.
#[derive(Clone, Copy, Debug, PartialEq, Eq, Structural)]
pub struct Tone {
    /// Frequency in MHz.
    pub frequency_mhz: Micro,
    /// Amplitude in dBFS (0 dBFS = full scale).
    pub amplitude_dbfs: Micro,
    /// Phase offset in degrees.
    pub phase_deg: Micro,
    /// Signal bandwidth in MHz (0 = pure tone, more = modulated channel bandwidth).
    pub bandwidth_mhz: Micro,
    /// Modulation type and its time-domain parameters.
    pub modulation: ToneModulation,
}

/// A fresh tone: an unmodulated carrier at 300 MHz, 6 dB below full scale.
pub open spec fn fresh_tone() -> Tone {
    Tone {
        frequency_mhz: 300_000_000,
        amplitude_dbfs: (-6_000_000) as Micro,
        phase_deg: 0,
        bandwidth_mhz: 0,
        modulation: ToneModulation::Cw,
    }
}

impl Default for Tone {
    fn default() -> (tone: Self)
        ensures
            tone == fresh_tone(),
    {
        Tone {
            frequency_mhz: 300_000_000,
            amplitude_dbfs: -6_000_000,
            phase_deg: 0,
            bandwidth_mhz: 0,
            modulation: ToneModulation::Cw,
        }
    }
}

/// How one tone is synthesised, with its parameters brought into their working ranges.
#[derive(Clone, Copy, Debug, PartialEq, Eq, Structural)]
pub enum ToneRecipe {
    /// Band-limited noise filling the tone's bandwidth.
    Channel,
    /// A single line.
    Carrier,
    /// Harmonics of the carrier up to `max_harmonic`.
    Harmonics { max_harmonic: u64 },
    /// Envelope of the given depth (a millionth of a percent each, 0 to 100 percent).
    Am { depth_percent: Micro, mod_freq_khz: Micro },
    /// Phase swing of `dev_mhz` over `mod_freq_khz`; none without a modulating frequency.
    Fm { dev_mhz: Micro, mod_freq_khz: Micro },
    /// Sweep `bandwidth_mhz` wide that starts at half of `twice_start_mhz`.
    Chirp { period_us: Micro, bandwidth_mhz: Micro, twice_start_mhz: Micro, triangular: bool },
    /// Pulse train; `rise_ns` is at most half the width.
    Pulse { pri_us: Micro, width_us: Micro, rise_ns: i128, chirp_mhz: Micro },
    /// Hops over a grid of at least one channel.
    Hopping { step_mhz: Micro, channels: usize, rate_hz: Micro },
    /// Shaped data symbols.
    Qpsk { symbol_rate_msps: Micro, alpha: Micro },
}

/// `x` brought into `lo..=hi`.
pub open spec fn clamped(x: int, lo: int, hi: int) -> int {
    if x < lo {
        lo
    } else if x > hi {
        hi
    } else {
        x
    }
}

fn clamp_micro(x: Micro, lo: Micro, hi: Micro) -> (y: Micro)
    requires
        lo <= hi,
    ensures
        y == clamped(x as int, lo as int, hi as int),
        lo <= y <= hi,
{
    if x < lo {
        lo
    } else if x > hi {
        hi
    } else {
        x
    }
}

fn max_micro(x: Micro, y: Micro) -> (z: Micro)
    ensures
        z == if x >= y { x } else { y },
{
    if x >= y {
        x
    } else {
        y
    }
}

/// Ceiling on how many harmonics a band-limited waveform is built from.
pub const MAX_HARMONICS: u64 = 64;

/// The highest harmonic of `freq` that a series may use at a sample rate: the last one that is
/// not above half the rate, at most [`MAX_HARMONICS`], and always at least the fundamental.
pub open spec fn harmonic_limit(freq: int, sample_rate: int) -> int {
    if freq > 0 {
        clamped(sample_rate / (2 * freq), 1, MAX_HARMONICS as int)
    } else {
        1
    }
}

/// The highest harmonic number usable for a fundamental at a sample rate.
pub fn max_harmonic(freq_mhz: Micro, sample_rate_mhz: Micro) -> (n: u64)
    ensures
        n == harmonic_limit(freq_mhz as int, sample_rate_mhz as int),
        1 <= n <= MAX_HARMONICS,
{
    if freq_mhz > 0 {
        let fit: i128 = div_floor(sample_rate_mhz as i128, 2 * freq_mhz as i128);
        if fit < 1 {
            1
        } else if fit > MAX_HARMONICS as i128 {
            MAX_HARMONICS
        } else {
            fit as u64
        }
    } else {
        1
    }
}

impl Tone {
    /// Whether this tone is a modulated channel rather than a bare carrier.
    pub open spec fn channel(&self) -> bool {
        self.bandwidth_mhz > 0 && self.modulation == ToneModulation::Cw
    }

    /// Whether this tone is a modulated channel rather than a bare carrier.
    pub fn is_channel(&self) -> (channel: bool)
        ensures
            channel == self.channel(),
    {
        self.bandwidth_mhz > 0 && matches!(self.modulation, ToneModulation::Cw)
    }

    /// The synthesis this tone calls for at a sample rate.
    pub open spec fn recipe_at(&self, sample_rate: int) -> ToneRecipe {
        if self.channel() {
            ToneRecipe::Channel
        } else {
            match self.modulation {
                ToneModulation::Cw => ToneRecipe::Carrier,
                ToneModulation::Square
                | ToneModulation::Sawtooth
                | ToneModulation::Triangle => ToneRecipe::Harmonics {
                    max_harmonic: harmonic_limit(self.frequency_mhz as int, sample_rate) as u64,
                },
                ToneModulation::AmModulated { depth_percent, mod_freq_khz } => ToneRecipe::Am {
                    depth_percent: clamped(depth_percent as int, 0, 100_000_000) as Micro,
                    mod_freq_khz,
                },
                ToneModulation::FmModulated { dev_mhz, mod_freq_khz } => ToneRecipe::Fm {
                    dev_mhz: if mod_freq_khz > 0 {
                        dev_mhz
                    } else {
                        0
                    },
                    mod_freq_khz,
                },
                ToneModulation::SweptChirp { sweep_period_us, triangular } => {
                    let bandwidth = if self.bandwidth_mhz > 0 {
                        self.bandwidth_mhz
                    } else {
                        100_000_000
                    };
                    ToneRecipe::Chirp {
                        period_us: if sweep_period_us >= 1_000 {
                            sweep_period_us
                        } else {
                            1_000
                        },
                        bandwidth_mhz: bandwidth,
                        twice_start_mhz: (2 * self.frequency_mhz - bandwidth) as Micro,
                        triangular,
                    }
                },
                ToneModulation::PulsedRadar { pulse_width_us, pri_us, rise_ns, chirp_mhz } => {
                    let pri = if pri_us >= 1_000 {
                        pri_us
                    } else {
                        1_000
                    };
                    let width = clamped(pulse_width_us as int, 100, pri as int);
                    ToneRecipe::Pulse {
                        pri_us: pri,
                        width_us: width as Micro,
                        rise_ns: clamped(rise_ns as int, 0, 500 * width) as i128,
                        chirp_mhz,
                    }
                },
                ToneModulation::FreqHopping { hop_step_mhz, num_channels, hop_rate_hz } => ToneRecipe::Hopping {
                    step_mhz: hop_step_mhz,
                    channels: if num_channels >= 1 {
                        num_channels
                    } else {
                        1
                    },
                    rate_hz: if hop_rate_hz >= 1_000 {
                        hop_rate_hz
                    } else {
                        1_000
                    },
                },
                ToneModulation::DigitalQpsk { symbol_rate_msps, rrc_alpha } => ToneRecipe::Qpsk {
                    symbol_rate_msps: if symbol_rate_msps >= 1_000 {
                        symbol_rate_msps
                    } else {
                        1_000
                    },
                    alpha: clamped(rrc_alpha as int, 10_000, 1_000_000) as Micro,
                },
            }
        }
    }

    /// Decides how the tone is synthesised at a sample rate.
    pub fn recipe(&self, sample_rate_mhz: Micro) -> (recipe: ToneRecipe)
        requires
            within_limit(self.frequency_mhz),
            within_limit(self.bandwidth_mhz),
        ensures
            recipe == self.recipe_at(sample_rate_mhz as int),
    {
        if self.is_channel() {
            return ToneRecipe::Channel;
        }
        match self.modulation {
            ToneModulation::Cw => ToneRecipe::Carrier,
            ToneModulation::Square | ToneModulation::Sawtooth | ToneModulation::Triangle => {
                ToneRecipe::Harmonics {
                    max_harmonic: max_harmonic(self.frequency_mhz, sample_rate_mhz),
                }
            },
            ToneModulation::AmModulated { depth_percent, mod_freq_khz } => ToneRecipe::Am {
                depth_percent: clamp_micro(depth_percent, 0, 100_000_000),
                mod_freq_khz,
            },
            ToneModulation::FmModulated { dev_mhz, mod_freq_khz } => ToneRecipe::Fm {
                dev_mhz: if mod_freq_khz > 0 {
                    dev_mhz
                } else {
                    0
                },
                mod_freq_khz,
            },
            ToneModulation::SweptChirp { sweep_period_us, triangular } => {
                let bandwidth: Micro = if self.bandwidth_mhz > 0 {
                    self.bandwidth_mhz
                } else {
                    100_000_000
                };
                ToneRecipe::Chirp {
                    period_us: max_micro(sweep_period_us, 1_000),
                    bandwidth_mhz: bandwidth,
                    twice_start_mhz: 2 * self.frequency_mhz - bandwidth,
                    triangular,
                }
            },
            ToneModulation::PulsedRadar { pulse_width_us, pri_us, rise_ns, chirp_mhz } => {
                let pri: Micro = max_micro(pri_us, 1_000);
                let width: Micro = clamp_micro(pulse_width_us, 100, pri);
                let longest: i128 = 500 * width as i128;
                ToneRecipe::Pulse {
                    pri_us: pri,
                    width_us: width,
                    rise_ns: if rise_ns < 0 {
                        0
                    } else if rise_ns as i128 > longest {
                        longest
                    } else {
                        rise_ns as i128
                    },
                    chirp_mhz,
                }
            },
            ToneModulation::FreqHopping { hop_step_mhz, num_channels, hop_rate_hz } => ToneRecipe::Hopping {
                step_mhz: hop_step_mhz,
                channels: if num_channels >= 1 {
                    num_channels
                } else {
                    1
                },
                rate_hz: max_micro(hop_rate_hz, 1_000),
            },
            ToneModulation::DigitalQpsk { symbol_rate_msps, rrc_alpha } => ToneRecipe::Qpsk {
                symbol_rate_msps: max_micro(symbol_rate_msps, 1_000),
                alpha: clamp_micro(rrc_alpha, 10_000, 1_000_000),
            },
        }
    }
}

/// Bin `k` of a transform of `n` points lies within half the bandwidth of the centre.
pub open spec fn in_channel(tone: Tone, k: int, n: int, sample_rate: int) -> bool {
    let twice_off = 2 * (k * sample_rate) - 2 * (tone.frequency_mhz * n);
    -(tone.bandwidth_mhz * n) <= twice_off <= tone.bandwidth_mhz * n
}

/// Some bin above zero and below half the sample rate is in the channel.
pub open spec fn channel_has_bins(tone: Tone, n: int, sample_rate: int) -> bool {
    exists|k: int| 1 <= k < n / 2 && #[trigger] in_channel(tone, k, n, sample_rate)
}

impl Tone {
    /// The spectrum of a modulated channel, if a transform of `n` points has a bin for it: `draw`
    /// fills the bins in the channel and `conjugate` their mirror images, so that the waveform is
    /// real; everything else is `zero`.
    pub fn synthesise_channel<B: Copy, D: Fn(usize) -> B, C: Fn(B) -> B>(
        &self,
        n: usize,
        sample_rate_mhz: Micro,
        zero: B,
        draw: D,
        conjugate: C,
    ) -> (spectrum: Option<Vec<B>>)
        requires
            n <= BLOCK_LIMIT,
            forall|k: usize| #[trigger] call_requires(draw, (k,)),
            forall|b: B| #[trigger] call_requires(conjugate, (b,)),
        ensures
            spectrum is Some <==> n >= 4 && sample_rate_mhz > 0 && channel_has_bins(
                *self,
                n as int,
                sample_rate_mhz as int,
            ),
            spectrum is Some ==> spectrum->0.len() == n,
            spectrum is Some ==> forall|k: int|
                1 <= k < n / 2 ==> if #[trigger] in_channel(
                    *self,
                    k,
                    n as int,
                    sample_rate_mhz as int,
                ) {
                    &&& call_ensures(draw, (k as usize,), spectrum->0[k])
                    &&& call_ensures(conjugate, (spectrum->0[k],), spectrum->0[n - k])
                } else {
                    spectrum->0[k] == zero && spectrum->0[n - k] == zero
                },
            spectrum is Some ==> spectrum->0[0] == zero && forall|k: int|
                n / 2 <= k <= n - n / 2 ==> #[trigger] spectrum->0[k] == zero,
    {
        if n < 4 || sample_rate_mhz <= 0 {
            return None;
        }
        let mut spectrum: Vec<B> = Vec::new();
        while spectrum.len() < n
            invariant
                spectrum.len() <= n,
                forall|j: int| 0 <= j < spectrum.len() ==> #[trigger] spectrum[j] == zero,
            decreases n - spectrum.len(),
        {
            spectrum.push(zero);
        }
        let ghost rate = sample_rate_mhz as int;
        let ghost bandwidth = self.bandwidth_mhz as int;
        let ghost freq = self.frequency_mhz as int;
        assert(-0x8000_0000_0000_0000 * 1_000_000_000 <= bandwidth * n <= 0x8000_0000_0000_0000
            * 1_000_000_000) by (nonlinear_arith)
            requires
                -0x8000_0000_0000_0000 <= bandwidth <= 0x8000_0000_0000_0000,
                0 <= n <= 1_000_000_000,
        ;
        assert(-0x8000_0000_0000_0000 * 1_000_000_000 <= freq * n <= 0x8000_0000_0000_0000
            * 1_000_000_000) by (nonlinear_arith)
            requires
                -0x8000_0000_0000_0000 <= freq <= 0x8000_0000_0000_0000,
                0 <= n <= 1_000_000_000,
        ;
        let width: i128 = self.bandwidth_mhz as i128 * n as i128;
        let centre: i128 = self.frequency_mhz as i128 * n as i128;
        let mut filled: bool = false;
        let mut k: usize = 1;
        while k < n / 2
            invariant
                4 <= n <= BLOCK_LIMIT,
                sample_rate_mhz == rate,
                sample_rate_mhz > 0,
                forall|k: usize| #[trigger] call_requires(draw, (k,)),
                forall|b: B| #[trigger] call_requires(conjugate, (b,)),
                width == self.bandwidth_mhz * n,
                centre == self.frequency_mhz * n,
                -0x8000_0000_0000_0000 * 1_000_000_000 <= width <= 0x8000_0000_0000_0000
                    * 1_000_000_000,
                -0x8000_0000_0000_0000 * 1_000_000_000 <= centre <= 0x8000_0000_0000_0000
                    * 1_000_000_000,
                1 <= k <= n / 2,
                spectrum.len() == n,
                filled <==> exists|j: int| 1 <= j < k && #[trigger] in_channel(*self, j, n as int, rate),
                forall|j: int|
                    1 <= j < k ==> if #[trigger] in_channel(*self, j, n as int, rate) {
                        &&& call_ensures(draw, (j as usize,), spectrum[j])
                        &&& call_ensures(conjugate, (spectrum[j],), spectrum[n - j])
                    } else {
                        spectrum[j] == zero && spectrum[n - j] == zero
                    },
                spectrum[0] == zero,
                forall|j: int| k <= j <= n - k ==> #[trigger] spectrum[j] == zero,
            decreases n / 2 - k,
        {
            assert(0 <= k * rate <= 1_000_000_000 * 0x8000_0000_0000_0000) by (nonlinear_arith)
                requires
                    0 <= k <= 1_000_000_000,
                    0 < rate <= 0x8000_0000_0000_0000,
            ;
            let twice_off: i128 = 2 * (k as i128 * sample_rate_mhz as i128) - 2 * centre;
            if -width <= twice_off && twice_off <= width {
                assert(in_channel(*self, k as int, n as int, rate));
                let bin: B = draw(k);
                let mirror: B = conjugate(bin);
                spectrum.set(k, bin);
                spectrum.set(n - k, mirror);
                filled = true;
            }
            k += 1;
        }
        if filled {
            Some(spectrum)
        } else {
            None
        }
    }
}

/// Whatever the settings, a pulse fits into its repetition interval and its two edges fit into
/// the pulse.
pub proof fn pulse_recipe_is_consistent(tone: Tone, sample_rate: int)
    requires
        tone.modulation is PulsedRadar,
    ensures
        tone.recipe_at(sample_rate) matches ToneRecipe::Pulse { pri_us, width_us, rise_ns, .. }
            && 0 < width_us <= pri_us && 0 <= rise_ns && 2 * rise_ns <= 1_000 * width_us,
{
}

// ---------------------------------------------------------------------------
// Harmonic series
// ---------------------------------------------------------------------------

/// One sine term of a series: harmonic `number`, amplitude `1 / divisor` with the given sign.
#[derive(Clone, Copy, Debug, PartialEq, Eq, Structural)]
pub struct HarmonicTerm {
    pub number: u64,
    pub negative: bool,
    pub divisor: u64,
}

/// A band-limited harmonic series for the non-sinusoidal waveforms.
pub struct HarmonicSeries {
    pub terms: Vec<HarmonicTerm>,
}

/// The terms of a waveform whose harmonics stop at `max_n`.
///
/// A square holds the odd harmonics at `1/n`; a sawtooth every harmonic at `1/n` with
/// alternating sign; a triangle the odd harmonics at `1/n^2` with the sign alternating from one
/// to the next. Anything else is its fundamental.
pub open spec fn series_terms(kind: ToneModulation, max_n: nat) -> Seq<HarmonicTerm> {
    match kind {
        ToneModulation::Square => Seq::new(
            (max_n + 1) / 2,
            |k: int| HarmonicTerm {
                number: (2 * k + 1) as u64,
                negative: false,
                divisor: (2 * k + 1) as u64,
            },
        ),
        ToneModulation::Sawtooth => Seq::new(
            max_n,
            |k: int| HarmonicTerm {
                number: (k + 1) as u64,
                negative: k % 2 == 1,
                divisor: (k + 1) as u64,
            },
        ),
        ToneModulation::Triangle => Seq::new(
            (max_n + 1) / 2,
            |k: int| HarmonicTerm {
                number: (2 * k + 1) as u64,
                negative: k % 2 == 1,
                divisor: ((2 * k + 1) * (2 * k + 1)) as u64,
            },
        ),
        _ => seq![HarmonicTerm { number: 1, negative: false, divisor: 1 }],
    }
}

impl HarmonicSeries {
    /// The terms that fit below half the sample rate.
    pub fn new(kind: &ToneModulation, freq_mhz: Micro, sample_rate_mhz: Micro) -> (series: Self)
        ensures
            series.terms@ == series_terms(
                *kind,
                harmonic_limit(freq_mhz as int, sample_rate_mhz as int) as nat,
            ),
            series.terms.len() > 0,
    {
        let max_n: u64 = max_harmonic(freq_mhz, sample_rate_mhz);
        let ghost want = series_terms(*kind, max_n as nat);
        let mut terms: Vec<HarmonicTerm> = Vec::new();
        match kind {
            ToneModulation::Square | ToneModulation::Triangle => {
                let triangle: bool = matches!(kind, ToneModulation::Triangle);
                let mut k: u64 = 0;
                while 2 * k + 1 <= max_n
                    invariant
                        1 <= max_n <= MAX_HARMONICS,
                        k <= 64,
                        2 * k <= max_n + 1,
                        want == series_terms(*kind, max_n as nat),
                        kind is Square || kind is Triangle,
                        triangle == (kind is Triangle),
                        terms@ == want.take(k as int),
                    decreases max_n + 1 - k,
                {
                    let n: u64 = 2 * k + 1;
                    assert(n * n <= 65 * 65) by (nonlinear_arith)
                        requires
                            0 <= n <= 65,
                    ;
                    terms.push(
                        HarmonicTerm {
                            number: n,
                            negative: triangle && k % 2 == 1,
                            divisor: if triangle {
                                n * n
                            } else {
                                n
                            },
                        },
                    );
                    assert(terms@ =~= want.take(k + 1));
                    k += 1;
                }
                assert(want.take(k as int) =~= want);
            },
            ToneModulation::Sawtooth => {
                let mut k: u64 = 0;
                while k < max_n
                    invariant
                        max_n <= MAX_HARMONICS,
                        k <= max_n,
                        want == series_terms(ToneModulation::Sawtooth, max_n as nat),
                        terms@ == want.take(k as int),
                    decreases max_n - k,
                {
                    terms.push(
                        HarmonicTerm { number: k + 1, negative: k % 2 == 1, divisor: k + 1 },
                    );
                    assert(terms@ =~= want.take(k + 1));
                    k += 1;
                }
                assert(want.take(k as int) =~= want);
            },
            _ => {
                terms.push(HarmonicTerm { number: 1, negative: false, divisor: 1 });
                assert(terms@ =~= want);
            },
        }
        HarmonicSeries { terms }
    }

    /// Highest harmonic present.
    pub fn top_harmonic(&self) -> (number: u64)
        ensures
            number == if self.terms.len() > 0 {
                self.terms@.last().number
            } else {
                1
            },
    {
        if self.terms.len() > 0 {
            self.terms[self.terms.len() - 1].number
        } else {
            1
        }
    }
}

/// The highest frequency a waveform contains.
pub open spec fn top_frequency(modulation: ToneModulation, freq: int, sample_rate: int) -> int {
    match modulation {
        ToneModulation::Square
        | ToneModulation::Sawtooth
        | ToneModulation::Triangle => series_terms(
            modulation,
            harmonic_limit(freq, sample_rate) as nat,
        ).last().number * freq,
        _ => freq,
    }
}

/// Highest harmonic a band-limited waveform will contain at this frequency and sample rate.
pub fn top_harmonic_mhz(
    modulation: &ToneModulation,
    freq_mhz: Micro,
    sample_rate_mhz: Micro,
) -> (top: i128)
    ensures
        top == top_frequency(*modulation, freq_mhz as int, sample_rate_mhz as int),
{
    match modulation {
        ToneModulation::Square | ToneModulation::Sawtooth | ToneModulation::Triangle => {
            let series = HarmonicSeries::new(modulation, freq_mhz, sample_rate_mhz);
            let number: u64 = series.top_harmonic();
            proof {
                top_number_is_bounded(*modulation, freq_mhz as int, sample_rate_mhz as int);
                assert(-0x1_0000_0000_0000_0000_0000 <= number * freq_mhz
                    <= 0x1_0000_0000_0000_0000_0000) by (nonlinear_arith)
                    requires
                        number <= 64,
                        -0x8000_0000_0000_0000 <= freq_mhz <= 0x7fff_ffff_ffff_ffff,
                ;
            }
            number as i128 * freq_mhz as i128
        },
        _ => freq_mhz as i128,
    }
}

proof fn top_number_is_bounded(modulation: ToneModulation, freq: int, sample_rate: int)
    requires
        modulation is Square || modulation is Sawtooth || modulation is Triangle,
    ensures
        1 <= series_terms(modulation, harmonic_limit(freq, sample_rate) as nat).last().number
            <= harmonic_limit(freq, sample_rate) <= MAX_HARMONICS,
{
}

/// Every term of a series is a harmonic that does not pass half the sample rate, as long as the
/// fundamental itself does not: nothing in a band-limited waveform can alias.
pub proof fn series_never_aliases(kind: ToneModulation, freq: int, sample_rate: int, k: int)
    requires
        0 < freq,
        2 * freq <= sample_rate,
        0 <= k < series_terms(kind, harmonic_limit(freq, sample_rate) as nat).len(),
    ensures
        2 * (series_terms(kind, harmonic_limit(freq, sample_rate) as nat)[k].number * freq)
            <= sample_rate,
{
    let limit = harmonic_limit(freq, sample_rate);
    let n = series_terms(kind, limit as nat)[k].number;
    let fit = sample_rate / (2 * freq);
    lemma_fundamental_div_mod(sample_rate, 2 * freq);
    lemma_mod_bound(sample_rate, 2 * freq);
    assert(fit >= 1) by (nonlinear_arith)
        requires
            sample_rate == (2 * freq) * fit + sample_rate % (2 * freq),
            sample_rate % (2 * freq) < 2 * freq,
            2 * freq <= sample_rate,
            freq > 0,
    ;
    assert(n <= limit <= fit);
    assert(2 * (n * freq) <= (2 * freq) * fit) by (nonlinear_arith)
        requires
            0 <= n <= fit,
            freq > 0,
    ;
}

// ---------------------------------------------------------------------------
// Frequency hopping
// ---------------------------------------------------------------------------

/// Twice the offset of a hop channel from the carrier, in MHz: the grid is centred on it.
pub fn twice_hop_offset(channel: usize, channels: usize, step_mhz: Micro) -> (offset: i128)
    requires
        channel < channels,
        within_limit(step_mhz),
    ensures
        offset == (2 * channel - (channels - 1)) * step_mhz,
{
    let place: i128 = 2 * channel as i128 - (channels as i128 - 1);
    assert(-0x1_0000_0000_0000_0000int * 1_000_000_000_000_000_000 <= place * step_mhz
        <= 0x1_0000_0000_0000_0000int * 1_000_000_000_000_000_000) by (nonlinear_arith)
        requires
            -0x1_0000_0000_0000_0000 <= place <= 0x1_0000_0000_0000_0000,
            -1_000_000_000_000_000_000 <= step_mhz <= 1_000_000_000_000_000_000,
    ;
    place * step_mhz as i128
}

/// The hop grid is symmetric: a channel and its mirror image are equally far from the carrier,
/// on opposite sides.
pub proof fn hop_grid_is_symmetric(channel: int, channels: int, step: int)
    requires
        0 <= channel < channels,
    ensures
        (2 * channel - (channels - 1)) * step == -((2 * (channels - 1 - channel) - (channels - 1))
            * step),
{
    assert((2 * channel - (channels - 1)) * step == -((2 * (channels - 1 - channel) - (channels
        - 1)) * step)) by (nonlinear_arith);
}

/// The carrier frequency of a hop, never below one hertz: twice the value, in MHz.
pub fn twice_hop_frequency(
    centre_mhz: Micro,
    channel: usize,
    channels: usize,
    step_mhz: Micro,
) -> (twice: i128)
    requires
        channel < channels,
        within_limit(step_mhz),
    ensures
        twice == twice_hop(
            centre_mhz as int,
            channel as int,
            channels as int,
            step_mhz as int,
        ),
        twice >= 2,
{
    let offset: i128 = twice_hop_offset(channel, channels, step_mhz);
    assert(-0x1_0000_0000_0000_0000int * 1_000_000_000_000_000_000 <= (2 * channel - (channels - 1))
        * step_mhz <= 0x1_0000_0000_0000_0000int * 1_000_000_000_000_000_000) by (nonlinear_arith)
        requires
            -0x1_0000_0000_0000_0000 <= 2 * channel - (channels - 1) <= 0x1_0000_0000_0000_0000,
            -1_000_000_000_000_000_000 <= step_mhz <= 1_000_000_000_000_000_000,
    ;
    let f: i128 = 2 * centre_mhz as i128 + offset;
    if f >= 2 {
        f
    } else {
        2
    }
}

// ---------------------------------------------------------------------------
// Pulses
// ---------------------------------------------------------------------------

/// Where an instant falls within a pulse with shaped edges.
#[derive(Clone, Copy, Debug, PartialEq, Eq, Structural)]
pub enum PulseRegion {
    /// Before or after the pulse: no output.
    Off,
    /// This far into an edge, whichever of the two it is.
    Edge { depth: i128 },
    /// Between the edges: full output.
    Flat,
}

/// The part of a pulse of the given width and edge time that `tau` falls into.
pub open spec fn pulse_part(tau: int, width: int, rise: int) -> PulseRegion {
    if tau < 0 || tau > width {
        PulseRegion::Off
    } else if rise <= 0 {
        PulseRegion::Flat
    } else if tau < rise {
        PulseRegion::Edge { depth: tau as i128 }
    } else if tau > width - rise {
        PulseRegion::Edge { depth: (width - tau) as i128 }
    } else {
        PulseRegion::Flat
    }
}

/// Classifies an instant `tau` after the start of a pulse, in any unit that its width and its
/// edge time are given in too.
pub fn pulse_region(tau: i128, width: i128, rise: i128) -> (region: PulseRegion)
    requires
        0 <= width,
        rise <= width,
    ensures
        region == pulse_part(tau as int, width as int, rise as int),
{
    if tau < 0 || tau > width {
        PulseRegion::Off
    } else if rise <= 0 {
        PulseRegion::Flat
    } else if tau < rise {
        PulseRegion::Edge { depth: tau }
    } else if tau > width - rise {
        PulseRegion::Edge { depth: width - tau }
    } else {
        PulseRegion::Flat
    }
}

/// A pulse whose two edges fit into it is the same read forwards and backwards.
pub proof fn pulse_is_symmetric(tau: int, width: int, rise: int)
    requires
        2 * rise <= width,
    ensures
        pulse_part(tau, width, rise) == pulse_part(width - tau, width, rise),
{
}

// ---------------------------------------------------------------------------
// Data symbols
// ---------------------------------------------------------------------------

/// How many symbols either side of the current one contribute to the shaped waveform.
pub const RRC_SPAN: i64 = 6;

/// The symbols, first to last, that a block of `num_samples` samples draws on.
pub fn symbol_window(clock: &SampleClock, num_samples: usize, symbol_rate_msps: Micro) -> (window: (
    i128,
    i128,
))
    requires
        clock.wf(),
        num_samples <= BLOCK_LIMIT,
        0 <= symbol_rate_msps,
    ensures
        window.0 == symbol_at(*clock, 0, symbol_rate_msps as int) - RRC_SPAN,
        window.1 == symbol_at(*clock, num_samples as int, symbol_rate_msps as int) + RRC_SPAN,
{
    let first: i128 = clock.times_elapsed(0, symbol_rate_msps, 1);
    let last: i128 = clock.times_elapsed(num_samples, symbol_rate_msps, 1);
    (first - RRC_SPAN as i128, last + RRC_SPAN as i128)
}

/// The symbol that is current at sample `i`, at a rate in hertz.
pub open spec fn symbol_at(clock: SampleClock, i: int, rate: int) -> int {
    times_by(clock.scaled_time(i), rate, 1 * clock.second())
}

/// Every symbol that shapes a sample of the block lies in the window drawn for the block.
pub proof fn symbol_window_covers_block(clock: SampleClock, num_samples: int, i: int, rate: int, k: int)
    requires
        clock.wf(),
        0 <= i <= num_samples,
        0 <= rate,
        symbol_at(clock, i, rate) - RRC_SPAN <= k <= symbol_at(clock, i, rate) + RRC_SPAN,
    ensures
        symbol_at(clock, 0, rate) - RRC_SPAN <= k <= symbol_at(clock, num_samples, rate) + RRC_SPAN,
{
    clock.counts_are_monotone(0, i, rate, 1);
    clock.counts_are_monotone(i, num_samples, rate, 1);
}

// ---------------------------------------------------------------------------
// Instants
// ---------------------------------------------------------------------------

/// Where a tone stands at one instant of absolute time: all a sample of it depends on. Turns of
/// the carrier count from time zero, not from the start of a block.
#[derive(Clone, Copy, Debug, PartialEq, Eq, Structural)]
pub enum Instant {
    /// A channel is noise that is redrawn with every block; only the place in the block counts.
    Redrawn { index: usize },
    /// An unmodulated carrier, or the fundamental of a harmonic series.
    Carrier { carrier: Turn },
    /// A carrier and the oscillation that modulates it.
    Modulated { carrier: Turn, modulating: Turn },
    /// How far the sweep has come.
    Swept { sweep: Turn },
    /// A carrier, how far the repetition interval has come, and the part of the pulse that is.
    Pulsed { carrier: Turn, interval: Turn, region: PulseRegion },
    /// The current channel of the hop grid and its carrier.
    Hopped { channel: usize, carrier: Turn },
    /// A carrier, the current symbol and how far into it the instant is.
    Keyed { carrier: Turn, symbol: i128, into: Turn },
}

/// A count brought into the range of hop numbers.
pub open spec fn hop_number(count: int) -> i64 {
    clamped(count, i64::MIN as int, i64::MAX as int) as i64
}

/// Twice the frequency of a hop channel, never below one hertz.
pub open spec fn twice_hop(centre: int, channel: int, channels: int, step: int) -> int {
    let twice = 2 * centre + (2 * channel - (channels - 1)) * step;
    if twice >= 2 {
        twice
    } else {
        2
    }
}

/// Where a tone stands at scaled time `t` of a clock with the given sample rate. Rates are those
/// of the tone's recipe, in the units their fields carry.
pub open spec fn instant_at(tone: Tone, t: int, sample_rate: int, index: int) -> Instant {
    let second = 1_000_000_000_000 * sample_rate;
    let carrier = turn_at(t, tone.frequency_mhz as int, 1 * second);
    match tone.recipe_at(sample_rate) {
        ToneRecipe::Channel => Instant::Redrawn { index: index as usize },
        ToneRecipe::Carrier | ToneRecipe::Harmonics { .. } => Instant::Carrier { carrier },
        ToneRecipe::Am { mod_freq_khz, .. } | ToneRecipe::Fm { mod_freq_khz, .. } => {
            Instant::Modulated {
                carrier,
                modulating: turn_at(t, mod_freq_khz as int, 1_000 * second),
            }
        },
        ToneRecipe::Chirp { period_us, .. } => Instant::Swept {
            sweep: turn_at(t, 1, period_us * sample_rate),
        },
        ToneRecipe::Pulse { pri_us, width_us, rise_ns, .. } => {
            let interval = turn_at(t, 1, pri_us * sample_rate);
            Instant::Pulsed {
                carrier,
                interval,
                region: pulse_part(
                    1_000 * interval.position,
                    1_000 * (width_us * sample_rate),
                    rise_ns * sample_rate,
                ),
            }
        },
        ToneRecipe::Hopping { step_mhz, channels, rate_hz } => {
            let hop = hop_number(times_by(t, rate_hz as int, 1_000_000 * second));
            let channel = hop_hash(hop) % (channels as u64);
            Instant::Hopped {
                channel: channel as usize,
                carrier: turn_at(
                    t,
                    twice_hop(
                        tone.frequency_mhz as int,
                        channel as int,
                        channels as int,
                        step_mhz as int,
                    ),
                    2 * second,
                ),
            }
        },
        ToneRecipe::Qpsk { symbol_rate_msps, .. } => Instant::Keyed {
            carrier,
            symbol: times_by(t, symbol_rate_msps as int, 1 * second) as i128,
            into: turn_at(t, symbol_rate_msps as int, 1 * second),
        },
    }
}

/// Where a tone stands at sample `i` of a block.
pub open spec fn instant_of(tone: Tone, clock: SampleClock, i: int) -> Instant {
    instant_at(tone, clock.scaled_time(i), clock.sample_rate_mhz as int, i)
}

/// The tone's settings are within the range of exact arithmetic.
pub open spec fn tone_in_range(tone: Tone) -> bool {
    &&& within_limit(tone.frequency_mhz)
    &&& within_limit(tone.bandwidth_mhz)
    &&& tone.modulation matches ToneModulation::FreqHopping { hop_step_mhz, .. } ==> within_limit(
        hop_step_mhz,
    )
}

impl Tone {
    /// Where the tone stands at sample `i` of a block.
    pub fn instant(&self, clock: &SampleClock, i: usize) -> (instant: Instant)
        requires
            clock.wf(),
            i <= BLOCK_LIMIT,
            tone_in_range(*self),
        ensures
            instant == instant_of(*self, *clock, i as int),
    {
        let rate: i128 = clock.sample_rate_mhz as i128;
        let frequency: i128 = self.frequency_mhz as i128;
        match self.recipe(clock.sample_rate_mhz) {
            ToneRecipe::Channel => Instant::Redrawn { index: i },
            ToneRecipe::Carrier | ToneRecipe::Harmonics { .. } => {
                Instant::Carrier { carrier: clock.turn(i, frequency, 1) }
            },
            ToneRecipe::Am { mod_freq_khz, .. } | ToneRecipe::Fm { mod_freq_khz, .. } => {
                Instant::Modulated {
                    carrier: clock.turn(i, frequency, 1),
                    modulating: clock.turn(i, mod_freq_khz as i128, 1_000),
                }
            },
            ToneRecipe::Chirp { period_us, .. } => {
                Instant::Swept { sweep: clock.into_repetition(i, period_us) }
            },
            ToneRecipe::Pulse { pri_us, width_us, rise_ns, .. } => {
                let interval: Turn = clock.into_repetition(i, pri_us);
                proof {
                    pulse_recipe_is_consistent(*self, clock.sample_rate_mhz as int);
                    assert(0 <= width_us * rate <= pri_us * rate <= 0x8000_0000_0000_0000
                        * 20_000_000_000) by (nonlinear_arith)
                        requires
                            0 <= width_us <= pri_us <= 0x8000_0000_0000_0000,
                            0 < rate <= 20_000_000_000,
                    ;
                    assert(0 <= rise_ns * rate <= 1_000 * (width_us * rate)) by (nonlinear_arith)
                        requires
                            0 <= rise_ns <= 1_000 * width_us,
                            0 < rate,
                    ;
                }
                let region: PulseRegion = pulse_region(
                    1_000 * interval.position,
                    1_000 * (width_us as i128 * rate),
                    rise_ns * rate,
                );
                Instant::Pulsed { carrier: clock.turn(i, frequency, 1), interval, region }
            },
            ToneRecipe::Hopping { step_mhz, channels, rate_hz } => {
                let count: i128 = clock.times_elapsed(i, rate_hz, 1_000_000);
                let hop: i64 = if count < i64::MIN as i128 {
                    i64::MIN
                } else if count > i64::MAX as i128 {
                    i64::MAX
                } else {
                    count as i64
                };
                let channel: usize = hop_channel(hop, channels);
                let twice: i128 = twice_hop_frequency(
                    self.frequency_mhz,
                    channel,
                    channels,
                    step_mhz,
                );
                Instant::Hopped { channel, carrier: clock.turn(i, twice, 2) }
            },
            ToneRecipe::Qpsk { symbol_rate_msps, .. } => {
                Instant::Keyed {
                    carrier: clock.turn(i, frequency, 1),
                    symbol: clock.times_elapsed(i, symbol_rate_msps, 1),
                    into: clock.turn(i, symbol_rate_msps as i128, 1),
                }
            },
        }
    }
}

/// A frame that starts where another has come to continues it: everything but a redrawn channel
/// stands at its sample `i` where it stands at sample `n + i` of the other.
pub proof fn frames_join_without_a_seam(
    tone: Tone,
    first: SampleClock,
    next: SampleClock,
    n: int,
    i: int,
)
    requires
        next.sample_rate_mhz == first.sample_rate_mhz,
        next.scaled_time(0) == first.scaled_time(n),
        !tone.channel(),
    ensures
        instant_of(tone, next, i) == instant_of(tone, first, n + i),
{
    assert(next.scaled_time(i) == first.scaled_time(n + i));
}

// ---------------------------------------------------------------------------
// Generator
// ---------------------------------------------------------------------------

/// Multi-tone signal generator with configurable noise floor.
#[derive(Clone, Debug)]
pub struct SignalGenerator {
    /// Individual tone components.
    pub tones: Vec<Tone>,
    /// Noise floor in dBFS.
    pub noise_floor_dbfs: Micro,
    /// Whether noise is enabled.
    pub noise_enabled: bool,
}

impl Default for SignalGenerator {
    fn default() -> (generator: Self)
        ensures
            generator.tones@ == seq![fresh_tone()],
            generator.noise_floor_dbfs == -80_000_000,
            generator.noise_enabled,
    {
        let tone = Tone::default();
        let tones: Vec<Tone> = vec![tone];
        assert(tones@ =~= seq![fresh_tone()]);
        SignalGenerator { tones, noise_floor_dbfs: -80_000_000, noise_enabled: true }
    }
}

/// The samples of each tone at one instant.
pub open spec fn are_parts<V, S: Fn(&Tone, ToneRecipe, Instant) -> V>(
    sample: S,
    tones: Seq<Tone>,
    clock: SampleClock,
    i: int,
    parts: Seq<V>,
) -> bool {
    &&& parts.len() <= tones.len()
    &&& forall|k: int|
        0 <= k < parts.len() ==> call_ensures(
            sample,
            (
                &tones[k],
                tones[k].recipe_at(clock.sample_rate_mhz as int),
                instant_of(tones[k], clock, i),
            ),
            #[trigger] parts[k],
        )
}

/// The successive sums of parts, built up from `zero` in order.
pub open spec fn are_sums<V, A: Fn(V, V) -> V>(plus: A, zero: V, parts: Seq<V>, sums: Seq<V>) -> bool {
    &&& sums.len() == parts.len() + 1
    &&& sums[0] == zero
    &&& forall|k: int|
        0 <= k < parts.len() ==> call_ensures(
            plus,
            (sums[k], #[trigger] parts[k]),
            sums[k + 1],
        )
}

/// `sum` is what the tones add up to at sample `i`.
pub open spec fn is_mix<V, S: Fn(&Tone, ToneRecipe, Instant) -> V, A: Fn(V, V) -> V>(
    sample: S,
    plus: A,
    zero: V,
    tones: Seq<Tone>,
    clock: SampleClock,
    i: int,
    sum: V,
) -> bool {
    exists|parts: Seq<V>, sums: Seq<V>|
        {
            &&& #[trigger] are_parts(sample, tones, clock, i, parts)
            &&& #[trigger] are_sums(plus, zero, parts, sums)
            &&& parts.len() == tones.len()
            &&& sums.last() == sum
        }
}

/// `value` is sample `i` of a generator's block: every tone, sampled where it stands at that
/// instant, added up, and the noise floor last, if it is enabled.
pub open spec fn is_sample_of<
    V,
    S: Fn(&Tone, ToneRecipe, Instant) -> V,
    A: Fn(V, V) -> V,
    N: Fn(V, usize) -> V,
>(
    generator: SignalGenerator,
    clock: SampleClock,
    i: int,
    zero: V,
    sample: S,
    plus: A,
    noise: N,
    value: V,
) -> bool {
    exists|sum: V|
        {
            &&& #[trigger] is_mix(sample, plus, zero, generator.tones@, clock, i, sum)
            &&& if generator.noise_enabled {
                call_ensures(noise, (sum, i as usize), value)
            } else {
                value == sum
            }
        }
}

impl SignalGenerator {
    /// One sample of the block.
    fn sample_at<
        V: Copy,
        S: Fn(&Tone, ToneRecipe, Instant) -> V,
        A: Fn(V, V) -> V,
        N: Fn(V, usize) -> V,
    >(&self, clock: &SampleClock, i: usize, zero: V, sample: &S, plus: &A, noise: &N) -> (value: V)
        requires
            clock.wf(),
            i <= BLOCK_LIMIT,
            forall|k: int| 0 <= k < self.tones.len() ==> tone_in_range(#[trigger] self.tones[k]),
            forall|tone: &Tone, recipe: ToneRecipe, instant: Instant| #[trigger]
                call_requires(*sample, (tone, recipe, instant)),
            forall|a: V, b: V| #[trigger] call_requires(*plus, (a, b)),
            forall|a: V, i: usize| #[trigger] call_requires(*noise, (a, i)),
        ensures
            is_sample_of(*self, *clock, i as int, zero, *sample, *plus, *noise, value),
    {
        let mut sum: V = zero;
        let mut k: usize = 0;
        let ghost mut parts: Seq<V> = Seq::empty();
        let ghost mut sums: Seq<V> = seq![zero];
        while k < self.tones.len()
            invariant
                clock.wf(),
                i <= BLOCK_LIMIT,
                forall|k: int|
                    0 <= k < self.tones.len() ==> tone_in_range(#[trigger] self.tones[k]),
                forall|tone: &Tone, recipe: ToneRecipe, instant: Instant| #[trigger]
                    call_requires(*sample, (tone, recipe, instant)),
                forall|a: V, b: V| #[trigger] call_requires(*plus, (a, b)),
                k <= self.tones.len(),
                parts.len() == k,
                are_parts(*sample, self.tones@, *clock, i as int, parts),
                are_sums(*plus, zero, parts, sums),
                sums.last() == sum,
            decreases self.tones.len() - k,
        {
            let tone: &Tone = &self.tones[k];
            let recipe: ToneRecipe = tone.recipe(clock.sample_rate_mhz);
            let part: V = (*sample)(tone, recipe, tone.instant(clock, i));
            let next: V = (*plus)(sum, part);
            proof {
                let more = parts.push(part);
                let longer = sums.push(next);
                assert forall|j: int| 0 <= j < more.len() implies call_ensures(
                    *sample,
                    (
                        &self.tones@[j],
                        self.tones@[j].recipe_at(clock.sample_rate_mhz as int),
                        instant_of(self.tones@[j], *clock, i as int),
                    ),
                    #[trigger] more[j],
                ) by {
                    if j < parts.len() {
                        assert(more[j] == parts[j]);
                    }
                }
                assert forall|j: int| 0 <= j < more.len() implies call_ensures(
                    *plus,
                    (longer[j], #[trigger] more[j]),
                    longer[j + 1],
                ) by {
                    if j < parts.len() {
                        assert(more[j] == parts[j]);
                    }
                }
                parts = more;
                sums = longer;
            }
            sum = next;
            k += 1;
        }
        assert(is_mix(*sample, *plus, zero, self.tones@, *clock, i as int, sum));
        if self.noise_enabled {
            let value: V = (*noise)(sum, i);
            assert(call_ensures(*noise, (sum, (i as int) as usize), value));
            value
        } else {
            sum
        }
    }

    /// Generates a block of `num_samples` samples of real voltage at the instants of a clock.
    /// `sample` gives the voltage of a tone where it stands at an instant of absolute time, `plus`
    /// adds voltages, starting from `zero`, and `noise` adds the noise floor of a sample.
    pub fn generate_at_time<
        V: Copy,
        S: Fn(&Tone, ToneRecipe, Instant) -> V,
        A: Fn(V, V) -> V,
        N: Fn(V, usize) -> V,
    >(
        &self,
        num_samples: usize,
        clock: &SampleClock,
        zero: V,
        sample: S,
        plus: A,
        noise: N,
    ) -> (block: Vec<V>)
        requires
            clock.wf(),
            num_samples <= BLOCK_LIMIT,
            forall|k: int| 0 <= k < self.tones.len() ==> tone_in_range(#[trigger] self.tones[k]),
            forall|tone: &Tone, recipe: ToneRecipe, instant: Instant| #[trigger]
                call_requires(sample, (tone, recipe, instant)),
            forall|a: V, b: V| #[trigger] call_requires(plus, (a, b)),
            forall|a: V, i: usize| #[trigger] call_requires(noise, (a, i)),
        ensures
            block.len() == num_samples,
            forall|i: int|
                0 <= i < num_samples ==> is_sample_of(
                    *self,
                    *clock,
                    i,
                    zero,
                    sample,
                    plus,
                    noise,
                    #[trigger] block[i],
                ),
    {
        let mut block: Vec<V> = Vec::new();
        let mut i: usize = 0;
        while i < num_samples
            invariant
                clock.wf(),
                num_samples <= BLOCK_LIMIT,
                forall|k: int|
                    0 <= k < self.tones.len() ==> tone_in_range(#[trigger] self.tones[k]),
                forall|tone: &Tone, recipe: ToneRecipe, instant: Instant| #[trigger]
                    call_requires(sample, (tone, recipe, instant)),
                forall|a: V, b: V| #[trigger] call_requires(plus, (a, b)),
                forall|a: V, i: usize| #[trigger] call_requires(noise, (a, i)),
                i <= num_samples,
                block.len() == i,
                forall|j: int|
                    0 <= j < i ==> is_sample_of(
                        *self,
                        *clock,
                        j,
                        zero,
                        sample,
                        plus,
                        noise,
                        #[trigger] block[j],
                    ),
            decreases num_samples - i,
        {
            let value: V = self.sample_at(clock, i, zero, &sample, &plus, &noise);
            block.push(value);
            i += 1;
        }
        block
    }

    /// Generates a block that starts at time zero.
    pub fn generate<
        V: Copy,
        S: Fn(&Tone, ToneRecipe, Instant) -> V,
        A: Fn(V, V) -> V,
        N: Fn(V, usize) -> V,
    >(
        &self,
        num_samples: usize,
        sample_rate_mhz: Micro,
        zero: V,
        sample: S,
        plus: A,
        noise: N,
    ) -> (block: Vec<V>)
        requires
            0 < sample_rate_mhz <= RATE_LIMIT,
            num_samples <= BLOCK_LIMIT,
            forall|k: int| 0 <= k < self.tones.len() ==> tone_in_range(#[trigger] self.tones[k]),
            forall|tone: &Tone, recipe: ToneRecipe, instant: Instant| #[trigger]
                call_requires(sample, (tone, recipe, instant)),
            forall|a: V, b: V| #[trigger] call_requires(plus, (a, b)),
            forall|a: V, i: usize| #[trigger] call_requires(noise, (a, i)),
        ensures
            block.len() == num_samples,
            forall|i: int|
                0 <= i < num_samples ==> is_sample_of(
                    *self,
                    SampleClock { start_time_us: 0, sample_rate_mhz, lead: 0 },
                    i,
                    zero,
                    sample,
                    plus,
                    noise,
                    #[trigger] block[i],
                ),
    {
        let clock: SampleClock = SampleClock { start_time_us: 0, sample_rate_mhz, lead: 0 };
        self.generate_at_time(num_samples, &clock, zero, sample, plus, noise)
    }
}

/// A tone has one voltage where it stands.
pub open spec fn is_single_valued<V, S: Fn(&Tone, ToneRecipe, Instant) -> V>(sample: S) -> bool {
    forall|tone: &Tone, recipe: ToneRecipe, instant: Instant, a: V, b: V|
        #[trigger] call_ensures(sample, (tone, recipe, instant), a) && #[trigger] call_ensures(
            sample,
            (tone, recipe, instant),
            b,
        ) ==> a == b
}

/// `plus` is the addition `sum`.
pub open spec fn adds_by<V, A: Fn(V, V) -> V>(plus: A, sum: spec_fn(V, V) -> V) -> bool {
    forall|a: V, b: V, c: V| #[trigger] call_ensures(plus, (a, b), c) ==> c == sum(a, b)
}

/// Parts added up from `start` in order.
pub open spec fn total<V>(sum: spec_fn(V, V) -> V, start: V, parts: Seq<V>) -> V
    decreases parts.len(),
{
    if parts.len() == 0 {
        start
    } else {
        sum(total(sum, start, parts.drop_last()), parts.last())
    }
}

proof fn sums_are_totals<V, A: Fn(V, V) -> V>(
    plus: A,
    sum: spec_fn(V, V) -> V,
    zero: V,
    parts: Seq<V>,
    sums: Seq<V>,
    n: int,
)
    requires
        adds_by(plus, sum),
        are_sums(plus, zero, parts, sums),
        0 <= n <= parts.len(),
    ensures
        sums[n] == total(sum, zero, parts.take(n)),
    decreases n,
{
    if n > 0 {
        sums_are_totals(plus, sum, zero, parts, sums, n - 1);
        assert(parts.take(n).drop_last() =~= parts.take(n - 1));
        assert(parts.take(n).last() == parts[n - 1]);
        assert(call_ensures(plus, (sums[n - 1], parts[n - 1]), sums[n - 1 + 1]));
    }
}

proof fn mix_is_total<V, S: Fn(&Tone, ToneRecipe, Instant) -> V, A: Fn(V, V) -> V>(
    sample: S,
    plus: A,
    sum: spec_fn(V, V) -> V,
    zero: V,
    tones: Seq<Tone>,
    clock: SampleClock,
    i: int,
    value: V,
) -> (parts: Seq<V>)
    requires
        adds_by(plus, sum),
        is_mix(sample, plus, zero, tones, clock, i, value),
    ensures
        are_parts(sample, tones, clock, i, parts),
        parts.len() == tones.len(),
        value == total(sum, zero, parts),
{
    let (parts, sums) = choose|parts: Seq<V>, sums: Seq<V>|
        {
            &&& #[trigger] are_parts(sample, tones, clock, i, parts)
            &&& #[trigger] are_sums(plus, zero, parts, sums)
            &&& parts.len() == tones.len()
            &&& sums.last() == value
        };
    sums_are_totals(plus, sum, zero, parts, sums, parts.len() as int);
    assert(parts.take(parts.len() as int) =~= parts);
    parts
}

/// A frame holds the samples that a longer run through it would have produced: started where a
/// run has come to after `n` samples, its sample `i` is sample `n + i` of the run. The noise
/// floor and channels, which are redrawn with every frame, are the exception.
pub proof fn frame_continues_a_longer_run<
    V,
    S: Fn(&Tone, ToneRecipe, Instant) -> V,
    A: Fn(V, V) -> V,
    N: Fn(V, usize) -> V,
>(
    generator: SignalGenerator,
    run: SampleClock,
    frame: SampleClock,
    n: int,
    i: int,
    zero: V,
    sample: S,
    plus: A,
    sum: spec_fn(V, V) -> V,
    noise: N,
    in_run: V,
    in_frame: V,
)
    requires
        !generator.noise_enabled,
        forall|k: int| 0 <= k < generator.tones.len() ==> !(#[trigger] generator.tones[k]).channel(),
        is_single_valued(sample),
        adds_by(plus, sum),
        frame.sample_rate_mhz == run.sample_rate_mhz,
        frame.scaled_time(0) == run.scaled_time(n),
        is_sample_of(generator, run, n + i, zero, sample, plus, noise, in_run),
        is_sample_of(generator, frame, i, zero, sample, plus, noise, in_frame),
    ensures
        in_frame == in_run,
{
    let tones = generator.tones@;
    let a = mix_is_total(sample, plus, sum, zero, tones, run, n + i, in_run);
    let b = mix_is_total(sample, plus, sum, zero, tones, frame, i, in_frame);
    assert forall|k: int| 0 <= k < tones.len() implies a[k] == b[k] by {
        assert(!generator.tones[k].channel());
        frames_join_without_a_seam(tones[k], run, frame, n, i);
        let rate = run.sample_rate_mhz as int;
        assert(call_ensures(
            sample,
            (&tones[k], tones[k].recipe_at(rate), instant_of(tones[k], run, n + i)),
            a[k],
        ));
        assert(call_ensures(
            sample,
            (&tones[k], tones[k].recipe_at(rate), instant_of(tones[k], frame, i)),
            b[k],
        ));
    }
    assert(a =~= b);
}

proof fn total_from<V>(sum: spec_fn(V, V) -> V, zero: V, start: V, parts: Seq<V>)
    requires
        forall|a: V, b: V, c: V| #[trigger] sum(sum(a, b), c) == sum(a, sum(b, c)),
        forall|a: V| #[trigger] sum(a, zero) == a,
    ensures
        total(sum, start, parts) == sum(start, total(sum, zero, parts)),
    decreases parts.len(),
{
    if parts.len() > 0 {
        total_from(sum, zero, start, parts.drop_last());
        let rest = total(sum, zero, parts.drop_last());
        assert(sum(sum(start, rest), parts.last()) == sum(start, sum(rest, parts.last())));
    }
}

proof fn total_of_both<V>(sum: spec_fn(V, V) -> V, start: V, left: Seq<V>, right: Seq<V>)
    ensures
        total(sum, start, left + right) == total(sum, total(sum, start, left), right),
    decreases right.len(),
{
    if right.len() == 0 {
        assert(left + right =~= left);
    } else {
        total_of_both(sum, start, left, right.drop_last());
        assert((left + right).drop_last() =~= left + right.drop_last());
        assert((left + right).last() == right.last());
    }
}

/// Tones add independently, whatever their modulations: without the noise floor, each sample of
/// two lists of tones together is the sum of the samples of the two lists.
pub proof fn tones_add_independently<
    V,
    S: Fn(&Tone, ToneRecipe, Instant) -> V,
    A: Fn(V, V) -> V,
    N: Fn(V, usize) -> V,
>(
    left: SignalGenerator,
    right: SignalGenerator,
    both: SignalGenerator,
    clock: SampleClock,
    i: int,
    zero: V,
    sample: S,
    plus: A,
    sum: spec_fn(V, V) -> V,
    noise: N,
    of_left: V,
    of_right: V,
    of_both: V,
)
    requires
        both.tones@ == left.tones@ + right.tones@,
        !left.noise_enabled && !right.noise_enabled && !both.noise_enabled,
        is_single_valued(sample),
        adds_by(plus, sum),
        forall|a: V, b: V, c: V| #[trigger] sum(sum(a, b), c) == sum(a, sum(b, c)),
        forall|a: V| #[trigger] sum(a, zero) == a,
        is_sample_of(left, clock, i, zero, sample, plus, noise, of_left),
        is_sample_of(right, clock, i, zero, sample, plus, noise, of_right),
        is_sample_of(both, clock, i, zero, sample, plus, noise, of_both),
    ensures
        of_both == sum(of_left, of_right),
{
    let a = mix_is_total(sample, plus, sum, zero, left.tones@, clock, i, of_left);
    let b = mix_is_total(sample, plus, sum, zero, right.tones@, clock, i, of_right);
    let c = mix_is_total(sample, plus, sum, zero, both.tones@, clock, i, of_both);
    let rate = clock.sample_rate_mhz as int;
    let tones = both.tones@;
    assert forall|k: int| 0 <= k < c.len() implies c[k] == (a + b)[k] by {
        let tone = tones[k];
        assert(call_ensures(
            sample,
            (&tone, tone.recipe_at(rate), instant_of(tone, clock, i)),
            c[k],
        ));
        if k < a.len() {
            assert(tone == left.tones@[k]);
            assert(call_ensures(
                sample,
                (&tone, tone.recipe_at(rate), instant_of(tone, clock, i)),
                a[k],
            ));
        } else {
            let j = k - a.len();
            assert(tone == right.tones@[j]);
            assert(call_ensures(
                sample,
                (&tone, tone.recipe_at(rate), instant_of(tone, clock, i)),
                b[j],
            ));
        }
    }
    assert(c =~= a + b);
    total_of_both(sum, zero, a, b);
    total_from(sum, zero, of_left, b);
}

/// What holds of silence, of every tone's voltage and of every sum and noisy voltage, holds of
/// every sample generated: if all of those are real, so is the block.
pub proof fn samples_keep_a_property<
    V,
    S: Fn(&Tone, ToneRecipe, Instant) -> V,
    A: Fn(V, V) -> V,
    N: Fn(V, usize) -> V,
>(
    generator: SignalGenerator,
    clock: SampleClock,
    i: int,
    zero: V,
    sample: S,
    plus: A,
    noise: N,
    value: V,
    holds: spec_fn(V) -> bool,
)
    requires
        holds(zero),
        forall|tone: &Tone, recipe: ToneRecipe, instant: Instant, v: V| #[trigger]
            call_ensures(sample, (tone, recipe, instant), v) ==> holds(v),
        forall|a: V, b: V, v: V| #[trigger]
            call_ensures(plus, (a, b), v) && holds(a) && holds(b) ==> holds(v),
        forall|a: V, k: usize, v: V| #[trigger]
            call_ensures(noise, (a, k), v) && holds(a) ==> holds(v),
        is_sample_of(generator, clock, i, zero, sample, plus, noise, value),
    ensures
        holds(value),
{
    let tones = generator.tones@;
    let sum = choose|sum: V|
        {
            &&& #[trigger] is_mix(sample, plus, zero, tones, clock, i, sum)
            &&& if generator.noise_enabled {
                call_ensures(noise, (sum, i as usize), value)
            } else {
                value == sum
            }
        };
    let (parts, sums) = choose|parts: Seq<V>, sums: Seq<V>|
        {
            &&& #[trigger] are_parts(sample, tones, clock, i, parts)
            &&& #[trigger] are_sums(plus, zero, parts, sums)
            &&& parts.len() == tones.len()
            &&& sums.last() == sum
        };
    sums_keep_a_property(sample, plus, zero, tones, clock, i, parts, sums, holds, parts.len() as int);
}

proof fn sums_keep_a_property<V, S: Fn(&Tone, ToneRecipe, Instant) -> V, A: Fn(V, V) -> V>(
    sample: S,
    plus: A,
    zero: V,
    tones: Seq<Tone>,
    clock: SampleClock,
    i: int,
    parts: Seq<V>,
    sums: Seq<V>,
    holds: spec_fn(V) -> bool,
    n: int,
)
    requires
        holds(zero),
        forall|tone: &Tone, recipe: ToneRecipe, instant: Instant, v: V| #[trigger]
            call_ensures(sample, (tone, recipe, instant), v) ==> holds(v),
        forall|a: V, b: V, v: V| #[trigger]
            call_ensures(plus, (a, b), v) && holds(a) && holds(b) ==> holds(v),
        are_parts(sample, tones, clock, i, parts),
        are_sums(plus, zero, parts, sums),
        0 <= n <= parts.len(),
    ensures
        holds(sums[n]),
    decreases n,
{
    if n > 0 {
        sums_keep_a_property(sample, plus, zero, tones, clock, i, parts, sums, holds, n - 1);
        let part = parts[n - 1];
        assert(call_ensures(
            sample,
            (
                &tones[n - 1],
                tones[n - 1].recipe_at(clock.sample_rate_mhz as int),
                instant_of(tones[n - 1], clock, i),
            ),
            part,
        ));
        assert(call_ensures(plus, (sums[n - 1], part), sums[n - 1 + 1]));
    }
}

} // verus!
