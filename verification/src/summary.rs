//! What spectrum a tone occupies, in numbers.

use vstd::prelude::*;
use crate::signal::{clamped, top_frequency, top_harmonic_mhz, Tone, ToneModulation};
use crate::units::{Micro, Ratio, UNIT};

verus! {

/// The spectrum a tone will occupy. Every modulation has a textbook expression for it.
#[derive(Clone, Copy, Debug, PartialEq, Eq, Structural)]
pub enum ToneSummary {
    /// A single spectral line.
    Line,
    /// A channel between the halves of the two edges, in MHz.
    Channel { bandwidth_mhz: Micro, twice_low: i128, twice_high: i128 },
    /// All harmonics, or the odd ones, up to a frequency in MHz.
    Harmonics { all: bool, top_mhz: i128 },
    /// Sidebands at an offset, for a modulation depth brought into 0 to 100 percent.
    Sidebands { offset_khz: Micro, depth_percent: Micro },
    /// Carson's rule: essentially all the power sits inside twice the deviation plus the
    /// modulating frequency, in MHz.
    Carson { bandwidth_mhz: Ratio },
    /// A sweep between the halves of the two edges, in MHz, in this many microseconds.
    Sweep { twice_low: i128, twice_high: i128, sweep_us: Ratio, both_ways: bool },
    /// A pulse train with a duty cycle in percent and a repetition frequency in kHz; chirped
    /// pulses are compressed by their time-bandwidth product.
    Pulses { duty_percent: Ratio, prf_khz: Ratio, compression: Option<Ratio> },
    /// A channel grid across a span in MHz, dwelling on each channel for a time in microseconds.
    Hops { channels: usize, span_mhz: i128, dwell_us: Ratio },
    /// A channel one plus the roll-off times as wide as the symbol rate, in MHz.
    Symbols { occupied_mhz: Ratio },
}

/// `x`, or `least` if that is more.
pub open spec fn at_least(x: int, least: int) -> int {
    if x >= least {
        x
    } else {
        least
    }
}

fn floor_at(x: Micro, least: Micro) -> (y: Micro)
    ensures
        y == at_least(x as int, least as int),
{
    if x >= least {
        x
    } else {
        least
    }
}

/// What a tone occupies at a sample rate.
pub open spec fn summary_of(tone: Tone, sample_rate: int) -> ToneSummary {
    let f = tone.frequency_mhz as int;
    match tone.modulation {
        ToneModulation::Cw => if tone.bandwidth_mhz > 0 {
            ToneSummary::Channel {
                bandwidth_mhz: tone.bandwidth_mhz,
                twice_low: (2 * f - tone.bandwidth_mhz) as i128,
                twice_high: (2 * f + tone.bandwidth_mhz) as i128,
            }
        } else {
            ToneSummary::Line
        },
        ToneModulation::Square
        | ToneModulation::Sawtooth
        | ToneModulation::Triangle => ToneSummary::Harmonics {
            all: tone.modulation == ToneModulation::Sawtooth,
            top_mhz: top_frequency(tone.modulation, f, sample_rate) as i128,
        },
        ToneModulation::AmModulated { depth_percent, mod_freq_khz } => ToneSummary::Sidebands {
            offset_khz: mod_freq_khz,
            depth_percent: clamped(depth_percent as int, 0, 100_000_000) as Micro,
        },
        ToneModulation::FmModulated { dev_mhz, mod_freq_khz } => ToneSummary::Carson {
            bandwidth_mhz: Ratio {
                over: (2000 * dev_mhz + 2 * mod_freq_khz) as i128,
                under: 1000,
            },
        },
        ToneModulation::SweptChirp { sweep_period_us, triangular } => {
            let bw = if tone.bandwidth_mhz > 0 {
                tone.bandwidth_mhz as int
            } else {
                100_000_000
            };
            let period = at_least(sweep_period_us as int, 1_000);
            ToneSummary::Sweep {
                twice_low: (2 * f - bw) as i128,
                twice_high: (2 * f + bw) as i128,
                sweep_us: Ratio {
                    over: period as i128,
                    under: if triangular {
                        2
                    } else {
                        1
                    },
                },
                both_ways: triangular,
            }
        },
        ToneModulation::PulsedRadar { pulse_width_us, pri_us, chirp_mhz, .. } => {
            let pri = at_least(pri_us as int, 1_000);
            let on = if pulse_width_us > pri {
                pri
            } else {
                pulse_width_us as int
            };
            ToneSummary::Pulses {
                duty_percent: Ratio { over: (100_000_000 * on) as i128, under: pri as i128 },
                prf_khz: Ratio { over: 1_000_000_000_000_000, under: pri as i128 },
                compression: if chirp_mhz > 0 {
                    Some(Ratio { over: (chirp_mhz * pulse_width_us) as i128, under: 1_000_000 })
                } else {
                    None
                },
            }
        },
        ToneModulation::FreqHopping { hop_step_mhz, num_channels, hop_rate_hz } => ToneSummary::Hops {
            channels: num_channels,
            span_mhz: (hop_step_mhz * at_least(num_channels - 1, 0)) as i128,
            dwell_us: Ratio {
                over: 1_000_000_000_000_000_000,
                under: at_least(hop_rate_hz as int, 1_000) as i128,
            },
        },
        ToneModulation::DigitalQpsk { symbol_rate_msps, rrc_alpha } => ToneSummary::Symbols {
            occupied_mhz: Ratio {
                over: ((UNIT + clamped(rrc_alpha as int, 10_000, 1_000_000)) * at_least(
                    symbol_rate_msps as int,
                    1_000,
                )) as i128,
                under: 1_000_000,
            },
        },
    }
}

/// Summarises the spectrum a tone will occupy at a sample rate.
pub fn tone_summary(tone: &Tone, sample_rate_mhz: Micro) -> (summary: ToneSummary)
    ensures
        summary == summary_of(*tone, sample_rate_mhz as int),
{
    let f: i128 = tone.frequency_mhz as i128;
    match tone.modulation {
        ToneModulation::Cw => {
            if tone.bandwidth_mhz > 0 {
                ToneSummary::Channel {
                    bandwidth_mhz: tone.bandwidth_mhz,
                    twice_low: 2 * f - tone.bandwidth_mhz as i128,
                    twice_high: 2 * f + tone.bandwidth_mhz as i128,
                }
            } else {
                ToneSummary::Line
            }
        },
        ToneModulation::Square | ToneModulation::Sawtooth | ToneModulation::Triangle => {
            let top: i128 = top_harmonic_mhz(
                &tone.modulation,
                tone.frequency_mhz,
                sample_rate_mhz,
            );
            ToneSummary::Harmonics {
                all: matches!(tone.modulation, ToneModulation::Sawtooth),
                top_mhz: top,
            }
        },
        ToneModulation::AmModulated { depth_percent, mod_freq_khz } => {
            let depth: Micro = if depth_percent < 0 {
                0
            } else if depth_percent > 100_000_000 {
                100_000_000
            } else {
                depth_percent
            };
            ToneSummary::Sidebands { offset_khz: mod_freq_khz, depth_percent: depth }
        },
        ToneModulation::FmModulated { dev_mhz, mod_freq_khz } => ToneSummary::Carson {
            bandwidth_mhz: Ratio {
                over: 2000 * dev_mhz as i128 + 2 * mod_freq_khz as i128,
                under: 1000,
            },
        },
        ToneModulation::SweptChirp { sweep_period_us, triangular } => {
            let bw: i128 = if tone.bandwidth_mhz > 0 {
                tone.bandwidth_mhz as i128
            } else {
                100_000_000
            };
            let period: Micro = floor_at(sweep_period_us, 1_000);
            ToneSummary::Sweep {
                twice_low: 2 * f - bw,
                twice_high: 2 * f + bw,
                sweep_us: Ratio {
                    over: period as i128,
                    under: if triangular {
                        2
                    } else {
                        1
                    },
                },
                both_ways: triangular,
            }
        },
        ToneModulation::PulsedRadar { pulse_width_us, pri_us, chirp_mhz, .. } => {
            let pri: Micro = floor_at(pri_us, 1_000);
            let on: Micro = if pulse_width_us > pri {
                pri
            } else {
                pulse_width_us
            };
            let compression: Option<Ratio> = if chirp_mhz > 0 {
                proof {
                    products_fit(chirp_mhz, pulse_width_us);
                }
                Some(Ratio { over: chirp_mhz as i128 * pulse_width_us as i128, under: 1_000_000 })
            } else {
                None
            };
            ToneSummary::Pulses {
                duty_percent: Ratio { over: 100_000_000 * on as i128, under: pri as i128 },
                prf_khz: Ratio { over: 1_000_000_000_000_000, under: pri as i128 },
                compression,
            }
        },
        ToneModulation::FreqHopping { hop_step_mhz, num_channels, hop_rate_hz } => {
            let steps: u64 = if num_channels >= 1 {
                num_channels as u64 - 1
            } else {
                0
            };
            assert(-0x8000_0000_0000_0000int * 0xffff_ffff_ffff_ffff <= hop_step_mhz * steps
                <= 0x7fff_ffff_ffff_ffff * 0xffff_ffff_ffff_ffff) by (nonlinear_arith)
                requires
                    -0x8000_0000_0000_0000 <= hop_step_mhz <= 0x7fff_ffff_ffff_ffff,
                    0 <= steps <= 0xffff_ffff_ffff_ffff,
            ;
            let rate: Micro = floor_at(hop_rate_hz, 1_000);
            ToneSummary::Hops {
                channels: num_channels,
                span_mhz: hop_step_mhz as i128 * steps as i128,
                dwell_us: Ratio { over: 1_000_000_000_000_000_000, under: rate as i128 },
            }
        },
        ToneModulation::DigitalQpsk { symbol_rate_msps, rrc_alpha } => {
            let alpha: Micro = if rrc_alpha < 10_000 {
                10_000
            } else if rrc_alpha > 1_000_000 {
                1_000_000
            } else {
                rrc_alpha
            };
            let rate: Micro = floor_at(symbol_rate_msps, 1_000);
            let share: i128 = UNIT as i128 + alpha as i128;
            assert(0 <= share * rate <= 2_000_000 * 0x7fff_ffff_ffff_ffff) by (nonlinear_arith)
                requires
                    0 <= share <= 2_000_000,
                    0 <= rate <= 0x7fff_ffff_ffff_ffff,
            ;
            ToneSummary::Symbols {
                occupied_mhz: Ratio { over: share * rate as i128, under: 1_000_000 },
            }
        },
    }
}

/// The product of two quantities fits a double word.
proof fn products_fit(a: Micro, b: Micro)
    ensures
        -0x4000_0000_0000_0000_0000_0000_0000_0000 <= a * b
            <= 0x4000_0000_0000_0000_0000_0000_0000_0000,
{
    assert(-0x4000_0000_0000_0000_0000_0000_0000_0000 <= a * b
        <= 0x4000_0000_0000_0000_0000_0000_0000_0000) by (nonlinear_arith)
        requires
            -0x8000_0000_0000_0000 <= a <= 0x7fff_ffff_ffff_ffff,
            -0x8000_0000_0000_0000 <= b <= 0x7fff_ffff_ffff_ffff,
    ;
}

/// A channel or a sweep is centred on its carrier.
pub proof fn occupied_band_is_centred(tone: Tone, sample_rate: int)
    ensures
        summary_of(tone, sample_rate) matches ToneSummary::Channel { twice_low, twice_high, .. }
            ==> twice_low + twice_high == 4 * tone.frequency_mhz,
        summary_of(tone, sample_rate) matches ToneSummary::Sweep { twice_low, twice_high, .. }
            ==> twice_low + twice_high == 4 * tone.frequency_mhz,
{
}

/// The spectrum each modulation occupies, by the rule it goes by.
///
/// - A channel and a sweep are as wide as their bandwidth; a sweep there and back takes half the
///   period each way.
/// - Carson: twice the deviation and twice the modulating frequency.
pub proof fn modulations_occupy_what_their_rules_say(tone: Tone, sample_rate: int)
    ensures
        match (tone.modulation, summary_of(tone, sample_rate)) {
            (ToneModulation::Cw, ToneSummary::Line) => tone.bandwidth_mhz <= 0,
            (
                ToneModulation::Cw,
                ToneSummary::Channel { bandwidth_mhz, twice_low, twice_high },
            ) => {
                &&& tone.bandwidth_mhz > 0
                &&& bandwidth_mhz == tone.bandwidth_mhz
                &&& twice_high - twice_low == 2 * bandwidth_mhz
            },
            (
                ToneModulation::Square | ToneModulation::Triangle,
                ToneSummary::Harmonics { all, .. },
            ) => !all,
            (ToneModulation::Sawtooth, ToneSummary::Harmonics { all, .. }) => all,
            (
                ToneModulation::AmModulated { depth_percent, mod_freq_khz },
                ToneSummary::Sidebands { offset_khz, depth_percent: depth },
            ) => {
                &&& offset_khz == mod_freq_khz
                &&& 0 <= depth <= 100_000_000
                &&& 0 <= depth_percent <= 100_000_000 ==> depth == depth_percent
            },
            (
                ToneModulation::FmModulated { dev_mhz, mod_freq_khz },
                ToneSummary::Carson { bandwidth_mhz },
            ) => {
                &&& bandwidth_mhz.wf()
                &&& bandwidth_mhz.equals(2 * (1_000 * dev_mhz + mod_freq_khz), 1_000)
            },
            (
                ToneModulation::SweptChirp { sweep_period_us, triangular },
                ToneSummary::Sweep { twice_low, twice_high, sweep_us, both_ways },
            ) => {
                &&& both_ways == triangular
                &&& tone.bandwidth_mhz > 0 ==> twice_high - twice_low == 2 * tone.bandwidth_mhz
                &&& tone.bandwidth_mhz <= 0 ==> twice_high - twice_low == 200_000_000
                &&& sweep_us.wf()
                &&& sweep_period_us >= 1_000 && triangular ==> sweep_us.equals(
                    sweep_period_us as int,
                    2,
                )
                &&& sweep_period_us >= 1_000 && !triangular ==> sweep_us.equals(
                    sweep_period_us as int,
                    1,
                )
            },
            (ToneModulation::PulsedRadar { .. }, ToneSummary::Pulses { .. }) => true,
            (ToneModulation::FreqHopping { .. }, ToneSummary::Hops { .. }) => true,
            (ToneModulation::DigitalQpsk { .. }, ToneSummary::Symbols { .. }) => true,
            _ => false,
        },
{
}

/// Pulses are on for their share of the interval, all of it at most; as many intervals as the
/// repetition frequency says fill a millisecond; a chirped pulse is compressed by its width times
/// its bandwidth.
pub proof fn pulses_are_on_for_their_share(tone: Tone, sample_rate: int)
    requires
        tone.modulation is PulsedRadar,
    ensures
        summary_of(tone, sample_rate) is Pulses,
        summary_of(tone, sample_rate)->duty_percent.wf(),
        summary_of(tone, sample_rate)->duty_percent.over <= 100_000_000 * summary_of(
            tone,
            sample_rate,
        )->duty_percent.under,
        tone.modulation->pri_us >= 1_000 && tone.modulation->pulse_width_us
            <= tone.modulation->pri_us ==> summary_of(tone, sample_rate)->duty_percent.equals(
            100_000_000 * tone.modulation->pulse_width_us,
            tone.modulation->pri_us as int,
        ),
        tone.modulation->pri_us >= 1_000 && tone.modulation->pulse_width_us
            > tone.modulation->pri_us ==> summary_of(tone, sample_rate)->duty_percent.equals(
            100_000_000,
            1,
        ),
        summary_of(tone, sample_rate)->prf_khz.wf(),
        tone.modulation->pri_us >= 1_000 ==> summary_of(tone, sample_rate)->prf_khz.equals(
            1_000_000_000_000_000,
            tone.modulation->pri_us as int,
        ),
        summary_of(tone, sample_rate)->compression is Some <==> tone.modulation->chirp_mhz > 0,
        tone.modulation->chirp_mhz > 0 ==> summary_of(
            tone,
            sample_rate,
        )->compression->0.equals(
            tone.modulation->chirp_mhz * tone.modulation->pulse_width_us,
            1_000_000,
        ),
{
    products_fit(tone.modulation->chirp_mhz, tone.modulation->pulse_width_us);
}

/// A hop grid spans its steps, one fewer than it has channels; as many dwells as the hop rate says
/// fill a second.
pub proof fn hops_span_their_steps(tone: Tone, sample_rate: int)
    requires
        tone.modulation is FreqHopping,
    ensures
        summary_of(tone, sample_rate) is Hops,
        summary_of(tone, sample_rate)->channels == tone.modulation->num_channels,
        tone.modulation->num_channels >= 1 ==> summary_of(tone, sample_rate)->span_mhz
            == tone.modulation->hop_step_mhz * (tone.modulation->num_channels - 1),
        tone.modulation->num_channels == 0 ==> summary_of(tone, sample_rate)->span_mhz == 0,
        summary_of(tone, sample_rate)->dwell_us.wf(),
        tone.modulation->hop_rate_hz >= 1_000 ==> summary_of(tone, sample_rate)->dwell_us.equals(
            1_000_000_000_000_000_000,
            tone.modulation->hop_rate_hz as int,
        ),
{
    let step = tone.modulation->hop_step_mhz as int;
    let steps = at_least(tone.modulation->num_channels - 1, 0);
    assert(-0x8000_0000_0000_0000int * 0xffff_ffff_ffff_ffff <= step * steps
        <= 0x7fff_ffff_ffff_ffff * 0xffff_ffff_ffff_ffff) by (nonlinear_arith)
        requires
            -0x8000_0000_0000_0000 <= step <= 0x7fff_ffff_ffff_ffff,
            0 <= steps <= 0xffff_ffff_ffff_ffff,
    ;
    assert(steps == 0 ==> step * steps == 0) by (nonlinear_arith);
}

/// Symbols occupy one plus the roll-off times their rate.
pub proof fn symbols_occupy_their_rate_and_roll_off(tone: Tone, sample_rate: int)
    requires
        tone.modulation is DigitalQpsk,
    ensures
        summary_of(tone, sample_rate) is Symbols,
        summary_of(tone, sample_rate)->occupied_mhz.wf(),
        tone.modulation->symbol_rate_msps >= 1_000 && 10_000 <= tone.modulation->rrc_alpha
            <= 1_000_000 ==> summary_of(tone, sample_rate)->occupied_mhz.equals(
            (1_000_000 + tone.modulation->rrc_alpha) * tone.modulation->symbol_rate_msps,
            1_000_000,
        ),
{
    let share = UNIT + clamped(tone.modulation->rrc_alpha as int, 10_000, 1_000_000);
    let rate = at_least(tone.modulation->symbol_rate_msps as int, 1_000);
    assert(0 <= share * rate <= 2_000_000 * 0x7fff_ffff_ffff_ffff) by (nonlinear_arith)
        requires
            0 <= share <= 2_000_000,
            0 <= rate <= 0x7fff_ffff_ffff_ffff,
    ;
}

/// Settings out of range are summed up as the nearest that lies in it: periods of less than a
/// nanosecond as a nanosecond, rates of less than a thousand as a thousand, in the millionths they
/// count, roll-offs as a hundredth or as one.
pub proof fn settings_out_of_range_count_as_the_nearest(
    tone: Tone,
    nearest: Tone,
    sample_rate: int,
)
    requires
        nearest.frequency_mhz == tone.frequency_mhz,
        nearest.bandwidth_mhz == tone.bandwidth_mhz,
        match (tone.modulation, nearest.modulation) {
            (
                ToneModulation::SweptChirp { sweep_period_us, triangular },
                ToneModulation::SweptChirp { sweep_period_us: period, triangular: both_ways },
            ) => sweep_period_us < 1_000 && period == 1_000 && both_ways == triangular,
            (
                ToneModulation::PulsedRadar { pulse_width_us, pri_us, rise_ns, chirp_mhz },
                ToneModulation::PulsedRadar {
                    pulse_width_us: width,
                    pri_us: pri,
                    rise_ns: rise,
                    chirp_mhz: chirp,
                },
            ) => pri_us < 1_000 && pri == 1_000 && width == pulse_width_us && chirp == chirp_mhz,
            (
                ToneModulation::FreqHopping { hop_step_mhz, num_channels, hop_rate_hz },
                ToneModulation::FreqHopping {
                    hop_step_mhz: step,
                    num_channels: channels,
                    hop_rate_hz: rate,
                },
            ) => hop_rate_hz < 1_000 && rate == 1_000 && step == hop_step_mhz && channels
                == num_channels,
            (
                ToneModulation::DigitalQpsk { symbol_rate_msps, rrc_alpha },
                ToneModulation::DigitalQpsk { symbol_rate_msps: rate, rrc_alpha: alpha },
            ) => {
                &&& rate == symbol_rate_msps || symbol_rate_msps < 1_000 && rate == 1_000
                &&& alpha == rrc_alpha || rrc_alpha < 10_000 && alpha == 10_000 || rrc_alpha
                    > 1_000_000 && alpha == 1_000_000
            },
            (
                ToneModulation::AmModulated { depth_percent, mod_freq_khz },
                ToneModulation::AmModulated { depth_percent: depth, mod_freq_khz: rate },
            ) => rate == mod_freq_khz && (depth_percent < 0 && depth == 0 || depth_percent
                > 100_000_000 && depth == 100_000_000),
            _ => false,
        },
    ensures
        summary_of(tone, sample_rate) == summary_of(nearest, sample_rate),
{
}

} // verus!
